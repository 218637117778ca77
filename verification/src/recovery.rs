pub mod crypto_stream;
pub mod rcvd;
pub mod sent;
pub mod stream_buf;
