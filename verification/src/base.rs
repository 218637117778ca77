pub mod ack;
pub mod addr;
pub mod buffer;
pub mod bytes;
pub mod cid;
pub mod error;
pub mod ordered;
pub mod packet_number;
pub mod signals;
pub mod sorted;
pub mod table;
pub mod text;
pub mod varint;
