pub mod authority;
pub mod backend;
pub mod certificates;
pub mod error;
pub mod handshake;
pub mod incoming;
pub mod ocsp;
pub mod root;
