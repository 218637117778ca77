pub mod address;
pub mod datagram;
pub mod dock;
pub mod forward;
pub mod socket;
pub mod stun;
pub mod topology;
