pub mod admissibility;
pub mod handy;
pub mod local_endpoint;
pub mod location;
pub mod route;
pub mod subscribers;
