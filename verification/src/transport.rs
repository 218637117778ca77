pub mod acknowledgement;
pub mod assembly;
pub mod bursts;
pub mod channel;
pub mod connection;
pub mod conservation;
pub mod constraints;
pub mod control;
pub mod frames;
pub mod generations;
pub mod history;
pub mod keys;
pub mod packet;
pub mod path;
pub mod promises;
pub mod protection;
pub mod receive;
pub mod records;
pub mod router;
pub mod sealing;
pub mod sender;
pub mod space;
pub mod submission;
