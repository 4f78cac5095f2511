pub mod bytes;
pub mod incoming;
pub mod outgoing;
pub mod writer;
pub mod reader;
