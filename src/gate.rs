pub mod job;
pub mod worker;

pub use job::Job;
pub use worker::Worker;
