pub mod actor;
pub mod job;
pub mod object;
pub mod tile;
pub mod worker;

pub use actor::Actor;
pub use job::Job;
pub use object::Object;
pub use tile::Tile;
pub use worker::Worker;
