pub mod gate;
pub mod map;
pub mod model;
pub mod net;
pub mod reason;
pub mod schedule;
