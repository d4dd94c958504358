pub mod chunks;
pub mod entities;
pub mod memories;
