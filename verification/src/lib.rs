pub mod chord;
pub mod input;
pub mod keyspace;
pub mod laws;
pub mod session;
