pub mod cli;
pub mod dates;
pub mod error;
pub mod store;
pub mod task;
pub mod text;
