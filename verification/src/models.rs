pub mod help;
pub mod todo;
