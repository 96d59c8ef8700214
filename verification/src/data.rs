pub mod codec;
pub mod help;
pub mod todos;
