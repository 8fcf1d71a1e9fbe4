pub mod common;
pub mod serverbound;
