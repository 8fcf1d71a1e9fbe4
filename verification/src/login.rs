pub mod clientbound;
pub mod common;
pub mod serverbound;
