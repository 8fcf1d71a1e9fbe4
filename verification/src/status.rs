pub mod clientbound;
pub mod serverbound;
