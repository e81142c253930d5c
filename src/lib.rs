pub mod config;
pub mod data;
pub mod display;
pub mod lifecycle;
pub mod stamp;
pub mod terror;
pub mod text;
pub mod time;
