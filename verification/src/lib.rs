pub mod animations;
pub mod commands;
pub mod constants;
pub mod map;
pub mod nonblocking;
pub mod strip;
