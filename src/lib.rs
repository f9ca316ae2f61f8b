pub mod block;
pub mod classify;
pub mod codec;
pub mod interest;
pub mod spindle;
pub mod commands;
