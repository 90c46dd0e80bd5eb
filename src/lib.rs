pub mod close_code;
pub mod frame;
pub mod opcode;
pub mod header;
pub mod config;
