//! Wake-on-LAN: hardware addresses, the magic packet that wakes the machine
//! behind one, and what a command-line tool makes of its arguments.

pub mod address;
pub mod command;
pub mod hex;
pub mod packet;
pub mod string_specs;
