//! One run of the command-line tool: from its arguments to the packet that
//! it has to send, or to the reason for which it sends none.

use crate::address::{is_written_address, parse_mac, parsed_address, AddressFormatError};
use crate::packet::{build_magic_packet, magic_packet};
use vstd::prelude::*;

verus! {

/// The exit status of a run that sent the packet.
pub const EXIT_SUCCESS: i32 = 0;

/// The exit status of a run that failed, whatever the reason.
pub const EXIT_FAILURE: i32 = 1;

/// Why a run sends no packet.
#[derive(Clone, Copy, Debug, PartialEq, Eq)]
pub enum CommandError {
    /// The tool takes one argument, the address, and was given none or
    /// several.
    Usage,
    /// The argument is no hardware address.
    Address(AddressFormatError),
}

/// What the argument list `args` asks for. The list starts with the name
/// under which the tool was called, so that a proper one has two entries.
pub open spec fn requested_packet(args: Seq<Seq<char>>) -> Result<Seq<u8>, CommandError> {
    if args.len() != 2 {
        Err(CommandError::Usage)
    } else {
        match parsed_address(args[1]) {
            Ok(address) => Ok(magic_packet(address)),
            Err(error) => Err(CommandError::Address(error)),
        }
    }
}

/// The line that tells how `program` is to be called.
pub open spec fn usage_text(program: Seq<char>) -> Seq<char> {
    "usage: "@ + program + " <MAC address>"@
}

impl CommandError {
    /// What is to be written to the error stream, `program` being the name
    /// under which the tool was called.
    pub open spec fn message_text(self, program: Seq<char>) -> Seq<char> {
        match self {
            CommandError::Usage => usage_text(program),
            CommandError::Address(error) => error.message_text(),
        }
    }

    /// The error as a line for the error stream.
    pub fn message(&self, program: &str) -> (text: String)
        ensures
            text@ == self.message_text(program@),
    {
        match *self {
            CommandError::Usage => usage_message(program),
            CommandError::Address(error) => error.message(),
        }
    }
}

/// The usage line for a tool called as `program`.
pub fn usage_message(program: &str) -> (text: String)
    ensures
        text@ == usage_text(program@),
{
    String::from_str("usage: ").concat(program).concat(" <MAC address>")
}

/// Reads the argument list of one run and gives the magic packet to send.
///
/// A list of any other length than two is a usage error, whatever it holds.
/// Otherwise the second entry is parsed as the address, and the packet is
/// the one for that address.
pub fn packet_from_arguments(args: &Vec<String>) -> (result: Result<Vec<u8>, CommandError>)
    ensures
        match result {
            Ok(packet) => requested_packet(args.deep_view()) == Ok::<Seq<u8>, CommandError>(
                packet@,
            ),
            Err(error) => requested_packet(args.deep_view()) == Err::<Seq<u8>, CommandError>(
                error,
            ),
        },
        (result matches Err(CommandError::Usage)) <==> args.len() != 2,
        result is Ok <==> args.len() == 2 && is_written_address(args[1]@),
{
    if args.len() != 2 {
        return Err(CommandError::Usage);
    }
    match parse_mac(args[1].as_str()) {
        Ok(address) => Ok(build_magic_packet(address)),
        Err(error) => Err(CommandError::Address(error)),
    }
}

} // verus!
