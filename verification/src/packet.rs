//! The magic packet: six bytes of `0xFF`, then the hardware address of the
//! machine to wake, sixteen times over.

use crate::address::{HardwareAddress, ADDRESS_LEN};
use vstd::arithmetic::div_mod::lemma_fundamental_div_mod_converse;
use vstd::prelude::*;

verus! {

/// The number of `0xFF` bytes that open a magic packet.
pub const SYNC_LEN: usize = 6;

/// How many times a magic packet holds the address.
pub const REPETITIONS: usize = 16;

/// The length of a magic packet in bytes.
pub const PACKET_LEN: usize = 102;

/// The UDP port that the packet is sent to. Wake-on-LAN tools use port 7 or
/// port 9 by convention; this one uses 7.
pub const DESTINATION_PORT: u16 = 7;

/// The IPv4 address that the packet is sent to: every host of the local
/// network.
pub const BROADCAST_ADDRESS: [u8; 4] = [255, 255, 255, 255];

/// The opening of every magic packet: `SYNC_LEN` bytes of `0xFF`.
pub open spec fn sync_stream() -> Seq<u8> {
    Seq::new(SYNC_LEN as nat, |i: int| 0xFFu8)
}

/// `block` written `count` times in a row.
pub open spec fn repeated(block: Seq<u8>, count: nat) -> Seq<u8>
    decreases count,
{
    if count == 0 {
        Seq::empty()
    } else {
        repeated(block, (count - 1) as nat) + block
    }
}

/// Which byte of the address stands at index `i` of a magic packet, for an
/// index behind the sync stream.
pub open spec fn place_in_address(i: int) -> int {
    (i - SYNC_LEN) % ADDRESS_LEN as int
}

/// The magic packet for `address`: the sync stream, then the address
/// `REPETITIONS` times.
pub open spec fn magic_packet(address: Seq<u8>) -> Seq<u8> {
    sync_stream() + repeated(address, REPETITIONS as nat)
}

/// Builds the magic packet that wakes the machine with the hardware address
/// `mac`.
pub fn build_magic_packet(mac: HardwareAddress) -> (packet: Vec<u8>)
    ensures
        packet@ == magic_packet(mac@),
        packet@.len() == PACKET_LEN,
        forall|i: int| 0 <= i < SYNC_LEN ==> packet@[i] == 0xFF,
        forall|i: int|
            SYNC_LEN <= i < PACKET_LEN ==> packet@[i] == mac@[place_in_address(i)],
{
    let mut packet: Vec<u8> = vec![0xFF; SYNC_LEN];
    assert(packet@ =~= sync_stream());
    for round in 0..REPETITIONS
        invariant
            packet@ == sync_stream() + repeated(mac@, round as nat),
            packet@.len() == SYNC_LEN + round * ADDRESS_LEN,
    {
        packet.extend_from_slice(&mac);
        assert(packet@ =~= sync_stream() + repeated(mac@, (round + 1) as nat));
    }
    proof {
        lemma_magic_packet_layout(mac@);
    }
    packet
}

/// `count` copies of a block are `count` times as long as the block, and
/// hold the block's bytes over and over.
pub proof fn lemma_repeated(block: Seq<u8>, count: nat)
    ensures
        repeated(block, count).len() == count * block.len(),
        forall|i: int|
            0 <= i < count * block.len() ==> #[trigger] repeated(block, count)[i]
                == block[i % block.len() as int],
    decreases count,
{
    let len = block.len() as int;
    if count > 0 {
        let before = repeated(block, (count - 1) as nat);
        lemma_repeated(block, (count - 1) as nat);
        assert((count - 1) * len + len == count * len) by (nonlinear_arith);
        assert forall|i: int| 0 <= i < count * len implies #[trigger] repeated(block, count)[i]
            == block[i % len] by {
            if i >= before.len() {
                lemma_fundamental_div_mod_converse(i, len, count - 1, i - before.len());
            }
        }
    } else {
        assert(0 * len == 0);
    }
}

/// Copy number `round` within `count` copies of a block is the block.
pub proof fn lemma_repeated_round(block: Seq<u8>, count: nat, round: int)
    requires
        0 <= round < count,
    ensures
        (round + 1) * block.len() <= repeated(block, count).len(),
        repeated(block, count).subrange(round * block.len(), (round + 1) * block.len()) == block,
{
    let len = block.len() as int;
    let whole = repeated(block, count);
    lemma_repeated(block, count);
    assert(0 <= round * len && (round + 1) * len <= count * len && (round + 1) * len == round
        * len + len) by (nonlinear_arith)
        requires
            0 <= round < count,
            0 <= len,
    ;
    assert forall|i: int| 0 <= i < len implies whole[round * len + i] == block[i] by {
        lemma_fundamental_div_mod_converse(round * len + i, len, round, i);
    }
    assert(whole.subrange(round * len, (round + 1) * len) =~= block);
}

/// The layout of a magic packet: it is `PACKET_LEN` bytes long, its first
/// `SYNC_LEN` bytes are `0xFF`, and the rest is the address written
/// `REPETITIONS` times, so that each of its bytes is the byte of the address
/// at the same place within the copy.
pub proof fn lemma_magic_packet_layout(address: Seq<u8>)
    requires
        address.len() == ADDRESS_LEN,
    ensures
        magic_packet(address).len() == PACKET_LEN,
        magic_packet(address).subrange(0, SYNC_LEN as int) == sync_stream(),
        magic_packet(address).subrange(SYNC_LEN as int, PACKET_LEN as int) == repeated(
            address,
            REPETITIONS as nat,
        ),
        forall|i: int| 0 <= i < SYNC_LEN ==> magic_packet(address)[i] == 0xFF,
        forall|i: int|
            SYNC_LEN <= i < PACKET_LEN ==> magic_packet(address)[i] == address[place_in_address(
                i,
            )],
{
    let body = repeated(address, REPETITIONS as nat);
    let packet = magic_packet(address);
    lemma_repeated(address, REPETITIONS as nat);
    assert(packet.subrange(0, SYNC_LEN as int) =~= sync_stream());
    assert(packet.subrange(SYNC_LEN as int, PACKET_LEN as int) =~= body);
    assert forall|i: int| SYNC_LEN <= i < PACKET_LEN implies packet[i]
        == address[place_in_address(i)] by {
        assert(packet[i] == body[i - SYNC_LEN]);
    }
}

/// Copy number `round` of the address stands in the packet as the six bytes
/// from `SYNC_LEN + round * ADDRESS_LEN` on.
pub proof fn lemma_magic_packet_round(address: Seq<u8>, round: int)
    requires
        address.len() == ADDRESS_LEN,
        0 <= round < REPETITIONS,
    ensures
        magic_packet(address).subrange(
            SYNC_LEN + round * ADDRESS_LEN,
            SYNC_LEN + (round + 1) * ADDRESS_LEN,
        ) == address,
{
    let body = repeated(address, REPETITIONS as nat);
    lemma_repeated_round(address, REPETITIONS as nat, round);
    lemma_magic_packet_layout(address);
    assert(magic_packet(address).subrange(
        SYNC_LEN + round * ADDRESS_LEN,
        SYNC_LEN + (round + 1) * ADDRESS_LEN,
    ) =~= body.subrange(round * ADDRESS_LEN, (round + 1) * ADDRESS_LEN));
}

/// The packet tells the address: the same address gives the same packet,
/// and two addresses that differ give packets that differ.
pub proof fn lemma_magic_packet_identifies_address(first: Seq<u8>, second: Seq<u8>)
    requires
        first.len() == ADDRESS_LEN,
        second.len() == ADDRESS_LEN,
    ensures
        magic_packet(first) == magic_packet(second) <==> first == second,
{
    lemma_magic_packet_round(first, 0);
    lemma_magic_packet_round(second, 0);
}

} // verus!
