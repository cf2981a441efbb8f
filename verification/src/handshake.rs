//! The fixed marker that opens every stream, and the test a responder makes on it.

use vstd::prelude::*;

verus! {

/// Number of bytes in the marker.
pub const HANDSHAKE_LEN: usize = 5;

/// The marker as a sequence of bytes: the ASCII letters of "hello".
pub open spec fn handshake_marker() -> Seq<u8> {
    seq![104u8, 101u8, 108u8, 108u8, 111u8]
}

/// The marker that an initiator writes first on a fresh stream.
pub fn handshake() -> (marker: [u8; 5])
    ensures
        marker@ == handshake_marker(),
{
    let marker: [u8; 5] = [104u8, 101u8, 108u8, 108u8, 111u8];
    assert(marker@ =~= handshake_marker());
    marker
}

/// Whether the bytes a responder read are the marker, byte for byte and in
/// full length.
pub fn verify_handshake(received: &[u8]) -> (accepted: bool)
    ensures
        accepted == (received@ == handshake_marker()),
{
    let expected = handshake();
    if received.len() != HANDSHAKE_LEN {
        return false;
    }
    let mut i: usize = 0;
    while i < HANDSHAKE_LEN
        invariant
            i <= HANDSHAKE_LEN,
            received@.len() == HANDSHAKE_LEN,
            expected@ == handshake_marker(),
            forall|j: int| 0 <= j < i ==> received@[j] == handshake_marker()[j],
        decreases HANDSHAKE_LEN - i,
    {
        if received[i] != expected[i] {
            return false;
        }
        i += 1;
    }
    assert(received@ =~= handshake_marker());
    true
}

} // verus!
