//! A client engine for a JSON command/reply gateway reached over one
//! persistent socket: a wire codec, a transaction registry that correlates
//! replies to requests by token, a connection state machine with reconnect
//! backoff, and a dispatcher that turns logical requests into frames.

pub mod codec;
pub mod engine;
pub mod registry;
pub mod roundtrip;

use vstd::prelude::*;

verus! {

/// A byte is plain when it is printable ASCII and needs no escaping inside a
/// JSON string: not a quote, not a backslash, not a control character.
pub open spec fn plain_byte(b: u8) -> bool {
    0x20 <= b <= 0x7e && b != 0x22 && b != 0x5c
}

/// A byte string that can stand verbatim between quotes in a frame.
pub open spec fn plain(s: Seq<u8>) -> bool {
    forall|i: int| 0 <= i < s.len() ==> plain_byte(s[i])
}

/// Checks that every byte of `s` may stand unescaped inside a quoted string.
pub fn is_plain(s: &Vec<u8>) -> (r: bool)
    ensures
        r == plain(s@),
{
    let mut i: usize = 0;
    while i < s.len()
        invariant
            0 <= i <= s@.len(),
            forall|j: int| 0 <= j < i ==> plain_byte(s@[j]),
        decreases s@.len() - i,
    {
        let b = s[i];
        if !(0x20 <= b && b <= 0x7e && b != 0x22 && b != 0x5c) {
            assert(!plain_byte(s@[i as int]));
            return false;
        }
        i += 1;
    }
    true
}

} // verus!
