//! Channel identifiers: the digest of two account ids, in the order given.
//!
//! The pair is deliberately not put in a canonical order: the channel of
//! `(a, b)` differs in general from that of `(b, a)`, so messages that `a`
//! sends to `b` are read back by asking for `(a, b)`, and a conversation
//! started from each side keeps a log of its own.

use vstd::prelude::*;
use vstd::utf8::encode_utf8;
use crate::host::{keccak256, keccak256_of};

verus! {

/// A channel identifier: a 32-byte Keccak-256 digest.
pub type ChannelId = [u8; 32];

/// The channel of the ordered pair `(a, b)`: the digest of the UTF-8 bytes of
/// `a` followed at once by those of `b`.
pub open spec fn channel_of(a: Seq<char>, b: Seq<char>) -> Seq<u8> {
    keccak256_of(encode_utf8(a) + encode_utf8(b))
}

/// The UTF-8 bytes of `a` followed by those of `b`.
fn concat_bytes(a: &str, b: &str) -> (r: Vec<u8>)
    ensures
        r@ == encode_utf8(a@) + encode_utf8(b@),
{
    let x = a.as_bytes();
    let y = b.as_bytes();
    let mut r: Vec<u8> = Vec::new();
    let mut i: usize = 0;
    while i < x.len()
        invariant
            0 <= i <= x@.len(),
            r@ == x@.subrange(0, i as int),
        decreases x@.len() - i,
    {
        r.push(x[i]);
        i += 1;
    }
    assert(r@ == x@);
    let mut j: usize = 0;
    while j < y.len()
        invariant
            0 <= j <= y@.len(),
            r@ == x@ + y@.subrange(0, j as int),
        decreases y@.len() - j,
    {
        r.push(y[j]);
        proof {
            assert(y@.subrange(0, j + 1) == y@.subrange(0, j as int).push(y@[j as int]));
        }
        j += 1;
    }
    assert(y@.subrange(0, y@.len() as int) == y@);
    r
}

/// The channel identifier of the ordered pair `(a, b)`.
pub fn channel_id(a: &str, b: &str) -> (r: ChannelId)
    ensures
        r@ == channel_of(a@, b@),
{
    let bytes = concat_bytes(a, b);
    keccak256(bytes.as_slice())
}

} // verus!
