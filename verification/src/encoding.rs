//! Byte-string codecs and the IRC case-insensitivity rules.
//!
//! Identifier equality on IRC is case-insensitive under the `rfc1459`
//! casemap over bytes: `A`-`Z` (0x41-0x5A) and `[\]` (0x5B-0x5D) lower-case
//! to `a`-`z` and `{|}` (0x7B-0x7D). Text entering or leaving the network
//! is decoded and encoded as UTF-8, lossily on the way in.

use vstd::prelude::*;
use vstd::string::StrSliceExecFns;
use vstd::utf8::{decode_utf8, encode_utf8, valid_utf8};

verus! {

/// The `rfc1459` lower-casing of one byte.
pub open spec fn lower_byte(b: u8) -> u8 {
    if 0x41 <= b && b <= 0x5d {
        (b + 0x20) as u8
    } else {
        b
    }
}

/// The `rfc1459` lower-casing of a byte string.
pub open spec fn lower_seq(s: Seq<u8>) -> Seq<u8> {
    s.map_values(|b: u8| lower_byte(b))
}

/// What `String::from_utf8_lossy` returns on the given bytes: a fixed
/// function of the bytes alone, too intricate to restate here.
pub uninterp spec fn lossy_decode(bytes: Seq<u8>) -> Seq<char>;

/// One byte-string codec; the default (and only) concrete codec is UTF-8,
/// lossy when decoding.
pub struct Encoding;

impl Encoding {
    pub fn new() -> (r: Encoding) {
        Encoding
    }

    /// Encode text for the wire: the UTF-8 bytes of the string.
    pub fn encode(&self, string: &String) -> (r: Vec<u8>)
        ensures
            r@ == encode_utf8(string@),
    {
        string.as_str().as_bytes_vec()
    }

    /// Decode bytes from the wire, replacing invalid UTF-8 sequences.
    ///
    /// Relies on `String::from_utf8_lossy`: its result is a function of the
    /// bytes alone, and leaves valid UTF-8 intact.
    #[verifier::external_body]
    pub fn decode(&self, string: &[u8]) -> (r: String)
        ensures
            r@ == lossy_decode(string@),
            valid_utf8(string@) ==> r@ == decode_utf8(string@),
    {
        String::from_utf8_lossy(string).into_owned()
    }
}

/// Byte strings compared under the IRC casemap.
pub trait IrcEncoding: View<V = Seq<u8>> + Sized {
    /// The `rfc1459` lower-casing of this byte string.
    fn irc_lowercase(&self) -> (r: Self)
        ensures
            r@ == lower_seq(self@),
    ;

    /// Case-insensitive equality under the `rfc1459` casemap: true exactly
    /// when the lower-casings agree byte for byte.
    fn irc_equal(&self, other: &Self) -> (r: bool)
        ensures
            r == (lower_seq(self@) == lower_seq(other@)),
    ;
}

/// The `rfc1459` lower-casing of one byte.
pub fn irc_lower_byte(b: u8) -> (r: u8)
    ensures
        r == lower_byte(b),
{
    if 0x41 <= b && b <= 0x5d {
        b + 0x20
    } else {
        b
    }
}

/// The `rfc1459` lower-casing of a byte slice.
pub fn irc_lower_bytes(s: &[u8]) -> (r: Vec<u8>)
    ensures
        r@ == lower_seq(s@),
{
    let mut out: Vec<u8> = Vec::new();
    let n = s.len();
    let mut i: usize = 0;
    while i < n
        invariant
            n == s@.len(),
            i <= n,
            out@ == lower_seq(s@.take(i as int)),
        decreases n - i,
    {
        out.push(irc_lower_byte(s[i]));
        proof {
            assert(s@.take(i + 1 as int).drop_last() =~= s@.take(i as int));
            assert(out@ =~= lower_seq(s@.take(i + 1 as int)));
        }
        i = i + 1;
    }
    proof {
        assert(s@.take(n as int) =~= s@);
    }
    out
}

/// Case-insensitive equality of two byte slices under the `rfc1459`
/// casemap.
pub fn irc_eq_bytes(a: &[u8], b: &[u8]) -> (r: bool)
    ensures
        r == (lower_seq(a@) == lower_seq(b@)),
{
    let n = a.len();
    if n != b.len() {
        proof {
            assert(lower_seq(a@).len() != lower_seq(b@).len());
        }
        return false;
    }
    let mut i: usize = 0;
    while i < n
        invariant
            n == a@.len() && n == b@.len(),
            i <= n,
            forall|j: int| 0 <= j < i ==> lower_byte(a@[j]) == lower_byte(b@[j]),
        decreases n - i,
    {
        if irc_lower_byte(a[i]) != irc_lower_byte(b[i]) {
            proof {
                assert(lower_seq(a@)[i as int] != lower_seq(b@)[i as int]);
            }
            return false;
        }
        i = i + 1;
    }
    proof {
        assert(lower_seq(a@) =~= lower_seq(b@));
    }
    true
}

impl IrcEncoding for Vec<u8> {
    fn irc_lowercase(&self) -> (r: Vec<u8>) {
        irc_lower_bytes(self.as_slice())
    }

    fn irc_equal(&self, other: &Vec<u8>) -> (r: bool) {
        irc_eq_bytes(self.as_slice(), other.as_slice())
    }
}

} // verus!
