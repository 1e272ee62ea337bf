//! Fixed-width hash digests with hex parsing and formatting.

use vstd::prelude::*;
use crate::error::{Error, ErrorKind};

verus! {

/// An opaque byte array of statically known width `S`.
#[derive(Debug, Clone, Copy)]
pub struct Digest<const S: usize>(pub [u8; S]);

/// The lowercase hex character of a nibble.
pub open spec fn hex_char_of(n: u8) -> char
    recommends
        n < 16,
{
    if n == 0 {
        '0'
    } else if n == 1 {
        '1'
    } else if n == 2 {
        '2'
    } else if n == 3 {
        '3'
    } else if n == 4 {
        '4'
    } else if n == 5 {
        '5'
    } else if n == 6 {
        '6'
    } else if n == 7 {
        '7'
    } else if n == 8 {
        '8'
    } else if n == 9 {
        '9'
    } else if n == 10 {
        'a'
    } else if n == 11 {
        'b'
    } else if n == 12 {
        'c'
    } else if n == 13 {
        'd'
    } else if n == 14 {
        'e'
    } else {
        'f'
    }
}

/// The canonical lowercase hex rendition of a byte sequence.
pub open spec fn hex_of(bytes: Seq<u8>) -> Seq<char> {
    Seq::new(
        bytes.len() * 2,
        |i: int|
            if i % 2 == 0 {
                hex_char_of(bytes[i / 2] >> 4u8)
            } else {
                hex_char_of(bytes[i / 2] & 0x0fu8)
            },
    )
}

/// Whitespace accepted around a hex string: the Unicode white-space code
/// points, the set a string's `trim` removes — the ASCII range (tab through
/// carriage return, and space) plus the next line, no-break and Ogham space
/// marks, the typographic spaces, the line and paragraph separators, and the
/// narrow no-break, medium mathematical and ideographic spaces.
pub open spec fn is_space(c: char) -> bool {
    ||| (9 <= (c as u32) && (c as u32) <= 13)
    ||| c == ' '
    ||| (c as u32) == 0x85
    ||| (c as u32) == 0xa0
    ||| (c as u32) == 0x1680
    ||| (0x2000 <= (c as u32) && (c as u32) <= 0x200a)
    ||| (c as u32) == 0x2028
    ||| (c as u32) == 0x2029
    ||| (c as u32) == 0x202f
    ||| (c as u32) == 0x205f
    ||| (c as u32) == 0x3000
}

/// Drop leading whitespace.
pub open spec fn trim_front(s: Seq<char>) -> Seq<char>
    decreases s.len(),
{
    if s.len() > 0 && is_space(s[0]) {
        trim_front(s.drop_first())
    } else {
        s
    }
}

/// Drop trailing whitespace.
pub open spec fn trim_back(s: Seq<char>) -> Seq<char>
    decreases s.len(),
{
    if s.len() > 0 && is_space(s.last()) {
        trim_back(s.drop_last())
    } else {
        s
    }
}

/// Drop surrounding whitespace.
pub open spec fn trimmed(s: Seq<char>) -> Seq<char> {
    trim_back(trim_front(s))
}

/// Drop one optional case-insensitive "0x" prefix.
pub open spec fn strip_0x(s: Seq<char>) -> Seq<char> {
    if s.len() >= 2 && s[0] == '0' && (s[1] == 'x' || s[1] == 'X') {
        s.skip(2)
    } else {
        s
    }
}

/// What a hex parser actually reads: the input trimmed and unprefixed.
pub open spec fn canonical_hex_input(s: Seq<char>) -> Seq<char> {
    strip_0x(trimmed(s))
}

/// A hex digit in either case.
pub open spec fn is_hex_digit(c: char) -> bool {
    (('0' as u32) <= (c as u32) && (c as u32) <= ('9' as u32)) || (('a' as u32) <= (c as u32) && (
    c as u32) <= ('f' as u32)) || (('A' as u32) <= (c as u32) && (c as u32) <= ('F' as u32))
}

/// The value of a hex digit, case-insensitive.
pub open spec fn nibble_of(c: char) -> u8
    recommends
        is_hex_digit(c),
{
    if ('0' as u32) <= (c as u32) && (c as u32) <= ('9' as u32) {
        ((c as u32) - 48) as u8
    } else if ('a' as u32) <= (c as u32) && (c as u32) <= ('f' as u32) {
        ((c as u32) - 87) as u8
    } else {
        ((c as u32) - 55) as u8
    }
}

/// Every character is a hex digit.
pub open spec fn all_hex(s: Seq<char>) -> bool {
    forall|i: int| 0 <= i < s.len() ==> is_hex_digit(#[trigger] s[i])
}

/// The bytes encoded by an even-length hex string, big-endian per pair.
pub open spec fn bytes_of_hex(s: Seq<char>) -> Seq<u8>
    recommends
        s.len() % 2 == 0,
{
    Seq::new(s.len() / 2, |i: int| (nibble_of(s[2 * i]) << 4u8) | nibble_of(s[2 * i + 1]))
}

/// The error kind a hex parse of width `n` reports for input `s`.
pub open spec fn hex_error_kind(s: Seq<char>, n: nat) -> ErrorKind {
    let t = canonical_hex_input(s);
    if t.len() < 2 * n {
        ErrorKind::StringTooShort
    } else if t.len() > 2 * n {
        ErrorKind::StringTooLong
    } else {
        ErrorKind::ParseError
    }
}

proof fn lemma_nibble_split(b: u8)
    by (bit_vector)
    ensures
        b >> 4u8 < 16,
        b & 0x0fu8 < 16,
        ((b >> 4u8) << 4u8) | (b & 0x0fu8) == b,
{
}

proof fn lemma_nibble_fits(h: u8, l: u8)
    by (bit_vector)
    requires
        h < 16,
        l < 16,
    ensures
        ((h << 4u8) | l) >> 4u8 == h,
        ((h << 4u8) | l) & 0x0fu8 == l,
{
}

fn is_space_e(c: char) -> (r: bool)
    ensures
        r == is_space(c),
{
    let v: u32 = c as u32;
    (9 <= v && v <= 13) || v == 32 || v == 0x85 || v == 0xa0 || v == 0x1680 || (0x2000 <= v && v
        <= 0x200a) || v == 0x2028 || v == 0x2029 || v == 0x202f || v == 0x205f || v == 0x3000
}

fn nibble_e(c: char) -> (r: Option<u8>)
    ensures
        match r {
            Some(v) => is_hex_digit(c) && v == nibble_of(c),
            None => !is_hex_digit(c),
        },
{
    let v: u32 = c as u32;
    if 48 <= v && v <= 57 {
        Some((v - 48) as u8)
    } else if 97 <= v && v <= 102 {
        Some((v - 87) as u8)
    } else if 65 <= v && v <= 70 {
        Some((v - 55) as u8)
    } else {
        None
    }
}

impl<const S: usize> Digest<S> {
    /// A zero-filled digest.
    pub fn new() -> (r: Self)
        ensures
            r.0@ == Seq::new(S as nat, |i: int| 0u8),
    {
        let r = Digest([0u8; S]);
        proof {
            assert(r.0@ =~= Seq::new(S as nat, |i: int| 0u8));
        }
        r
    }

    /// The width of the digest in bytes.
    pub fn len(&self) -> (r: usize)
        ensures
            r == S,
    {
        S
    }

    /// Copy a digest out of a slice of exactly `S` bytes.
    pub fn from_bytes(bytes: &[u8]) -> (r: Result<Self, Error>)
        ensures
            match r {
                Ok(d) => bytes@.len() == S && d.0@ == bytes@,
                Err(e) => bytes@.len() != S && e.kind == (if bytes@.len() > S {
                    ErrorKind::SliceTooLong
                } else {
                    ErrorKind::SliceTooShort
                }),
            },
    {
        if bytes.len() > S {
            Err(Error::new(ErrorKind::SliceTooLong, "slice is longer than the digest"))
        } else if bytes.len() < S {
            Err(Error::new(ErrorKind::SliceTooShort, "slice is shorter than the digest"))
        } else {
            let mut d = Digest::<S>::new();
            let mut i: usize = 0;
            while i < S
                invariant
                    i <= S,
                    bytes@.len() == S,
                    d.0@.len() == S,
                    forall|m: int| 0 <= m < i ==> d.0@[m] == bytes@[m],
                decreases S - i,
            {
                d.0[i] = bytes[i];
                i += 1;
            }
            proof {
                assert(d.0@ =~= bytes@);
            }
            Ok(d)
        }
    }

    /// The digest bytes as a slice.
    pub fn as_slice(&self) -> (r: &[u8])
        ensures
            r@ == self.0@,
    {
        self.0.as_slice()
    }

    /// The digest bytes as a mutable slice; a hasher's `finish` writes the
    /// digest through such a view.
    pub fn as_mut_slice(&mut self) -> (r: &mut [u8])
        ensures
            r@ == old(self).0@,
            final(self).0@ == final(r)@,
    {
        vstd::array::ref_mut_array_unsizing_coercion(&mut self.0)
    }

    /// Parse a digest from a hex string: surrounding whitespace and one
    /// optional "0x" prefix are accepted, digits in either case; exactly
    /// `2 * S` digits must remain.
    pub fn from_hex(s: &str) -> (r: Result<Self, Error>)
        requires
            2 * S <= usize::MAX,
        ensures
            match r {
                Ok(d) => {
                    let t = canonical_hex_input(s@);
                    &&& t.len() == 2 * S
                    &&& all_hex(t)
                    &&& d.0@ == bytes_of_hex(t)
                },
                Err(e) => {
                    let t = canonical_hex_input(s@);
                    &&& e.kind == hex_error_kind(s@, S as nat)
                    &&& (t.len() == 2 * S ==> !all_hex(t))
                },
            },
    {
        let n = s.unicode_len();
        let mut start: usize = 0;
        proof {
            assert(s@.skip(0) =~= s@);
        }
        while start < n && is_space_e(s.get_char(start))
            invariant
                start <= n,
                n == s@.len(),
                trim_front(s@) == trim_front(s@.skip(start as int)),
            decreases n - start,
        {
            proof {
                assert(s@.skip(start as int).drop_first() =~= s@.skip(start + 1));
            }
            start += 1;
        }
        proof {
            assert(trim_front(s@) == s@.skip(start as int));
        }
        let mut end: usize = n;
        while end > start && is_space_e(s.get_char(end - 1))
            invariant
                start <= end <= n,
                n == s@.len(),
                trim_front(s@) == s@.skip(start as int),
                trim_back(s@.subrange(start as int, n as int)) == trim_back(
                    s@.subrange(start as int, end as int),
                ),
            decreases end,
        {
            proof {
                assert(s@.subrange(start as int, end as int).drop_last() =~= s@.subrange(
                    start as int,
                    end - 1,
                ));
            }
            end -= 1;
        }
        proof {
            assert(s@.skip(start as int) =~= s@.subrange(start as int, n as int));
            assert(trim_back(s@.subrange(start as int, end as int)) == s@.subrange(
                start as int,
                end as int,
            ));
            assert(trimmed(s@) == s@.subrange(start as int, end as int));
        }
        if end - start >= 2 && s.get_char(start) == '0' && {
            let c1 = s.get_char(start + 1);
            c1 == 'x' || c1 == 'X'
        } {
            start += 2;
        }
        proof {
            assert(canonical_hex_input(s@) =~= s@.subrange(start as int, end as int));
        }
        let len = end - start;
        if len < 2 * S {
            Err(Error::new(ErrorKind::StringTooShort, "hex string is too short"))
        } else if len > 2 * S {
            Err(Error::new(ErrorKind::StringTooLong, "hex string is too long"))
        } else {
            let ghost t = s@.subrange(start as int, end as int);
            let mut d = Digest::<S>::new();
            let mut i: usize = 0;
            while i < S
                invariant
                    i <= S,
                    n == s@.len(),
                    start + 2 * S == end <= n,
                    t == s@.subrange(start as int, end as int),
                    canonical_hex_input(s@) == t,
                    d.0@.len() == S,
                    forall|k: int| 0 <= k < 2 * i ==> is_hex_digit(#[trigger] t[k]),
                    forall|m: int| 0 <= m < i ==> d.0@[m] == bytes_of_hex(t)[m],
                decreases S - i,
            {
                let hc = s.get_char(start + 2 * i);
                let lc = s.get_char(start + 2 * i + 1);
                proof {
                    assert(t[2 * i as int] == s@[start + 2 * i]);
                    assert(t[2 * i as int + 1] == s@[start + 2 * i + 1]);
                }
                let h = match nibble_e(hc) {
                    Some(v) => v,
                    None => {
                        proof {
                            assert(!is_hex_digit(t[2 * (i as int)]));
                        }
                        return Err(Error::new(ErrorKind::ParseError, "not a hex digit"));
                    },
                };
                let l = match nibble_e(lc) {
                    Some(v) => v,
                    None => {
                        proof {
                            assert(!is_hex_digit(t[2 * (i as int) + 1]));
                        }
                        return Err(Error::new(ErrorKind::ParseError, "not a hex digit"));
                    },
                };
                d.0[i] = (h << 4u8) | l;
                i += 1;
            }
            proof {
                assert(d.0@ =~= bytes_of_hex(t));
            }
            Ok(d)
        }
    }

    /// The canonical hex rendition: exactly `2 * S` lowercase hex characters,
    /// no prefix, no separator.
    pub fn to_hex(&self) -> (r: String)
        ensures
            r@ == hex_of(self.0@),
            r@.len() == 2 * S,
    {
        let mut out = String::new();
        let mut i: usize = 0;
        while i < S
            invariant
                i <= S,
                out@ =~= hex_of(self.0@.take(i as int)),
            decreases S - i,
        {
            let b = self.0[i];
            proof {
                lemma_nibble_split(b);
            }
            let hs = nibble_str(b >> 4u8);
            let ls = nibble_str(b & 0x0fu8);
            out.append(hs);
            out.append(ls);
            i += 1;
            proof {
                assert(out@ =~= hex_of(self.0@.take(i as int)));
            }
        }
        proof {
            assert(self.0@.take(S as int) =~= self.0@);
        }
        out
    }
}

/// The one-character string of a nibble's lowercase hex digit.
fn nibble_str(n: u8) -> (r: &'static str)
    requires
        n < 16,
    ensures
        r@ == seq![hex_char_of(n)],
{
    proof {
        reveal_strlit("0");
        reveal_strlit("1");
        reveal_strlit("2");
        reveal_strlit("3");
        reveal_strlit("4");
        reveal_strlit("5");
        reveal_strlit("6");
        reveal_strlit("7");
        reveal_strlit("8");
        reveal_strlit("9");
        reveal_strlit("a");
        reveal_strlit("b");
        reveal_strlit("c");
        reveal_strlit("d");
        reveal_strlit("e");
        reveal_strlit("f");
    }
    let r: &'static str = if n == 0 {
        "0"
    } else if n == 1 {
        "1"
    } else if n == 2 {
        "2"
    } else if n == 3 {
        "3"
    } else if n == 4 {
        "4"
    } else if n == 5 {
        "5"
    } else if n == 6 {
        "6"
    } else if n == 7 {
        "7"
    } else if n == 8 {
        "8"
    } else if n == 9 {
        "9"
    } else if n == 10 {
        "a"
    } else if n == 11 {
        "b"
    } else if n == 12 {
        "c"
    } else if n == 13 {
        "d"
    } else if n == 14 {
        "e"
    } else {
        "f"
    };
    proof {
        assert(r@ =~= seq![hex_char_of(n)]);
    }
    r
}

impl<const S: usize> core::str::FromStr for Digest<S> {
    type Err = Error;

    /// Parse exactly as `from_hex` does, under the same contract.
    fn from_str(s: &str) -> (r: core::result::Result<Self, Error>)
        requires
            2 * S <= usize::MAX,
        ensures
            match r {
                Ok(d) => {
                    let t = canonical_hex_input(s@);
                    &&& t.len() == 2 * S
                    &&& all_hex(t)
                    &&& d.0@ == bytes_of_hex(t)
                },
                Err(e) => {
                    let t = canonical_hex_input(s@);
                    &&& e.kind == hex_error_kind(s@, S as nat)
                    &&& (t.len() == 2 * S ==> !all_hex(t))
                },
            },
    {
        Digest::from_hex(s)
    }
}

impl<const S: usize> PartialEq for Digest<S> {
    /// Value equality over the digest bytes.
    fn eq(&self, other: &Self) -> (r: bool) {
        let mut i: usize = 0;
        while i < S
            invariant
                i <= S,
                forall|m: int| 0 <= m < i ==> self.0@[m] == other.0@[m],
            decreases S - i,
        {
            if self.0[i] != other.0[i] {
                proof {
                    assert(self.0@ != other.0@);
                }
                return false;
            }
            i += 1;
        }
        proof {
            assert(self.0@ =~= other.0@);
        }
        true
    }
}

impl<const S: usize> vstd::std_specs::cmp::PartialEqSpecImpl for Digest<S> {
    open spec fn obeys_eq_spec() -> bool {
        true
    }

    open spec fn eq_spec(&self, other: &Self) -> bool {
        self.0@ == other.0@
    }
}

impl<const S: usize> Default for Digest<S> {
    /// Zero-filled, as `new` returns.
    fn default() -> (r: Self)
        ensures
            r.0@ == Seq::new(S as nat, |i: int| 0u8),
    {
        Digest::new()
    }
}

/// Parsing the canonical hex rendition of any byte sequence recovers exactly
/// those bytes, and the rendition itself needs no trimming or unprefixing.
pub proof fn lemma_hex_round_trip(bytes: Seq<u8>)
    ensures
        canonical_hex_input(hex_of(bytes)) == hex_of(bytes),
        all_hex(hex_of(bytes)),
        hex_of(bytes).len() == 2 * bytes.len(),
        bytes_of_hex(hex_of(bytes)) == bytes,
{
    let h = hex_of(bytes);
    assert forall|i: int| 0 <= i < h.len() implies is_hex_digit(#[trigger] h[i]) && !is_space(h[i])
        && h[i] != 'x' && h[i] != 'X' by {
        let b = bytes[i / 2];
        lemma_nibble_split(b);
    }
    assert(trim_front(h) == h);
    assert(trim_back(h) == h);
    assert(strip_0x(h) == h);
    assert forall|i: int| 0 <= i < bytes.len() implies bytes_of_hex(h)[i] == bytes[i] by {
        let b = bytes[i];
        lemma_nibble_split(b);
        assert(h[2 * i] == hex_char_of(b >> 4u8));
        assert(h[2 * i + 1] == hex_char_of(b & 0x0fu8));
        assert(nibble_of(hex_char_of(b >> 4u8)) == b >> 4u8);
        assert(nibble_of(hex_char_of(b & 0x0fu8)) == b & 0x0fu8);
    }
    assert(bytes_of_hex(h) =~= bytes);
}

} // verus!
