//! The identifier value type and its byte and text codecs.

use crate::b64::b64_chars_of;
use crate::b64::b64_decode;
use crate::b64::b64_decoded_of;
use crate::b64::b64_encode;
use crate::dec::dec_chars;
use crate::dec::lemma_dec_chars_parse;
use crate::dec::parse_u8;
use crate::dec::parse_u8_spec;
use crate::dec::push_decimal;
use vstd::bytes::*;
use vstd::prelude::*;
use vstd::string::*;

verus! {

/// Why decoding an identifier failed.
#[derive(Debug)]
pub enum ParseIdError {
    /// The first segment of a text token is missing, is not valid base64,
    /// or does not decode to exactly 16 bytes.
    NoBaseFound,
    /// The second segment of a text token is missing or is not the decimal
    /// form of an 8-bit counter.
    NoCounterFound,
    /// A byte encoding is not exactly 17 bytes long.
    WrongByteSize,
}

/// An immutable identifier: a 128-bit random base paired with the 8-bit
/// counter value at the time of capture. The two fields together are the
/// whole identity: two identifiers are equal iff both fields are equal.
#[derive(PartialEq, Eq, Structural, Debug, Clone, Copy, Hash)]
pub struct Id {
    /// The random 128-bit base of the window this identifier was drawn from.
    pub base: u128,
    /// The position within the window, 0 to 255.
    pub counter: u8,
}

/// The base of an identifier as 16 bytes in big-endian order.
pub open spec fn be_bytes_of_u128(x: u128) -> Seq<u8> {
    spec_u128_to_le_bytes(x).reverse()
}

/// The 128-bit value that 16 big-endian bytes stand for.
pub open spec fn u128_of_be_bytes(s: Seq<u8>) -> u128 {
    spec_u128_from_le_bytes(s.reverse())
}

/// The 17-byte encoding of an identifier: the base in big-endian order,
/// then the counter.
pub open spec fn id_bytes(id: Id) -> Seq<u8> {
    be_bytes_of_u128(id.base).push(id.counter)
}

/// What decoding a byte sequence yields: the identifier whose encoding it
/// is when it is exactly 17 bytes long, and `WrongByteSize` otherwise.
pub open spec fn id_of_bytes(s: Seq<u8>) -> Result<Id, ParseIdError> {
    if s.len() != 17 {
        Err(ParseIdError::WrongByteSize)
    } else {
        Ok(Id { base: u128_of_be_bytes(s.take(16)), counter: s[16] })
    }
}

impl Id {
    /// Serialise this identifier as 17 bytes: the base as 16 big-endian
    /// bytes, followed by the counter.
    pub fn into_bytes(self) -> (r: Vec<u8>)
        ensures
            r@ == id_bytes(self),
            r@.len() == 17,
    {
        let le: Vec<u8> = u128_to_le_bytes(self.base);
        let mut r: Vec<u8> = Vec::new();
        let mut i: usize = 16;
        while i > 0
            invariant
                le@ == spec_u128_to_le_bytes(self.base),
                le@.len() == 16,
                i <= 16,
                r@.len() == 16 - i,
                forall|j: int| 0 <= j < r@.len() ==> r@[j] == le@[15 - j],
            decreases i,
        {
            i = i - 1;
            let b = le[i];
            r.push(b);
        }
        assert(r@ =~= be_bytes_of_u128(self.base));
        r.push(self.counter);
        assert(r@ =~= id_bytes(self));
        r
    }

    /// Rebuild an identifier from its 17-byte encoding. Inputs of any other
    /// length are rejected with `WrongByteSize`.
    pub fn from_bytes(bytes: Vec<u8>) -> (r: Result<Id, ParseIdError>)
        ensures
            r == id_of_bytes(bytes@),
    {
        if bytes.len() != 17 {
            return Err(ParseIdError::WrongByteSize);
        }
        let counter = bytes[16];
        let mut rev: Vec<u8> = Vec::new();
        let mut i: usize = 16;
        while i > 0
            invariant
                bytes@.len() == 17,
                i <= 16,
                rev@.len() == 16 - i,
                forall|j: int| 0 <= j < rev@.len() ==> rev@[j] == bytes@[15 - j],
            decreases i,
        {
            i = i - 1;
            let b = bytes[i];
            rev.push(b);
        }
        assert(rev@ =~= bytes@.take(16).reverse());
        let base = u128_from_le_bytes(rev.as_slice());
        Ok(Id { base, counter })
    }
}

/// The position of the first `.` in a text, or -1 when there is none.
pub open spec fn dot_index(s: Seq<char>) -> int
    decreases s.len(),
{
    if s.len() == 0 {
        -1
    } else if s[0] == '.' {
        0
    } else if dot_index(s.drop_first()) < 0 {
        -1
    } else {
        dot_index(s.drop_first()) + 1
    }
}

/// The URL-safe text token of an identifier: the unpadded URL-safe base64
/// of the base's 16 little-endian bytes, a `.` separator, and the decimal
/// counter.
pub open spec fn url_chars(id: Id) -> Seq<char> {
    b64_chars_of(spec_u128_to_le_bytes(id.base)) + seq!['.'] + dec_chars(id.counter as int)
}

/// What decoding a text token yields. The part before the first `.` (or
/// the whole text when there is no `.`) must base64-decode to exactly 16
/// little-endian base bytes, else `NoBaseFound`; only then must a second
/// segment exist and parse as a decimal 8-bit counter, else
/// `NoCounterFound`.
pub open spec fn url_parse(s: Seq<char>) -> Result<Id, ParseIdError> {
    let p = dot_index(s);
    let seg1 = if p < 0 {
        s
    } else {
        s.take(p)
    };
    match b64_decoded_of(seg1) {
        Option::None => Err(ParseIdError::NoBaseFound),
        Option::Some(v) => if v.len() != 16 {
            Err(ParseIdError::NoBaseFound)
        } else if p < 0 {
            Err(ParseIdError::NoCounterFound)
        } else {
            match parse_u8_spec(s.skip(p + 1)) {
                Option::None => Err(ParseIdError::NoCounterFound),
                Option::Some(c) => Ok(Id { base: spec_u128_from_le_bytes(v), counter: c }),
            }
        },
    }
}

/// A text without any `.` has no first `.`.
proof fn lemma_dot_index_none(s: Seq<char>)
    requires
        forall|j: int| 0 <= j < s.len() ==> s[j] != '.',
    ensures
        dot_index(s) == -1,
    decreases s.len(),
{
    if s.len() > 0 {
        let t = s.drop_first();
        assert forall|j: int| 0 <= j < t.len() implies t[j] != '.' by {
            assert(t[j] == s[j + 1]);
        }
        lemma_dot_index_none(t);
    }
}

/// A `.` with no `.` before it is the first `.`.
proof fn lemma_dot_index_at(s: Seq<char>, k: int)
    requires
        0 <= k < s.len(),
        s[k] == '.',
        forall|j: int| 0 <= j < k ==> s[j] != '.',
    ensures
        dot_index(s) == k,
    decreases k,
{
    if k > 0 {
        let t = s.drop_first();
        assert(t[k - 1] == s[k]);
        assert forall|j: int| 0 <= j < k - 1 implies t[j] != '.' by {
            assert(t[j] == s[j + 1]);
        }
        lemma_dot_index_at(t, k - 1);
    }
}

/// A token built from base64 text without a `.`, the separator, and the
/// decimal counter parses back to the identifier it encodes.
proof fn lemma_url_parse_token(id: Id, enc: Seq<char>)
    requires
        b64_decoded_of(enc) == Some(spec_u128_to_le_bytes(id.base)),
        forall|i: int| 0 <= i < enc.len() ==> enc[i] != '.',
    ensures
        url_parse(enc + seq!['.'] + dec_chars(id.counter as int)) == Result::<
            Id,
            ParseIdError,
        >::Ok(id),
{
    let tail = dec_chars(id.counter as int);
    let t = enc + seq!['.'] + tail;
    let k = enc.len() as int;
    lemma_dec_chars_parse(id.counter as int);
    assert(t[k] == '.');
    assert forall|j: int| 0 <= j < k implies t[j] != '.' by {
        assert(t[j] == enc[j]);
    }
    lemma_dot_index_at(t, k);
    assert(t.take(k) =~= enc);
    assert(t.skip(k + 1) =~= tail);
    lemma_auto_spec_u128_to_from_le_bytes();
    assert(spec_u128_to_le_bytes(id.base).len() == 16);
    assert(parse_u8_spec(tail) == Some(id.counter));
}

impl Id {
    /// Serialise this identifier as a URL-safe text token, as `url_chars`
    /// describes. The token decodes back to this identifier.
    pub fn to_url_safe(&self) -> (r: String)
        ensures
            r@ == url_chars(*self),
            url_parse(r@) == Result::<Id, ParseIdError>::Ok(*self),
    {
        let le: Vec<u8> = u128_to_le_bytes(self.base);
        let mut out: String = b64_encode(&le);
        let ghost enc = out@;
        out.append(".");
        push_decimal(&mut out, self.counter);
        proof {
            reveal_strlit(".");
            assert("."@ =~= seq!['.']);
            assert(out@ =~= url_chars(*self));
            lemma_url_parse_token(*self, enc);
        }
        out
    }

    /// Rebuild an identifier from a URL-safe text token, as `url_parse`
    /// describes. A malformed first segment is reported as `NoBaseFound`, a
    /// missing or malformed counter segment as `NoCounterFound`, with the
    /// first segment checked first.
    pub fn from_url_safe(s: String) -> (r: Result<Id, ParseIdError>)
        ensures
            r == url_parse(s@),
    {
        let st: &str = s.as_str();
        let n: usize = st.unicode_len();
        let mut i: usize = 0;
        while i < n && st.get_char(i) != '.'
            invariant
                i <= n,
                st@ == s@,
                n == s@.len(),
                forall|j: int| 0 <= j < i ==> s@[j] != '.',
            decreases n - i,
        {
            i = i + 1;
        }
        proof {
            if i == n {
                lemma_dot_index_none(s@);
            } else {
                lemma_dot_index_at(s@, i as int);
            }
        }
        let seg1: &str = st.substring_char(0, i);
        assert(i == n ==> seg1@ == s@);
        assert(i < n ==> seg1@ == s@.take(i as int));
        match b64_decode(seg1) {
            Option::None => Err(ParseIdError::NoBaseFound),
            Option::Some(v) => {
                if v.len() != 16 {
                    return Err(ParseIdError::NoBaseFound);
                }
                if i == n {
                    return Err(ParseIdError::NoCounterFound);
                }
                let seg2: &str = st.substring_char(i + 1, n);
                assert(seg2@ == s@.skip(i + 1));
                match parse_u8(seg2) {
                    Option::None => Err(ParseIdError::NoCounterFound),
                    Option::Some(counter) => {
                        let base = u128_from_le_bytes(v.as_slice());
                        Ok(Id { base, counter })
                    },
                }
            },
        }
    }
}

/// Law: the byte codec round-trips. Decoding the 17-byte encoding of any
/// identifier gives back exactly that identifier.
pub proof fn lemma_bytes_round_trip(id: Id)
    ensures
        id_of_bytes(id_bytes(id)) == Result::<Id, ParseIdError>::Ok(id),
{
    lemma_auto_spec_u128_to_from_le_bytes();
    let s = id_bytes(id);
    assert(spec_u128_to_le_bytes(id.base).len() == 16);
    assert(s.len() == 17);
    assert(s.take(16) =~= be_bytes_of_u128(id.base));
    assert(be_bytes_of_u128(id.base).reverse() =~= spec_u128_to_le_bytes(id.base));
    assert(s[16] == id.counter);
}

} // verus!
