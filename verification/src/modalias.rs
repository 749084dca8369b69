//! The identity codec: parsing the fixed-width hexadecimal identity encoding
//! of a device (`b<BBBB>g<GGGG>v<VVVVVVVV>p<PPPPPPPP>`, optionally preceded by
//! the literal `hid:` prefix) into its four numeric fields.

use vstd::prelude::*;

use crate::Error;
use crate::hex::{
    all_hex, hex_digit_value, hex_value, is_hex_digit, lemma_hex_value_case_insensitive,
    parse_hex_range,
};

verus! {

/// The literal prefix stripped from an identity string before validation.
pub open spec fn identity_prefix() -> Seq<char> {
    seq!['h', 'i', 'd', ':']
}

/// The identity string with every leading repetition of the prefix removed.
pub open spec fn strip_identity_prefix(s: Seq<char>) -> Seq<char>
    decreases s.len(),
{
    if s.len() >= 4 && s.subrange(0, 4) == identity_prefix() {
        strip_identity_prefix(s.subrange(4, s.len() as int))
    } else {
        s
    }
}

/// A stripped identity string is well-formed: exactly 28 characters, and the
/// four field ranges are hex. The characters at positions 0, 5, 10 and 19 are
/// structural and skipped by the fixed offsets, not validated.
pub open spec fn valid_identity(body: Seq<char>) -> bool {
    &&& body.len() == 28
    &&& all_hex(body.subrange(1, 5))
    &&& all_hex(body.subrange(6, 10))
    &&& all_hex(body.subrange(11, 19))
    &&& all_hex(body.subrange(20, 28))
}

/// Bus field: hex value of characters `[1, 5)`.
pub open spec fn spec_bus(body: Seq<char>) -> nat {
    hex_value(body.subrange(1, 5))
}

/// Group field: hex value of characters `[6, 10)`.
pub open spec fn spec_group(body: Seq<char>) -> nat {
    hex_value(body.subrange(6, 10))
}

/// Vendor field: hex value of characters `[11, 19)`.
pub open spec fn spec_vid(body: Seq<char>) -> nat {
    hex_value(body.subrange(11, 19))
}

/// Product field: hex value of characters `[20, 28)`.
pub open spec fn spec_pid(body: Seq<char>) -> nat {
    hex_value(body.subrange(20, 28))
}

/// `r` is the parse of the identity string whose stripped form is `body`:
/// the four fields of a well-formed string, `MalformedIdentity` otherwise.
/// There is no partially-valid record, and the two 4-digit fields always fit
/// 16 bits.
pub open spec fn parse_result(body: Seq<char>, r: Result<Modalias, Error>) -> bool {
    match r {
        Ok(m) => {
            &&& valid_identity(body)
            &&& m.bus == spec_bus(body)
            &&& m.group == spec_group(body)
            &&& m.vid == spec_vid(body)
            &&& m.pid == spec_pid(body)
            &&& m.bus < 0x10000
            &&& m.group < 0x10000
        },
        Err(e) => e == Error::MalformedIdentity && !valid_identity(body),
    }
}

proof fn lemma_range_case_insensitive(b1: Seq<char>, b2: Seq<char>, a: int, c: int)
    requires
        b1.len() == b2.len(),
        0 <= a <= c <= b1.len(),
        forall|i: int| 0 <= i < b1.len() ==> hex_digit_value(#[trigger] b1[i]) == hex_digit_value(
            b2[i],
        ),
        forall|i: int| 0 <= i < b1.len() ==> is_hex_digit(#[trigger] b1[i]) == is_hex_digit(b2[i]),
    ensures
        all_hex(b1.subrange(a, c)) == all_hex(b2.subrange(a, c)),
        hex_value(b1.subrange(a, c)) == hex_value(b2.subrange(a, c)),
{
    let s = b1.subrange(a, c);
    let t = b2.subrange(a, c);
    assert forall|i: int| 0 <= i < s.len() implies hex_digit_value(#[trigger] s[i])
        == hex_digit_value(t[i]) by {
        assert(s[i] == b1[a + i]);
        assert(t[i] == b2[a + i]);
    }
    lemma_hex_value_case_insensitive(s, t);
    if all_hex(s) {
        assert forall|i: int| 0 <= i < t.len() implies is_hex_digit(#[trigger] t[i]) by {
            assert(s[i] == b1[a + i]);
            assert(t[i] == b2[a + i]);
        }
    }
    if all_hex(t) {
        assert forall|i: int| 0 <= i < s.len() implies is_hex_digit(#[trigger] s[i]) by {
            assert(s[i] == b1[a + i]);
            assert(t[i] == b2[a + i]);
        }
    }
}

/// Parsing is independent of letter case: two stripped identity strings of
/// equal length whose characters agree as hex digits — hex on the same
/// positions, with the same digit values — are equally well-formed and, when
/// 28 characters long, carry the same four fields.
pub proof fn lemma_identity_case_insensitive(b1: Seq<char>, b2: Seq<char>)
    requires
        b1.len() == b2.len(),
        forall|i: int| 0 <= i < b1.len() ==> hex_digit_value(#[trigger] b1[i]) == hex_digit_value(
            b2[i],
        ),
        forall|i: int| 0 <= i < b1.len() ==> is_hex_digit(#[trigger] b1[i]) == is_hex_digit(b2[i]),
    ensures
        valid_identity(b1) == valid_identity(b2),
        b1.len() == 28 ==> spec_bus(b1) == spec_bus(b2) && spec_group(b1) == spec_group(b2)
            && spec_vid(b1) == spec_vid(b2) && spec_pid(b1) == spec_pid(b2),
{
    if b1.len() == 28 {
        lemma_range_case_insensitive(b1, b2, 1, 5);
        lemma_range_case_insensitive(b1, b2, 6, 10);
        lemma_range_case_insensitive(b1, b2, 11, 19);
        lemma_range_case_insensitive(b1, b2, 20, 28);
    }
}

/// A device identity: bus type, protocol group, vendor ID and product ID,
/// each the value of one fixed-width hex field of the identity encoding.
#[derive(Clone, Copy, Debug, PartialEq, Eq, Structural)]
pub struct Modalias {
    pub bus: u32,
    pub group: u32,
    pub vid: u32,
    pub pid: u32,
}

/// Does `s` start with the literal identity prefix?
fn has_identity_prefix(s: &str) -> (r: bool)
    ensures
        r == (s@.len() >= 4 && s@.subrange(0, 4) == identity_prefix()),
{
    if s.unicode_len() < 4 {
        return false;
    }
    let r = s.get_char(0) == 'h' && s.get_char(1) == 'i' && s.get_char(2) == 'd' && s.get_char(3)
        == ':';
    proof {
        if r {
            assert(s@.subrange(0, 4) =~= identity_prefix());
        } else {
            if s@.subrange(0, 4) == identity_prefix() {
                assert(s@[0] == s@.subrange(0, 4)[0]);
                assert(s@[1] == s@.subrange(0, 4)[1]);
                assert(s@[2] == s@.subrange(0, 4)[2]);
                assert(s@[3] == s@.subrange(0, 4)[3]);
            }
        }
    }
    r
}

impl Modalias {
    /// Parse an identity string, with or without its literal prefix, into the
    /// four fields. Succeeds exactly on well-formed 28-character encodings.
    pub fn from_str(modalias: &str) -> (r: Result<Modalias, Error>)
        ensures
            parse_result(strip_identity_prefix(modalias@), r),
    {
        let mut s: &str = modalias;
        while has_identity_prefix(s)
            invariant
                strip_identity_prefix(modalias@) == strip_identity_prefix(s@),
            decreases s@.len(),
        {
            let len = s.unicode_len();
            s = s.substring_char(4, len);
        }
        if s.unicode_len() != 28 {
            return Err(Error::MalformedIdentity);
        }
        let bus = parse_hex_range(s, 1, 5);
        let group = parse_hex_range(s, 6, 10);
        let vid = parse_hex_range(s, 11, 19);
        let pid = parse_hex_range(s, 20, 28);
        proof {
            crate::hex::lemma_hex_value_bound(s@.subrange(1, 5));
            crate::hex::lemma_hex_value_bound(s@.subrange(6, 10));
            crate::hex::lemma_pow16_concrete();
        }
        match (bus, group, vid, pid) {
            (Some(b), Some(g), Some(v), Some(p)) => Ok(
                Modalias { bus: b, group: g, vid: v, pid: p },
            ),
            _ => Err(Error::MalformedIdentity),
        }
    }

    /// `from_str` on a string literal.
    pub fn from_static_str(modalias: &'static str) -> (r: Result<Modalias, Error>)
        ensures
            parse_result(strip_identity_prefix(modalias@), r),
    {
        Self::from_str(modalias)
    }

    /// Parse the identity-encoding property of a device. An absent property
    /// is replaced by a synthesized empty identity string, so that the codec
    /// stays the single source of validation: the result is then
    /// `MalformedIdentity`.
    pub fn from_property(prop: Option<&str>) -> (r: Result<Modalias, Error>)
        ensures
            match prop {
                Some(s) => parse_result(strip_identity_prefix(s@), r),
                None => r == Err::<Modalias, Error>(Error::MalformedIdentity),
            },
    {
        match prop {
            Some(s) => Self::from_str(s),
            None => {
                let r = Self::from_str("hid:empty");
                proof {
                    reveal_strlit("hid:empty");
                    let m = "hid:empty"@;
                    let t = m.subrange(4, 9);
                    assert(m.subrange(0, 4) =~= identity_prefix());
                    assert(t.subrange(0, 4) != identity_prefix()) by {
                        if t.subrange(0, 4) == identity_prefix() {
                            assert(t.subrange(0, 4)[0] == t[0]);
                        }
                    }
                    assert(strip_identity_prefix(t) == t);
                    assert(strip_identity_prefix(m) == t);
                    assert(t.len() == 5);
                }
                r
            },
        }
    }
}

} // verus!
