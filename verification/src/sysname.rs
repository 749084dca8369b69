//! Logical device names: the fixed textual layout `XXXX:XXXX:XXXX.XXXX`, the
//! fallback extraction of a logical name from a device path when the device
//! record is already gone, and the numeric id carried by the trailing hex
//! segment of a name.

use vstd::prelude::*;

use crate::Error;
use crate::hex::{all_hex, hex_digit, hex_value, is_hex_digit, lemma_hex_value_prefix};

verus! {

/// A hex digit as it appears in a logical name: decimal digit or upper-case
/// letter.
pub open spec fn is_sysname_hex_digit(c: char) -> bool {
    ('0' <= c && c <= '9') || ('A' <= c && c <= 'F')
}

/// What the layout requires at position `i` of a logical name: `:` at 4 and
/// 9, `.` at 14, a hex digit everywhere else.
pub open spec fn sysname_char_ok(s: Seq<char>, i: int) -> bool {
    if i == 4 || i == 9 {
        s[i] == ':'
    } else if i == 14 {
        s[i] == '.'
    } else {
        is_sysname_hex_digit(s[i])
    }
}

/// The fixed logical-name layout: four 4-hex-digit groups, the first two
/// separated by `:`, the third set off by `:`, the trailing sequence number
/// by `.` — exactly `XXXX:XXXX:XXXX.XXXX`.
pub open spec fn sysname_layout(s: Seq<char>) -> bool {
    s.len() == 19 && forall|i: int| 0 <= i < 19 ==> sysname_char_ok(s, i)
}

/// Does `s` have the fixed logical-name layout?
pub fn is_valid_sysname(s: &str) -> (r: bool)
    ensures
        r == sysname_layout(s@),
{
    if s.unicode_len() != 19 {
        return false;
    }
    let mut i: usize = 0;
    while i < 19
        invariant
            0 <= i <= 19,
            s@.len() == 19,
            forall|j: int| 0 <= j < i ==> sysname_char_ok(s@, j),
        decreases 19 - i,
    {
        let c = s.get_char(i);
        let ok = if i == 4 || i == 9 {
            c == ':'
        } else if i == 14 {
            c == '.'
        } else {
            ('0' <= c && c <= '9') || ('A' <= c && c <= 'F')
        };
        if !ok {
            proof {
                assert(!sysname_char_ok(s@, i as int));
            }
            return false;
        }
        i = i + 1;
    }
    true
}

/// The final segment of a path: the characters after the last separator,
/// empty when the path ends in a separator.
pub open spec fn last_segment(p: Seq<char>) -> Seq<char>
    decreases p.len(),
{
    if p.len() == 0 {
        p
    } else if p.last() == '/' {
        Seq::empty()
    } else {
        last_segment(p.drop_last()).push(p.last())
    }
}

proof fn lemma_last_segment_subrange(p: Seq<char>, cut: int)
    requires
        0 <= cut <= p.len(),
        forall|j: int| cut <= j < p.len() ==> p[j] != '/',
        cut == 0 || p[cut - 1] == '/',
    ensures
        last_segment(p) == p.subrange(cut, p.len() as int),
    decreases p.len(),
{
    if p.len() == cut {
        if cut == 0 {
            assert(p.subrange(0, 0) =~= p);
        } else {
            assert(p.last() == p[cut - 1]);
            assert(p.subrange(cut, cut) =~= Seq::<char>::empty());
        }
    } else {
        let q = p.drop_last();
        assert(p.last() == p[p.len() - 1]);
        lemma_last_segment_subrange(q, cut);
        assert(p.subrange(cut, p.len() as int) =~= q.subrange(cut, q.len() as int).push(
            p.last(),
        ));
    }
}

/// Fallback extraction of a logical name: take the final segment of the
/// (already symlink-resolved) device path, and accept it only if it has the
/// fixed logical-name layout; anything else is `InvalidInput`.
pub fn sysname_from_path(path: &str) -> (r: Result<String, Error>)
    ensures
        match r {
            Ok(n) => n@ == last_segment(path@) && sysname_layout(n@),
            Err(e) => e == Error::InvalidInput && !sysname_layout(last_segment(path@)),
        },
{
    let len = path.unicode_len();
    let mut cut: usize = 0;
    let mut i: usize = 0;
    while i < len
        invariant
            0 <= cut <= i <= len,
            len == path@.len(),
            forall|j: int| cut <= j < i ==> path@[j] != '/',
            cut == 0 || path@[cut - 1] == '/',
        decreases len - i,
    {
        if path.get_char(i) == '/' {
            cut = i + 1;
        }
        i = i + 1;
    }
    proof {
        lemma_last_segment_subrange(path@, cut as int);
    }
    let seg = path.substring_char(cut, len);
    if is_valid_sysname(seg) {
        Ok(seg.to_owned())
    } else {
        Err(Error::InvalidInput)
    }
}

/// The numeric id of a device: the value of the hex characters after
/// position 15 of its logical name (the trailing sequence number when the
/// name has the fixed layout). Fails with `MalformedSysname` when the name
/// is too short, a character there is not hex, or the value does not fit.
pub fn id_from_sysname(s: &str) -> (r: Result<u32, Error>)
    ensures
        match r {
            Ok(v) => s@.len() > 15 && all_hex(s@.subrange(15, s@.len() as int)) && v == hex_value(
                s@.subrange(15, s@.len() as int),
            ),
            Err(e) => e == Error::MalformedSysname && (s@.len() <= 15 || !all_hex(
                s@.subrange(15, s@.len() as int),
            ) || hex_value(s@.subrange(15, s@.len() as int)) > u32::MAX),
        },
{
    let len = s.unicode_len();
    if len <= 15 {
        return Err(Error::MalformedSysname);
    }
    let ghost t = s@.subrange(15, len as int);
    let mut acc: u64 = 0;
    let mut i: usize = 15;
    while i < len
        invariant
            15 <= i <= len,
            len == s@.len(),
            t == s@.subrange(15, len as int),
            all_hex(t.subrange(0, i - 15)),
            acc == hex_value(t.subrange(0, i - 15)),
            acc <= u32::MAX,
        decreases len - i,
    {
        let c = s.get_char(i);
        match hex_digit(c) {
            None => {
                proof {
                    assert(t[i - 15] == s@[i as int]);
                }
                return Err(Error::MalformedSysname);
            },
            Some(d) => {
                let next = acc * 16 + d as u64;
                proof {
                    let pre = t.subrange(0, i - 15);
                    let cur = t.subrange(0, i + 1 - 15);
                    assert(cur.drop_last() =~= pre);
                    assert(cur.last() == t[i - 15]);
                    assert(t[i - 15] == s@[i as int]);
                    assert(all_hex(cur)) by {
                        assert forall|j: int| 0 <= j < cur.len() implies is_hex_digit(
                            cur[j],
                        ) by {
                            if j < pre.len() {
                                assert(cur[j] == pre[j]);
                            } else {
                                assert(cur[j] == t[i - 15]);
                            }
                        }
                    }
                    assert(next == hex_value(cur));
                }
                if next > 0xFFFF_FFFF {
                    proof {
                        lemma_hex_value_prefix(t, i + 1 - 15);
                    }
                    return Err(Error::MalformedSysname);
                }
                acc = next;
                i = i + 1;
            },
        }
    }
    proof {
        assert(t.subrange(0, len - 15) =~= t);
    }
    Ok(acc as u32)
}

} // verus!
