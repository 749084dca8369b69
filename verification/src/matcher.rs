//! The candidate matcher: deciding whether a program file name declares
//! itself applicable to a device identity, and selecting the applicable
//! members of a directory listing.
//!
//! A candidate name is `b<BBBB|*>g<GGGG|*>v<VVVVVVVV|*>p<PPPPPPPP|*>` followed
//! by arbitrary non-separator characters and the fixed program-file suffix
//! `.bpf.o`. Each field independently carries either the device's exact
//! fixed-width hex value or the literal wildcard marker `*`; letters and hex
//! digits are compared case-insensitively.

use vstd::prelude::*;

use crate::hex::{all_hex, hex_value, parse_hex_range};
use crate::modalias::Modalias;

verus! {

/// `c` is `lower` or `upper`: one letter, either case.
pub open spec fn letter_ci(c: char, lower: char, upper: char) -> bool {
    c == lower || c == upper
}

/// Step over one field of a candidate name. At `pos` the name carries either
/// the wildcard marker (one character) or exactly `width` hex digits whose
/// value is `value`; the result is the position after the field, or `None`
/// when the field satisfies neither alternative.
pub open spec fn field_next(name: Seq<char>, pos: int, width: int, value: u32) -> Option<int> {
    if pos < name.len() && name[pos] == '*' {
        Some(pos + 1)
    } else if pos + width <= name.len() && all_hex(name.subrange(pos, pos + width)) && hex_value(
        name.subrange(pos, pos + width),
    ) == value {
        Some(pos + width)
    } else {
        None
    }
}

/// The name ends in the fixed program-file suffix `.bpf.o`, letters in
/// either case.
pub open spec fn has_program_suffix(name: Seq<char>) -> bool {
    &&& name.len() >= 6
    &&& name[name.len() - 6] == '.'
    &&& letter_ci(name[name.len() - 5], 'b', 'B')
    &&& letter_ci(name[name.len() - 4], 'p', 'P')
    &&& letter_ci(name[name.len() - 3], 'f', 'F')
    &&& name[name.len() - 2] == '.'
    &&& letter_ci(name[name.len() - 1], 'o', 'O')
}

/// From `pos` on, the name is anything the trailing wildcard accepts — no
/// path separator — ending in the program-file suffix.
pub open spec fn tail_matches(name: Seq<char>, pos: int) -> bool {
    &&& pos + 6 <= name.len()
    &&& has_program_suffix(name)
    &&& forall|j: int| pos <= j < name.len() - 6 ==> name[j] != '/'
}

/// A candidate file name declares itself applicable to identity `m`: the
/// four field markers `b`, `g`, `v`, `p` in order, each field exact or
/// wildcard independently, then the program-file suffix.
pub open spec fn name_matches(name: Seq<char>, m: Modalias) -> bool {
    &&& name.len() > 0
    &&& letter_ci(name[0], 'b', 'B')
    &&& match field_next(name, 1, 4, m.bus) {
        None => false,
        Some(p1) => {
            &&& p1 < name.len()
            &&& letter_ci(name[p1], 'g', 'G')
            &&& match field_next(name, p1 + 1, 4, m.group) {
                None => false,
                Some(p2) => {
                    &&& p2 < name.len()
                    &&& letter_ci(name[p2], 'v', 'V')
                    &&& match field_next(name, p2 + 1, 8, m.vid) {
                        None => false,
                        Some(p3) => {
                            &&& p3 < name.len()
                            &&& letter_ci(name[p3], 'p', 'P')
                            &&& match field_next(name, p3 + 1, 8, m.pid) {
                                None => false,
                                Some(p4) => tail_matches(name, p4),
                            }
                        },
                    }
                },
            }
        },
    }
}

/// Step over one field of `name` at `pos`.
fn check_field(name: &str, pos: usize, width: usize, value: u32) -> (r: Option<usize>)
    requires
        pos <= name@.len(),
        1 <= width <= 8,
    ensures
        match r {
            Some(p) => field_next(name@, pos as int, width as int, value) == Some(p as int) && p
                <= name@.len(),
            None => field_next(name@, pos as int, width as int, value) is None,
        },
{
    let len = name.unicode_len();
    if pos < len && name.get_char(pos) == '*' {
        return Some(pos + 1);
    }
    if width <= len && pos <= len - width {
        match parse_hex_range(name, pos, pos + width) {
            Some(v) => {
                if v == value {
                    Some(pos + width)
                } else {
                    None
                }
            },
            None => None,
        }
    } else {
        None
    }
}

/// The tail of `name` from `pos`: no path separator, and the program-file
/// suffix at the end.
fn check_tail(name: &str, pos: usize) -> (r: bool)
    requires
        pos <= name@.len(),
    ensures
        r == tail_matches(name@, pos as int),
{
    let len = name.unicode_len();
    if len < 6 || pos > len - 6 {
        return false;
    }
    if name.get_char(len - 6) != '.' {
        return false;
    }
    let c = name.get_char(len - 5);
    if !(c == 'b' || c == 'B') {
        return false;
    }
    let c = name.get_char(len - 4);
    if !(c == 'p' || c == 'P') {
        return false;
    }
    let c = name.get_char(len - 3);
    if !(c == 'f' || c == 'F') {
        return false;
    }
    if name.get_char(len - 2) != '.' {
        return false;
    }
    let c = name.get_char(len - 1);
    if !(c == 'o' || c == 'O') {
        return false;
    }
    let mut j = pos;
    while j < len - 6
        invariant
            pos <= j <= len - 6,
            len == name@.len(),
            len >= 6,
            forall|k: int| pos <= k < j ==> name@[k] != '/',
        decreases len - 6 - j,
    {
        if name.get_char(j) == '/' {
            return false;
        }
        j = j + 1;
    }
    true
}

/// Does the candidate file name declare itself applicable to identity `m`?
pub fn matches_filename(name: &str, m: &Modalias) -> (r: bool)
    ensures
        r == name_matches(name@, *m),
{
    let len = name.unicode_len();
    if len == 0 {
        return false;
    }
    let c = name.get_char(0);
    if !(c == 'b' || c == 'B') {
        return false;
    }
    let p1 = match check_field(name, 1, 4, m.bus) {
        Some(p) => p,
        None => {
            return false;
        },
    };
    if p1 >= len {
        return false;
    }
    let c = name.get_char(p1);
    if !(c == 'g' || c == 'G') {
        return false;
    }
    let p2 = match check_field(name, p1 + 1, 4, m.group) {
        Some(p) => p,
        None => {
            return false;
        },
    };
    if p2 >= len {
        return false;
    }
    let c = name.get_char(p2);
    if !(c == 'v' || c == 'V') {
        return false;
    }
    let p3 = match check_field(name, p2 + 1, 8, m.vid) {
        Some(p) => p,
        None => {
            return false;
        },
    };
    if p3 >= len {
        return false;
    }
    let c = name.get_char(p3);
    if !(c == 'p' || c == 'P') {
        return false;
    }
    let p4 = match check_field(name, p3 + 1, 8, m.pid) {
        Some(p) => p,
        None => {
            return false;
        },
    };
    check_tail(name, p4)
}

/// The members of `names`, in order, whose name matches identity `m`. The
/// order of the selection is the order of the listing handed in.
pub open spec fn selected(names: Seq<Seq<char>>, m: Modalias) -> Seq<Seq<char>>
    decreases names.len(),
{
    if names.len() == 0 {
        Seq::empty()
    } else if name_matches(names.last(), m) {
        selected(names.drop_last(), m).push(names.last())
    } else {
        selected(names.drop_last(), m)
    }
}

/// Select, keeping the listing's order, the candidate file names applicable
/// to identity `m`.
pub fn select_candidates(names: &Vec<String>, m: &Modalias) -> (r: Vec<String>)
    ensures
        r.deep_view() == selected(names.deep_view(), *m),
{
    let mut r: Vec<String> = Vec::new();
    proof {
        assert(r.deep_view() =~= selected(names.deep_view().subrange(0, 0), *m));
    }
    let mut i: usize = 0;
    while i < names.len()
        invariant
            0 <= i <= names@.len(),
            r.deep_view() == selected(names.deep_view().subrange(0, i as int), *m),
        decreases names@.len() - i,
    {
        let ghost old_dv = r.deep_view();
        let ghost dv = names.deep_view();
        proof {
            assert(dv.subrange(0, (i + 1) as int).drop_last() =~= dv.subrange(0, i as int));
            assert(dv.subrange(0, (i + 1) as int).last() == dv[i as int]);
            assert(dv[i as int] == names@[i as int]@);
        }
        if matches_filename(names[i].as_str(), m) {
            r.push(names[i].clone());
            proof {
                assert(r.deep_view() =~= old_dv.push(dv[i as int]));
            }
        }
        i = i + 1;
    }
    proof {
        assert(names.deep_view().subrange(0, names@.len() as int) =~= names.deep_view());
    }
    r
}

} // verus!
