//! Case-insensitive ASCII hexadecimal digits: the numeric value of a digit
//! sequence (most significant digit first) and a verified range parser over
//! `&str`.

use vstd::prelude::*;

verus! {

/// Is `c` an ASCII hex digit, in either letter case?
pub open spec fn is_hex_digit(c: char) -> bool {
    ('0' <= c && c <= '9') || ('a' <= c && c <= 'f') || ('A' <= c && c <= 'F')
}

/// Numeric value of a single hex digit (0 for a non-digit).
pub open spec fn hex_digit_value(c: char) -> nat {
    if '0' <= c && c <= '9' {
        (c as nat - '0' as nat) as nat
    } else if 'a' <= c && c <= 'f' {
        (c as nat - 'a' as nat + 10) as nat
    } else if 'A' <= c && c <= 'F' {
        (c as nat - 'A' as nat + 10) as nat
    } else {
        0
    }
}

/// Every character of `s` is a hex digit.
pub open spec fn all_hex(s: Seq<char>) -> bool {
    forall|i: int| 0 <= i < s.len() ==> is_hex_digit(#[trigger] s[i])
}

/// Numeric value of a hex digit sequence, most significant digit first.
pub open spec fn hex_value(s: Seq<char>) -> nat
    decreases s.len(),
{
    if s.len() == 0 {
        0
    } else {
        hex_value(s.drop_last()) * 16 + hex_digit_value(s.last())
    }
}

/// 16 to the `n`th power.
pub open spec fn pow16(n: nat) -> nat
    decreases n,
{
    if n == 0 {
        1
    } else {
        16 * pow16((n - 1) as nat)
    }
}

pub proof fn lemma_pow16_mono(a: nat, b: nat)
    requires
        a <= b,
    ensures
        pow16(a) <= pow16(b),
    decreases b,
{
    if a < b {
        lemma_pow16_mono(a, (b - 1) as nat);
    }
}

pub proof fn lemma_pow16_concrete()
    ensures
        pow16(4) == 0x10000,
        pow16(7) == 0x10000000,
        pow16(8) == 0x100000000,
{
    reveal_with_fuel(pow16, 9);
}

/// The value of a digit sequence is bounded by 16 to its length.
pub proof fn lemma_hex_value_bound(s: Seq<char>)
    ensures
        hex_value(s) < pow16(s.len()),
    decreases s.len(),
{
    if s.len() > 0 {
        lemma_hex_value_bound(s.drop_last());
        assert(hex_digit_value(s.last()) <= 15);
    }
}

/// The value of a digit sequence is at least the value of any prefix of it.
pub proof fn lemma_hex_value_prefix(s: Seq<char>, i: int)
    requires
        0 <= i <= s.len(),
    ensures
        hex_value(s) >= hex_value(s.subrange(0, i)),
    decreases s.len() - i,
{
    if i == s.len() {
        assert(s.subrange(0, i) =~= s);
    } else {
        lemma_hex_value_prefix(s, i + 1);
        assert(s.subrange(0, i + 1).drop_last() =~= s.subrange(0, i));
        assert(hex_value(s.subrange(0, i + 1)) == hex_value(s.subrange(0, i)) * 16
            + hex_digit_value(s.subrange(0, i + 1).last()));
    }
}

/// Two digit sequences that agree digit by digit up to letter case have the
/// same value: the hex interpretation is independent of case.
pub proof fn lemma_hex_value_case_insensitive(s: Seq<char>, t: Seq<char>)
    requires
        s.len() == t.len(),
        forall|i: int| 0 <= i < s.len() ==> hex_digit_value(#[trigger] s[i]) == hex_digit_value(
            #[trigger] t[i],
        ),
    ensures
        hex_value(s) == hex_value(t),
    decreases s.len(),
{
    if s.len() > 0 {
        lemma_hex_value_case_insensitive(s.drop_last(), t.drop_last());
        assert(s.last() == s[s.len() - 1]);
        assert(t.last() == t[t.len() - 1]);
    }
}

/// Parse one hex digit, either letter case.
pub fn hex_digit(c: char) -> (r: Option<u32>)
    ensures
        match r {
            Some(v) => is_hex_digit(c) && v == hex_digit_value(c),
            None => !is_hex_digit(c),
        },
{
    if '0' <= c && c <= '9' {
        Some(c as u32 - '0' as u32)
    } else if 'a' <= c && c <= 'f' {
        Some(c as u32 - 'a' as u32 + 10)
    } else if 'A' <= c && c <= 'F' {
        Some(c as u32 - 'A' as u32 + 10)
    } else {
        None
    }
}

/// Parse character positions `[from, to)` of `s` as case-insensitive hex,
/// most significant digit first. Returns the value exactly when every
/// character in the range is a hex digit.
pub fn parse_hex_range(s: &str, from: usize, to: usize) -> (r: Option<u32>)
    requires
        from <= to <= s@.len(),
        to - from <= 8,
    ensures
        match r {
            Some(v) => all_hex(s@.subrange(from as int, to as int)) && v == hex_value(
                s@.subrange(from as int, to as int),
            ),
            None => !all_hex(s@.subrange(from as int, to as int)),
        },
{
    let mut acc: u32 = 0;
    let mut i: usize = from;
    while i < to
        invariant
            from <= i <= to <= s@.len(),
            to - from <= 8,
            all_hex(s@.subrange(from as int, i as int)),
            acc == hex_value(s@.subrange(from as int, i as int)),
            acc < pow16((i - from) as nat),
        decreases to - i,
    {
        let c = s.get_char(i);
        match hex_digit(c) {
            None => {
                proof {
                    assert(s@.subrange(from as int, to as int)[i - from] == s@[i as int]);
                }
                return None;
            },
            Some(d) => {
                proof {
                    lemma_pow16_concrete();
                    lemma_pow16_mono((i - from) as nat, 7);
                }
                acc = acc * 16 + d;
                proof {
                    let pre = s@.subrange(from as int, i as int);
                    let cur = s@.subrange(from as int, (i + 1) as int);
                    assert(cur.drop_last() =~= pre);
                    assert(cur.last() == s@[i as int]);
                    assert(all_hex(cur)) by {
                        assert forall|j: int| 0 <= j < cur.len() implies is_hex_digit(
                            cur[j],
                        ) by {
                            if j < pre.len() {
                                assert(cur[j] == pre[j]);
                            } else {
                                assert(cur[j] == s@[i as int]);
                            }
                        }
                    }
                }
                i = i + 1;
            },
        }
    }
    Some(acc)
}

} // verus!
