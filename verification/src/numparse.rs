//! Unsigned integer parsing with the rules of `u64::from_str_radix` for
//! bases 10 and 16: an optional leading `+`, then at least one digit of the
//! base, with a value that fits in 64 bits.

use vstd::prelude::*;

verus! {

/// The value of digit `c` in base `radix` (10 or 16), if it is one.
pub open spec fn digit_value(c: char, radix: nat) -> Option<nat> {
    let v = c as u32;
    if 48 <= v <= 57 {
        Some((v - 48) as nat)
    } else if radix == 16 && 97 <= v <= 102 {
        Some((v - 87) as nat)
    } else if radix == 16 && 65 <= v <= 70 {
        Some((v - 55) as nat)
    } else {
        None
    }
}

/// The value of the digits `d[..k]` in base `radix`.
pub open spec fn radix_value(d: Seq<char>, k: int, radix: nat) -> nat
    decreases k,
{
    if k <= 0 {
        0
    } else {
        radix_value(d, k - 1, radix) * radix + digit_value(d[k - 1], radix).unwrap_or(0)
    }
}

/// The value of a non-empty run of base-`radix` digits that fits in 64 bits.
pub open spec fn digits_spec(d: Seq<char>, radix: nat) -> Option<u64> {
    if d.len() > 0 && (forall|i: int| 0 <= i < d.len() ==> digit_value(#[trigger] d[i], radix) is Some)
        && radix_value(d, d.len() as int, radix) <= u64::MAX {
        Some(radix_value(d, d.len() as int, radix) as u64)
    } else {
        None
    }
}

/// `u64::from_str_radix(u, radix)` without its error kind.
pub open spec fn from_str_radix_spec(u: Seq<char>, radix: nat) -> Option<u64> {
    digits_spec(
        if u.len() > 0 && u[0] == '+' {
            u.skip(1)
        } else {
            u
        },
        radix,
    )
}

fn digit(c: char, radix: u64) -> (r: Option<u64>)
    requires
        radix == 10 || radix == 16,
    ensures
        r is Some == digit_value(c, radix as nat) is Some,
        r is Some ==> r->Some_0 == digit_value(c, radix as nat)->Some_0,
        r is Some ==> r->Some_0 < radix,
{
    let v = c as u32;
    if 48 <= v && v <= 57 {
        Some((v - 48) as u64)
    } else if radix == 16 && 97 <= v && v <= 102 {
        Some((v - 87) as u64)
    } else if radix == 16 && 65 <= v && v <= 70 {
        Some((v - 55) as u64)
    } else {
        None
    }
}

/// A longer run of digits never has a smaller value than its prefix.
pub proof fn lemma_radix_value_monotone(d: Seq<char>, j: int, k: int, radix: nat)
    requires
        0 <= j <= k,
        radix >= 1,
    ensures
        radix_value(d, j, radix) <= radix_value(d, k, radix),
    decreases k - j,
{
    if j < k {
        lemma_radix_value_monotone(d, j, k - 1, radix);
        assert(radix_value(d, k - 1, radix) * radix >= radix_value(d, k - 1, radix))
            by (nonlinear_arith)
            requires
                radix >= 1,
        ;
    }
}

/// Parses `c[start..end]` as `u64::from_str_radix` does in base `radix`.
pub fn parse_radix(c: &[char], start: usize, end: usize, radix: u64) -> (r: Option<u64>)
    requires
        start <= end <= c@.len(),
        radix == 10 || radix == 16,
    ensures
        r == from_str_radix_spec(c@.subrange(start as int, end as int), radix as nat),
{
    let ghost u = c@.subrange(start as int, end as int);
    let mut s = start;
    if s < end && c[s] == '+' {
        s = s + 1;
    }
    let ghost d = c@.subrange(s as int, end as int);
    assert(d =~= if u.len() > 0 && u[0] == '+' {
        u.skip(1)
    } else {
        u
    });
    if s >= end {
        return None;
    }
    let mut value: u64 = 0;
    let mut i = s;
    while i < end
        invariant
            s <= i <= end <= c@.len(),
            radix == 10 || radix == 16,
            d == c@.subrange(s as int, end as int),
            u == c@.subrange(start as int, end as int),
            from_str_radix_spec(u, radix as nat) == digits_spec(d, radix as nat),
            forall|k: int| 0 <= k < i - s ==> digit_value(#[trigger] d[k], radix as nat) is Some,
            value == radix_value(d, i - s, radix as nat),
        decreases end - i,
    {
        let dv = match digit(c[i], radix) {
            Some(v) => v,
            None => {
                assert(digit_value(d[i - s], radix as nat) is None);
                return None;
            },
        };
        assert(d[i - s] == c@[i as int]);
        let next = match value.checked_mul(radix) {
            Some(t) => t.checked_add(dv),
            None => None,
        };
        match next {
            Some(v) => {
                value = v;
            },
            None => {
                proof {
                    lemma_radix_value_monotone(d, i - s + 1, d.len() as int, radix as nat);
                }
                return None;
            },
        }
        i = i + 1;
    }
    Some(value)
}

} // verus!
