//! Byte-level text building: decimal and hexadecimal renderings of integers,
//! byte-sequence appends, and the conversion of ASCII bytes into a `String`.

use vstd::prelude::*;
use vstd::string::StrSliceExecFns;

verus! {

/// The ASCII digit for `d` in base 16, lower-case (`0`-`9`, `a`-`f`).
pub open spec fn hex_digit(d: nat) -> u8 {
    if d < 10 {
        (48 + d) as u8
    } else {
        (87 + d) as u8
    }
}

/// The minimal decimal rendering of `v` (no leading zeros; `0` is `"0"`).
pub open spec fn decimal(v: nat) -> Seq<u8>
    decreases v,
{
    if v < 10 {
        seq![(48 + v) as u8]
    } else {
        decimal(v / 10).push((48 + v % 10) as u8)
    }
}

/// The minimal lower-case hexadecimal rendering of `v` (no prefix).
pub open spec fn hex(v: nat) -> Seq<u8>
    decreases v,
{
    if v < 16 {
        seq![hex_digit(v)]
    } else {
        hex(v / 16).push(hex_digit(v % 16))
    }
}

/// `s` left-padded with ASCII `0` to at least `width` bytes.
pub open spec fn zero_pad(s: Seq<u8>, width: nat) -> Seq<u8> {
    if s.len() >= width {
        s
    } else {
        Seq::new((width - s.len()) as nat, |i: int| 48u8) + s
    }
}

/// Whether every byte of `s` is ASCII.
pub open spec fn all_ascii(s: Seq<u8>) -> bool {
    forall|i: int| 0 <= i < s.len() ==> s[i] < 128
}

/// The characters that ASCII bytes denote, one per byte.
pub open spec fn ascii_chars(s: Seq<u8>) -> Seq<char> {
    s.map_values(|b: u8| b as char)
}

/// The decimal rendering is non-empty ASCII.
pub proof fn lemma_decimal_ascii(v: nat)
    ensures
        all_ascii(decimal(v)),
        decimal(v).len() >= 1,
    decreases v,
{
    if v >= 10 {
        lemma_decimal_ascii(v / 10);
    }
}

/// The hexadecimal rendering is non-empty ASCII.
pub proof fn lemma_hex_ascii(v: nat)
    ensures
        all_ascii(hex(v)),
        hex(v).len() >= 1,
    decreases v,
{
    if v >= 16 {
        lemma_hex_ascii(v / 16);
    }
}

/// Appends `bytes` to `out`.
pub fn append(out: &mut Vec<u8>, bytes: &[u8])
    ensures
        final(out)@ == old(out)@ + bytes@,
{
    let n = bytes.len();
    let mut i: usize = 0;
    while i < n
        invariant
            n == bytes@.len(),
            i <= n,
            out@ == old(out)@ + bytes@.subrange(0, i as int),
        decreases n - i,
    {
        out.push(bytes[i]);
        i = i + 1;
        assert(out@ =~= old(out)@ + bytes@.subrange(0, i as int));
    }
    assert(bytes@.subrange(0, n as int) =~= bytes@);
}

/// Appends the decimal rendering of `v` to `out`.
pub fn push_decimal(out: &mut Vec<u8>, v: u128)
    ensures
        final(out)@ == old(out)@ + decimal(v as nat),
    decreases v,
{
    if v >= 10 {
        push_decimal(out, v / 10);
    }
    let d: u8 = (v % 10) as u8;
    out.push(48u8 + d);
    proof {
        if v < 10 {
            assert(decimal(v as nat) =~= seq![(48 + v) as u8]);
        } else {
            assert(decimal(v as nat) == decimal((v / 10) as nat).push((48 + v % 10) as u8));
        }
    }
    assert(out@ =~= old(out)@ + decimal(v as nat));
}

/// Appends the lower-case hexadecimal rendering of `v` to `out`.
pub fn push_hex(out: &mut Vec<u8>, v: u128)
    ensures
        final(out)@ == old(out)@ + hex(v as nat),
    decreases v,
{
    if v >= 16 {
        push_hex(out, v / 16);
    }
    let d: u8 = (v % 16) as u8;
    let c: u8 = if d < 10 {
        48u8 + d
    } else {
        87u8 + d
    };
    out.push(c);
    proof {
        if v < 16 {
            assert(hex(v as nat) =~= seq![hex_digit(v as nat)]);
        } else {
            assert(hex(v as nat) == hex((v / 16) as nat).push(hex_digit((v % 16) as nat)));
        }
    }
    assert(out@ =~= old(out)@ + hex(v as nat));
}

/// Appends the hexadecimal rendering of `v`, left-padded with `0` to at least
/// `width` digits (the `{:0width$x}` rendering).
pub fn push_hex_padded(out: &mut Vec<u8>, v: u128, width: usize)
    ensures
        final(out)@ == old(out)@ + zero_pad(hex(v as nat), width as nat),
{
    let mut digits: Vec<u8> = Vec::new();
    push_hex(&mut digits, v);
    assert(digits@ =~= hex(v as nat));
    let mut k: usize = digits.len();
    let ghost start = out@;
    while k < width
        invariant
            digits@ == hex(v as nat),
            digits@.len() <= k <= width || (k == digits@.len() && k >= width),
            digits@.len() <= k,
            out@ == start + Seq::new((k - digits@.len()) as nat, |i: int| 48u8),
        decreases width - k,
    {
        out.push(48u8);
        k = k + 1;
        assert(out@ =~= start + Seq::new((k - digits@.len()) as nat, |i: int| 48u8));
    }
    let ghost pads = out@;
    append(out, digits.as_slice());
    proof {
        if digits@.len() >= width {
            assert(k == digits@.len());
            assert(Seq::new((k - digits@.len()) as nat, |i: int| 48u8) =~= Seq::<u8>::empty());
            assert(out@ =~= start + hex(v as nat));
        } else {
            assert(k == width);
            assert(out@ =~= start + (Seq::new((width - digits@.len()) as nat, |i: int| 48u8)
                + hex(v as nat)));
        }
    }
}

/// Builds a `String` from ASCII bytes through `String::from_utf8`.
///
/// Trusted: `String::from_utf8` returns `Ok` holding exactly the given bytes
/// whenever they are valid UTF-8, which every ASCII sequence is; each ASCII
/// byte is one character with that code point.
#[verifier::external_body]
pub(crate) fn ascii_string(bytes: Vec<u8>) -> (s: String)
    requires
        all_ascii(bytes@),
    ensures
        s@ == ascii_chars(bytes@),
{
    match String::from_utf8(bytes) {
        Ok(s) => s,
        Err(_) => String::new(),
    }
}

} // verus!

verus! {

broadcast use vstd::string::group_string_axioms;

/// An owned copy of `s`.
pub fn lit(s: &str) -> (r: String)
    ensures
        r@ == s@,
{
    s.to_string()
}

/// Whether two strings hold the same characters.
pub fn str_eq(a: &str, b: &str) -> (r: bool)
    ensures
        r == (a@ == b@),
{
    let n = a.unicode_len();
    let m = b.unicode_len();
    if n != m {
        return false;
    }
    let mut i: usize = 0;
    while i < n
        invariant
            n == a@.len(),
            m == b@.len(),
            n == m,
            i <= n,
            forall|j: int| 0 <= j < i ==> a@[j] == b@[j],
        decreases n - i,
    {
        if a.get_char(i) != b.get_char(i) {
            return false;
        }
        i = i + 1;
    }
    assert(a@ =~= b@);
    true
}

/// The characters of `s`, in order.
pub fn chars_of(s: &str) -> (r: Vec<char>)
    ensures
        r@ == s@,
{
    let n = s.unicode_len();
    let mut out: Vec<char> = Vec::new();
    let mut i: usize = 0;
    while i < n
        invariant
            n == s@.len(),
            i <= n,
            out@ == s@.subrange(0, i as int),
        decreases n - i,
    {
        out.push(s.get_char(i));
        i = i + 1;
        assert(out@ =~= s@.subrange(0, i as int));
    }
    assert(out@ =~= s@);
    out
}

} // verus!
