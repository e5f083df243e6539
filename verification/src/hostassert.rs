//! Host-homogeneity assertions: the values the physical host presents are
//! held against the frozen determinism-domain baseline, and a run is refused
//! on any mismatch.
//!
//! Probing the host (CPUID, the FXSAVE image, the kernel-recorded microcode
//! revision) happens outside this module; [`evaluate`] decides every
//! assertion from the probed values and [`verdict`] folds the outcomes.

use vstd::prelude::*;
use vstd::string::StringExecFns;
use crate::text::{
    all_ascii, ascii_chars, ascii_string, chars_of, decimal, hex, lemma_decimal_ascii,
    lemma_hex_ascii, lit, push_decimal, push_hex_padded, str_eq, zero_pad,
};
use crate::vmm::VmmError;
use crate::numparse::{from_str_radix_spec, parse_radix};

verus! {

broadcast use vstd::string::group_string_axioms;

/// One assertion's evaluation: the contract key, the expected value, what the
/// host presented, and whether the host satisfies it.
#[derive(Clone, Debug, Eq, PartialEq)]
pub struct Outcome {
    pub key: String,
    pub expected: String,
    pub actual: String,
    pub pass: bool,
}

/// The characters of an outcome's fields and its verdict.
pub open spec fn outcome_view(o: Outcome) -> (Seq<char>, Seq<char>, Seq<char>, bool) {
    (o.key@, o.expected@, o.actual@, o.pass)
}

impl Outcome {
    pub fn new(key: String, expected: String, actual: String, pass: bool) -> (o: Self)
        ensures
            outcome_view(o) == (key@, expected@, actual@, pass),
    {
        Outcome { key, expected, actual, pass }
    }
}

/// The baseline the host is held to.
pub struct HostExpectations {
    /// CPUID(1) family/model/stepping in `ff_mm_ss` form.
    pub family_model_stepping: String,
    /// The microcode revision.
    pub microcode_rev: u64,
    /// The FXSAVE `MXCSR_MASK`.
    pub mxcsr_mask: u32,
    /// The least acceptable MAXPHYADDR.
    pub maxphyaddr_min: u32,
    /// Whether RTM must be unusable.
    pub rtm_disabled: bool,
    /// Variance instructions that must be physically absent.
    pub host_absent: Vec<String>,
}

/// The four registers one CPUID leaf returns.
#[derive(Clone, Copy, Debug, PartialEq, Eq)]
pub struct CpuidRegs {
    pub eax: u32,
    pub ebx: u32,
    pub ecx: u32,
    pub edx: u32,
}

/// What the host presented.
#[derive(Clone, Copy, Debug, PartialEq, Eq)]
pub struct HostProbe {
    /// CPUID(1).EAX.
    pub cpuid1_eax: u32,
    /// The kernel-recorded microcode revision, when readable.
    pub microcode_rev: Option<u64>,
    /// The FXSAVE `MXCSR_MASK`.
    pub mxcsr_mask: u32,
    /// CPUID(0x8000_0008).EAX.
    pub cpuid_80000008_eax: u32,
    /// CPUID(7, 0).
    pub leaf7_0: CpuidRegs,
    /// CPUID(7, 1).
    pub leaf7_1: CpuidRegs,
}

// ---------------------------------------------------------------------------
// Renderings.
// ---------------------------------------------------------------------------

/// Bit `n` of `reg`.
pub open spec fn bit_spec(reg: u32, n: u32) -> bool {
    (reg >> n) & 1 == 1
}

/// The decoded family of CPUID(1).EAX.
pub open spec fn family_of(eax: u32) -> nat {
    let base = (eax >> 8u32) & 0xf;
    let ext = (eax >> 20u32) & 0xff;
    if base == 0xf {
        (base + ext) as nat
    } else {
        base as nat
    }
}

/// The decoded model of CPUID(1).EAX.
pub open spec fn model_of(eax: u32) -> nat {
    let base_family = (eax >> 8u32) & 0xf;
    let base_model = (eax >> 4u32) & 0xf;
    let ext_model = (eax >> 16u32) & 0xf;
    if base_family == 0x6 || base_family == 0xf {
        (ext_model * 16 + base_model) as nat
    } else {
        base_model as nat
    }
}

/// The `ff_mm_ss` rendering of CPUID(1).EAX.
pub open spec fn fms_bytes(eax: u32) -> Seq<u8> {
    zero_pad(hex(family_of(eax)), 2) + seq![95u8] + zero_pad(hex(model_of(eax)), 2) + seq![95u8]
        + zero_pad(hex((eax & 0xf) as nat), 2)
}

/// `0x` followed by `v` in at least `digits` hexadecimal digits.
pub open spec fn prefixed_hex(v: nat, digits: nat) -> Seq<char> {
    ascii_chars(seq![48u8, 120u8] + zero_pad(hex(v), digits))
}

/// The decimal rendering of `v`, as characters.
pub open spec fn decimal_chars(v: nat) -> Seq<char> {
    ascii_chars(decimal(v))
}

/// Whether bit `n` of `reg` is set (`n < 32`).
pub fn bit(reg: u32, n: u32) -> (r: bool)
    requires
        n < 32,
    ensures
        r == bit_spec(reg, n),
{
    (reg >> n) & 1 == 1
}

/// Decodes CPUID(1).EAX into the contract's `ff_mm_ss` hexadecimal form.
pub fn fmt_fms(eax: u32) -> (s: String)
    ensures
        s@ == ascii_chars(fms_bytes(eax)),
{
    let base_family = (eax >> 8u32) & 0xf;
    let base_model = (eax >> 4u32) & 0xf;
    let stepping = eax & 0xf;
    let ext_model = (eax >> 16u32) & 0xf;
    let ext_family = (eax >> 20u32) & 0xff;
    assert(base_family <= 0xf && base_model <= 0xf && ext_model <= 0xf && ext_family <= 0xff)
        by (bit_vector)
        requires
            base_family == (eax >> 8u32) & 0xf,
            base_model == (eax >> 4u32) & 0xf,
            ext_model == (eax >> 16u32) & 0xf,
            ext_family == (eax >> 20u32) & 0xff,
    ;
    let family = base_family + if base_family == 0xf {
        ext_family
    } else {
        0
    };
    let model = if base_family == 0x6 || base_family == 0xf {
        ext_model * 16 + base_model
    } else {
        base_model
    };
    let mut out: Vec<u8> = Vec::new();
    push_hex_padded(&mut out, family as u128, 2);
    out.push(95u8);
    push_hex_padded(&mut out, model as u128, 2);
    out.push(95u8);
    push_hex_padded(&mut out, stepping as u128, 2);
    assert(out@ =~= fms_bytes(eax));
    proof {
        lemma_padded_hex_ascii(family_of(eax), 2);
        lemma_padded_hex_ascii(model_of(eax), 2);
        lemma_padded_hex_ascii((eax & 0xf) as nat, 2);
    }
    ascii_string(out)
}

/// A zero-padded hexadecimal rendering is ASCII.
pub proof fn lemma_padded_hex_ascii(v: nat, w: nat)
    ensures
        all_ascii(zero_pad(hex(v), w)),
{
    lemma_hex_ascii(v);
}

/// `0x` and `v` in at least `digits` hexadecimal digits.
fn prefixed_hex_string(v: u64, digits: usize) -> (s: String)
    ensures
        s@ == prefixed_hex(v as nat, digits as nat),
{
    let mut out: Vec<u8> = Vec::new();
    out.push(48u8);
    out.push(120u8);
    push_hex_padded(&mut out, v as u128, digits);
    proof {
        lemma_padded_hex_ascii(v as nat, digits as nat);
    }
    assert(out@ =~= seq![48u8, 120u8] + zero_pad(hex(v as nat), digits as nat));
    ascii_string(out)
}

/// A 64-bit value in the contract's pinned `0x` + 16-digit form.
pub fn fmt_hex(v: u64) -> (s: String)
    ensures
        s@ == prefixed_hex(v as nat, 16),
{
    prefixed_hex_string(v, 16)
}

fn decimal_string(v: u64) -> (s: String)
    ensures
        s@ == decimal_chars(v as nat),
{
    let mut out: Vec<u8> = Vec::new();
    push_decimal(&mut out, v as u128);
    proof {
        lemma_decimal_ascii(v as nat);
    }
    assert(out@ =~= decimal(v as nat));
    ascii_string(out)
}

// ---------------------------------------------------------------------------
// Microcode revision tokens.
// ---------------------------------------------------------------------------

/// Unicode `White_Space`, the characters `str::trim` removes.
pub open spec fn is_ws(c: char) -> bool {
    let v = c as u32;
    ||| 0x09 <= v <= 0x0D
    ||| v == 0x20 || v == 0x85 || v == 0xA0 || v == 0x1680
    ||| 0x2000 <= v <= 0x200A
    ||| v == 0x2028 || v == 0x2029 || v == 0x202F || v == 0x205F || v == 0x3000
}

/// The index of the first non-whitespace character at or after `i`.
pub open spec fn skip_ws(s: Seq<char>, i: int) -> int
    decreases s.len() - i,
{
    if 0 <= i < s.len() && is_ws(s[i]) {
        skip_ws(s, i + 1)
    } else {
        i
    }
}

/// The end of `s[lo..j]` with trailing whitespace removed.
pub open spec fn trim_end(s: Seq<char>, lo: int, j: int) -> int
    decreases j - lo,
{
    if lo < j && is_ws(s[j - 1]) {
        trim_end(s, lo, j - 1)
    } else {
        j
    }
}

/// `s` without leading and trailing whitespace.
pub open spec fn trimmed(s: Seq<char>) -> Seq<char> {
    let lo = skip_ws(s, 0);
    s.subrange(lo, trim_end(s, lo, s.len() as int))
}

/// What a microcode token parses to: trimmed, an optional `0x` stripped, then
/// read in base 16.
pub open spec fn microcode_spec(s: Seq<char>) -> Option<u64> {
    let t = trimmed(s);
    let u = if t.len() >= 2 && t[0] == '0' && t[1] == 'x' {
        t.skip(2)
    } else {
        t
    };
    from_str_radix_spec(u, 16)
}

fn is_ws_char(c: char) -> (r: bool)
    ensures
        r == is_ws(c),
{
    let v = c as u32;
    (0x09 <= v && v <= 0x0D) || v == 0x20 || v == 0x85 || v == 0xA0 || v == 0x1680 || (0x2000
        <= v && v <= 0x200A) || v == 0x2028 || v == 0x2029 || v == 0x202F || v == 0x205F || v
        == 0x3000
}

/// Parses a microcode-revision token such as `"0xf8"` or `" 0x0200005e "`:
/// surrounding whitespace is trimmed, an `0x` prefix stripped, and the rest
/// read in base 16; `None` when that is not a number that fits in 64 bits.
pub fn parse_microcode_hex(s: &str) -> (r: Option<u64>)
    ensures
        r == microcode_spec(s@),
{
    let c = chars_of(s);
    assert(c@.subrange(0, c@.len() as int) =~= s@);
    parse_microcode_chars(c.as_slice(), 0, c.len())
}

/// Parses the characters `text[a..b]` as a microcode-revision token (see
/// [`microcode_spec`]).
fn parse_microcode_chars(text: &[char], a: usize, b: usize) -> (r: Option<u64>)
    requires
        a <= b <= text@.len(),
    ensures
        r == microcode_spec(text@.subrange(a as int, b as int)),
{
    let c = vstd::slice::slice_subrange(text, a, b);
    let ghost sv = text@.subrange(a as int, b as int);
    let n = c.len();
    let mut lo: usize = 0;
    while lo < n && is_ws_char(c[lo])
        invariant
            n == c@.len(),
            c@ == sv,
            lo <= n,
            skip_ws(c@, 0) == skip_ws(c@, lo as int),
        decreases n - lo,
    {
        lo = lo + 1;
    }
    let mut hi: usize = n;
    while hi > lo && is_ws_char(c[hi - 1])
        invariant
            n == c@.len(),
            c@ == sv,
            lo <= hi <= n,
            skip_ws(c@, 0) == lo,
            trim_end(c@, lo as int, n as int) == trim_end(c@, lo as int, hi as int),
        decreases hi - lo,
    {
        hi = hi - 1;
    }
    let ghost t = c@.subrange(lo as int, hi as int);
    assert(t == trimmed(sv));
    let mut start = lo;
    if hi - lo >= 2 && c[lo] == '0' && c[lo + 1] == 'x' {
        start = lo + 2;
    }
    let ghost u = c@.subrange(start as int, hi as int);
    assert(u =~= if t.len() >= 2 && t[0] == '0' && t[1] == 'x' {
        t.skip(2)
    } else {
        t
    });
    parse_radix(c, start, hi, 16)
}

/// The index of the first newline at or after `i`, or the end of `s`.
pub open spec fn line_end(s: Seq<char>, i: int) -> int
    decreases s.len() - i,
{
    if i < 0 || i >= s.len() || s[i] == '\n' {
        if i < 0 {
            0
        } else {
            i
        }
    } else {
        line_end(s, i + 1)
    }
}

/// The index of the first `:` in `s[i..e]`, or `e`.
pub open spec fn colon_at(s: Seq<char>, i: int, e: int) -> int
    decreases e - i,
{
    if i >= e || s[i] == ':' {
        i
    } else {
        colon_at(s, i + 1, e)
    }
}

/// The text after the first `:` of the first line at or after `i` that begins
/// with `microcode` and holds a `:`.
pub open spec fn microcode_field(s: Seq<char>, i: int) -> Option<Seq<char>>
    decreases s.len() - i,
{
    if i < 0 || i >= s.len() {
        None
    } else {
        let e = line_end(s, i);
        let k = colon_at(s, i + 9, e);
        if e >= i + 9 && s.subrange(i, i + 9) == "microcode"@ && k < e {
            Some(s.subrange(k + 1, e))
        } else if e >= s.len() {
            None
        } else {
            proof {
                lemma_line_end_bounds(s, i);
            }
            microcode_field(s, e + 1)
        }
    }
}

/// What the `microcode` line of `/proc/cpuinfo` text records.
pub open spec fn cpuinfo_microcode_spec(s: Seq<char>) -> Option<u64> {
    match microcode_field(s, 0) {
        Some(v) => microcode_spec(v),
        None => None,
    }
}

/// A line ends at its first newline, or at the end of the text.
pub proof fn lemma_line_end_bounds(s: Seq<char>, i: int)
    requires
        0 <= i <= s.len(),
    ensures
        i <= line_end(s, i) <= s.len(),
        forall|k: int| i <= k < line_end(s, i) ==> s[k] != '\n',
        line_end(s, i) < s.len() ==> s[line_end(s, i)] == '\n',
    decreases s.len() - i,
{
    if i < s.len() && s[i] != '\n' {
        lemma_line_end_bounds(s, i + 1);
    }
}

proof fn lemma_colon_at_bounds(s: Seq<char>, i: int, e: int)
    requires
        i <= e,
    ensures
        i <= colon_at(s, i, e) <= e,
        forall|k: int| i <= k < colon_at(s, i, e) ==> s[k] != ':',
        colon_at(s, i, e) < e ==> s[colon_at(s, i, e)] == ':',
    decreases e - i,
{
    if i < e && s[i] != ':' {
        lemma_colon_at_bounds(s, i + 1, e);
    }
}

/// The microcode revision recorded in `/proc/cpuinfo` text: the value after
/// the first `:` of the first line that begins with `microcode` and holds one
/// (see [`cpuinfo_microcode_spec`]).
pub fn microcode_from_cpuinfo(text: &str) -> (r: Option<u64>)
    ensures
        r == cpuinfo_microcode_spec(text@),
{
    let c = chars_of(text);
    let n = c.len();
    let mut i: usize = 0;
    while i < n
        invariant
            n == c@.len(),
            c@ == text@,
            i <= n,
            microcode_field(c@, 0) == microcode_field(c@, i as int),
        decreases n - i,
    {
        let mut e = i;
        while e < n && c[e] != '\n'
            invariant
                n == c@.len(),
                i <= e <= n,
                line_end(c@, i as int) == line_end(c@, e as int),
            decreases n - e,
        {
            e = e + 1;
        }
        proof {
            lemma_line_end_bounds(c@, i as int);
            assert(line_end(c@, e as int) == e);
            assert(line_end(c@, i as int) == e);
        }
        let starts = e - i >= 9 && c[i] == 'm' && c[i + 1] == 'i' && c[i + 2] == 'c' && c[i + 3]
            == 'r' && c[i + 4] == 'o' && c[i + 5] == 'c' && c[i + 6] == 'o' && c[i + 7] == 'd'
            && c[i + 8] == 'e';
        proof {
            reveal_strlit("microcode");
            if e >= i + 9 {
                if c@.subrange(i as int, i + 9) == "microcode"@ {
                    assert(c@[i as int] == c@.subrange(i as int, i + 9)[0]);
                    assert(c@[i + 1] == c@.subrange(i as int, i + 9)[1]);
                    assert(c@[i + 2] == c@.subrange(i as int, i + 9)[2]);
                    assert(c@[i + 3] == c@.subrange(i as int, i + 9)[3]);
                    assert(c@[i + 4] == c@.subrange(i as int, i + 9)[4]);
                    assert(c@[i + 5] == c@.subrange(i as int, i + 9)[5]);
                    assert(c@[i + 6] == c@.subrange(i as int, i + 9)[6]);
                    assert(c@[i + 7] == c@.subrange(i as int, i + 9)[7]);
                    assert(c@[i + 8] == c@.subrange(i as int, i + 9)[8]);
                }
                if starts {
                    assert(c@.subrange(i as int, i + 9) =~= "microcode"@);
                }
            }
        }
        if starts {
            let mut k = i + 9;
            while k < e && c[k] != ':'
                invariant
                    n == c@.len(),
                    i + 9 <= k <= e <= n,
                    colon_at(c@, i + 9, e as int) == colon_at(c@, k as int, e as int),
                decreases e - k,
            {
                k = k + 1;
            }
            proof {
                assert(colon_at(c@, k as int, e as int) == k);
            }
            if k < e {
                return parse_microcode_chars(c.as_slice(), k + 1, e);
            }
        }
        assert(microcode_field(c@, i as int) == microcode_field(c@, e + 1));
        if e == n {
            return None;
        }
        i = e + 1;
    }
    None
}

// ---------------------------------------------------------------------------
// Variance instructions.
// ---------------------------------------------------------------------------

/// The CPUID feature a variance instruction is gated on: `(present,
/// recognized)` read from CPUID(7, 0) and CPUID(7, 1).EAX.
pub open spec fn insn_spec(m: Seq<char>, l70: CpuidRegs, l71_eax: u32) -> (bool, bool) {
    if m == "RDPID"@ {
        (bit_spec(l70.ecx, 22), true)
    } else if m == "SERIALIZE"@ {
        (bit_spec(l70.edx, 14), true)
    } else if m == "SHA"@ {
        (bit_spec(l70.ebx, 29), true)
    } else if m == "PCONFIG"@ {
        (bit_spec(l70.edx, 18), true)
    } else if m == "HRESET"@ {
        (bit_spec(l71_eax, 22), true)
    } else if m == "UMWAIT"@ || m == "TPAUSE"@ || m == "UMONITOR"@ {
        (bit_spec(l70.ecx, 5), true)
    } else {
        (false, false)
    }
}

/// `(present, recognized)` for a variance instruction given the CPUID leaves.
pub fn insn_present_in(mnemonic: &str, l70: CpuidRegs, l71_eax: u32) -> (r: (bool, bool))
    ensures
        r == insn_spec(mnemonic@, l70, l71_eax),
{
    if str_eq(mnemonic, "RDPID") {
        (bit(l70.ecx, 22), true)
    } else if str_eq(mnemonic, "SERIALIZE") {
        (bit(l70.edx, 14), true)
    } else if str_eq(mnemonic, "SHA") {
        (bit(l70.ebx, 29), true)
    } else if str_eq(mnemonic, "PCONFIG") {
        (bit(l70.edx, 18), true)
    } else if str_eq(mnemonic, "HRESET") {
        (bit(l71_eax, 22), true)
    } else if str_eq(mnemonic, "UMWAIT") || str_eq(mnemonic, "TPAUSE") || str_eq(
        mnemonic,
        "UMONITOR",
    ) {
        (bit(l70.ecx, 5), true)
    } else {
        (false, false)
    }
}

/// Executes CPUID with `leaf` and `subleaf`.
///
/// Trusted: `core::arch::x86_64::__cpuid_count` only reads the processor's
/// identification registers. What it returns is the machine's, so nothing is
/// stated of it.
#[verifier::external_body]
fn cpuid_count(leaf: u32, subleaf: u32) -> (r: CpuidRegs) {
    let r = core::arch::x86_64::__cpuid_count(leaf, subleaf);
    CpuidRegs { eax: r.eax, ebx: r.ebx, ecx: r.ecx, edx: r.edx }
}

/// `(present, recognized)` for a variance instruction on this host, by its
/// CPUID feature bit. An unrecognized mnemonic is never reported present.
pub fn insn_present(mnemonic: &str) -> (r: (bool, bool))
    ensures
        r.1 == insn_spec(mnemonic@, CpuidRegs { eax: 0, ebx: 0, ecx: 0, edx: 0 }, 0).1,
        !r.1 ==> !r.0,
{
    let l70 = cpuid_count(7, 0);
    let l71 = cpuid_count(7, 1);
    insn_present_in(mnemonic, l70, l71.eax)
}

// ---------------------------------------------------------------------------
// Evaluation.
// ---------------------------------------------------------------------------

pub open spec fn rtm_expected() -> Seq<char> {
    "rtm physically absent (the IA32_TSX_CTRL pin is not installed by this skeleton)"@
}

pub open spec fn rtm_present_actual() -> Seq<char> {
    "rtm-present, and this skeleton does not install the IA32_TSX_CTRL pin (RTM_DISABLE|TSX_CPUID_CLEAR) before KVM_RUN \u{2014} RTM would run native"@
}

pub open spec fn rtm_absent_actual() -> Seq<char> {
    "rtm-absent (XBEGIN #UDs; already non-usable)"@
}

/// The outcome of the host-absent assertion for mnemonic `m`.
pub open spec fn absent_outcome(m: Seq<char>, p: HostProbe) -> (
    Seq<char>,
    Seq<char>,
    Seq<char>,
    bool,
) {
    let (present, known) = insn_spec(m, p.leaf7_0, p.leaf7_1.eax);
    (
        "host-absent "@ + m,
        "absent"@,
        if !known {
            "unrecognized mnemonic \u{2014} cannot verify absence"@
        } else if present {
            "present"@
        } else {
            "absent"@
        },
        known && !present,
    )
}

/// The fixed assertions, in order: family/model/stepping, microcode
/// revision, `MXCSR_MASK`, MAXPHYADDR, and (when required) RTM absence.
pub open spec fn fixed_outcomes(e: &HostExpectations, p: HostProbe) -> Seq<
    (Seq<char>, Seq<char>, Seq<char>, bool),
> {
    let fms = ascii_chars(fms_bytes(p.cpuid1_eax));
    let maxpa = p.cpuid_80000008_eax & 0xff;
    let rtm = bit_spec(p.leaf7_0.ebx, 11);
    let base = seq![
        ("family-model-stepping"@, e.family_model_stepping@, fms, fms == e.family_model_stepping@),
        (
            "host-microcode-rev"@,
            prefixed_hex(e.microcode_rev as nat, 16),
            match p.microcode_rev {
                Some(rev) => prefixed_hex(rev as nat, 16),
                None => "unreadable"@,
            },
            match p.microcode_rev {
                Some(rev) => rev == e.microcode_rev,
                None => false,
            },
        ),
        (
            "mxcsr-mask"@,
            prefixed_hex(e.mxcsr_mask as nat, 4),
            prefixed_hex(p.mxcsr_mask as nat, 4),
            p.mxcsr_mask == e.mxcsr_mask,
        ),
        (
            "maxphyaddr-min"@,
            ">= "@ + decimal_chars(e.maxphyaddr_min as nat),
            decimal_chars(maxpa as nat),
            maxpa >= e.maxphyaddr_min,
        ),
    ];
    if e.rtm_disabled {
        base.push(
            (
                "rtm-disabled"@,
                rtm_expected(),
                if rtm {
                    rtm_present_actual()
                } else {
                    rtm_absent_actual()
                },
                !rtm,
            ),
        )
    } else {
        base
    }
}

/// Every assertion's outcome: the fixed ones, then one host-absent outcome
/// per listed mnemonic.
pub open spec fn evaluate_spec(e: &HostExpectations, p: HostProbe) -> Seq<
    (Seq<char>, Seq<char>, Seq<char>, bool),
> {
    fixed_outcomes(e, p) + e.host_absent@.map_values(|m: String| absent_outcome(m@, p))
}

/// Each assertion passes exactly when the host presents the baseline: the
/// family/model/stepping text equals the baseline's; the microcode revision is
/// readable and equal to the baseline revision; `MXCSR_MASK` is equal;
/// MAXPHYADDR is at least the minimum; RTM, when it must be disabled, is absent
/// (CPUID.7.0:EBX bit 11 clear); and each listed instruction is recognized and
/// absent. There is one outcome per fixed assertion and per listed instruction.
pub proof fn lemma_assertions_pass_exactly_on_the_baseline(e: &HostExpectations, p: HostProbe)
    ensures
        ({
            let os = evaluate_spec(e, p);
            let fixed: int = if e.rtm_disabled {
                5
            } else {
                4
            };
            &&& os.len() == fixed + e.host_absent@.len()
            &&& os[0].0 == "family-model-stepping"@
            &&& os[0].3 == (ascii_chars(fms_bytes(p.cpuid1_eax)) == e.family_model_stepping@)
            &&& os[1].0 == "host-microcode-rev"@
            &&& os[1].3 == (p.microcode_rev == Some(e.microcode_rev))
            &&& os[2].0 == "mxcsr-mask"@
            &&& os[2].3 == (p.mxcsr_mask == e.mxcsr_mask)
            &&& os[3].0 == "maxphyaddr-min"@
            &&& os[3].3 == ((p.cpuid_80000008_eax & 0xff) >= e.maxphyaddr_min)
            &&& e.rtm_disabled ==> os[4].0 == "rtm-disabled"@ && os[4].3 == !bit_spec(p.leaf7_0.ebx, 11)
            &&& forall|i: int|
                0 <= i < e.host_absent@.len() ==> (#[trigger] os[fixed + i]).3 == (insn_spec(
                    e.host_absent@[i]@,
                    p.leaf7_0,
                    p.leaf7_1.eax,
                ).1 && !insn_spec(e.host_absent@[i]@, p.leaf7_0, p.leaf7_1.eax).0)
        }),
{
    let os = evaluate_spec(e, p);
    let f = fixed_outcomes(e, p);
    let fixed: int = if e.rtm_disabled {
        5
    } else {
        4
    };
    assert(f.len() == fixed);
    assert(os[1] == f[1]);
    assert forall|i: int| 0 <= i < e.host_absent@.len() implies (#[trigger] os[fixed + i]).3 == (
    insn_spec(e.host_absent@[i]@, p.leaf7_0, p.leaf7_1.eax).1 && !insn_spec(
        e.host_absent@[i]@,
        p.leaf7_0,
        p.leaf7_1.eax,
    ).0) by {
        assert(os[fixed + i] == absent_outcome(e.host_absent@[i]@, p));
    }
}

/// Evaluates every host-baseline assertion against what the host presented.
pub fn evaluate(exp: &HostExpectations, probe: HostProbe) -> (r: Vec<Outcome>)
    ensures
        r@.map_values(|o: Outcome| outcome_view(o)) == evaluate_spec(exp, probe),
{
    let mut out: Vec<Outcome> = Vec::new();

    let fms = fmt_fms(probe.cpuid1_eax);
    let fms_pass = str_eq(fms.as_str(), exp.family_model_stepping.as_str());
    out.push(
        Outcome::new(lit("family-model-stepping"), exp.family_model_stepping.clone(), fms, fms_pass),
    );

    let (uc_actual, uc_pass) = match probe.microcode_rev {
        Some(rev) => (fmt_hex(rev), rev == exp.microcode_rev),
        None => (lit("unreadable"), false),
    };
    out.push(Outcome::new(lit("host-microcode-rev"), fmt_hex(exp.microcode_rev), uc_actual, uc_pass));

    out.push(
        Outcome::new(
            lit("mxcsr-mask"),
            prefixed_hex_string(exp.mxcsr_mask as u64, 4),
            prefixed_hex_string(probe.mxcsr_mask as u64, 4),
            probe.mxcsr_mask == exp.mxcsr_mask,
        ),
    );

    let maxpa = probe.cpuid_80000008_eax & 0xff;
    let mut min_text = lit(">= ");
    let min_digits = decimal_string(exp.maxphyaddr_min as u64);
    min_text.append(min_digits.as_str());
    out.push(
        Outcome::new(
            lit("maxphyaddr-min"),
            min_text,
            decimal_string(maxpa as u64),
            maxpa >= exp.maxphyaddr_min,
        ),
    );

    if exp.rtm_disabled {
        let rtm = bit(probe.leaf7_0.ebx, 11);
        let actual = if rtm {
            lit(
                "rtm-present, and this skeleton does not install the IA32_TSX_CTRL pin (RTM_DISABLE|TSX_CPUID_CLEAR) before KVM_RUN \u{2014} RTM would run native",
            )
        } else {
            lit("rtm-absent (XBEGIN #UDs; already non-usable)")
        };
        out.push(
            Outcome::new(
                lit("rtm-disabled"),
                lit(
                    "rtm physically absent (the IA32_TSX_CTRL pin is not installed by this skeleton)",
                ),
                actual,
                !rtm,
            ),
        );
    }
    let ghost fixed = out@.map_values(|o: Outcome| outcome_view(o));
    assert(fixed =~= fixed_outcomes(exp, probe));

    let n = exp.host_absent.len();
    let mut i: usize = 0;
    while i < n
        invariant
            n == exp.host_absent@.len(),
            i <= n,
            out@.map_values(|o: Outcome| outcome_view(o)) == fixed_outcomes(exp, probe)
                + exp.host_absent@.subrange(0, i as int).map_values(
                |m: String| absent_outcome(m@, probe),
            ),
        decreases n - i,
    {
        let mnem = exp.host_absent[i].as_str();
        let (present, known) = insn_present_in(mnem, probe.leaf7_0, probe.leaf7_1.eax);
        let actual = if !known {
            lit("unrecognized mnemonic \u{2014} cannot verify absence")
        } else if present {
            lit("present")
        } else {
            lit("absent")
        };
        let mut key = lit("host-absent ");
        key.append(mnem);
        let ghost before = out@.map_values(|o: Outcome| outcome_view(o));
        out.push(Outcome::new(key, lit("absent"), actual, known && !present));
        i = i + 1;
        assert(exp.host_absent@.subrange(0, i as int).map_values(
            |m: String| absent_outcome(m@, probe),
        ) =~= exp.host_absent@.subrange(0, i - 1).map_values(
            |m: String| absent_outcome(m@, probe),
        ).push(absent_outcome(exp.host_absent@[i - 1]@, probe)));
        assert(out@.map_values(|o: Outcome| outcome_view(o)) =~= before.push(
            absent_outcome(exp.host_absent@[i - 1]@, probe),
        ));
    }
    assert(exp.host_absent@.subrange(0, n as int) =~= exp.host_absent@);
    out
}

// ---------------------------------------------------------------------------
// Verdict.
// ---------------------------------------------------------------------------

/// The report line of a failed outcome.
pub open spec fn failure_line(o: (Seq<char>, Seq<char>, Seq<char>, bool)) -> Seq<char> {
    o.0 + " (expected "@ + o.1 + ", observed "@ + o.2 + ")"@
}

/// The report lines of the failed outcomes, in order.
pub open spec fn failure_lines(os: Seq<(Seq<char>, Seq<char>, Seq<char>, bool)>) -> Seq<
    Seq<char>,
>
    decreases os.len(),
{
    if os.len() == 0 {
        Seq::empty()
    } else {
        let rest = failure_lines(os.drop_last());
        if !os.last().3 {
            rest.push(failure_line(os.last()))
        } else {
            rest
        }
    }
}

/// `parts` joined with `"; "`.
pub open spec fn join_lines(parts: Seq<Seq<char>>) -> Seq<char>
    decreases parts.len(),
{
    if parts.len() == 0 {
        Seq::empty()
    } else if parts.len() == 1 {
        parts[0]
    } else {
        join_lines(parts.drop_last()) + "; "@ + parts.last()
    }
}

/// The outcomes produce no failure line exactly when every one of them
/// passed.
pub proof fn lemma_no_failure_lines(os: Seq<(Seq<char>, Seq<char>, Seq<char>, bool)>)
    ensures
        (failure_lines(os).len() == 0) == (forall|i: int| 0 <= i < os.len() ==> (#[trigger] os[i]).3),
    decreases os.len(),
{
    if os.len() > 0 {
        lemma_no_failure_lines(os.drop_last());
        if forall|i: int| 0 <= i < os.len() ==> (#[trigger] os[i]).3 {
            assert forall|i: int| 0 <= i < os.drop_last().len() implies (
            #[trigger] os.drop_last()[i]).3 by {
                assert(os.drop_last()[i] == os[i]);
            }
        } else {
            let k = choose|i: int| 0 <= i < os.len() && !(#[trigger] os[i]).3;
            if k < os.len() - 1 {
                assert(os.drop_last()[k] == os[k]);
            }
        }
    }
}

/// `Ok` when every outcome passed, else a host-assert error listing each
/// failure as `key (expected E, observed A)`, joined with `"; "`.
pub fn verdict(outcomes: Vec<Outcome>) -> (r: Result<(), VmmError>)
    ensures
        ({
            let os = outcomes@.map_values(|o: Outcome| outcome_view(o));
            if forall|i: int| 0 <= i < os.len() ==> (#[trigger] os[i]).3 {
                r is Ok
            } else {
                r matches Err(VmmError::HostAssert(msg)) && msg@ == join_lines(failure_lines(os))
            }
        }),
{
    let ghost os = outcomes@.map_values(|o: Outcome| outcome_view(o));
    let n = outcomes.len();
    let mut msg = String::new();
    let mut count: usize = 0;
    let mut i: usize = 0;
    while i < n
        invariant
            n == outcomes@.len(),
            os == outcomes@.map_values(|o: Outcome| outcome_view(o)),
            i <= n,
            count == failure_lines(os.take(i as int)).len(),
            msg@ == join_lines(failure_lines(os.take(i as int))),
            count <= i,
        decreases n - i,
    {
        let o = &outcomes[i];
        assert(os.take(i + 1).drop_last() =~= os.take(i as int));
        assert(os.take(i + 1).last() == os[i as int]);
        if !o.pass {
            if count > 0 {
                msg.append("; ");
            }
            msg.append(o.key.as_str());
            msg.append(" (expected ");
            msg.append(o.expected.as_str());
            msg.append(", observed ");
            msg.append(o.actual.as_str());
            msg.append(")");
            count = count + 1;
            proof {
                let lines = failure_lines(os.take(i + 1));
                assert(lines.drop_last() == failure_lines(os.take(i as int)));
                if lines.len() == 1 {
                    assert(failure_lines(os.take(i as int)).len() == 0);
                    assert(msg@ =~= failure_line(os[i as int]));
                } else {
                    assert(msg@ =~= join_lines(failure_lines(os.take(i as int))) + "; "@
                        + failure_line(os[i as int]));
                }
            }
        }
        i = i + 1;
    }
    assert(os.take(n as int) =~= os);
    proof {
        lemma_no_failure_lines(os);
    }
    if count == 0 {
        Ok(())
    } else {
        Err(VmmError::HostAssert(msg))
    }
}

} // verus!
