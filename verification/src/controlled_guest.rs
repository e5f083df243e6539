//! Admission of controlled Linux guests: only an admitted combination of kernel
//! image, initramfs, guest RAM size, and command line receives a logical
//! identity, and that identity is a domain-separated SHA-256 over the
//! combination.

use vstd::prelude::*;
use vstd::bytes::spec_u64_to_le_bytes;
use vstd::string::StringSliceAdditionalSpecFns;
use crate::digest::{sha256, sha256_spec};
use crate::harness::{hex_bytes, hex_string, lemma_hex_bytes_ascii};
use crate::text::{all_ascii, append, ascii_chars, str_eq};
use crate::wire::put_u64;

verus! {

broadcast use vstd::string::group_string_axioms;

/// One admitted guest profile: the lower-case hexadecimal SHA-256 of its kernel image
/// and of its initramfs, its RAM size, and its kernel command line.
#[derive(Clone, Debug, PartialEq, Eq)]
pub struct AdmittedProfile {
    pub kernel: String,
    pub initramfs: String,
    pub ram_bytes: usize,
    pub cmdline: String,
}

/// Whether `e` is exactly the given combination.
pub open spec fn entry_matches(
    e: AdmittedProfile,
    kernel: Seq<char>,
    initramfs: Seq<char>,
    ram: usize,
    cmdline: Seq<char>,
) -> bool {
    e.kernel@ == kernel && e.initramfs@ == initramfs && e.ram_bytes == ram && e.cmdline@ == cmdline
}

/// Whether some admitted entry is exactly the given combination.
pub open spec fn is_admitted(
    admitted: Seq<AdmittedProfile>,
    kernel: Seq<char>,
    initramfs: Seq<char>,
    ram: usize,
    cmdline: Seq<char>,
) -> bool {
    exists|i: int|
        0 <= i < admitted.len() && #[trigger] entry_matches(admitted[i], kernel, initramfs, ram, cmdline)
}

/// The identity domain tag, `harmony.verified-linux-xsave-profile.v1` and a
/// NUL.
pub open spec fn identity_tag() -> Seq<u8> {
    "harmony.verified-linux-xsave-profile.v1\0".spec_bytes()
}

/// The identity preimage: the tag, the two digests as text, the RAM size as a
/// little-endian 64-bit integer, and the command line.
pub open spec fn identity_preimage(kernel: Seq<u8>, initramfs: Seq<u8>, ram: usize, cmdline: Seq<u8>) -> Seq<
    u8,
> {
    identity_tag() + kernel + initramfs + spec_u64_to_le_bytes(ram as u64) + cmdline
}

/// The logical identity of an admitted combination given by its digests as
/// text; `None` for any combination not admitted exactly.
pub fn match_hashes(
    admitted: &[AdmittedProfile],
    kernel: &str,
    initramfs: &str,
    ram: usize,
    cmdline: &str,
) -> (r: Option<[u8; 32]>)
    ensures
        if is_admitted(admitted@, kernel@, initramfs@, ram, cmdline@) {
            r matches Some(h) && h@ == sha256_spec(
                identity_preimage(kernel.spec_bytes(), initramfs.spec_bytes(), ram, cmdline.spec_bytes()),
            )
        } else {
            r is None
        },
{
    let n = admitted.len();
    let mut found = false;
    let mut i: usize = 0;
    while i < n && !found
        invariant
            n == admitted@.len(),
            i <= n,
            found ==> is_admitted(admitted@, kernel@, initramfs@, ram, cmdline@),
            !found ==> forall|k: int|
                0 <= k < i ==> !entry_matches(#[trigger] admitted@[k], kernel@, initramfs@, ram, cmdline@),
        decreases 2 * (n - i) + if found {
            0int
        } else {
            1int
        },
    {
        let e = &admitted[i];
        if str_eq(kernel, e.kernel.as_str()) && str_eq(initramfs, e.initramfs.as_str())
            && ram == e.ram_bytes && str_eq(cmdline, e.cmdline.as_str()) {
            assert(entry_matches(admitted@[i as int], kernel@, initramfs@, ram, cmdline@));
            found = true;
        } else {
            i = i + 1;
        }
    }
    if !found {
        return None;
    }
    let mut pre: Vec<u8> = Vec::new();
    append(&mut pre, "harmony.verified-linux-xsave-profile.v1\0".as_bytes());
    append(&mut pre, kernel.as_bytes());
    append(&mut pre, initramfs.as_bytes());
    put_u64(&mut pre, ram as u64);
    append(&mut pre, cmdline.as_bytes());
    assert(pre@ =~= identity_preimage(kernel.spec_bytes(), initramfs.spec_bytes(), ram, cmdline.spec_bytes()));
    Some(sha256(pre.as_slice()))
}

/// The lower-case hexadecimal text of the SHA-256 of `data`, as bytes.
pub open spec fn digest_hex(data: Seq<u8>) -> Seq<u8> {
    hex_bytes(sha256_spec(data))
}

proof fn lemma_ascii_text_bytes(s: &str, v: Seq<u8>)
    requires
        all_ascii(v),
        s@ == ascii_chars(v),
    ensures
        s.spec_bytes() == v,
{
    assert(vstd::utf8::is_ascii_chars(s@)) by {
        assert forall|i: int| 0 <= i < s@.len() implies '\0' <= #[trigger] s@[i] <= '\u{7f}' by {
            assert(s@[i] == v[i] as char);
        }
    }
    vstd::utf8::is_ascii_chars_encode_utf8(s@);
    assert(s.spec_bytes() =~= v);
}

/// The logical identity of a guest: its kernel image and initramfs are
/// identified by the text of their SHA-256 digests, and only an admitted
/// combination has an identity (see [`match_hashes`]).
pub fn linux_identity(
    admitted: &[AdmittedProfile],
    kernel: &[u8],
    initramfs: &[u8],
    ram_bytes: usize,
    cmdline: &str,
) -> (r: Option<[u8; 32]>)
    ensures
        ({
            let kh = digest_hex(kernel@);
            let ih = digest_hex(initramfs@);
            if is_admitted(admitted@, ascii_chars(kh), ascii_chars(ih), ram_bytes, cmdline@) {
                r matches Some(h) && h@ == sha256_spec(
                    identity_preimage(kh, ih, ram_bytes, cmdline.spec_bytes()),
                )
            } else {
                r is None
            }
        }),
{
    let kd = sha256(kernel);
    let id = sha256(initramfs);
    let kh = hex_string(kd.as_slice());
    let ih = hex_string(id.as_slice());
    let ks = kh.as_str();
    let is = ih.as_str();
    proof {
        lemma_hex_bytes_ascii(kd@);
        lemma_hex_bytes_ascii(id@);
        lemma_ascii_text_bytes(ks, digest_hex(kernel@));
        lemma_ascii_text_bytes(is, digest_hex(initramfs@));
    }
    match_hashes(admitted, ks, is, ram_bytes, cmdline)
}

} // verus!
