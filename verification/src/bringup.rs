//! Boot-image classification and the backend selector of the composition
//! root.
//!
//! A Linux bzImage is recognized by its setup header: the `0xAA55` boot flag,
//! the `HdrS` magic, a boot-protocol version of at least 2.12, and the
//! `XLF_KERNEL_64` load flag. A Multiboot v1 image is recognized by a 4-byte
//! aligned header in its first 8 KiB whose magic, flags, and checksum sum to
//! zero modulo 2^32.

use vstd::prelude::*;

verus! {

/// Which trap apparatus to run under.
#[derive(Clone, Copy, PartialEq, Eq, Debug)]
pub enum BackendKind {
    /// Stock KVM: the bring-up default, not determinism-complete.
    Stock,
    /// Patched KVM: the determinism baseline.
    Patched,
}

/// Which image format a payload is.
#[derive(Clone, Copy, PartialEq, Eq, Debug)]
pub enum ImageKind {
    /// A Multiboot v1 image.
    Multiboot,
    /// A Linux bzImage.
    Linux,
}

/// Multiboot v1 header magic.
pub const MULTIBOOT_HEADER_MAGIC: u32 = 0x1BAD_B002;
/// Multiboot v1 headers lie within this many leading bytes.
pub const MULTIBOOT_SEARCH: usize = 8192;
/// `HdrS`.
pub const LINUX_HDRS_MAGIC: u32 = 0x5372_6448;
/// The least boot-protocol version the loader supports (2.12).
pub const LINUX_MIN_VERSION: u16 = 0x020C;
/// Offsets in the setup header.
pub const OFF_BOOT_FLAG: usize = 0x1FE;
pub const OFF_HEADER: usize = 0x202;
pub const OFF_VERSION: usize = 0x206;
pub const OFF_XLOADFLAGS: usize = 0x236;
/// The setup header extends to here (through `pref_address`).
pub const SETUP_HEADER_END: usize = 0x260;

/// Little-endian 16-bit value at `o`.
pub open spec fn le16(b: Seq<u8>, o: int) -> nat {
    b[o] as nat + 256 * (b[o + 1] as nat)
}

/// Little-endian 32-bit value at `o`.
pub open spec fn le32(b: Seq<u8>, o: int) -> nat {
    b[o] as nat + 256 * (b[o + 1] as nat) + 65536 * (b[o + 2] as nat) + 16777216 * (b[o
        + 3] as nat)
}

/// Whether `image` carries a supported bzImage setup header.
pub open spec fn linux_header_ok(image: Seq<u8>) -> bool {
    &&& image.len() >= SETUP_HEADER_END
    &&& le16(image, OFF_BOOT_FLAG as int) == 0xAA55
    &&& le32(image, OFF_HEADER as int) == LINUX_HDRS_MAGIC
    &&& le16(image, OFF_VERSION as int) >= LINUX_MIN_VERSION
    &&& le16(image, OFF_XLOADFLAGS as int) % 2 == 1
}

/// Whether a Multiboot v1 header starts at `o`.
pub open spec fn multiboot_header_at(image: Seq<u8>, o: int) -> bool {
    &&& 0 <= o
    &&& o % 4 == 0
    &&& o + 12 <= image.len()
    &&& o + 12 <= MULTIBOOT_SEARCH
    &&& le32(image, o) == MULTIBOOT_HEADER_MAGIC
    &&& (le32(image, o) + le32(image, o + 4) + le32(image, o + 8)) % 0x1_0000_0000 == 0
}

/// Whether `image` carries a Multiboot v1 header.
pub open spec fn multiboot_ok(image: Seq<u8>) -> bool {
    exists|o: int| multiboot_header_at(image, o)
}

/// Little-endian 16-bit value at `o`.
pub fn read_le16(b: &[u8], o: usize) -> (r: u16)
    requires
        o + 2 <= b@.len(),
    ensures
        r == le16(b@, o as int),
{
    (b[o] as u16) + (b[o + 1] as u16) * 256
}

/// Little-endian 32-bit value at `o`.
pub fn read_le32(b: &[u8], o: usize) -> (r: u32)
    requires
        o + 4 <= b@.len(),
    ensures
        r == le32(b@, o as int),
{
    (b[o] as u32) + (b[o + 1] as u32) * 256 + (b[o + 2] as u32) * 65536 + (b[o + 3] as u32)
        * 16777216
}

/// Whether `image` carries a supported bzImage setup header.
pub fn parse_setup_header(image: &[u8]) -> (r: bool)
    ensures
        r == linux_header_ok(image@),
{
    if image.len() < SETUP_HEADER_END {
        return false;
    }
    read_le16(image, OFF_BOOT_FLAG) == 0xAA55 && read_le32(image, OFF_HEADER) == LINUX_HDRS_MAGIC
        && read_le16(image, OFF_VERSION) >= LINUX_MIN_VERSION && read_le16(image, OFF_XLOADFLAGS)
        % 2 == 1
}

/// The offset of the first Multiboot v1 header in `image`, if any.
pub fn find_multiboot_header(image: &[u8]) -> (r: Option<usize>)
    ensures
        match r {
            Some(o) => multiboot_header_at(image@, o as int) && forall|q: int|
                0 <= q < o ==> !multiboot_header_at(image@, q),
            None => !multiboot_ok(image@),
        },
{
    let n = image.len();
    let mut o: usize = 0;
    while o + 12 <= n && o + 12 <= MULTIBOOT_SEARCH
        invariant
            n == image@.len(),
            o % 4 == 0,
            o <= MULTIBOOT_SEARCH,
            forall|q: int| 0 <= q < o ==> !multiboot_header_at(image@, q),
        decreases MULTIBOOT_SEARCH - o,
    {
        let magic = read_le32(image, o);
        if magic == MULTIBOOT_HEADER_MAGIC {
            let flags = read_le32(image, o + 4);
            let checksum = read_le32(image, o + 8);
            if (magic as u64 + flags as u64 + checksum as u64) % 0x1_0000_0000 == 0 {
                return Some(o);
            }
        }
        proof {
            assert forall|q: int| 0 <= q < o + 4 implies !multiboot_header_at(image@, q) by {
                if q > o && q < o + 4 {
                    assert(q % 4 != 0);
                }
            }
        }
        o = o + 4;
    }
    assert forall|q: int| !multiboot_header_at(image@, q) by {
        if q >= o && multiboot_header_at(image@, q) {
            assert(q + 12 <= n && q + 12 <= MULTIBOOT_SEARCH);
        }
    }
    None
}

impl ImageKind {
    /// Classifies `image`: a supported bzImage setup header is Linux, else a
    /// Multiboot v1 header is Multiboot, else `None`.
    pub fn detect(image: &[u8]) -> (r: Option<ImageKind>)
        ensures
            r == if linux_header_ok(image@) {
                Some(ImageKind::Linux)
            } else if multiboot_ok(image@) {
                Some(ImageKind::Multiboot)
            } else {
                None::<ImageKind>
            },
    {
        if parse_setup_header(image) {
            Some(ImageKind::Linux)
        } else if find_multiboot_header(image).is_some() {
            Some(ImageKind::Multiboot)
        } else {
            None
        }
    }
}

} // verus!
