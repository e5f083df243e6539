use vmm_core::bringup::{find_multiboot_header, parse_setup_header, read_le16, read_le32, ImageKind};

const MB_HEADER_MAGIC: u32 = 0x1BAD_B002;
const HDR_OFF: usize = 0x1000;
const LOAD_ADDR: u32 = 0x2000;
const LOAD_END: u32 = 0x2040;
const BSS_END: u32 = 0x2080;
const ENTRY_ADDR: u32 = 0x2000;
const MARKER: u8 = 0x5A;

fn synthetic_multiboot() -> Vec<u8> {
    let flags: u32 = 1 << 16;
    let checksum = 0u32.wrapping_sub(MB_HEADER_MAGIC).wrapping_sub(flags);
    let fields = [
        MB_HEADER_MAGIC,
        flags,
        checksum,
        LOAD_ADDR,
        LOAD_ADDR,
        LOAD_END,
        BSS_END,
        ENTRY_ADDR,
    ];
    let copy_len = (LOAD_END - LOAD_ADDR) as usize;
    let mut img = vec![0u8; HDR_OFF + copy_len];
    for (i, f) in fields.iter().enumerate() {
        img[HDR_OFF + i * 4..HDR_OFF + i * 4 + 4].copy_from_slice(&f.to_le_bytes());
    }
    img[HDR_OFF + 32] = MARKER;
    img
}

fn synthetic_bzimage(pref_address: u32, pm_len: usize) -> Vec<u8> {
    let pm_off = (1 + 1) * 512usize;
    let mut img = vec![0u8; pm_off + pm_len];
    img[0x1f1] = 1;
    img[0x1fe..0x200].copy_from_slice(&0xAA55u16.to_le_bytes());
    img[0x202..0x206].copy_from_slice(&0x5372_6448u32.to_le_bytes());
    img[0x206..0x208].copy_from_slice(&0x020fu16.to_le_bytes());
    img[0x22c..0x230].copy_from_slice(&0x7FFF_FFFFu32.to_le_bytes());
    img[0x236..0x238].copy_from_slice(&1u16.to_le_bytes());
    img[0x238..0x23c].copy_from_slice(&0x7FFu32.to_le_bytes());
    img[0x258..0x260].copy_from_slice(&u64::from(pref_address).to_le_bytes());
    for (i, b) in img[pm_off..].iter_mut().enumerate() {
        *b = (0x11 + (i % 0x40)) as u8;
    }
    img
}

#[test]
fn image_kind_detects_linux_multiboot_and_garbage() {
    assert_eq!(
        ImageKind::detect(&synthetic_bzimage(0x10_0000, 0x400)),
        Some(ImageKind::Linux)
    );
    assert_eq!(
        ImageKind::detect(&synthetic_multiboot()),
        Some(ImageKind::Multiboot)
    );
    assert_eq!(ImageKind::detect(&[0u8; 4096]), None);
    assert_eq!(ImageKind::detect(&[]), None);
}

#[test]
fn setup_header_rejects_each_broken_field() {
    let good = synthetic_bzimage(0x10_0000, 0x400);
    assert!(parse_setup_header(&good));
    let mut old = good.clone();
    old[0x206..0x208].copy_from_slice(&0x020bu16.to_le_bytes());
    assert!(!parse_setup_header(&old));
    let mut no64 = good.clone();
    no64[0x236..0x238].copy_from_slice(&2u16.to_le_bytes());
    assert!(!parse_setup_header(&no64));
    let mut noflag = good.clone();
    noflag[0x1fe] = 0;
    assert!(!parse_setup_header(&noflag));
    let mut nomagic = good.clone();
    nomagic[0x205] = 0;
    assert!(!parse_setup_header(&nomagic));
    assert!(!parse_setup_header(&good[..0x25f]));
    assert!(parse_setup_header(&good[..0x260]));
}

#[test]
fn multiboot_header_needs_alignment_checksum_and_the_search_window() {
    assert_eq!(find_multiboot_header(&synthetic_multiboot()), Some(HDR_OFF));
    let mut bad_sum = synthetic_multiboot();
    bad_sum[HDR_OFF + 8] ^= 1;
    assert_eq!(find_multiboot_header(&bad_sum), None);
    let mut unaligned = vec![0u8; 2];
    unaligned.extend_from_slice(&synthetic_multiboot());
    assert_eq!(find_multiboot_header(&unaligned), None);
    let mut far = vec![0u8; 8192 - HDR_OFF];
    far.extend_from_slice(&synthetic_multiboot());
    assert_eq!(find_multiboot_header(&far), None);
    let mut last = vec![0u8; 8192 - 12 - HDR_OFF];
    last.extend_from_slice(&synthetic_multiboot());
    assert_eq!(find_multiboot_header(&last), Some(8192 - 12));
}

#[test]
fn little_endian_reads() {
    let b = [0x01, 0x02, 0x03, 0x04, 0x05];
    assert_eq!(read_le16(&b, 0), 0x0201);
    assert_eq!(read_le32(&b, 1), 0x0504_0302);
}
