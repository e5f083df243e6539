use vmm_core::controlled_guest::{linux_identity, match_hashes, AdmittedProfile};

const KERNEL_HEX: &str = "6923dd1bc0460082c5d55a831908c24a282860b7f1cd6c2b79cf1bc8857c639c";
const INITRD_HEX: &str = "09e6c018d2c8c4903308613dd1b72484d57eadf12ec50ddc8f52e5accce470f2";

fn admitted() -> Vec<AdmittedProfile> {
    vec![
        AdmittedProfile {
            kernel: "aa".repeat(32),
            initramfs: "bb".repeat(32),
            ram_bytes: 1 << 20,
            cmdline: "console=ttyS0 quiet".to_string(),
        },
        AdmittedProfile {
            kernel: KERNEL_HEX.to_string(),
            initramfs: INITRD_HEX.to_string(),
            ram_bytes: 4096,
            cmdline: "console=ttyS0".to_string(),
        },
    ]
}

fn hex(bytes: &[u8]) -> String {
    bytes.iter().map(|b| format!("{b:02x}")).collect()
}

#[test]
fn only_exact_reviewed_linux_inputs_select_logical_identity() {
    let table = admitted();
    let id = linux_identity(&table, b"kernel", b"initrd", 4096, "console=ttyS0").unwrap();
    assert_eq!(
        hex(&id),
        "e2c99ebc49146e7030977959ee48dc7d9847be01391a64248960ce44d009c382"
    );
    assert_eq!(linux_identity(&table, b"kernel!", b"initrd", 4096, "console=ttyS0"), None);
    assert_eq!(linux_identity(&table, b"kernel", b"initrd", 8192, "console=ttyS0"), None);
    assert_eq!(
        linux_identity(&table, b"kernel", b"initrd", 4096, "console=ttyS0 init=/bin/sh"),
        None
    );
    assert_eq!(linux_identity(&[], b"kernel", b"initrd", 4096, "console=ttyS0"), None);
    assert_eq!(
        match_hashes(&table, KERNEL_HEX, INITRD_HEX, 4096, "console=ttyS0"),
        Some(id)
    );
    let other = match_hashes(&table, &"aa".repeat(32), &"bb".repeat(32), 1 << 20, "console=ttyS0 quiet");
    assert!(other.is_some());
    assert_ne!(other, Some(id), "admitted profiles must be distinct");
    assert_eq!(
        match_hashes(&table, &"aa".repeat(32), INITRD_HEX, 4096, "console=ttyS0"),
        None
    );
}
