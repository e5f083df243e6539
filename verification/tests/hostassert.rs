use vmm_core::hostassert::{
    bit, evaluate, fmt_fms, fmt_hex, insn_present, insn_present_in, microcode_from_cpuinfo,
    parse_microcode_hex, verdict,
    CpuidRegs, HostExpectations, HostProbe, Outcome,
};
use vmm_core::vmm::VmmError;

fn regs(eax: u32, ebx: u32, ecx: u32, edx: u32) -> CpuidRegs {
    CpuidRegs { eax, ebx, ecx, edx }
}

fn baseline() -> HostExpectations {
    HostExpectations {
        family_model_stepping: "06_9e_0c".to_string(),
        microcode_rev: 0xf8,
        mxcsr_mask: 0xffff,
        maxphyaddr_min: 39,
        rtm_disabled: true,
        host_absent: ["RDPID", "SERIALIZE", "SHA", "PCONFIG", "HRESET", "UMWAIT"]
            .iter()
            .map(|s| s.to_string())
            .collect(),
    }
}

fn matching_probe() -> HostProbe {
    HostProbe {
        cpuid1_eax: 0x0009_06ec,
        microcode_rev: Some(0xf8),
        mxcsr_mask: 0xffff,
        cpuid_80000008_eax: 0x3027,
        leaf7_0: regs(0, 0, 0, 0),
        leaf7_1: regs(0, 0, 0, 0),
    }
}

fn o(key: &str, expected: &str, actual: &str, pass: bool) -> Outcome {
    Outcome::new(key.to_string(), expected.to_string(), actual.to_string(), pass)
}

#[test]
fn report_is_well_formed_and_enforce_agrees() {
    let exp = baseline();
    let mut probes = vec![matching_probe()];
    let mut failing = matching_probe();
    failing.microcode_rev = None;
    failing.leaf7_0 = regs(0, 1 << 11, 1 << 22, 0);
    probes.push(failing);
    for probe in probes {
        let report = evaluate(&exp, probe);
        assert!(!report.is_empty(), "report is never empty");
        for o in &report {
            assert!(!o.key.is_empty(), "every outcome names its key");
            assert!(
                !o.expected.is_empty(),
                "every outcome states the expectation"
            );
            assert!(
                !o.actual.is_empty(),
                "every outcome states what was observed"
            );
        }
        let all_pass = report.iter().all(|o| o.pass);
        assert_eq!(verdict(report).is_ok(), all_pass);
    }
}

#[test]
fn verdict_is_ok_iff_all_outcomes_pass() {
    let pass = o("k", "e", "a", true);
    let fail = o("k2", "e2", "a2", false);
    assert!(verdict(vec![]).is_ok());
    assert!(verdict(vec![pass.clone()]).is_ok());
    assert!(verdict(vec![pass.clone(), pass.clone()]).is_ok());
    assert!(verdict(vec![fail.clone()]).is_err());
    assert!(verdict(vec![pass, fail]).is_err());
}

#[test]
fn fmt_fms_decodes_family_model_stepping() {
    assert_eq!(fmt_fms(0x0005_0654), "06_55_04");
    assert_eq!(fmt_fms(0x0009_06ec), "06_9e_0c");
    assert_eq!(fmt_fms(0x00f0_0f00), "1e_00_00");
}

#[test]
fn parse_microcode_hex_total() {
    assert_eq!(parse_microcode_hex("0xf8"), Some(0xf8));
    assert_eq!(parse_microcode_hex("  0x0200005e  "), Some(0x0200_005e));
    assert_eq!(parse_microcode_hex("ff"), Some(0xff));
    assert_eq!(parse_microcode_hex("not-a-number"), None);
    assert_eq!(parse_microcode_hex(""), None);
}

#[test]
fn bit_extracts_the_right_position() {
    assert!(bit(0b1000, 3));
    assert!(!bit(0b1000, 2));
    assert!(bit(1 << 31, 31));
}

#[test]
fn insn_present_known_and_unknown() {
    for m in [
        "RDPID",
        "SERIALIZE",
        "SHA",
        "PCONFIG",
        "HRESET",
        "UMWAIT",
        "TPAUSE",
        "UMONITOR",
    ] {
        let (_present, known) = insn_present(m);
        assert!(known, "{m} is a recognized variance instruction");
    }
    assert_eq!(insn_present("BOGUS"), (false, false));
}

#[test]
fn verdict_lists_every_failure_in_order() {
    let r = verdict(vec![
        o("a", "1", "2", false),
        o("b", "x", "x", true),
        o("c", "3", "4", false),
    ]);
    match r {
        Err(VmmError::HostAssert(s)) => {
            assert_eq!(s, "a (expected 1, observed 2); c (expected 3, observed 4)")
        }
        other => panic!("expected a host-assert failure, got {other:?}"),
    }
}

#[test]
fn fmt_hex_pins_sixteen_digits() {
    assert_eq!(fmt_hex(0xf8), "0x00000000000000f8");
    assert_eq!(fmt_hex(u64::MAX), "0xffffffffffffffff");
    assert_eq!(fmt_hex(0), "0x0000000000000000");
}

#[test]
fn fmt_fms_non_family_six_uses_base_model_only() {
    assert_eq!(fmt_fms(0x0001_0f55), "0f_15_05");
    assert_eq!(fmt_fms(0x0003_0521), "05_02_01");
}

#[test]
fn parse_microcode_hex_edge_cases() {
    assert_eq!(parse_microcode_hex("0x"), None);
    assert_eq!(parse_microcode_hex("0xFFFFFFFFFFFFFFFF"), Some(u64::MAX));
    assert_eq!(parse_microcode_hex("0x10000000000000000"), None);
    assert_eq!(parse_microcode_hex("\t0xA\n"), Some(10));
    assert_eq!(parse_microcode_hex("+f"), Some(15));
    assert_eq!(parse_microcode_hex("0x0x1"), None);
}

#[test]
fn insn_present_in_reads_each_feature_bit() {
    let zero = regs(0, 0, 0, 0);
    assert_eq!(insn_present_in("RDPID", regs(0, 0, 1 << 22, 0), 0), (true, true));
    assert_eq!(insn_present_in("RDPID", zero, 0), (false, true));
    assert_eq!(insn_present_in("SERIALIZE", regs(0, 0, 0, 1 << 14), 0), (true, true));
    assert_eq!(insn_present_in("SHA", regs(0, 1 << 29, 0, 0), 0), (true, true));
    assert_eq!(insn_present_in("PCONFIG", regs(0, 0, 0, 1 << 18), 0), (true, true));
    assert_eq!(insn_present_in("HRESET", zero, 1 << 22), (true, true));
    assert_eq!(insn_present_in("HRESET", regs(1 << 22, 0, 0, 0), 0), (false, true));
    for m in ["UMWAIT", "TPAUSE", "UMONITOR"] {
        assert_eq!(insn_present_in(m, regs(0, 0, 1 << 5, 0), 0), (true, true));
        assert_eq!(insn_present_in(m, zero, 0), (false, true));
    }
    assert_eq!(insn_present_in("rdpid", regs(0, 0, 1 << 22, 0), 0), (false, false));
}

#[test]
fn evaluate_renders_each_assertion() {
    let exp = baseline();
    let report = evaluate(&exp, matching_probe());
    assert_eq!(report.len(), 5 + exp.host_absent.len());
    assert!(report.iter().all(|o| o.pass));
    assert_eq!(report[0], o("family-model-stepping", "06_9e_0c", "06_9e_0c", true));
    assert_eq!(
        report[1],
        o("host-microcode-rev", "0x00000000000000f8", "0x00000000000000f8", true)
    );
    assert_eq!(report[2], o("mxcsr-mask", "0xffff", "0xffff", true));
    assert_eq!(report[3], o("maxphyaddr-min", ">= 39", "39", true));
    assert_eq!(report[4].key, "rtm-disabled");
    assert_eq!(report[4].actual, "rtm-absent (XBEGIN #UDs; already non-usable)");
    assert_eq!(report[5], o("host-absent RDPID", "absent", "absent", true));

    let mut bad = matching_probe();
    bad.microcode_rev = None;
    bad.mxcsr_mask = 0xbfff;
    bad.cpuid_80000008_eax = 0x26;
    bad.leaf7_0 = regs(0, 1 << 11, 1 << 22, 0);
    let report = evaluate(&exp, bad);
    assert_eq!(report[1].actual, "unreadable");
    assert!(!report[1].pass);
    assert_eq!(report[2], o("mxcsr-mask", "0xffff", "0xbfff", false));
    assert_eq!(report[3], o("maxphyaddr-min", ">= 39", "38", false));
    assert!(!report[4].pass);
    assert_eq!(report[5], o("host-absent RDPID", "absent", "present", false));

    let mut unknown = baseline();
    unknown.rtm_disabled = false;
    unknown.host_absent = vec!["BOGUS".to_string()];
    let report = evaluate(&unknown, matching_probe());
    assert_eq!(report.len(), 5);
    assert_eq!(
        report[4],
        o(
            "host-absent BOGUS",
            "absent",
            "unrecognized mnemonic — cannot verify absence",
            false
        )
    );
}

#[test]
fn cpuinfo_microcode_line_is_found_and_parsed() {
    let cpuinfo = "processor\t: 0\nvendor_id\t: GenuineIntel\nmicrocode\t: 0xf8\r\ncpu MHz\t\t: 3600.000\nmicrocode\t: 0x1\n";
    assert_eq!(microcode_from_cpuinfo(cpuinfo), Some(0xf8));
    assert_eq!(microcode_from_cpuinfo("microcode: 0x2a"), Some(0x2a));
    assert_eq!(microcode_from_cpuinfo("flags : microcode\nmodel : 1\n"), None);
    assert_eq!(microcode_from_cpuinfo("microcode\nmicrocode : 5\n"), Some(5));
    assert_eq!(microcode_from_cpuinfo("microcode : junk\nmicrocode : 5\n"), None);
    assert_eq!(microcode_from_cpuinfo(""), None);
    assert_eq!(microcode_from_cpuinfo("microcod: 1\n"), None);
}
