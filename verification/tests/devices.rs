use vmm_core::devices::{
    LegacyPlatform, Uart8250, ISA_DEBUG_EXIT_PORT, REPORT_PORT, UART_IER_THRI, UART_IIR_NONE,
    UART_IIR_THRI, UART_LCR_DLAB, UART_LSR_THR_EMPTY, UART_PORT_BASE, UART_PORT_LCR,
    UART_PORT_LSR,
};

#[test]
fn lsr_reports_thr_empty() {
    let u = Uart8250::new();
    assert_eq!(u.read(UART_PORT_LSR), Some(UART_LSR_THR_EMPTY));
}

#[test]
fn thr_writes_captured_in_order_dlab_clear() {
    let mut u = Uart8250::new();
    for &b in b"Hi" {
        assert!(u.write(UART_PORT_BASE, b));
    }
    assert_eq!(u.capture(), b"Hi");
}

#[test]
fn task04_init_order_does_not_capture_divisor() {
    let mut u = Uart8250::new();
    u.write(UART_PORT_BASE + 1, 0x00);
    u.write(UART_PORT_LCR, 0x80);
    u.write(UART_PORT_BASE, 0x01);
    u.write(UART_PORT_BASE + 1, 0x00);
    u.write(UART_PORT_LCR, 0x03);
    u.write(UART_PORT_BASE + 2, 0xC7);
    u.write(UART_PORT_BASE + 4, 0x03);
    for &b in b"PAYLOAD" {
        u.write(UART_PORT_BASE, b);
    }
    assert_eq!(u.capture(), b"PAYLOAD");
}

#[test]
fn divisor_latch_read_back_with_dlab_set() {
    let mut u = Uart8250::new();
    u.write(UART_PORT_LCR, 0x80);
    u.write(UART_PORT_BASE, 0x01);
    assert_eq!(u.read(UART_PORT_BASE), Some(0x01));
    u.write(UART_PORT_LCR, 0x00);
    assert_eq!(u.read(UART_PORT_BASE), Some(0));
    assert!(u.capture().is_empty());
}

#[test]
fn owns_is_the_com1_block_only() {
    assert!(Uart8250::owns(UART_PORT_BASE));
    assert!(Uart8250::owns(UART_PORT_BASE + 7));
    assert!(!Uart8250::owns(UART_PORT_BASE + 8));
    assert!(!Uart8250::owns(UART_PORT_BASE - 1));
}

#[test]
fn shadow_regs_and_dlab_reflect_writes() {
    let mut u = Uart8250::new();
    assert!(!u.dlab(), "DLAB clear at reset");
    u.write(UART_PORT_BASE + 1, 0xAB);
    assert_eq!(u.shadow_regs()[1], 0xAB);
    u.write(UART_PORT_LCR, UART_LCR_DLAB);
    assert!(u.dlab());
    assert_eq!(u.shadow_regs()[3] & UART_LCR_DLAB, UART_LCR_DLAB);
    u.write(UART_PORT_LCR, 0x03);
    assert!(!u.dlab());
}

#[test]
fn out_of_range_ports_not_owned() {
    let mut u = Uart8250::new();
    assert!(!u.write(0x3E0, 0xFF));
    assert_eq!(u.read(0x3E0), None);
    assert_eq!(u.read(ISA_DEBUG_EXIT_PORT), None);
}

#[test]
fn iir_reports_thre_interrupt_only_when_thri_enabled() {
    let mut u = Uart8250::new();
    assert_eq!(u.read(UART_PORT_BASE + 2), Some(0x01));
    assert!(!u.thre_irq_asserted());
    u.write(UART_PORT_BASE + 2, 0xC7);
    assert_eq!(
        u.read(UART_PORT_BASE + 2),
        Some(0x01),
        "IIR is the interrupt status, not the FCR shadow"
    );
    assert!(!u.thre_irq_asserted());
    u.write(UART_PORT_BASE + 1, UART_IER_THRI);
    assert_eq!(u.read(UART_PORT_BASE + 2), Some(0x02));
    assert!(u.thre_irq_asserted());
    u.write(UART_PORT_BASE + 1, 0x01);
    assert_eq!(u.read(UART_PORT_BASE + 2), Some(0x01));
    assert!(!u.thre_irq_asserted());
    u.write(UART_PORT_BASE + 1, UART_IER_THRI);
    assert!(u.thre_irq_asserted());
    u.write(UART_PORT_BASE + 1, 0x00);
    assert!(!u.thre_irq_asserted());
}

#[test]
fn thri_ignored_while_dlab_selects_the_divisor_latch() {
    let mut u = Uart8250::new();
    u.write(UART_PORT_LCR, UART_LCR_DLAB);
    u.write(UART_PORT_BASE + 1, 0x02);
    assert!(
        !u.thre_irq_asserted(),
        "offset+1 is DLM here, not IER — no THRE assert"
    );
    assert_eq!(u.read(UART_PORT_BASE + 1), Some(0x02));
    assert_eq!(u.read(UART_PORT_BASE + 2), Some(0x01));
    u.write(UART_PORT_LCR, 0x03);
    assert!(
        !u.thre_irq_asserted(),
        "DLM must not leak into IER: a divisor write is not a THRI enable"
    );
    assert_eq!(u.read(UART_PORT_BASE + 1), Some(0x00), "IER unset, reads 0");
    u.write(UART_PORT_BASE + 1, UART_IER_THRI);
    assert!(u.thre_irq_asserted());
    assert_eq!(u.read(UART_PORT_BASE + 2), Some(0x02));
}

#[test]
fn ier_preserved_across_divisor_latch_window() {
    let mut u = Uart8250::new();
    u.write(UART_PORT_BASE + 1, UART_IER_THRI);
    assert!(u.thre_irq_asserted());
    u.write(UART_PORT_LCR, UART_LCR_DLAB);
    u.write(UART_PORT_BASE, 0x03);
    u.write(UART_PORT_BASE + 1, 0x09);
    assert_eq!(u.read(UART_PORT_BASE + 1), Some(0x09), "DLM reads back");
    u.write(UART_PORT_LCR, 0x03);
    assert!(
        u.thre_irq_asserted(),
        "IER.THRI must survive a divisor-latch write"
    );
    assert_eq!(u.read(UART_PORT_BASE + 1), Some(UART_IER_THRI));
    assert_eq!(u.read(UART_PORT_BASE + 2), Some(UART_IIR_THRI));
}

#[test]
fn thr_capture_independent_of_thri() {
    let mut u = Uart8250::new();
    u.write(UART_PORT_BASE + 1, UART_IER_THRI);
    for &b in b"GUEST_READY" {
        assert!(u.write(UART_PORT_BASE, b));
    }
    assert_eq!(u.capture(), b"GUEST_READY");
}

#[test]
fn legacy_owns_the_curated_ports_only() {
    for p in [
        0x0020, 0x0021, 0x00A0, 0x00A1, 0x0040, 0x0043, 0x0060, 0x0064, 0x0061, 0x0070, 0x0071,
        0x0080, 0x008F, 0x04D0, 0x04D1, 0x0CF8, 0x0CFB, 0x0CFC, 0x0CFF, 0x02F8, 0x03E8, 0x02E8,
    ] {
        assert!(LegacyPlatform::owns(p), "{p:#06x} should be owned");
    }
    for p in [0x03F8, 0x00F4, 0x0CA2, 0x0000, 0x1234, 0x0CF7, 0x0090] {
        assert!(!LegacyPlatform::owns(p), "{p:#06x} should not be owned");
    }
}

#[test]
fn legacy_pci_config_address_round_trips_and_data_reads_no_device() {
    let mut p = LegacyPlatform::new();
    p.write(0x0CF8, 4, 0x8000_1000);
    assert_eq!(p.config_address(), 0x8000_1000);
    assert_eq!(p.read(0x0CF8, 4), 0x8000_1000);
    assert_eq!(p.read(0x0CFC, 4), 0xFFFF_FFFF);
    assert_eq!(p.read(0x0CFC, 2), 0x0000_FFFF);
    assert_eq!(p.read(0x0CFE, 1), 0x0000_00FF);
}

#[test]
fn legacy_only_dword_write_to_cf8_latches() {
    let mut p = LegacyPlatform::new();
    p.write(0x0CFC, 4, 0xDEAD_BEEF);
    assert_eq!(
        p.config_address(),
        0,
        "dword write to non-CF8 must not latch"
    );
    p.write(0x0CF8, 1, 0xDEAD_BEEF);
    assert_eq!(p.config_address(), 0, "byte write to CF8 must not latch");
    p.write(0x0CF8, 2, 0xDEAD_BEEF);
    assert_eq!(p.config_address(), 0, "word write to CF8 must not latch");
    p.write(0x0CF8, 4, 0xCAFE_F00D);
    assert_eq!(p.config_address(), 0xCAFE_F00D);
}

#[test]
fn legacy_reads_give_absent_idle_values() {
    let p = LegacyPlatform::new();
    assert_eq!(p.read(0x0021, 1), 0xFF);
    assert_eq!(p.read(0x00A1, 1), 0xFF);
    assert_eq!(p.read(0x02F8, 1), 0xFF);
    for port in [0x0040, 0x0071, 0x0080, 0x04D0, 0x0020, 0x0061, 0x0060] {
        assert_eq!(p.read(port, 1), 0, "{port:#06x} should read idle");
    }
    let mut p = p;
    p.write(0x0043, 1, 0x36);
    assert_eq!(
        p.config_address(),
        0,
        "non-PCI writes leave the latch alone"
    );
    assert_eq!(
        p.pic_imr(),
        [0xFF, 0xFF],
        "non-PIC writes leave the IMRs alone"
    );
}

#[test]
fn i8042_status_reports_obf_set_so_the_probe_fails_fast() {
    let p = LegacyPlatform::new();
    let status = p.read(0x0064, 1);
    assert_eq!(status, 0x01, "0x64 status must read OBF-set, IBF-clear");
    assert_eq!(status & 0x01, 0x01, "OBF (bit 0) must be set");
    assert_eq!(status & 0x02, 0x00, "IBF (bit 1) must be clear");
    assert_eq!(p.read(0x0060, 1), 0, "0x60 data port stays idle");
    let mut p = p;
    p.write(0x0064, 1, 0xFF);
    assert_eq!(p.read(0x0064, 1), 0x01, "status is stateless / constant");
}

#[test]
fn pic_imr_latches_so_probe_8259a_sees_a_real_pic() {
    let mut p = LegacyPlatform::new();
    p.write(0x00A1, 1, 0xFF);
    p.write(0x0021, 1, 0xFB);
    assert_eq!(
        p.read(0x0021, 1),
        0xFB,
        "master IMR must read back verbatim"
    );
    assert_eq!(p.read(0x00A1, 1), 0xFF, "slave IMR must read back verbatim");
    assert_eq!(p.pic_imr(), [0xFB, 0xFF]);
    p.write(0x0021, 1, 0x12);
    assert_eq!(p.pic_imr(), [0x12, 0xFF]);
    p.write(0x00A1, 1, 0x34);
    assert_eq!(p.pic_imr(), [0x12, 0x34]);
}

#[test]
fn irq_masked_reads_the_right_imr_bit() {
    let mut p = LegacyPlatform::new();
    assert!(p.irq_masked(4), "IRQ 4 masked at reset");
    assert!(p.irq_masked(0));
    assert!(p.irq_masked(8));
    p.write(0x0021, 1, 0xFF & !(1 << 4));
    assert!(!p.irq_masked(4), "IRQ 4 now unmasked");
    assert!(
        p.irq_masked(3),
        "IRQ 3 still masked (kills off-by-one shift)"
    );
    assert!(p.irq_masked(5), "IRQ 5 still masked");
    assert!(p.irq_masked(0), "master line 0 untouched");
    p.write(0x00A1, 1, 0xFF & !(1 << 0));
    assert!(!p.irq_masked(8), "IRQ 8 = slave bit 0 unmasked");
    assert!(p.irq_masked(9), "IRQ 9 = slave bit 1 still masked");
    assert!(
        !p.irq_masked(4),
        "the master IMR is untouched by a slave write"
    );
    assert!(
        p.irq_masked(3),
        "unmasking a slave line leaves master bit 3 masked"
    );
    assert!(p.irq_masked(16));
}

#[test]
fn uart_default_matches_new() {
    let a = Uart8250::default();
    let b = Uart8250::new();
    assert_eq!(a.capture(), b.capture());
    assert_eq!(a.shadow_regs(), b.shadow_regs());
    assert_eq!(a.dlab(), b.dlab());
}

#[test]
fn uart_rbr_reads_zero_and_iir_none_at_reset() {
    let u = Uart8250::new();
    assert_eq!(u.read(UART_PORT_BASE), Some(0));
    assert_eq!(u.read(UART_PORT_BASE + 2), Some(UART_IIR_NONE));
    assert_eq!(u.read(REPORT_PORT), None);
}

#[test]
fn uart_capture_only_grows_with_thr_writes() {
    let mut u = Uart8250::new();
    u.write(UART_PORT_BASE, b'a');
    let before = u.capture().to_vec();
    u.write(UART_PORT_BASE + 3, 0x03);
    u.write(UART_PORT_BASE + 1, 0x00);
    assert_eq!(u.capture(), &before[..]);
    u.write(UART_PORT_BASE, b'b');
    assert_eq!(u.capture(), b"ab");
}

#[test]
fn legacy_irq_masked_out_of_range_lines() {
    let mut p = LegacyPlatform::new();
    p.write(0x0021, 1, 0x00);
    p.write(0x00A1, 1, 0x00);
    assert!(!p.irq_masked(0));
    assert!(!p.irq_masked(15));
    assert!(p.irq_masked(16));
    assert!(p.irq_masked(255));
}
