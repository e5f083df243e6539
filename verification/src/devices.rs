//! Bring-up device models: a minimal polled 8250 UART on COM1 and the legacy
//! PC platform ports the Linux boot path probes.
//!
//! The UART tracks `LCR.DLAB`, so the divisor bytes a guest programs while the
//! divisor-latch window is open are shadowed and never appear in the serial
//! capture; only transmit-holding-register writes with DLAB clear are output.

use vstd::prelude::*;

verus! {

/// 8250 base: THR/RBR when `LCR.DLAB=0`, DLL when `DLAB=1`.
pub const UART_PORT_BASE: u16 = 0x3F8;
/// Line control register (bit 7 = DLAB).
pub const UART_PORT_LCR: u16 = 0x3FB;
/// Line status register.
pub const UART_PORT_LSR: u16 = 0x3FD;
/// isa-debug-exit port: a byte write terminates the run (0 = PASS, 1 = FAIL).
pub const ISA_DEBUG_EXIT_PORT: u16 = 0x00F4;
/// The conformance report-channel port: each 32-bit write appends to the
/// VM's ordered report stream.
pub const REPORT_PORT: u16 = 0x0CA2;
/// `LCR.DLAB` (bit 7).
pub const UART_LCR_DLAB: u8 = 0x80;
/// LSR value reported on every read: THR-empty and transmitter-empty.
pub const UART_LSR_THR_EMPTY: u8 = 0x60;
/// `IER` bit 1: THRE interrupt enable.
pub const UART_IER_THRI: u8 = 0x02;
/// `IIR` value when no interrupt is pending.
pub const UART_IIR_NONE: u8 = 0x01;
/// `IIR` value when the THRE interrupt is pending.
pub const UART_IIR_THRI: u8 = 0x02;

/// Highest port of the COM1 register block.
const UART_PORT_TOP: u16 = 0x3FF;
/// Register-block offsets.
const OFF_BASE: u16 = 0;
const OFF_IER: u16 = 1;
const OFF_IIR: u16 = 2;
const OFF_LCR: u16 = 3;
const OFF_LSR: u16 = 5;

/// Whether `port` is in the COM1 block `0x3F8..=0x3FF`.
pub open spec fn uart_owns(port: u16) -> bool {
    0x3F8 <= port <= 0x3FF
}

/// Minimal 8250: accepts the init writes without modeling baud, reports
/// THR-empty on every LSR read, captures THR writes made with DLAB clear, keeps
/// the divisor-latch high byte apart from the IER, and reports the THRE
/// interrupt through IIR.
#[derive(Clone, Debug)]
pub struct Uart8250 {
    capture: Vec<u8>,
    dlab: bool,
    regs: [u8; 8],
    dlm: u8,
}

/// How a write of `value` to the owned `port` takes UART `o` to `n`: an LCR
/// write sets DLAB from bit 7 and is shadowed; a base write with DLAB clear is
/// transmitted into the capture; an offset-1 write with DLAB set is the
/// divisor-latch high byte; every other write is shadowed.
pub open spec fn write_effect(o: Uart8250, n: Uart8250, port: u16, value: u8) -> bool {
    let off = port - UART_PORT_BASE;
    if off == 3 {
        &&& n.dlab_view() == ((value & UART_LCR_DLAB) != 0)
        &&& n.regs_view() == o.regs_view().update(3, value)
        &&& n.capture_view() == o.capture_view()
        &&& n.dlm_view() == o.dlm_view()
    } else if off == 0 && !o.dlab_view() {
        &&& n.capture_view() == o.capture_view().push(value)
        &&& n.dlab_view() == o.dlab_view()
        &&& n.regs_view() == o.regs_view()
        &&& n.dlm_view() == o.dlm_view()
    } else if off == 1 && o.dlab_view() {
        &&& n.dlm_view() == value
        &&& n.capture_view() == o.capture_view()
        &&& n.dlab_view() == o.dlab_view()
        &&& n.regs_view() == o.regs_view()
    } else {
        &&& n.regs_view() == o.regs_view().update(off as int, value)
        &&& n.capture_view() == o.capture_view()
        &&& n.dlab_view() == o.dlab_view()
        &&& n.dlm_view() == o.dlm_view()
    }
}

impl Uart8250 {
    /// The bytes transmitted so far.
    pub closed spec fn capture_view(&self) -> Seq<u8> {
        self.capture@
    }

    /// Whether the divisor-latch window is open.
    pub closed spec fn dlab_view(&self) -> bool {
        self.dlab
    }

    /// The register shadows, offsets 0 to 7 (offset 1 is the IER).
    pub closed spec fn regs_view(&self) -> Seq<u8> {
        self.regs@
    }

    /// The divisor-latch high byte.
    pub closed spec fn dlm_view(&self) -> u8 {
        self.dlm
    }

    /// Whether the THRE interrupt is asserted: `IER.THRI` set with DLAB clear.
    pub open spec fn thre_view(&self) -> bool {
        !self.dlab_view() && (self.regs_view()[1] & UART_IER_THRI) != 0
    }

    /// What a read of `port` (in the block) returns.
    pub open spec fn read_view(&self, port: u16) -> u8 {
        let off = port - UART_PORT_BASE;
        if off == 5 {
            UART_LSR_THR_EMPTY
        } else if off == 2 {
            if self.thre_view() {
                UART_IIR_THRI
            } else {
                UART_IIR_NONE
            }
        } else if off == 0 && !self.dlab_view() {
            0
        } else if off == 1 && self.dlab_view() {
            self.dlm_view()
        } else {
            self.regs_view()[off]
        }
    }

    pub open spec fn wf(&self) -> bool {
        self.regs_view().len() == 8
    }

    /// A reset UART: empty capture, DLAB clear, zeroed registers.
    pub fn new() -> (u: Self)
        ensures
            u.wf(),
            u.capture_view() == Seq::<u8>::empty(),
            !u.dlab_view(),
            u.regs_view() == Seq::new(8, |i: int| 0u8),
            u.dlm_view() == 0,
    {
        let u = Uart8250 { capture: Vec::new(), dlab: false, regs: [0u8; 8], dlm: 0 };
        assert(u.regs@ =~= Seq::new(8, |i: int| 0u8));
        u
    }

    /// Whether `port` is in the COM1 register block this model owns.
    pub fn owns(port: u16) -> (r: bool)
        ensures
            r == uart_owns(port),
    {
        UART_PORT_BASE <= port && port <= UART_PORT_TOP
    }

    /// Services a guest write; returns whether the port is this device's. An
    /// LCR write sets DLAB from bit 7 and is shadowed; a base write with DLAB
    /// clear is transmitted into the capture; an offset-1 write with DLAB set is
    /// the divisor-latch high byte; every other write is shadowed.
    pub fn write(&mut self, port: u16, value: u8) -> (r: bool)
        requires
            old(self).wf(),
        ensures
            final(self).wf(),
            r == uart_owns(port),
            !r ==> *final(self) == *old(self),
            r ==> write_effect(*old(self), *final(self), port, value),
    {
        if !(UART_PORT_BASE <= port && port <= UART_PORT_TOP) {
            return false;
        }
        let off = port - UART_PORT_BASE;
        if off == OFF_LCR {
            self.dlab = (value & UART_LCR_DLAB) != 0;
            self.regs[OFF_LCR as usize] = value;
        } else if off == OFF_BASE && !self.dlab {
            self.capture.push(value);
        } else if off == OFF_IER && self.dlab {
            self.dlm = value;
        } else {
            self.regs[off as usize] = value;
        }
        true
    }

    /// Services a guest read: `Some` of the register value for a port in the
    /// block, else `None`. LSR reads THR-empty, IIR reads the interrupt status,
    /// the base port reads 0 with DLAB clear, offset 1 reads the divisor-latch
    /// high byte with DLAB set, and other offsets read their shadow.
    pub fn read(&self, port: u16) -> (r: Option<u8>)
        requires
            self.wf(),
        ensures
            r == if uart_owns(port) {
                Some(self.read_view(port))
            } else {
                None::<u8>
            },
    {
        if !(UART_PORT_BASE <= port && port <= UART_PORT_TOP) {
            return None;
        }
        let off = port - UART_PORT_BASE;
        let value = if off == OFF_LSR {
            UART_LSR_THR_EMPTY
        } else if off == OFF_IIR {
            self.iir_value()
        } else if off == OFF_BASE && !self.dlab {
            0
        } else if off == OFF_IER && self.dlab {
            self.dlm
        } else {
            self.regs[off as usize]
        };
        Some(value)
    }

    /// Whether the COM1 THRE interrupt is asserted: `IER.THRI` set with DLAB
    /// clear (THR is always empty, so an enabled THRE interrupt is pending).
    pub fn thre_irq_asserted(&self) -> (r: bool)
        requires
            self.wf(),
        ensures
            r == self.thre_view(),
    {
        !self.dlab && (self.regs[OFF_IER as usize] & UART_IER_THRI) != 0
    }

    /// The IIR value: THRE pending or no interrupt.
    fn iir_value(&self) -> (r: u8)
        requires
            self.wf(),
        ensures
            r == (if self.thre_view() {
                UART_IIR_THRI
            } else {
                UART_IIR_NONE
            }),
    {
        if self.thre_irq_asserted() {
            UART_IIR_THRI
        } else {
            UART_IIR_NONE
        }
    }

    /// The transmitted bytes, in order.
    pub fn capture(&self) -> (r: &[u8])
        ensures
            r@ == self.capture_view(),
    {
        self.capture.as_slice()
    }

    /// The register shadows, offsets 0 to 7.
    pub fn shadow_regs(&self) -> (r: &[u8; 8])
        ensures
            r@ == self.regs_view(),
    {
        &self.regs
    }

    /// Whether the divisor-latch window is open.
    pub fn dlab(&self) -> (r: bool)
        ensures
            r == self.dlab_view(),
    {
        self.dlab
    }
}

/// Register read-back: after a write of `value` to an owned UART port whose
/// read returns a register shadow (every offset except IIR and LSR, and the
/// base port only while DLAB is set), the next read of that port returns
/// `value`. So a guest's init reads (LCR, IER, MCR, scratch, and the divisor
/// bytes in the DLAB window) are consistent with its writes.
pub proof fn lemma_uart_register_read_back(o: Uart8250, n: Uart8250, port: u16, value: u8)
    requires
        o.wf(),
        uart_owns(port),
        write_effect(o, n, port, value),
        port - UART_PORT_BASE != 2,
        port - UART_PORT_BASE != 5,
        !(port == UART_PORT_BASE && !o.dlab_view()),
    ensures
        n.wf(),
        n.read_view(port) == value,
{
}

impl Default for Uart8250 {
    fn default() -> (u: Self)
        ensures
            u.wf(),
            u.capture_view() == Seq::<u8>::empty(),
            !u.dlab_view(),
            u.regs_view() == Seq::new(8, |i: int| 0u8),
            u.dlm_view() == 0,
    {
        Uart8250::new()
    }
}

/// PCI mechanism-1 `CONFIG_ADDRESS` port.
const PCI_CONFIG_ADDRESS: u16 = 0x0CF8;
/// 8259 master and slave PIC data ports (the IMRs).
const PIC_MASTER_DATA: u16 = 0x0021;
const PIC_SLAVE_DATA: u16 = 0x00A1;
/// i8042 status port.
const I8042_STATUS_PORT: u16 = 0x0064;
/// i8042 status on every read: output buffer full, input buffer empty.
pub const I8042_STATUS_FAST_CLEAR: u8 = 0x01;

/// The curated legacy ports the platform stub services.
pub open spec fn legacy_owns(port: u16) -> bool {
    ||| port == 0x20 || port == 0x21 || port == 0xA0 || port == 0xA1
    ||| 0x40 <= port <= 0x43
    ||| port == 0x60 || port == 0x64 || port == 0x61
    ||| port == 0x70 || port == 0x71
    ||| 0x80 <= port <= 0x8F
    ||| port == 0x4D0 || port == 0x4D1
    ||| 0xCF8 <= port <= 0xCFF
    ||| 0x2F8 <= port <= 0x2FF || 0x3E8 <= port <= 0x3EF || 0x2E8 <= port <= 0x2EF
}

/// All ones at an access width of `size` bytes (4 for any other width).
pub open spec fn all_ones(size: u8) -> u64 {
    if size == 1 {
        0xFF
    } else if size == 2 {
        0xFFFF
    } else {
        0xFFFF_FFFF
    }
}

/// The unpopulated extra COM ports.
pub open spec fn empty_com_port(port: u16) -> bool {
    0x2F8 <= port <= 0x2FF || 0x3E8 <= port <= 0x3EF || 0x2E8 <= port <= 0x2EF
}

/// Legacy PC platform I/O for the Linux boot path: the PCI `CONFIG_ADDRESS`
/// latch and the two 8259 interrupt-mask latches are modeled; every other port
/// reads its architectural absent/idle value and drops writes, except the
/// i8042 status port, which reports output-buffer-full so the controller probe
/// fails fast.
#[derive(Clone, Debug)]
pub struct LegacyPlatform {
    config_address: u32,
    master_imr: u8,
    slave_imr: u8,
}

impl LegacyPlatform {
    pub closed spec fn config_view(&self) -> u32 {
        self.config_address
    }

    pub closed spec fn master_view(&self) -> u8 {
        self.master_imr
    }

    pub closed spec fn slave_view(&self) -> u8 {
        self.slave_imr
    }

    /// What a read of `port` at width `size` returns.
    pub open spec fn read_view(&self, port: u16, size: u8) -> u64 {
        if 0xCF8 <= port <= 0xCFB {
            self.config_view() as u64
        } else if 0xCFC <= port <= 0xCFF {
            all_ones(size)
        } else if port == 0x21 {
            self.master_view() as u64
        } else if port == 0xA1 {
            self.slave_view() as u64
        } else if empty_com_port(port) {
            all_ones(size)
        } else if port == 0x64 {
            I8042_STATUS_FAST_CLEAR as u64
        } else {
            0
        }
    }

    /// A fresh platform: address latch cleared, both IMRs all-masked.
    pub fn new() -> (p: Self)
        ensures
            p.config_view() == 0,
            p.master_view() == 0xFF,
            p.slave_view() == 0xFF,
    {
        LegacyPlatform { config_address: 0, master_imr: 0xFF, slave_imr: 0xFF }
    }

    /// Whether `port` is one of the curated legacy ports.
    pub fn owns(port: u16) -> (r: bool)
        ensures
            r == legacy_owns(port),
    {
        port == 0x20 || port == 0x21 || port == 0xA0 || port == 0xA1 || (0x40 <= port && port
            <= 0x43) || port == 0x60 || port == 0x64 || port == 0x61 || port == 0x70 || port
            == 0x71 || (0x80 <= port && port <= 0x8F) || port == 0x4D0 || port == 0x4D1 || (0xCF8
            <= port && port <= 0xCFF) || (0x2F8 <= port && port <= 0x2FF) || (0x3E8 <= port
            && port <= 0x3EF) || (0x2E8 <= port && port <= 0x2EF)
    }

    /// Services a write: a dword write to `CONFIG_ADDRESS` replaces the latch,
    /// a write to a PIC data port replaces that IMR with the low byte, and
    /// everything else is dropped.
    pub fn write(&mut self, port: u16, size: u8, value: u32)
        ensures
            final(self).config_view() == if size == 4 && port == 0xCF8 {
                value
            } else {
                old(self).config_view()
            },
            final(self).master_view() == if port == 0x21 {
                (value % 256) as u8
            } else {
                old(self).master_view()
            },
            final(self).slave_view() == if port == 0xA1 {
                (value % 256) as u8
            } else {
                old(self).slave_view()
            },
    {
        if PCI_CONFIG_ADDRESS <= port && port <= 0x0CFB {
            if size == 4 && port == PCI_CONFIG_ADDRESS {
                self.config_address = value;
            }
        } else if port == PIC_MASTER_DATA {
            self.master_imr = (value % 256) as u8;
        } else if port == PIC_SLAVE_DATA {
            self.slave_imr = (value % 256) as u8;
        }
    }

    /// Services a read: the latched address, all-ones for PCI data and the
    /// empty COM ports, the IMR latches, the fixed i8042 status, else idle 0.
    pub fn read(&self, port: u16, size: u8) -> (r: u64)
        ensures
            r == self.read_view(port, size),
    {
        let all_ones: u64 = if size == 1 {
            0xFF
        } else if size == 2 {
            0xFFFF
        } else {
            0xFFFF_FFFF
        };
        if PCI_CONFIG_ADDRESS <= port && port <= 0x0CFB {
            self.config_address as u64
        } else if 0x0CFC <= port && port <= 0x0CFF {
            all_ones
        } else if port == PIC_MASTER_DATA {
            self.master_imr as u64
        } else if port == PIC_SLAVE_DATA {
            self.slave_imr as u64
        } else if (0x02F8 <= port && port <= 0x02FF) || (0x03E8 <= port && port <= 0x03EF) || (
        0x02E8 <= port && port <= 0x02EF) {
            all_ones
        } else if port == I8042_STATUS_PORT {
            I8042_STATUS_FAST_CLEAR as u64
        } else {
            0
        }
    }

    /// Whether IRQ `irq` is masked: master IMR bit `irq` for 0 to 7, slave IMR
    /// bit `irq - 8` for 8 to 15, and masked for any other line.
    pub fn irq_masked(&self, irq: u8) -> (r: bool)
        ensures
            r == if irq <= 7 {
                (self.master_view() >> irq) & 1 == 1
            } else if irq <= 15 {
                (self.slave_view() >> ((irq - 8) as u8)) & 1 == 1
            } else {
                true
            },
    {
        if irq <= 7 {
            let m = self.master_imr;
            let r = (m & (1u8 << irq)) != 0;
            assert(((m & (1u8 << irq)) != 0) == ((m >> irq) & 1 == 1)) by (bit_vector)
                requires
                    irq <= 7,
            ;
            r
        } else if irq <= 15 {
            let s = self.slave_imr;
            let k: u8 = irq - 8;
            let r = (s & (1u8 << k)) != 0;
            assert(((s & (1u8 << k)) != 0) == ((s >> k) & 1 == 1)) by (bit_vector)
                requires
                    k <= 7,
            ;
            r
        } else {
            true
        }
    }

    /// The PCI `CONFIG_ADDRESS` latch.
    pub fn config_address(&self) -> (r: u32)
        ensures
            r == self.config_view(),
    {
        self.config_address
    }

    /// The IMR latches `[master, slave]`.
    pub fn pic_imr(&self) -> (r: [u8; 2])
        ensures
            r@ == seq![self.master_view(), self.slave_view()],
    {
        let r = [self.master_imr, self.slave_imr];
        assert(r@ =~= seq![self.master_view(), self.slave_view()]);
        r
    }
}

} // verus!
