# vmm_core

The decision-making core of a deterministic virtual-machine monitor, written in
Verus: every function in `src/` carries a contract, and the codecs and parsers
carry laws (round trips, canonical encodings, reassembly) proved over their
mathematical models.

## Layout

- `src/devices.rs` — the COM1 8250 UART and the legacy PC platform ports.
- `src/exec.rs` — serial `exec` sessions: the injected command, the sentinel
  grammar `HXEC-<nonce>-:<status>:HXEC-<nonce>-`, and the bounded capture.
- `src/retained.rs` — the durable record of an `exec` command and its strict
  decoder and structural validation.
- `src/control_state.rs` — the framed control-state record and the consistency
  rules of its input plans.
- `src/control.rs` — restore-discipline decisions, sparse-page ordering,
  console and SDK-event paging, terminal-state reports.
- `src/engine_state.rs` — the engine lifecycle record.
- `src/hostassert.rs` — host-homogeneity assertions over probed CPU values.
- `src/bringup.rs` — boot-image classification (bzImage / Multiboot v1).
- `src/digest.rs`, `src/corpus.rs`, `src/controlled_guest.rs` — SHA-256
  state, observable, corpus, and admitted-guest identities.
- `src/harness.rs` — the logic of the live harnesses: serial markers, exit
  accounting, argument parsing, renderings, the ARM64 GIC diagnostic.
- `src/wire.rs`, `src/text.rs`, `src/numparse.rs` — byte codecs, text
  renderings, and radix parsing shared by the above.
- `app/lib.rs` — the host probes (CPUID, FXSAVE, microcode, `getrusage`) and the
  process command line, handing plain values to the library.
- `tests/` — executable tests of the library.
