# kernel_core

The pure logic of a small AArch64 kernel, written in Verus: register and
instruction encodings, allocators, capability and IPC bookkeeping, wire
formats, device-tree readers and the GENET Ethernet contracts. Every item
under `src/` is a verified function over integers, byte sequences and
plain structs; its behaviour is stated in `requires` / `ensures` over spec
functions and views, and the laws that relate several operations stand as
public proof functions (`lemma_*`).

Layout:

- `src/` — one module per concern (`heap`, `ipc`, `fdt`, `genet`, …), plus
  two private helper modules: `wire` (little/big-endian words, UTF-8) and
  `text` (decimal and hex rendering for boot-report lines).
- `tests/` — one file per module, run against the compiled library.

Boot-report types have a `line()` method returning the printed `String`
instead of a `Display` impl.
