use kernel_core::fdt;
use kernel_core::hwdesc::{reconcile, CompiledClaims, HwDescription, TableKind, Verdict};

// --- a small device-tree builder ---

const FDT_MAGIC_WORD: u32 = 0xd00d_feed;
const TOKEN_BEGIN_NODE: u32 = 1;
const TOKEN_END_NODE: u32 = 2;
const TOKEN_PROP: u32 = 3;
const TOKEN_NOP: u32 = 4;
const TOKEN_END: u32 = 9;

fn header(total: u32, s_off: u32, s_len: u32, str_off: u32, str_len: u32) -> Vec<u8> {
    let mut h = Vec::new();
    for word in [FDT_MAGIC_WORD, total, s_off, str_off, 0, 17, 16, 0, str_len, s_len] {
        h.extend_from_slice(&word.to_be_bytes());
    }
    h
}

struct Tree {
    body: Vec<u8>,
    strings: Vec<u8>,
}

impl Tree {
    fn new() -> Self {
        Tree { body: Vec::new(), strings: Vec::new() }
    }

    fn name(&mut self, s: &str) -> u32 {
        let needle: Vec<u8> = s.bytes().chain(std::iter::once(0)).collect();
        if let Some(pos) = self.strings.windows(needle.len()).position(|w| w == needle.as_slice()) {
            if pos == 0 || self.strings[pos - 1] == 0 {
                return pos as u32;
            }
        }
        let off = self.strings.len() as u32;
        self.strings.extend_from_slice(&needle);
        off
    }

    fn pad(&mut self) {
        while self.body.len() % 4 != 0 {
            self.body.push(0);
        }
    }

    fn begin(&mut self, name: &str) {
        self.body.extend_from_slice(&TOKEN_BEGIN_NODE.to_be_bytes());
        self.body.extend_from_slice(name.as_bytes());
        self.body.push(0);
        self.pad();
    }

    fn end(&mut self) {
        self.body.extend_from_slice(&TOKEN_END_NODE.to_be_bytes());
    }

    fn nop(&mut self) {
        self.body.extend_from_slice(&TOKEN_NOP.to_be_bytes());
    }

    fn prop(&mut self, name: &str, value: &[u8]) {
        let off = self.name(name);
        self.body.extend_from_slice(&TOKEN_PROP.to_be_bytes());
        self.body.extend_from_slice(&(value.len() as u32).to_be_bytes());
        self.body.extend_from_slice(&off.to_be_bytes());
        self.body.extend_from_slice(value);
        self.pad();
    }

    fn cells(&mut self, name: &str, cells: &[u32]) {
        let v: Vec<u8> = cells.iter().flat_map(|c| c.to_be_bytes()).collect();
        self.prop(name, &v);
    }

    fn blob(mut self) -> Vec<u8> {
        self.body.extend_from_slice(&TOKEN_END.to_be_bytes());
        let s_off = 40u32;
        let str_off = s_off + self.body.len() as u32;
        let total = str_off + self.strings.len() as u32;
        let mut blob = header(total, s_off, self.body.len() as u32, str_off, self.strings.len() as u32);
        blob.extend_from_slice(&self.body);
        blob.extend_from_slice(&self.strings);
        blob
    }
}

/// A Pi 4 shaped blob standing in for the distributed `bcm2711-rpi-4-b`
/// tree: the same root facts, a zero-size memory node, no revision, four
/// cpus, and the `/scb` GENET binding with its bus and DMA ranges.
fn pi4() -> Vec<u8> {
    let mut t = Tree::new();
    t.begin("");
    t.prop("model", b"Raspberry Pi 4 Model B\0");
    t.prop("compatible", b"raspberrypi,4-model-b\0brcm,bcm2711\0");
    t.cells("#address-cells", &[2]);
    t.cells("#size-cells", &[1]);
    t.cells("interrupt-parent", &[1]);
    for _ in 0..600 {
        t.nop();
    }
    t.begin("cpus");
    t.cells("#address-cells", &[1]);
    t.cells("#size-cells", &[0]);
    for i in 0..4u32 {
        t.begin(&format!("cpu@{i}"));
        t.prop("device_type", b"cpu\0");
        t.cells("reg", &[i]);
        t.end();
    }
    t.end();
    t.begin("memory@0");
    t.prop("device_type", b"memory\0");
    t.cells("reg", &[0, 0, 0]);
    t.end();
    t.begin("scb");
    t.cells("#address-cells", &[2]);
    t.cells("#size-cells", &[1]);
    t.cells(
        "ranges",
        &[
            0x0, 0x7c00_0000, 0x0, 0xfc00_0000, 0x0380_0000, //
            0x0, 0x4000_0000, 0x0, 0xff80_0000, 0x0080_0000, //
            0x6, 0x0000_0000, 0x6, 0x0000_0000, 0x4000_0000, //
            0x0, 0x0000_0000, 0x0, 0x0000_0000, 0xfc00_0000,
        ],
    );
    t.cells(
        "dma-ranges",
        &[
            0x0, 0x0000_0000, 0x0, 0x0000_0000, 0xfc00_0000, //
            0x4, 0x7c00_0000, 0x0, 0xfc00_0000, 0x0380_0000,
        ],
    );
    t.begin("ethernet@7d580000");
    t.prop("compatible", b"brcm,bcm2711-genet-v5\0brcm,genet-v5\0");
    t.cells("reg", &[0x0, 0x7d58_0000, 0x0, 0x1_0000]);
    t.cells("interrupts", &[0x0, 0x9d, 0x4, 0x0, 0x9e, 0x4]);
    t.prop("status", b"okay\0");
    t.cells("phy-handle", &[0x8a]);
    t.prop("phy-mode", b"rgmii-rxid\0");
    t.begin("mdio@e14");
    t.cells("#address-cells", &[1]);
    t.cells("#size-cells", &[0]);
    t.begin("ethernet-phy@1");
    t.cells("reg", &[1]);
    t.cells("phandle", &[0x8a]);
    t.end();
    t.end();
    t.end();
    t.end();
    t.end();
    t.blob()
}

fn claims() -> CompiledClaims {
    CompiledClaims {
        identity_ram_end: 0x8000_0000,
        expected_cpus: 4,
        model_prefix: "Raspberry Pi 4 Model B",
    }
}

#[test]
fn distributed_blob_reconciles_honestly() {
    let x = fdt::extract(&pi4()).unwrap();
    let hw = HwDescription::from_fdt(&x);
    let r = reconcile(&claims(), &hw);
    assert_eq!(r.model, Verdict::Matches);
    // Zero-size memory node: unknown, never "short".
    assert_eq!(r.memory, Verdict::Unknown);
    assert_eq!(r.cpus, Verdict::Matches);
}

#[test]
fn four_gib_board_exceeds_two_gib_map() {
    let x = fdt::extract(&pi4()).unwrap();
    let mut hw = HwDescription::from_fdt(&x);
    hw.memory_total = 4 << 30;
    assert_eq!(reconcile(&claims(), &hw).memory, Verdict::BeyondCompiledMap);
}

#[test]
fn exact_and_short_memory() {
    let x = fdt::extract(&pi4()).unwrap();
    let mut hw = HwDescription::from_fdt(&x);
    hw.memory_total = 0x8000_0000;
    assert_eq!(reconcile(&claims(), &hw).memory, Verdict::Matches);
    hw.memory_total = 1 << 30;
    assert_eq!(reconcile(&claims(), &hw).memory, Verdict::Short);
}

#[test]
fn wrong_board_and_cpu_count_differ() {
    let x = fdt::extract(&pi4()).unwrap();
    let mut hw = HwDescription::from_fdt(&x);
    hw.cpus = 2;
    let mut c = claims();
    c.model_prefix = "Raspberry Pi 5";
    let r = reconcile(&c, &hw);
    assert_eq!(r.model, Verdict::Differs);
    assert_eq!(r.cpus, Verdict::Differs);
}

#[test]
fn from_fdt_copies_the_table_facts() {
    let x = fdt::extract(&pi4()).unwrap();
    let hw = HwDescription::from_fdt(&x);
    assert_eq!(hw.source, TableKind::Fdt);
    assert_eq!(hw.cpus, 4);
    assert_eq!(hw.memory_ranges, 1);
    assert_eq!(hw.revision, None);
    assert_eq!(hw.model.as_str(), "Raspberry Pi 4 Model B");
}

#[test]
fn empty_model_and_zero_cpus_are_unknown() {
    let mut t = Tree::new();
    t.begin("");
    t.end();
    let x = fdt::extract(&t.blob()).unwrap();
    let hw = HwDescription::from_fdt(&x);
    let r = reconcile(&claims(), &hw);
    assert_eq!(r.model, Verdict::Unknown);
    assert_eq!(r.cpus, Verdict::Unknown);
    assert_eq!(r.memory, Verdict::Unknown);
}

#[test]
fn a_longer_model_with_the_prefix_matches() {
    let x = fdt::extract(&pi4()).unwrap();
    let hw = HwDescription::from_fdt(&x);
    let mut c = claims();
    c.model_prefix = "Raspberry Pi";
    assert_eq!(reconcile(&c, &hw).model, Verdict::Matches);
    c.model_prefix = "Raspberry Pi 4 Model B Rev 1.5";
    assert_eq!(reconcile(&c, &hw).model, Verdict::Differs);
}
