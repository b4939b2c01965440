use kernel_core::genet_fdt::{boot_report, extract, Error, Report, Unavailable};

// --- a small device-tree builder ---

const FDT_MAGIC_WORD: u32 = 0xd00d_feed;
const TOKEN_BEGIN_NODE: u32 = 1;
const TOKEN_END_NODE: u32 = 2;
const TOKEN_PROP: u32 = 3;
const TOKEN_NOP: u32 = 4;
const TOKEN_END: u32 = 9;

fn header(total: u32, s_off: u32, s_len: u32, str_off: u32, str_len: u32) -> Vec<u8> {
    let mut h = Vec::new();
    for word in [FDT_MAGIC_WORD, total, s_off, str_off, 0, 17, 16, 0, str_len, s_len] {
        h.extend_from_slice(&word.to_be_bytes());
    }
    h
}

struct Tree {
    body: Vec<u8>,
    strings: Vec<u8>,
}

impl Tree {
    fn new() -> Self {
        Tree { body: Vec::new(), strings: Vec::new() }
    }

    fn name(&mut self, s: &str) -> u32 {
        let needle: Vec<u8> = s.bytes().chain(std::iter::once(0)).collect();
        if let Some(pos) = self.strings.windows(needle.len()).position(|w| w == needle.as_slice()) {
            if pos == 0 || self.strings[pos - 1] == 0 {
                return pos as u32;
            }
        }
        let off = self.strings.len() as u32;
        self.strings.extend_from_slice(&needle);
        off
    }

    fn pad(&mut self) {
        while self.body.len() % 4 != 0 {
            self.body.push(0);
        }
    }

    fn begin(&mut self, name: &str) {
        self.body.extend_from_slice(&TOKEN_BEGIN_NODE.to_be_bytes());
        self.body.extend_from_slice(name.as_bytes());
        self.body.push(0);
        self.pad();
    }

    fn end(&mut self) {
        self.body.extend_from_slice(&TOKEN_END_NODE.to_be_bytes());
    }

    fn nop(&mut self) {
        self.body.extend_from_slice(&TOKEN_NOP.to_be_bytes());
    }

    fn prop(&mut self, name: &str, value: &[u8]) {
        let off = self.name(name);
        self.body.extend_from_slice(&TOKEN_PROP.to_be_bytes());
        self.body.extend_from_slice(&(value.len() as u32).to_be_bytes());
        self.body.extend_from_slice(&off.to_be_bytes());
        self.body.extend_from_slice(value);
        self.pad();
    }

    fn cells(&mut self, name: &str, cells: &[u32]) {
        let v: Vec<u8> = cells.iter().flat_map(|c| c.to_be_bytes()).collect();
        self.prop(name, &v);
    }

    fn blob(mut self) -> Vec<u8> {
        self.body.extend_from_slice(&TOKEN_END.to_be_bytes());
        let s_off = 40u32;
        let str_off = s_off + self.body.len() as u32;
        let total = str_off + self.strings.len() as u32;
        let mut blob = header(total, s_off, self.body.len() as u32, str_off, self.strings.len() as u32);
        blob.extend_from_slice(&self.body);
        blob.extend_from_slice(&self.strings);
        blob
    }
}

/// A Pi 4 shaped blob standing in for the distributed `bcm2711-rpi-4-b`
/// tree: the same root facts, a zero-size memory node, no revision, four
/// cpus, and the `/scb` GENET binding with its bus and DMA ranges.
fn pi4() -> Vec<u8> {
    let mut t = Tree::new();
    t.begin("");
    t.prop("model", b"Raspberry Pi 4 Model B\0");
    t.prop("compatible", b"raspberrypi,4-model-b\0brcm,bcm2711\0");
    t.cells("#address-cells", &[2]);
    t.cells("#size-cells", &[1]);
    t.cells("interrupt-parent", &[1]);
    for _ in 0..600 {
        t.nop();
    }
    t.begin("cpus");
    t.cells("#address-cells", &[1]);
    t.cells("#size-cells", &[0]);
    for i in 0..4u32 {
        t.begin(&format!("cpu@{i}"));
        t.prop("device_type", b"cpu\0");
        t.cells("reg", &[i]);
        t.end();
    }
    t.end();
    t.begin("memory@0");
    t.prop("device_type", b"memory\0");
    t.cells("reg", &[0, 0, 0]);
    t.end();
    t.begin("scb");
    t.cells("#address-cells", &[2]);
    t.cells("#size-cells", &[1]);
    t.cells(
        "ranges",
        &[
            0x0, 0x7c00_0000, 0x0, 0xfc00_0000, 0x0380_0000, //
            0x0, 0x4000_0000, 0x0, 0xff80_0000, 0x0080_0000, //
            0x6, 0x0000_0000, 0x6, 0x0000_0000, 0x4000_0000, //
            0x0, 0x0000_0000, 0x0, 0x0000_0000, 0xfc00_0000,
        ],
    );
    t.cells(
        "dma-ranges",
        &[
            0x0, 0x0000_0000, 0x0, 0x0000_0000, 0xfc00_0000, //
            0x4, 0x7c00_0000, 0x0, 0xfc00_0000, 0x0380_0000,
        ],
    );
    t.begin("ethernet@7d580000");
    t.prop("compatible", b"brcm,bcm2711-genet-v5\0brcm,genet-v5\0");
    t.cells("reg", &[0x0, 0x7d58_0000, 0x0, 0x1_0000]);
    t.cells("interrupts", &[0x0, 0x9d, 0x4, 0x0, 0x9e, 0x4]);
    t.prop("status", b"okay\0");
    t.cells("phy-handle", &[0x8a]);
    t.prop("phy-mode", b"rgmii-rxid\0");
    t.begin("mdio@e14");
    t.cells("#address-cells", &[1]);
    t.cells("#size-cells", &[0]);
    t.begin("ethernet-phy@1");
    t.cells("reg", &[1]);
    t.cells("phandle", &[0x8a]);
    t.end();
    t.end();
    t.end();
    t.end();
    t.end();
    t.blob()
}

#[test]
fn extracts_pi4_binding() {
    let x = extract(&pi4()).unwrap();
    assert_eq!(x.mmio_base, 0xfd580000);
    assert_eq!(x.mmio_len, 0x10000);
    assert_eq!(x.interrupt_parent, 1);
    assert_eq!(x.interrupts[0].number, 0x9d);
    assert_eq!(x.interrupts[1].number, 0x9e);
    assert_eq!(x.phy_addr, 1);
    assert!(x.phy_mode_rgmii_rxid);
    assert_eq!(x.dma.count, 2);
    assert!(x.dma.contains(0x47c000000, 0x1000));
    // Frame-pool CPU addresses sit in the first parent window.
    assert!(x.dma.map_cpu(0x411d000, 1536).is_ok());
}

#[test]
fn refuses_missing_genet() {
    let mut bad = pi4();
    let needle = b"brcm,bcm2711-genet-v5";
    let pos = bad.windows(needle.len()).position(|x| x == needle).unwrap();
    bad[pos] = b'x';
    assert_eq!(extract(&bad), Err(Error::Incompatible));
}

#[test]
fn boot_report_reads_mapped_fixture() {
    let pi4 = pi4();
    let report = boot_report(true, Some(&pi4));
    assert!(matches!(report, Report::Binding(_)));
    assert_eq!(
        report.line(),
        "genet: binding ok base=0xfd580000 len=0x10000 phy=rgmii-rxid (fdt, not probed)"
    );
}

#[test]
fn boot_report_ignores_bytes_when_unmapped() {
    let pi4 = pi4();
    let report = boot_report(false, Some(&pi4));
    assert_eq!(report, Report::Unavailable(Unavailable::NoDtb));
    assert_eq!(report.line(), "genet: unavailable (no dtb)");
}

#[test]
fn boot_report_mapped_without_slice_is_absent() {
    let report = boot_report(true, None);
    assert_eq!(report, Report::Unavailable(Unavailable::NoDtb));
}

#[test]
fn boot_report_extract_refusal_is_unavailable() {
    let report = boot_report(true, Some(&[]));
    assert_eq!(report, Report::Unavailable(Unavailable::Extract(Error::Truncated)));
    assert_eq!(report.line(), "genet: unavailable (Truncated)");
}

#[test]
fn boot_report_missing_node_matches_qemu_guest_dtb() {
    // QEMU raspi4b deletes `/scb/ethernet` after loading the fixture.
    // The guest line is this report, not `binding ok`.
    assert_eq!(
        Report::Unavailable(Unavailable::Extract(Error::Missing)).line(),
        "genet: unavailable (Missing)"
    );
}

/// The Pi 4 tree without its GENET node.
fn without_genet() -> Vec<u8> {
    let mut t = Tree::new();
    t.begin("");
    t.cells("interrupt-parent", &[1]);
    t.begin("scb");
    t.cells("#address-cells", &[2]);
    t.cells("#size-cells", &[1]);
    t.end();
    t.end();
    t.blob()
}

#[test]
fn a_tree_without_the_node_is_missing() {
    assert_eq!(extract(&without_genet()), Err(Error::Missing));
}

#[test]
fn bad_magic_and_short_blobs_are_refused() {
    let mut bad = pi4();
    bad[0] ^= 0xff;
    assert_eq!(extract(&bad), Err(Error::BadMagic));
    let pi4 = pi4();
    assert_eq!(extract(&pi4[..39]), Err(Error::Truncated));
}

#[test]
fn a_disabled_node_is_refused() {
    let good = pi4();
    let needle = b"okay";
    let pos = good.windows(needle.len()).position(|x| x == needle).unwrap();
    let mut bad = good.clone();
    bad[pos] = b'x';
    assert_eq!(extract(&bad), Err(Error::Disabled));
}
