use kernel_core::fdt::{
    extract, FdtError, MemRange, FDT_BEGIN_NODE, FDT_END, FDT_END_NODE, FDT_MAGIC, FDT_NOP, FDT_PROP,
    MAX_MEM_RANGES,
};

// --- tiny builder for hostile fixtures ---

fn header(total: u32, s_off: u32, s_len: u32, str_off: u32, str_len: u32) -> Vec<u8> {
    let mut h = Vec::new();
    for word in [FDT_MAGIC, total, s_off, str_off, 0, 17, 16, 0, str_len, s_len] {
        h.extend_from_slice(&word.to_be_bytes());
    }
    h
}

fn push_str(strings: &mut Vec<u8>, s: &str) -> u32 {
    let off = strings.len() as u32;
    strings.extend_from_slice(s.as_bytes());
    strings.push(0);
    off
}

fn begin_node(body: &mut Vec<u8>, name: &str) {
    body.extend_from_slice(&FDT_BEGIN_NODE.to_be_bytes());
    body.extend_from_slice(name.as_bytes());
    body.push(0);
    while !body.len().is_multiple_of(4) {
        body.push(0);
    }
}

fn end_node(body: &mut Vec<u8>) {
    body.extend_from_slice(&FDT_END_NODE.to_be_bytes());
}

fn prop(body: &mut Vec<u8>, name_off: u32, value: &[u8]) {
    body.extend_from_slice(&FDT_PROP.to_be_bytes());
    body.extend_from_slice(&(value.len() as u32).to_be_bytes());
    body.extend_from_slice(&name_off.to_be_bytes());
    body.extend_from_slice(value);
    while !body.len().is_multiple_of(4) {
        body.push(0);
    }
}

fn assemble(body: &[u8], strings: &[u8]) -> Vec<u8> {
    let s_off = 40u32;
    let str_off = s_off + body.len() as u32;
    let total = str_off + strings.len() as u32;
    let mut blob = header(total, s_off, body.len() as u32, str_off, strings.len() as u32);
    blob.extend_from_slice(body);
    blob.extend_from_slice(strings);
    blob
}

#[test]
fn refuses_depth_bomb() {
    // header + struct block of nested BEGIN_NODE "" tokens.
    let mut blob = header(4096, 40, 4096 - 40, 4000, 8);
    for _ in 0..16 {
        blob.extend_from_slice(&FDT_BEGIN_NODE.to_be_bytes());
        blob.extend_from_slice(&[0, 0, 0, 0]); // name "" + pad
    }
    blob.resize(4096, 0);
    assert!(matches!(extract(&blob), Err(FdtError::TooDeep)));
}

#[test]
fn refuses_zero_cells_reg() {
    // Root with #address-cells=0 and a memory node with a reg prop.
    let mut strings = Vec::new();
    let s_addr = push_str(&mut strings, "#address-cells");
    let s_reg = push_str(&mut strings, "reg");
    let mut body = Vec::new();
    begin_node(&mut body, "");
    prop(&mut body, s_addr, &0u32.to_be_bytes());
    begin_node(&mut body, "memory@0");
    prop(&mut body, s_reg, &[0; 8]);
    end_node(&mut body);
    end_node(&mut body);
    body.extend_from_slice(&FDT_END.to_be_bytes());
    let blob = assemble(&body, &strings);
    assert!(matches!(extract(&blob), Err(FdtError::BadCells)));
}

/// A small board tree: two cpus (one without `device_type`), two memory
/// nodes, a revision, a NOP between properties.
fn board() -> Vec<u8> {
    let mut strings = Vec::new();
    let s_model = push_str(&mut strings, "model");
    let s_compat = push_str(&mut strings, "compatible");
    let s_addr = push_str(&mut strings, "#address-cells");
    let s_size = push_str(&mut strings, "#size-cells");
    let s_reg = push_str(&mut strings, "reg");
    let s_dev = push_str(&mut strings, "device_type");
    let s_rev = push_str(&mut strings, "linux,revision");
    let mut body = Vec::new();
    begin_node(&mut body, "");
    prop(&mut body, s_model, b"Test Board\0");
    prop(&mut body, s_compat, b"vendor,board\0vendor,family\0");
    body.extend_from_slice(&FDT_NOP.to_be_bytes());
    prop(&mut body, s_addr, &2u32.to_be_bytes());
    prop(&mut body, s_size, &1u32.to_be_bytes());
    begin_node(&mut body, "cpus");
    for (name, is_cpu) in [("cpu@0", true), ("cpu@1", true), ("l2-cache", false)] {
        begin_node(&mut body, name);
        if is_cpu {
            prop(&mut body, s_dev, b"cpu\0");
        }
        end_node(&mut body);
    }
    end_node(&mut body);
    begin_node(&mut body, "memory@0");
    let mut reg = Vec::new();
    for (base, len) in [(0u64, 0x1000u32), (0x1_0000_0000, 0x2000)] {
        reg.extend_from_slice(&base.to_be_bytes());
        reg.extend_from_slice(&len.to_be_bytes());
    }
    prop(&mut body, s_reg, &reg);
    end_node(&mut body);
    begin_node(&mut body, "system");
    prop(&mut body, s_rev, &0x00c0_3111u32.to_be_bytes());
    end_node(&mut body);
    end_node(&mut body);
    body.extend_from_slice(&FDT_END.to_be_bytes());
    assemble(&body, &strings)
}

#[test]
fn extracts_the_closed_list_from_a_small_board() {
    let x = extract(&board()).unwrap();
    assert_eq!(x.model.as_str(), "Test Board");
    assert_eq!(x.compatible.as_str(), "vendor,board");
    assert!(!x.model.is_truncated());
    assert_eq!(x.address_cells, 2);
    assert_eq!(x.size_cells, 1);
    assert_eq!(x.cpus, 2);
    assert_eq!(x.memory_ranges, 2);
    assert_eq!(x.memory[0], MemRange { base: 0, len: 0x1000 });
    assert_eq!(x.memory[1], MemRange { base: 0x1_0000_0000, len: 0x2000 });
    assert_eq!(x.memory[2], MemRange::default());
    assert_eq!(x.memory_total, 0x3000);
    assert_eq!(x.revision, Some(0x00c0_3111));
}

#[test]
fn absent_nodes_are_defaults_not_errors() {
    let mut body = Vec::new();
    begin_node(&mut body, "");
    end_node(&mut body);
    body.extend_from_slice(&FDT_END.to_be_bytes());
    let x = extract(&assemble(&body, &[])).unwrap();
    assert!(x.model.is_empty());
    assert!(x.compatible.is_empty());
    assert_eq!(x.address_cells, 2);
    assert_eq!(x.size_cells, 1);
    assert_eq!(x.cpus, 0);
    assert_eq!(x.memory_ranges, 0);
    assert_eq!(x.memory_total, 0);
    assert_eq!(x.revision, None);
}

#[test]
fn extra_ranges_are_counted_and_summed_but_not_stored() {
    let mut strings = Vec::new();
    let s_addr = push_str(&mut strings, "#address-cells");
    let s_reg = push_str(&mut strings, "reg");
    let mut body = Vec::new();
    begin_node(&mut body, "");
    prop(&mut body, s_addr, &1u32.to_be_bytes());
    begin_node(&mut body, "memory@0");
    let mut reg = Vec::new();
    for i in 0..6u32 {
        reg.extend_from_slice(&(i * 0x100).to_be_bytes());
        reg.extend_from_slice(&0x10u32.to_be_bytes());
    }
    prop(&mut body, s_reg, &reg);
    end_node(&mut body);
    end_node(&mut body);
    body.extend_from_slice(&FDT_END.to_be_bytes());
    let x = extract(&assemble(&body, &strings)).unwrap();
    assert_eq!(x.memory_ranges, 6);
    assert_eq!(x.memory_total, 0x60);
    assert_eq!(x.memory[MAX_MEM_RANGES - 1], MemRange { base: 0x300, len: 0x10 });
}

#[test]
fn long_model_is_truncated_visibly() {
    let mut strings = Vec::new();
    let s_model = push_str(&mut strings, "model");
    let mut body = Vec::new();
    begin_node(&mut body, "");
    let long = [b'x'; 70];
    let mut v = long.to_vec();
    v.push(0);
    prop(&mut body, s_model, &v);
    end_node(&mut body);
    body.extend_from_slice(&FDT_END.to_be_bytes());
    let x = extract(&assemble(&body, &strings)).unwrap();
    assert!(x.model.is_truncated());
    assert_eq!(x.model.as_str().len(), 64);
}

#[test]
fn non_utf8_model_reads_as_marker() {
    let mut strings = Vec::new();
    let s_model = push_str(&mut strings, "model");
    let mut body = Vec::new();
    begin_node(&mut body, "");
    prop(&mut body, s_model, &[0xff, 0xfe, 0]);
    end_node(&mut body);
    body.extend_from_slice(&FDT_END.to_be_bytes());
    let x = extract(&assemble(&body, &strings)).unwrap();
    assert_eq!(x.model.as_str(), "<non-utf8>");
}

#[test]
fn header_refusals() {
    let good = board();
    assert_eq!(extract(&good[..32]).unwrap_err(), FdtError::Truncated);
    let mut bad = good.clone();
    bad[0] ^= 0xff;
    assert_eq!(extract(&bad).unwrap_err(), FdtError::BadMagic);
    let mut old = good.clone();
    old[20..24].copy_from_slice(&16u32.to_be_bytes());
    assert_eq!(extract(&old).unwrap_err(), FdtError::OldVersion);
    let mut huge = good.clone();
    let past = (good.len() as u32 + 4).to_be_bytes();
    huge[4..8].copy_from_slice(&past);
    assert_eq!(extract(&huge).unwrap_err(), FdtError::Truncated);
}

#[test]
fn unbalanced_end_node_is_bad_structure() {
    let mut body = Vec::new();
    end_node(&mut body);
    body.extend_from_slice(&FDT_END.to_be_bytes());
    assert_eq!(extract(&assemble(&body, &[])).unwrap_err(), FdtError::BadStructure);
}

#[test]
fn missing_end_token_is_bad_structure() {
    let mut body = Vec::new();
    begin_node(&mut body, "");
    end_node(&mut body);
    assert_eq!(extract(&assemble(&body, &[])).unwrap_err(), FdtError::BadStructure);
}

// --- a small device-tree builder ---

const FDT_MAGIC_WORD: u32 = 0xd00d_feed;
const TOKEN_BEGIN_NODE: u32 = 1;
const TOKEN_END_NODE: u32 = 2;
const TOKEN_PROP: u32 = 3;
const TOKEN_NOP: u32 = 4;
const TOKEN_END: u32 = 9;

struct Tree {
    body: Vec<u8>,
    strings: Vec<u8>,
}

impl Tree {
    fn new() -> Self {
        Tree { body: Vec::new(), strings: Vec::new() }
    }

    fn name(&mut self, s: &str) -> u32 {
        let needle: Vec<u8> = s.bytes().chain(std::iter::once(0)).collect();
        if let Some(pos) = self.strings.windows(needle.len()).position(|w| w == needle.as_slice()) {
            if pos == 0 || self.strings[pos - 1] == 0 {
                return pos as u32;
            }
        }
        let off = self.strings.len() as u32;
        self.strings.extend_from_slice(&needle);
        off
    }

    fn pad(&mut self) {
        while self.body.len() % 4 != 0 {
            self.body.push(0);
        }
    }

    fn begin(&mut self, name: &str) {
        self.body.extend_from_slice(&TOKEN_BEGIN_NODE.to_be_bytes());
        self.body.extend_from_slice(name.as_bytes());
        self.body.push(0);
        self.pad();
    }

    fn end(&mut self) {
        self.body.extend_from_slice(&TOKEN_END_NODE.to_be_bytes());
    }

    fn nop(&mut self) {
        self.body.extend_from_slice(&TOKEN_NOP.to_be_bytes());
    }

    fn prop(&mut self, name: &str, value: &[u8]) {
        let off = self.name(name);
        self.body.extend_from_slice(&TOKEN_PROP.to_be_bytes());
        self.body.extend_from_slice(&(value.len() as u32).to_be_bytes());
        self.body.extend_from_slice(&off.to_be_bytes());
        self.body.extend_from_slice(value);
        self.pad();
    }

    fn cells(&mut self, name: &str, cells: &[u32]) {
        let v: Vec<u8> = cells.iter().flat_map(|c| c.to_be_bytes()).collect();
        self.prop(name, &v);
    }

    fn blob(mut self) -> Vec<u8> {
        self.body.extend_from_slice(&TOKEN_END.to_be_bytes());
        let s_off = 40u32;
        let str_off = s_off + self.body.len() as u32;
        let total = str_off + self.strings.len() as u32;
        let mut blob = header(total, s_off, self.body.len() as u32, str_off, self.strings.len() as u32);
        blob.extend_from_slice(&self.body);
        blob.extend_from_slice(&self.strings);
        blob
    }
}

/// A Pi 4 shaped blob standing in for the distributed `bcm2711-rpi-4-b`
/// tree: the same root facts, a zero-size memory node, no revision, four
/// cpus, and the `/scb` GENET binding with its bus and DMA ranges.
fn pi4() -> Vec<u8> {
    let mut t = Tree::new();
    t.begin("");
    t.prop("model", b"Raspberry Pi 4 Model B\0");
    t.prop("compatible", b"raspberrypi,4-model-b\0brcm,bcm2711\0");
    t.cells("#address-cells", &[2]);
    t.cells("#size-cells", &[1]);
    t.cells("interrupt-parent", &[1]);
    for _ in 0..600 {
        t.nop();
    }
    t.begin("cpus");
    t.cells("#address-cells", &[1]);
    t.cells("#size-cells", &[0]);
    for i in 0..4u32 {
        t.begin(&format!("cpu@{i}"));
        t.prop("device_type", b"cpu\0");
        t.cells("reg", &[i]);
        t.end();
    }
    t.end();
    t.begin("memory@0");
    t.prop("device_type", b"memory\0");
    t.cells("reg", &[0, 0, 0]);
    t.end();
    t.begin("scb");
    t.cells("#address-cells", &[2]);
    t.cells("#size-cells", &[1]);
    t.cells(
        "ranges",
        &[
            0x0, 0x7c00_0000, 0x0, 0xfc00_0000, 0x0380_0000, //
            0x0, 0x4000_0000, 0x0, 0xff80_0000, 0x0080_0000, //
            0x6, 0x0000_0000, 0x6, 0x0000_0000, 0x4000_0000, //
            0x0, 0x0000_0000, 0x0, 0x0000_0000, 0xfc00_0000,
        ],
    );
    t.cells(
        "dma-ranges",
        &[
            0x0, 0x0000_0000, 0x0, 0x0000_0000, 0xfc00_0000, //
            0x4, 0x7c00_0000, 0x0, 0xfc00_0000, 0x0380_0000,
        ],
    );
    t.begin("ethernet@7d580000");
    t.prop("compatible", b"brcm,bcm2711-genet-v5\0brcm,genet-v5\0");
    t.cells("reg", &[0x0, 0x7d58_0000, 0x0, 0x1_0000]);
    t.cells("interrupts", &[0x0, 0x9d, 0x4, 0x0, 0x9e, 0x4]);
    t.prop("status", b"okay\0");
    t.cells("phy-handle", &[0x8a]);
    t.prop("phy-mode", b"rgmii-rxid\0");
    t.begin("mdio@e14");
    t.cells("#address-cells", &[1]);
    t.cells("#size-cells", &[0]);
    t.begin("ethernet-phy@1");
    t.cells("reg", &[1]);
    t.cells("phandle", &[0x8a]);
    t.end();
    t.end();
    t.end();
    t.end();
    t.end();
    t.blob()
}

#[test]
fn pi4_distributed_blob() {
    let x = extract(&pi4()).unwrap();
    assert_eq!(x.model.as_str(), "Raspberry Pi 4 Model B");
    assert_eq!(x.compatible.as_str(), "raspberrypi,4-model-b");
    assert_eq!(x.address_cells, 2);
    assert_eq!(x.size_cells, 1);
    assert_eq!(x.cpus, 4);
    // Firmware patches the real size at boot; the shipped blob says 0.
    assert_eq!(x.memory_ranges, 1);
    assert_eq!(x.memory_total, 0);
    assert_eq!(x.revision, None);
}

#[test]
fn refuses_truncated_header() {
    let pi4 = pi4();
    assert!(matches!(extract(&pi4[..32]), Err(FdtError::Truncated)));
}

#[test]
fn refuses_bad_magic() {
    let mut bad = pi4();
    bad[0] ^= 0xff;
    assert!(matches!(extract(&bad), Err(FdtError::BadMagic)));
}

#[test]
fn refuses_truncated_struct_block() {
    // Keep the header but cut the body: totalsize now overruns the slice.
    let pi4 = pi4();
    assert!(pi4.len() > 2048);
    assert!(matches!(extract(&pi4[..2048]), Err(FdtError::Truncated)));
}

#[test]
fn refuses_totalsize_beyond_slice() {
    let mut bad = pi4();
    let huge = (bad.len() as u32 + 4).to_be_bytes();
    bad[4..8].copy_from_slice(&huge);
    assert!(matches!(extract(&bad), Err(FdtError::Truncated)));
}

#[test]
fn old_version_refused() {
    let mut bad = pi4();
    bad[20..24].copy_from_slice(&16u32.to_be_bytes());
    assert!(matches!(extract(&bad), Err(FdtError::OldVersion)));
}
