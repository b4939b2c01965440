use kernel_core::display::{CMD_COLMOD, CMD_SLPOUT, InitOp, Rgb565, address_window_bytes, frame_pixels};

#[test]
fn rgb565_black_and_white() {
    assert_eq!(Rgb565::black().0, 0);
    assert_eq!(Rgb565::white().0, 0xFFFF);
}

#[test]
fn rgb565_red_channel_in_high_bits() {
    let r = Rgb565::from_rgb8(0xF8, 0, 0);
    assert_eq!(r.0 & 0xF800, 0xF800);
    assert_eq!(r.0 & 0x07FF, 0);
}

#[test]
fn be_wire_order() {
    assert_eq!(Rgb565(0x1234).to_be_bytes(), [0x12, 0x34]);
}

#[test]
fn address_window_splits_u16() {
    assert_eq!(address_window_bytes(0, 479), [0, 0, 0x01, 0xDF]);
    assert_eq!(address_window_bytes(10, 20), [0, 10, 0, 20]);
}

#[test]
fn frame_pixel_count_waveshare_landscape() {
    assert_eq!(frame_pixels(480, 320), 153_600);
}

#[test]
fn init_ops_are_plain_data() {
    let seq = [
        InitOp::Cmd(CMD_SLPOUT),
        InitOp::DelayMs(5),
        InitOp::Cmd(CMD_COLMOD),
        InitOp::Data(&[0x55]),
    ];
    assert_eq!(seq.len(), 4);
}
