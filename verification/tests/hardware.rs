use alphanum4::Index;
use alphanum4::display::BufferModel;
use alphanum4::encode::update_buffer_with_digit;
use alphanum4::encode::update_buffer_with_dot;
use alphanum4::fonts::digit_mask;
use alphanum4::hw::stage_buffer_model;
use ht16k33::HT16K33;
use ht16k33::i2c_mock::I2cMock;

#[test]
fn staged_model_reaches_device_buffer() {
    let mut b = BufferModel::new();
    update_buffer_with_digit(&mut b, Index::Two, 7);
    update_buffer_with_dot(&mut b, Index::Two, true);
    let mut device = HT16K33::new(I2cMock::new(), 0);
    stage_buffer_model(&mut device, &b);
    let expected = digit_mask(7) | alphanum4::fonts::DOT_MASK;
    let buffer = device.display_buffer();
    assert_eq!(buffer[2].bits(), (expected & 0xFF) as u8);
    assert_eq!(buffer[3].bits(), (expected >> 8) as u8);
    // Slots the model never touched stay dark in the device too.
    assert_eq!(buffer[0].bits(), 0);
    assert_eq!(buffer[6].bits(), 0);
}

#[test]
fn staging_clears_previously_set_device_bits() {
    let mut b = BufferModel::new();
    update_buffer_with_digit(&mut b, Index::One, 8);
    let mut device = HT16K33::new(I2cMock::new(), 0);
    stage_buffer_model(&mut device, &b);
    // Re-render a different digit and stage again: every bit is rewritten.
    let mut c = BufferModel::new();
    update_buffer_with_digit(&mut c, Index::One, 1);
    stage_buffer_model(&mut device, &c);
    let buffer = device.display_buffer();
    assert_eq!(buffer[0].bits(), (digit_mask(1) & 0xFF) as u8);
    assert_eq!(buffer[1].bits(), (digit_mask(1) >> 8) as u8);
}
