//! Staging the verified buffer into an HT16K33 device driver.
//!
//! The driver's own buffer and the bus behind it live outside the verified
//! model: the engine renders into a [`BufferModel`], and this module copies
//! the staged bytes into the driver one LED at a time. Committing the
//! driver's buffer to the device over the bus stays the caller's concern.

use vstd::prelude::*;

use embedded_hal::blocking::i2c::Write;
use embedded_hal::blocking::i2c::WriteRead;
use ht16k33::DisplayData;
use ht16k33::DisplayDataAddress;
use ht16k33::HT16K33;
use ht16k33::LedLocation;

use crate::display::BufferModel;
use crate::display::SegmentDisplay;

verus! {

#[verifier::external_type_specification]
#[verifier::external_body]
#[verifier::reject_recursive_types(I2C)]
pub struct ExHT16K33<I2C>(HT16K33<I2C>);

#[verifier::external_type_specification]
#[verifier::external_body]
pub struct ExI2cMock(ht16k33::i2c_mock::I2cMock);

#[verifier::external_type_specification]
#[verifier::external_body]
pub struct ExI2cMockError(ht16k33::i2c_mock::I2cMockError);

/// A sink for single staged LED states, addressed the way the HT16K33
/// multiplexes them: a row and a one-bit common mask. What a sink holds is
/// outside the verified model, so the operation carries no contract.
pub trait LedSink {
    /// Stage one LED on or off.
    fn stage_led(&mut self, row: u8, common_mask: u8, on: bool);
}

/// Relies on `ht16k33::HT16K33::update_display_buffer`: stages the on/off
/// state of one LED, addressed by a row and a common mask, in the driver's
/// in-memory buffer; no bus traffic happens. The driver's buffer is opaque
/// to the model, so nothing is claimed of it.
#[verifier::external_body]
pub(crate) fn stage_led_device<I2C, E>(device: &mut HT16K33<I2C>, row: u8, common_mask: u8, on: bool) where
    I2C: Write<Error = E> + WriteRead<Error = E>,
{
    let location = LedLocation {
        row: DisplayDataAddress::from_bits_truncate(row),
        common: DisplayData::from_bits_truncate(common_mask),
    };
    device.update_display_buffer(location, on);
}

impl LedSink for HT16K33<ht16k33::i2c_mock::I2cMock> {
    fn stage_led(&mut self, row: u8, common_mask: u8, on: bool) {
        stage_led_device(self, row, common_mask, on)
    }
}

/// Copy every staged bit of the model buffer into a sink — typically an
/// HT16K33 driver's display buffer — one LED at a time.
pub fn stage_buffer_model<S: LedSink>(sink: &mut S, model: &BufferModel)
    requires
        model.rows().len() == 8,
{
    let mut row: u8 = 0;
    while row < 8
        invariant
            model.rows().len() == 8,
        decreases 8 - row,
    {
        let byte = model.row_value(row);
        let mut bit: u8 = 0;
        while bit < 8
            invariant
                model.rows().len() == 8,
                row < 8,
            decreases 8 - bit,
        {
            let on = ((byte >> bit) & 1) == 1;
            sink.stage_led(row, 1u8 << bit, on);
            bit += 1;
        }
        row += 1;
    }
}

} // verus!
