//! The receiver's vendor commands, argument indices and GPIO bits, and the control
//! requests that carry them.
use crate::usb::{ControlRequest, ENDPOINT_OUT, REQUEST_TYPE_VENDOR};
use vstd::prelude::*;

verus! {

/// Vendor commands understood by the firmware.
#[allow(non_camel_case_types)]
#[derive(Debug, Clone, Copy, PartialEq, Eq, Structural)]
pub enum FX3Command {
    /// Start the GPIF engine and stream ADC data (write: u32).
    STARTFX3,
    /// Stop the GPIF engine (write: u32).
    STOPFX3,
    /// Read model and version information (read: u32).
    TESTFX3,
    /// Set the GPIO lines (write: u32).
    GPIOFX3,
    /// Write to the I2C bus (index: register, value: I2C address).
    I2CWFX3,
    /// Read from the I2C bus (index: register, value: I2C address).
    I2CRFX3,
    /// Reset the USB chip back into its bootloader.
    RESETFX3,
    /// Set an argument: index names it, value carries it.
    SETARGFX3,
    /// Start the ADC at a given frequency (write: u32).
    STARTADC,
    /// Initialise the R82xx tuner.
    TUNERINIT,
    /// Tune to a frequency (write: u64).
    TUNERTUNE,
    /// Put the tuner on standby.
    TUNERSTDBY,
    /// Read the debug string, if any.
    READINFODEBUG,
}

impl FX3Command {
    pub open spec fn spec_code(self) -> u8 {
        match self {
            FX3Command::STARTFX3 => 0xAA,
            FX3Command::STOPFX3 => 0xAB,
            FX3Command::TESTFX3 => 0xAC,
            FX3Command::GPIOFX3 => 0xAD,
            FX3Command::I2CWFX3 => 0xAE,
            FX3Command::I2CRFX3 => 0xAF,
            FX3Command::RESETFX3 => 0xB1,
            FX3Command::SETARGFX3 => 0xB6,
            FX3Command::STARTADC => 0xB2,
            FX3Command::TUNERINIT => 0xB4,
            FX3Command::TUNERTUNE => 0xB5,
            FX3Command::TUNERSTDBY => 0xB8,
            FX3Command::READINFODEBUG => 0xBA,
        }
    }

    /// The request code of the command.
    pub fn code(&self) -> (r: u8)
        ensures
            r == self.spec_code(),
    {
        match self {
            FX3Command::STARTFX3 => 0xAA,
            FX3Command::STOPFX3 => 0xAB,
            FX3Command::TESTFX3 => 0xAC,
            FX3Command::GPIOFX3 => 0xAD,
            FX3Command::I2CWFX3 => 0xAE,
            FX3Command::I2CRFX3 => 0xAF,
            FX3Command::RESETFX3 => 0xB1,
            FX3Command::SETARGFX3 => 0xB6,
            FX3Command::STARTADC => 0xB2,
            FX3Command::TUNERINIT => 0xB4,
            FX3Command::TUNERTUNE => 0xB5,
            FX3Command::TUNERSTDBY => 0xB8,
            FX3Command::READINFODEBUG => 0xBA,
        }
    }
}

/// Arguments set through `SETARGFX3`.
#[allow(non_camel_case_types)]
#[derive(Debug, Clone, Copy, PartialEq, Eq, Structural)]
pub enum ArgumentList {
    /// R82xx LNA/mixer gain, 0 to 29.
    R82XX_ATTENUATOR,
    /// R82xx VGA gain, 0 to 15.
    R82XX_VGA,
    /// R82xx sideband, 0 or 1.
    R82XX_SIDEBAND,
    /// R82xx harmonic, 0 or 1.
    R82XX_HARMONIC,
    /// DAT-31 attenuator, 0 to 63.
    DAT31_ATT,
    /// AD8340 VGA, 0 to 255.
    AD8340_VGA,
    /// Preselector, 0 to 2.
    PRESELECTOR,
    /// VHF attenuator, 0 to 15.
    VHF_ATTENUATOR,
}

impl ArgumentList {
    pub open spec fn spec_index(self) -> u16 {
        match self {
            ArgumentList::R82XX_ATTENUATOR => 1,
            ArgumentList::R82XX_VGA => 2,
            ArgumentList::R82XX_SIDEBAND => 3,
            ArgumentList::R82XX_HARMONIC => 4,
            ArgumentList::DAT31_ATT => 10,
            ArgumentList::AD8340_VGA => 11,
            ArgumentList::PRESELECTOR => 12,
            ArgumentList::VHF_ATTENUATOR => 13,
        }
    }

    /// The argument index sent in the `index` field.
    pub fn index(&self) -> (r: u16)
        ensures
            r == self.spec_index(),
    {
        match self {
            ArgumentList::R82XX_ATTENUATOR => 1,
            ArgumentList::R82XX_VGA => 2,
            ArgumentList::R82XX_SIDEBAND => 3,
            ArgumentList::R82XX_HARMONIC => 4,
            ArgumentList::DAT31_ATT => 10,
            ArgumentList::AD8340_VGA => 11,
            ArgumentList::PRESELECTOR => 12,
            ArgumentList::VHF_ATTENUATOR => 13,
        }
    }
}

/// GPIO lines driven through `GPIOFX3`.
#[allow(non_camel_case_types)]
#[derive(Debug, Clone, Copy, PartialEq, Eq, Structural)]
pub enum GPIOPin {
    ATT_LE,
    ATT_CLK,
    ATT_DATA,
    SEL0,
    SEL1,
    SHDWN,
    DITH,
    RANDO,
    BIAS_HF,
    BIAS_VHF,
    LED_YELLOW,
    LED_RED,
    LED_BLUE,
    ATT_SEL0,
    ATT_SEL1,
    VHF_EN,
    PGA_EN,
}

impl GPIOPin {
    pub open spec fn spec_mask(self) -> u32 {
        match self {
            GPIOPin::ATT_LE => 0x1,
            GPIOPin::ATT_CLK => 0x2,
            GPIOPin::ATT_DATA => 0x4,
            GPIOPin::SEL0 => 0x8,
            GPIOPin::SEL1 => 0x10,
            GPIOPin::SHDWN => 0x20,
            GPIOPin::DITH => 0x40,
            GPIOPin::RANDO => 0x80,
            GPIOPin::BIAS_HF => 0x100,
            GPIOPin::BIAS_VHF => 0x200,
            GPIOPin::LED_YELLOW => 0x400,
            GPIOPin::LED_RED => 0x800,
            GPIOPin::LED_BLUE => 0x1000,
            GPIOPin::ATT_SEL0 => 0x2000,
            GPIOPin::ATT_SEL1 => 0x4000,
            GPIOPin::VHF_EN => 0x8000,
            GPIOPin::PGA_EN => 0x1_0000,
        }
    }

    /// The line's bit in the GPIO word.
    pub fn mask(&self) -> (r: u32)
        ensures
            r == self.spec_mask(),
    {
        match self {
            GPIOPin::ATT_LE => 0x1,
            GPIOPin::ATT_CLK => 0x2,
            GPIOPin::ATT_DATA => 0x4,
            GPIOPin::SEL0 => 0x8,
            GPIOPin::SEL1 => 0x10,
            GPIOPin::SHDWN => 0x20,
            GPIOPin::DITH => 0x40,
            GPIOPin::RANDO => 0x80,
            GPIOPin::BIAS_HF => 0x100,
            GPIOPin::BIAS_VHF => 0x200,
            GPIOPin::LED_YELLOW => 0x400,
            GPIOPin::LED_RED => 0x800,
            GPIOPin::LED_BLUE => 0x1000,
            GPIOPin::ATT_SEL0 => 0x2000,
            GPIOPin::ATT_SEL1 => 0x4000,
            GPIOPin::VHF_EN => 0x8000,
            GPIOPin::PGA_EN => 0x1_0000,
        }
    }
}

/// The four little-endian bytes of `x`.
pub open spec fn le_bytes_u32(x: u32) -> Seq<u8> {
    seq![
        (x % 0x100) as u8,
        (x / 0x100 % 0x100) as u8,
        (x / 0x1_0000 % 0x100) as u8,
        (x / 0x100_0000) as u8,
    ]
}

/// The eight little-endian bytes of `x`.
pub open spec fn le_bytes_u64(x: u64) -> Seq<u8> {
    le_bytes_u32((x % 0x1_0000_0000) as u32) + le_bytes_u32((x / 0x1_0000_0000) as u32)
}

fn u32_to_le(x: u32) -> (r: Vec<u8>)
    ensures
        r@ == le_bytes_u32(x),
{
    let v = vec![
        (x % 0x100) as u8,
        (x / 0x100 % 0x100) as u8,
        (x / 0x1_0000 % 0x100) as u8,
        (x / 0x100_0000) as u8,
    ];
    proof {
        assert(v@ =~= le_bytes_u32(x));
    }
    v
}

/// The request that sends `cmd` with a 32-bit little-endian payload.
pub fn command_request(cmd: FX3Command, data: u32) -> (r: ControlRequest)
    ensures
        r.request_type == ENDPOINT_OUT | REQUEST_TYPE_VENDOR,
        r.request == cmd.spec_code(),
        r.value == 0,
        r.index == 0,
        r.data@ == le_bytes_u32(data),
{
    ControlRequest {
        request_type: ENDPOINT_OUT | REQUEST_TYPE_VENDOR,
        request: cmd.code(),
        value: 0,
        index: 0,
        data: u32_to_le(data),
    }
}

/// The request that sends `cmd` with a 64-bit little-endian payload.
pub fn command_request_u64(cmd: FX3Command, data: u64) -> (r: ControlRequest)
    ensures
        r.request_type == ENDPOINT_OUT | REQUEST_TYPE_VENDOR,
        r.request == cmd.spec_code(),
        r.value == 0,
        r.index == 0,
        r.data@ == le_bytes_u64(data),
{
    let mut bytes = u32_to_le((data % 0x1_0000_0000) as u32);
    let mut high = u32_to_le((data / 0x1_0000_0000) as u32);
    bytes.append(&mut high);
    ControlRequest {
        request_type: ENDPOINT_OUT | REQUEST_TYPE_VENDOR,
        request: cmd.code(),
        value: 0,
        index: 0,
        data: bytes,
    }
}

/// ADC clock, in hertz, that the device is left at once streaming stops.
pub const IDLE_ADC_RATE: u32 = 10_000_000;

/// The requests that stop the device after streaming, in the order they are sent: the
/// ADC is first clocked down to `IDLE_ADC_RATE`, then the GPIF engine is stopped.
pub fn shutdown_requests() -> (r: (ControlRequest, ControlRequest))
    ensures
        r.0.request == FX3Command::STARTADC.spec_code(),
        r.0.data@ == le_bytes_u32(IDLE_ADC_RATE),
        r.1.request == FX3Command::STOPFX3.spec_code(),
        r.1.data@ == le_bytes_u32(0),
        r.0.request_type == ENDPOINT_OUT | REQUEST_TYPE_VENDOR && r.0.value == 0 && r.0.index == 0,
        r.1.request_type == ENDPOINT_OUT | REQUEST_TYPE_VENDOR && r.1.value == 0 && r.1.index == 0,
{
    (command_request(FX3Command::STARTADC, IDLE_ADC_RATE), command_request(FX3Command::STOPFX3, 0))
}

/// The request that sets argument `arg`: the low 16 bits of `data` go in `value`, the
/// argument index in `index`, and the data stage is one zero byte.
pub fn argument_request(arg: ArgumentList, data: u32) -> (r: ControlRequest)
    ensures
        r.request_type == REQUEST_TYPE_VENDOR | ENDPOINT_OUT,
        r.request == FX3Command::SETARGFX3.spec_code(),
        r.value == data as int % 0x1_0000,
        r.index == arg.spec_index(),
        r.data@ == seq![0u8],
{
    let v = vec![0u8];
    proof {
        assert(v@ =~= seq![0u8]);
    }
    ControlRequest {
        request_type: REQUEST_TYPE_VENDOR | ENDPOINT_OUT,
        request: FX3Command::SETARGFX3.code(),
        value: (data % 0x1_0000) as u16,
        index: arg.index(),
        data: v,
    }
}

/// The GPIO word for the front-end switches that were asked for.
pub fn gpio_word(dither: bool, randomize: bool, bias_hf: bool, bias_vhf: bool, pga: bool, vhf: bool) -> (r: u32)
    ensures
        r == (if dither { 0x40u32 } else { 0 }) | (if randomize { 0x80u32 } else { 0 }) | (
        if bias_hf { 0x100u32 } else { 0 }) | (if bias_vhf { 0x200u32 } else { 0 }) | (if pga {
            0x1_0000u32
        } else {
            0
        }) | (if vhf { 0x8000u32 } else { 0 }),
{
    let dith = if dither { GPIOPin::DITH.mask() } else { 0 };
    let rando = if randomize { GPIOPin::RANDO.mask() } else { 0 };
    let hf = if bias_hf { GPIOPin::BIAS_HF.mask() } else { 0 };
    let vhf_bias = if bias_vhf { GPIOPin::BIAS_VHF.mask() } else { 0 };
    let pga_en = if pga { GPIOPin::PGA_EN.mask() } else { 0 };
    let vhf_en = if vhf { GPIOPin::VHF_EN.mask() } else { 0 };
    dith | rando | hf | vhf_bias | pga_en | vhf_en
}

/// The attenuator-select bits of the first RX888, which knows the settings 0, 10 and
/// 20 only; `None` for any other setting.
pub fn rx888_attenuator_bits(attenuation: u8) -> (r: Option<u32>)
    ensures
        attenuation == 0 ==> r == Some(GPIOPin::ATT_SEL1.spec_mask()),
        attenuation == 10 ==> r == Some(
            GPIOPin::ATT_SEL1.spec_mask() | GPIOPin::ATT_SEL0.spec_mask(),
        ),
        attenuation == 20 ==> r == Some(GPIOPin::ATT_SEL0.spec_mask()),
        attenuation != 0 && attenuation != 10 && attenuation != 20 ==> r is None,
{
    if attenuation == 0 {
        Some(GPIOPin::ATT_SEL1.mask())
    } else if attenuation == 10 {
        Some(GPIOPin::ATT_SEL1.mask() | GPIOPin::ATT_SEL0.mask())
    } else if attenuation == 20 {
        Some(GPIOPin::ATT_SEL0.mask())
    } else {
        None
    }
}

/// The VGA setting sent to the device: the gain, with the top bit set in low-gain mode.
pub fn vga_setting(gain: u8, low_mode: bool) -> (r: u8)
    ensures
        r == if low_mode { gain | 0x80 } else { gain },
{
    if low_mode {
        gain | 0x80
    } else {
        gain
    }
}

} // verus!
