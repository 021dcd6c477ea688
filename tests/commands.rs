use rx888_stream::rx888::{
    argument_request, command_request, command_request_u64, gpio_word, rx888_attenuator_bits,
    shutdown_requests, vga_setting, ArgumentList, FX3Command, GPIOPin,
};
use rx888_stream::usb::{ram_read_request, ram_write_request, split_address};

#[test]
fn command_codes() {
    assert_eq!(FX3Command::STARTFX3.code(), 0xAA);
    assert_eq!(FX3Command::RESETFX3.code(), 0xB1);
    assert_eq!(FX3Command::SETARGFX3.code(), 0xB6);
    assert_eq!(FX3Command::STARTADC.code(), 0xB2);
    assert_eq!(FX3Command::TUNERSTDBY.code(), 0xB8);
    assert_eq!(FX3Command::READINFODEBUG.code(), 0xBA);
}

#[test]
fn argument_indices_and_pins() {
    assert_eq!(ArgumentList::R82XX_ATTENUATOR.index(), 1);
    assert_eq!(ArgumentList::DAT31_ATT.index(), 10);
    assert_eq!(ArgumentList::VHF_ATTENUATOR.index(), 13);
    assert_eq!(GPIOPin::ATT_LE.mask(), 1);
    assert_eq!(GPIOPin::DITH.mask(), 1 << 6);
    assert_eq!(GPIOPin::PGA_EN.mask(), 1 << 16);
}

#[test]
fn command_carries_little_endian_payload() {
    let r = command_request(FX3Command::STARTADC, 50_000_000);
    assert_eq!(r.request_type, 0x40);
    assert_eq!(r.request, 0xB2);
    assert_eq!((r.value, r.index), (0, 0));
    assert_eq!(r.data, 50_000_000u32.to_le_bytes().to_vec());
    let r = command_request_u64(FX3Command::TUNERTUNE, 145_000_000_123);
    assert_eq!(r.request, 0xB5);
    assert_eq!(r.data, 145_000_000_123u64.to_le_bytes().to_vec());
}

#[test]
fn argument_goes_in_value_and_index() {
    let r = argument_request(ArgumentList::AD8340_VGA, 0x1_0083);
    assert_eq!(r.request_type, 0x40);
    assert_eq!(r.request, 0xB6);
    assert_eq!(r.value, 0x0083);
    assert_eq!(r.index, 11);
    assert_eq!(r.data, vec![0]);
}

#[test]
fn ram_requests_split_the_address() {
    assert_eq!(split_address(0x1234_5678), (0x5678, 0x1234));
    let w = ram_write_request(0x0010_2000, &[9, 8, 7]);
    assert_eq!((w.request_type, w.request, w.value, w.index), (0x40, 0xA0, 0x2000, 0x0010));
    assert_eq!(w.data, vec![9, 8, 7]);
    let r = ram_read_request(0xFFFF_0001, 5);
    assert_eq!((r.request_type, r.request, r.value, r.index), (0xC0, 0xA0, 0x0001, 0xFFFF));
    assert_eq!(r.data, vec![0; 5]);
}

#[test]
fn gpio_word_sets_requested_lines() {
    assert_eq!(gpio_word(false, false, false, false, false, false), 0);
    assert_eq!(gpio_word(true, true, false, false, false, false), 0xC0);
    assert_eq!(gpio_word(false, false, true, true, true, true), 0x1_8300);
}

#[test]
fn rx888_attenuator_settings() {
    assert_eq!(rx888_attenuator_bits(0), Some(0x4000));
    assert_eq!(rx888_attenuator_bits(10), Some(0x6000));
    assert_eq!(rx888_attenuator_bits(20), Some(0x2000));
    assert_eq!(rx888_attenuator_bits(5), None);
}

#[test]
fn vga_low_mode_sets_top_bit() {
    assert_eq!(vga_setting(1, false), 1);
    assert_eq!(vga_setting(1, true), 0x81);
    assert_eq!(vga_setting(127, true), 0xFF);
}

#[test]
fn shutdown_downclocks_then_stops() {
    let (downclock, stop) = shutdown_requests();
    assert_eq!(downclock.request, 0xB2);
    assert_eq!(downclock.data, 10_000_000u32.to_le_bytes().to_vec());
    assert_eq!(stop.request, 0xAB);
    assert_eq!(stop.data, vec![0, 0, 0, 0]);
}
