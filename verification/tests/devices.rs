use nit_os::cmos::{
    bcd_to_binary, decode_rtc, CMOSCenturyHandler, RTCDateTime, RtcSample,
};
use nit_os::keyboard::{console_action, ConsoleAction, KeyOutput, ScancodeDecoder};
use nit_os::qemu::QemuExitCode;
use nit_os::vga::{Color, ColorCode};

#[test]
fn scancode_decoder_handles_press_and_release() {
    let mut decoder = ScancodeDecoder::new();
    // press 'a' (scancode set 1, key 0x1E)
    let key = decoder.decode(0x1E);
    assert!(matches!(key, Some(KeyOutput::Unicode('a'))));
    // releasing it decodes no printable key
    assert!(decoder.decode(0x9E).is_none());
}

#[test]
fn backspace_clears_the_console() {
    let mut decoder = ScancodeDecoder::new();
    let key = decoder.decode(0x0E).unwrap();
    assert!(matches!(key, KeyOutput::Unicode('\u{8}')));
    assert_eq!(console_action(key), ConsoleAction::ClearScreen);
}

#[test]
fn console_action_is_exactly_one_of_three() {
    assert_eq!(console_action(KeyOutput::Unicode('x')), ConsoleAction::PrintChar('x'));
    assert_eq!(console_action(KeyOutput::Unicode('\u{8}')), ConsoleAction::ClearScreen);
    assert_eq!(
        console_action(KeyOutput::RawKey(String::from("ArrowUp"))),
        ConsoleAction::PrintRaw(String::from("ArrowUp")),
    );
}

#[test]
fn bcd_bytes_decode_to_binary() {
    assert_eq!(bcd_to_binary(0x00), 0);
    assert_eq!(bcd_to_binary(0x09), 9);
    assert_eq!(bcd_to_binary(0x10), 10);
    assert_eq!(bcd_to_binary(0x59), 59);
    assert_eq!(bcd_to_binary(0x99), 99);
}

#[test]
fn rtc_sample_decodes_bcd_and_twelve_hour_clock() {
    // register B zero: BCD-coded, 12-hour clock; 0x83 is 3 in the
    // afternoon, so the 24-hour clock reads 15
    let sample = RtcSample {
        second: 0x30,
        minute: 0x45,
        hour: 0x83,
        day: 0x28,
        month: 0x02,
        year: 0x20,
        century: 0x20,
        register_b: 0x00,
    };
    let t = decode_rtc(sample, CMOSCenturyHandler::CenturyRegister(0x32));
    assert_eq!(
        t,
        RTCDateTime { second: 30, minute: 45, hour: 15, day: 28, month: 2, year: 2020 },
    );
}

#[test]
fn rtc_sample_decodes_binary_mode_untouched() {
    // register B bits 1 and 2 set: binary values, 24-hour clock
    let sample = RtcSample {
        second: 30,
        minute: 45,
        hour: 23,
        day: 28,
        month: 2,
        year: 20,
        century: 20,
        register_b: 0x06,
    };
    let t = decode_rtc(sample, CMOSCenturyHandler::CenturyRegister(0x32));
    assert_eq!(t.hour, 23);
    assert_eq!(t.year, 2020);
}

#[test]
fn rtc_year_from_current_year_backup() {
    let mut sample = RtcSample {
        second: 0,
        minute: 0,
        hour: 0x01,
        day: 0x01,
        month: 0x01,
        year: 0x21,
        century: 0,
        register_b: 0x02,
    };
    // clock year 21, current year 2020: same century, no bump
    let t = decode_rtc(sample, CMOSCenturyHandler::CurrentYear(2020));
    assert_eq!(t.year, 2021);
    // clock year 00, current year 2099: the clock wrapped past the century
    sample.year = 0x00;
    let t = decode_rtc(sample, CMOSCenturyHandler::CurrentYear(2099));
    assert_eq!(t.year, 2100);
}

#[test]
fn color_codes_pack_background_high_foreground_low() {
    assert_eq!(ColorCode::new(Color::Yellow, Color::Black).bits, 14);
    assert_eq!(ColorCode::new(Color::White, Color::Red).bits, 0x4F);
    assert_eq!(ColorCode::new(Color::LightGray, Color::Red).bits, 0x47);
    assert_eq!(Color::Black.as_u8(), 0);
    assert_eq!(Color::White.as_u8(), 15);
}

#[test]
fn qemu_exit_codes() {
    assert_eq!(QemuExitCode::Success.code(), 0x10);
    assert_eq!(QemuExitCode::Failed.code(), 0x11);
}
