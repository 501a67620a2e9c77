//! Tests for the configuration record, its codec and the console plan.

use neotron_os::config::Config;
use neotron_os::config::ConfigLoadError;
use neotron_os::config::DataBits;
use neotron_os::config::Handshaking;
use neotron_os::config::Parity;
use neotron_os::config::StopBits;

fn default_record() -> Config {
    Config { vga_console_on: true, serial_console_on: false, serial_baud: 115200 }
}

#[test]
fn default_record_round_trips() {
    let c = default_record();
    let bytes = c.encode();
    let back = Config::decode(&bytes).unwrap();
    assert_eq!(back, c);
}

#[test]
fn many_records_round_trip() {
    let bauds = [0u32, 1, 127, 128, 300, 9600, 16383, 16384, 115200, 2097151, u32::MAX];
    let flags = [(false, false), (true, false), (false, true), (true, true)];
    for &baud in &bauds {
        for &(vga, ser) in &flags {
            let c = Config { vga_console_on: vga, serial_console_on: ser, serial_baud: baud };
            assert_eq!(Config::decode(&c.encode()).unwrap(), c);
        }
    }
}

#[test]
fn encoding_matches_the_wire_format() {
    let c = default_record();
    let mine = c.encode();
    let mut buf = [0u8; 64];
    let theirs = postcard::to_slice(&(true, false, 115200u32), &mut buf).unwrap();
    assert_eq!(&mine[..], &theirs[..]);
}

#[test]
fn wire_format_decoders_accept_the_encoding() {
    let c = Config { vga_console_on: false, serial_console_on: true, serial_baud: 9600 };
    let bytes = c.encode();
    let decoded: (bool, bool, u32) = postcard::from_bytes(&bytes).unwrap();
    assert_eq!(decoded, (false, true, 9600));
    let mut buf = [0u8; 64];
    let theirs = postcard::to_slice(&(false, true, 9600u32), &mut buf).unwrap();
    assert_eq!(Config::decode(theirs).unwrap(), c);
}

#[test]
fn truncated_bytes_fail_decode() {
    assert_eq!(Config::decode(&[]), Err(ConfigLoadError::Decode));
    assert_eq!(Config::decode(&[1]), Err(ConfigLoadError::Decode));
    assert_eq!(Config::decode(&[1, 0]), Err(ConfigLoadError::Decode));
    assert_eq!(Config::decode(&[1, 0, 0x80]), Err(ConfigLoadError::Decode));
}

#[test]
fn bad_flag_bytes_fail_decode() {
    assert_eq!(Config::decode(&[2, 0, 0]), Err(ConfigLoadError::Decode));
    assert_eq!(Config::decode(&[0, 9, 0]), Err(ConfigLoadError::Decode));
}

#[test]
fn oversized_baud_bytes_fail_decode() {
    assert_eq!(Config::decode(&[1, 1, 0xFF, 0xFF, 0xFF, 0xFF, 0x10]), Err(ConfigLoadError::Decode));
    assert_eq!(
        Config::decode(&[1, 1, 0x80, 0x80, 0x80, 0x80, 0x80, 0x01]),
        Err(ConfigLoadError::Decode)
    );
}

#[test]
fn largest_baud_still_decodes() {
    assert_eq!(
        Config::decode(&[0, 0, 0xFF, 0xFF, 0xFF, 0xFF, 0x0F]).unwrap().serial_baud,
        u32::MAX
    );
}

#[test]
fn trailing_bytes_are_ignored() {
    let c = default_record();
    let mut bytes = c.encode();
    bytes.push(0xAA);
    assert_eq!(Config::decode(&bytes).unwrap(), c);
}

#[test]
fn load_reports_platform_and_decode_failures() {
    assert_eq!(Config::load(None), Err(ConfigLoadError::PlatformRead));
    assert_eq!(Config::load(Some(vec![7, 7, 7])), Err(ConfigLoadError::Decode));
    let good = Config { vga_console_on: false, serial_console_on: true, serial_baud: 300 };
    assert_eq!(Config::load(Some(good.encode())), Ok(good));
}

#[test]
fn load_or_default_never_fails_boot() {
    assert_eq!(Config::load_or_default(None), default_record());
    assert_eq!(Config::load_or_default(Some(vec![7, 7, 7])), default_record());
    let good = Config { vga_console_on: false, serial_console_on: true, serial_baud: 300 };
    assert_eq!(Config::load_or_default(Some(good.encode())), good);
}

#[test]
fn save_fits_the_persisted_buffer() {
    let v = Config { vga_console_on: true, serial_console_on: true, serial_baud: u32::MAX }
        .save()
        .unwrap();
    assert!(v.len() <= 64);
}

#[test]
fn default_is_vga_only() {
    assert_eq!(Config::default(), default_record());
}

#[test]
fn console_plan_maps_the_record() {
    let c = Config { vga_console_on: true, serial_console_on: true, serial_baud: 115200 };
    assert!(c.has_vga_console());
    let (port, line) = c.has_serial_console().unwrap();
    assert_eq!(port, 0);
    assert_eq!(line.data_rate_bps, 115200);
    assert!(matches!(line.data_bits, DataBits::Eight));
    assert!(matches!(line.stop_bits, StopBits::One));
    assert!(matches!(line.parity, Parity::NoParity));
    assert!(matches!(line.handshaking, Handshaking::NoHandshaking));
    let plan = c.console_plan();
    assert!(plan.vga);
    assert!(plan.serial.is_some());
    let quiet = Config { serial_console_on: false, ..c };
    assert!(quiet.has_serial_console().is_none());
    assert!(quiet.console_plan().serial.is_none());
}
