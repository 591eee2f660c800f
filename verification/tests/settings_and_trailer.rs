//! The standalone-binary trailer, the configuration types, and the logging
//! setting parsers, on concrete values.

use simple_http::config::{ApplicationConfig, LogConfig, Opt, ServerConfig};
use simple_http::logging::{
    parse_u64, str_to_log_level, str_to_rolling, str_to_temp_size, LevelFilter, LogSize,
    RollingType,
};
use simple_http::standalone::{
    u64_from_bytes, PackageJsonDepValueParseError, SerializablePackageJsonDepValueParseError,
    Trailer, TrailerError,
};

#[test]
fn trailer_round_trips_through_its_bytes() {
    let t = Trailer { eszip_pos: 7, metadata_pos: 1024, npm_vfs_pos: 99999, npm_files_pos: u64::MAX };
    let bytes = t.as_bytes();
    assert_eq!(bytes.len(), 40);
    assert_eq!(&bytes[0..8], b"d3n0l4nd");
    let back = Trailer::parse(&bytes).unwrap().unwrap();
    assert_eq!(back.eszip_pos, 7);
    assert_eq!(back.metadata_pos, 1024);
    assert_eq!(back.npm_vfs_pos, 99999);
    assert_eq!(back.npm_files_pos, u64::MAX);
}

#[test]
fn trailer_without_magic_is_none() {
    let bytes = vec![0u8; 40];
    assert!(Trailer::parse(&bytes).unwrap().is_none());
}

#[test]
fn trailer_section_lengths() {
    let t = Trailer { eszip_pos: 0, metadata_pos: 100, npm_vfs_pos: 250, npm_files_pos: 1000 };
    assert_eq!(t.metadata_len(), 150);
    assert_eq!(t.npm_vfs_len(), 750);
}

#[test]
fn u64_from_bytes_reads_big_endian() {
    assert_eq!(u64_from_bytes(&[0, 0, 0, 0, 0, 0, 1, 2]).unwrap(), 258);
    assert_eq!(u64_from_bytes(&1234567890123u64.to_be_bytes()).unwrap(), 1234567890123);
    assert_eq!(u64_from_bytes(&[1, 2, 3]).unwrap_err(), TrailerError::BufferSize);
}

#[test]
fn dep_parse_error_serializes_variant_for_variant() {
    let e = SerializablePackageJsonDepValueParseError::from_err(
        PackageJsonDepValueParseError::SchemeValue("npm:".to_string()),
    );
    assert!(
        matches!(e, SerializablePackageJsonDepValueParseError::SchemeValue(v) if v == "npm:")
    );
    let e = SerializablePackageJsonDepValueParseError::from_err(
        PackageJsonDepValueParseError::Specifier("bad semver".to_string()),
    );
    assert!(
        matches!(e, SerializablePackageJsonDepValueParseError::Specifier(v) if v == "bad semver")
    );
    let e = SerializablePackageJsonDepValueParseError::from_err(
        PackageJsonDepValueParseError::Unsupported { scheme: "jsr".to_string() },
    );
    assert!(
        matches!(e, SerializablePackageJsonDepValueParseError::Unsupported { scheme } if scheme == "jsr")
    );
}

#[test]
fn temp_size_reads_each_unit() {
    assert!(matches!(str_to_temp_size(b"100MB"), LogSize::MB(100)));
    assert!(matches!(str_to_temp_size(b"5KB"), LogSize::KB(5)));
    assert!(matches!(str_to_temp_size(b"2GB"), LogSize::GB(2)));
    assert!(matches!(str_to_temp_size(b"whatever"), LogSize::MB(100)));
}

#[test]
fn rolling_reads_each_rule() {
    assert!(matches!(str_to_rolling(b"KeepNum(5)"), RollingType::KeepNum(5)));
    assert!(matches!(str_to_rolling(b"KeepNum(-2)"), RollingType::KeepNum(-2)));
    assert!(matches!(str_to_rolling(b"KeepTime(3600)"), RollingType::KeepTime(3600)));
    assert!(matches!(str_to_rolling(b"anything else"), RollingType::All));
}

#[test]
fn log_levels_read_by_name_with_info_fallback() {
    assert!(matches!(str_to_log_level(b"warn"), LevelFilter::Warn));
    assert!(matches!(str_to_log_level(b"error"), LevelFilter::Error));
    assert!(matches!(str_to_log_level(b"trace"), LevelFilter::Trace));
    assert!(matches!(str_to_log_level(b"info"), LevelFilter::Info));
    assert!(matches!(str_to_log_level(b"debug"), LevelFilter::Debug));
    assert!(matches!(str_to_log_level(b"verbose"), LevelFilter::Info));
}

#[test]
fn parse_u64_accepts_digits_and_rejects_the_rest() {
    assert_eq!(parse_u64(b"0"), Some(0));
    assert_eq!(parse_u64(b"18446744073709551615"), Some(u64::MAX));
    assert_eq!(parse_u64(b"18446744073709551616"), None);
    assert_eq!(parse_u64(b""), None);
    assert_eq!(parse_u64(b"12x"), None);
}

#[test]
fn config_accessors_return_what_was_set() {
    let mut server = ServerConfig::new("0.0.0.0".to_string(), Some(8080));
    assert_eq!(server.host(), "0.0.0.0");
    assert_eq!(*server.port(), Some(8080));
    server.set_host("localhost".to_string());
    server.set_port(None);
    assert_eq!(server.host(), "localhost");
    assert_eq!(*server.port(), None);

    let log = LogConfig::new(
        "target/logs/".to_string(),
        "100MB".to_string(),
        "zip".to_string(),
        "KeepNum(5)".to_string(),
        "info".to_string(),
    );
    assert_eq!(log.log_dir(), "target/logs/");
    assert_eq!(log.log_temp_size(), "100MB");
    assert_eq!(log.log_pack_compress(), "zip");
    assert_eq!(log.log_rolling_type(), "KeepNum(5)");
    assert_eq!(log.log_level(), "info");

    let app = ApplicationConfig::new(true, log, server);
    assert!(app.debug());
    assert_eq!(app.log().log_level(), "info");
    assert_eq!(app.server().host(), "localhost");

    let opt = Opt { config_path: String::new() };
    assert!(opt.config_path.is_empty());
}

#[test]
fn trailer_positions_are_running_sums() {
    let t = Trailer::from_section_lengths(1000, 200, 30, 4);
    assert_eq!(t.eszip_pos, 1000);
    assert_eq!(t.metadata_pos, 1200);
    assert_eq!(t.npm_vfs_pos, 1230);
    assert_eq!(t.npm_files_pos, 1234);
    assert_eq!(t.metadata_len(), 30);
    assert_eq!(t.npm_vfs_len(), 4);
}

#[test]
fn gui_patch_sets_the_subsystem_field() {
    // a 32-bit image: the stub points at offset 64, magic 0x10b
    let mut bin = vec![0u8; 192];
    bin[60..64].copy_from_slice(&64u32.to_le_bytes());
    bin[64 + 28..64 + 30].copy_from_slice(&0x10bu16.to_le_bytes());
    assert!(simple_http::standalone::set_windows_binary_to_gui(&mut bin).is_ok());
    assert_eq!(bin[64 + 96], 2);
    assert_eq!(bin[64 + 97], 0);

    // a 64-bit image: magic 0x20b at offset 24 of the optional header
    let mut bin = vec![0u8; 192];
    bin[60..64].copy_from_slice(&64u32.to_le_bytes());
    bin[64 + 24..64 + 26].copy_from_slice(&0x20bu16.to_le_bytes());
    assert!(simple_http::standalone::set_windows_binary_to_gui(&mut bin).is_ok());
    assert_eq!(bin[64 + 92], 2);
    assert_eq!(bin[64 + 93], 0);

    // neither magic: refused, untouched
    let mut bin = vec![0u8; 192];
    bin[60..64].copy_from_slice(&64u32.to_le_bytes());
    let before = bin.clone();
    assert!(simple_http::standalone::set_windows_binary_to_gui(&mut bin).is_err());
    assert_eq!(bin, before);
}
