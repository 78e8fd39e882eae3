use m4_gdb_bridge::hex::{hex_encode, parse_hex, starts_with, text, word_hex};
use m4_gdb_bridge::memory_map::{gdb_sanitize_file, memory_map, MEMORY_MAP};
use m4_gdb_bridge::packet::{Kind, Packet};

#[test]
fn hex_numbers_of_any_width_and_case() {
    assert_eq!(parse_hex(b"m20000000,4", 1, u32::MAX), Some((0x2000_0000, 9)));
    assert_eq!(parse_hex(b"m20000000,4", 10, u32::MAX), Some((4, 11)));
    assert_eq!(parse_hex(b"f", 0, u32::MAX), Some((15, 1)));
    assert_eq!(parse_hex(b"F", 0, u32::MAX), Some((15, 1)));
    assert_eq!(parse_hex(b"DeadBeef", 0, u32::MAX), Some((0xDEAD_BEEF, 8)));
    assert_eq!(parse_hex(b"deadbeef", 0, u32::MAX), Some((0xDEAD_BEEF, 8)));
    assert_eq!(parse_hex(b"DEADBEEF", 0, u32::MAX), Some((0xDEAD_BEEF, 8)));
    assert_eq!(parse_hex(b"ffffffff", 0, u32::MAX), Some((u32::MAX, 8)));
    assert_eq!(parse_hex(b"000000000000ffffffff:", 0, u32::MAX), Some((u32::MAX, 20)));
    assert_eq!(parse_hex(b"0", 0, 0), Some((0, 1)));
}

#[test]
fn hex_numbers_that_are_refused() {
    assert_eq!(parse_hex(b"100000000", 0, u32::MAX), None);
    assert_eq!(parse_hex(b"fffffffff", 0, u32::MAX), None);
    assert_eq!(parse_hex(b"100", 0, 0xff), None);
    assert_eq!(parse_hex(b"ff", 0, 0xff), Some((0xff, 2)));
    assert_eq!(parse_hex(b"", 0, u32::MAX), None);
    assert_eq!(parse_hex(b",4", 0, u32::MAX), None);
    assert_eq!(parse_hex(b"12g4", 0, u32::MAX), None);
    assert_eq!(parse_hex(b"12_4", 0, u32::MAX), None);
    assert_eq!(parse_hex(b"+12", 0, u32::MAX), None);
    assert_eq!(parse_hex(b"12", 2, u32::MAX), None);
}

#[test]
fn bytes_as_hexadecimal_digits() {
    assert_eq!(hex_encode(&[]), b"".to_vec());
    assert_eq!(hex_encode(&[0x00, 0x0f, 0xa5, 0xff]), b"000fa5ff".to_vec());
    assert_eq!(word_hex(0x0102_0304), b"04030201".to_vec());
    assert_eq!(word_hex(0), b"00000000".to_vec());
    assert_eq!(word_hex(0xDEAD_BEEF), b"efbeadde".to_vec());
}

#[test]
fn text_and_prefixes() {
    assert_eq!(text("OK"), vec![0x4f, 0x4b]);
    assert!(starts_with(b"qSupported:multiprocess+", "qSupported"));
    assert!(starts_with(b"c", "c"));
    assert!(!starts_with(b"", "c"));
    assert!(!starts_with(b"qSupporte", "qSupported"));
    assert!(!starts_with(b"QSupported", "qSupported"));
    assert!(starts_with(b"anything", ""));
}

#[test]
fn the_memory_map_is_the_fixed_document() {
    let expected = "<?xml version=\"1.0\"?>\n<!DOCTYPE memory-map PUBLIC \"+//IDN gnu.org//DTD GDB Memory Map V1.0//EN\" \"http://sourceware.org/gdb/gdb-memory-map.dtd\">\n<memory-map>\n<memory type=\"ram\" start=\"0x20000000\" length=\"0x4000\"/>\n<memory type=\"rom\" start=\"0x00000000\" length=\"0x40000\"/>\n</memory-map>";
    assert_eq!(MEMORY_MAP, expected);
    assert_eq!(memory_map(), expected.as_bytes().to_vec());
}

#[test]
fn windows_of_a_file() {
    let data = b"0123456789".to_vec();
    assert_eq!(gdb_sanitize_file(data.clone(), 0, 4), b"m0123".to_vec());
    assert_eq!(gdb_sanitize_file(data.clone(), 4, 4), b"m4567".to_vec());
    assert_eq!(gdb_sanitize_file(data.clone(), 6, 4), b"m6789".to_vec());
    assert_eq!(gdb_sanitize_file(data.clone(), 8, 4), b"l89".to_vec());
    assert_eq!(gdb_sanitize_file(data.clone(), 10, 4), b"l".to_vec());
    assert_eq!(gdb_sanitize_file(data.clone(), 11, 4), b"l".to_vec());
    assert_eq!(gdb_sanitize_file(data.clone(), 0, 1000), b"l0123456789".to_vec());
    assert_eq!(gdb_sanitize_file(data.clone(), 0, 10), b"m0123456789".to_vec());
    assert_eq!(gdb_sanitize_file(data.clone(), 3, 0), b"m".to_vec());
    assert_eq!(gdb_sanitize_file(data.clone(), 10, 0), b"m".to_vec());
    assert_eq!(gdb_sanitize_file(data.clone(), u32::MAX, u32::MAX), b"l".to_vec());
    assert_eq!(gdb_sanitize_file(data, 2, u32::MAX), b"l23456789".to_vec());
    assert_eq!(gdb_sanitize_file(Vec::new(), 0, 4), b"l".to_vec());
}

#[test]
fn a_packet_made_from_data_carries_its_checksum() {
    let packet = Packet::from_data(Kind::Packet, b"Hello, World!".to_vec());
    assert_eq!(packet.kind, Kind::Packet);
    assert_eq!(packet.data, b"Hello, World!".to_vec());
    assert_eq!(packet.checksum, *b"69");
    assert!(packet.is_valid());
    let packet = Packet::from_data(Kind::Notification, b"OK".to_vec());
    assert_eq!(packet.kind, Kind::Notification);
    assert_eq!(packet.checksum, *b"9A");
    assert_eq!(Packet::from_data(Kind::Packet, Vec::new()).checksum, *b"00");
    // 256 bytes of 0x01 sum to 0 modulo 256, one more to 1
    assert_eq!(Packet::from_data(Kind::Packet, vec![1u8; 256]).checksum, *b"00");
    assert_eq!(Packet::from_data(Kind::Packet, vec![1u8; 257]).checksum, *b"01");
    assert_eq!(Packet::from_data(Kind::Packet, vec![0xffu8]).checksum, *b"FF");
}

#[test]
fn which_checksums_are_valid() {
    let with = |checksum: &[u8; 2]| Packet {
        kind: Kind::Packet,
        data: b"Rust is an amazing programming language".to_vec(),
        checksum: *checksum,
    };
    assert!(with(b"C7").is_valid());
    assert!(with(b"c7").is_valid());
    assert!(!with(b"00").is_valid());
    assert!(!with(b"ZZ").is_valid());
    assert!(!with(b"C8").is_valid());
    assert!(!with(b"7C").is_valid());
    let small = |checksum: &[u8; 2]| Packet {
        kind: Kind::Packet,
        data: vec![0x0a],
        checksum: *checksum,
    };
    assert!(small(b"0A").is_valid());
    assert!(small(b"0a").is_valid());
    assert!(small(b"+A").is_valid());
    assert!(small(b"+a").is_valid());
    assert!(!small(b"-A").is_valid());
    assert!(!small(b" A").is_valid());
    assert!(!small(b"A ").is_valid());
    assert!(!small(b"A+").is_valid());
    assert!(!small(b"++").is_valid());
    assert!(!small(&[0xc3, 0xa9]).is_valid());
    assert!(!small(&[0xff, 0x41]).is_valid());
}

#[test]
fn packets_on_the_wire() {
    assert_eq!(Packet::from_data(Kind::Packet, b"OK".to_vec()).encode(), b"$OK#9A".to_vec());
    assert_eq!(Packet::from_data(Kind::Packet, Vec::new()).encode(), b"$#00".to_vec());
    assert_eq!(Packet::from_data(Kind::Notification, b"S05".to_vec()).encode(), b"%S05#B8".to_vec());
    let unchecked = Packet {
        kind: Kind::Packet,
        data: b"these must be escaped: # $ } *".to_vec(),
        checksum: *b"00",
    };
    assert_eq!(unchecked.encode(), b"$these must be escaped: }\x03 }\x04 }] }\x0a#00".to_vec());
}
