use zero_ecs::marshal::{read_log_message, u16_from_le_pair, u32_from_le_quad};

#[test]
fn little_endian_integer_reads() {
    assert_eq!(u16_from_le_pair(0x34, 0x12), 0x1234);
    assert_eq!(u16_from_le_pair(0xFF, 0xFF), 0xFFFF);
    assert_eq!(u32_from_le_quad(0x78, 0x56, 0x34, 0x12), 0x1234_5678);
    assert_eq!(u32_from_le_quad(0, 0, 0, 0), 0);
    assert_eq!(u32_from_le_quad(0xFF, 0xFF, 0xFF, 0xFF), u32::MAX);
}

/// Builds the memory image of a length-prefixed UTF-16 message: the
/// length (in code units) sits in the four bytes before the pointer.
fn frame(text: &str) -> (Vec<u8>, usize) {
    let units: Vec<u16> = text.encode_utf16().collect();
    let mut data = vec![0u8; 8]; // padding before the prefix
    data.extend_from_slice(&(units.len() as u32).to_le_bytes());
    let ptr = data.len();
    for u in &units {
        data.extend_from_slice(&u.to_le_bytes());
    }
    (data, ptr)
}

#[test]
fn log_message_round_trips_utf16() {
    let (data, ptr) = frame("Hello, sandbox");
    let units = read_log_message(&data, ptr).expect("well-formed frame");
    assert_eq!(String::from_utf16(&units).unwrap(), "Hello, sandbox");
}

#[test]
fn log_message_empty_string() {
    let (data, ptr) = frame("");
    let units = read_log_message(&data, ptr).expect("empty frame is well-formed");
    assert!(units.is_empty());
}

#[test]
fn log_message_rejects_out_of_range_frames() {
    // Pointer too small to leave room for the length prefix.
    assert!(read_log_message(&[0u8; 16], 3).is_none());
    // Pointer past the end of memory.
    assert!(read_log_message(&[0u8; 16], 17).is_none());
    // Length prefix claims more code units than the memory holds.
    let mut data = vec![0u8; 4];
    data[0] = 200; // length 200 at ptr 4, but no bytes follow
    assert!(read_log_message(&data, 4).is_none());
}
