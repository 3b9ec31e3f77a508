use my_no_sql_server::socket_read_buffer::SocketReadBuffer;
use my_no_sql_server::type_parsers::SocketPacketWriter;

fn buffer_with(bytes: &[u8]) -> SocketReadBuffer {
    let mut buffer = SocketReadBuffer::new(64);
    let write_buffer = buffer.borrow_to_write().unwrap();
    write_buffer[0..bytes.len()].copy_from_slice(bytes);
    buffer.commit_written_size(bytes.len());
    buffer
}

#[test]
fn parse_u32_reads_little_endian() {
    let mut buffer = buffer_with(&[0x78, 0x56, 0x34, 0x12, 0xff]);
    assert_eq!(buffer.parse_u32(), Some(0x1234_5678));
    assert_eq!(buffer.parse_u32(), None);
}

#[test]
fn parse_slice_reads_sized_block() {
    let mut buffer = buffer_with(&[2, 0, 0, 0, 8, 9, 1]);
    assert_eq!(buffer.parse_slice(), Some(vec![8u8, 9u8]));
    assert_eq!(buffer.read_byte(), Some(1));
}

#[test]
fn parse_pascal_string_reads_text() {
    let mut buffer = buffer_with(&[2, b'o', b'k', 3, b'x']);
    assert_eq!(buffer.parse_pascal_string(), Some("ok".to_string()));
    assert_eq!(buffer.parse_pascal_string(), None);
}

#[test]
fn push_functions_lay_down_bytes() {
    let mut out: Vec<u8> = Vec::new();
    out.push_pascal_string("hé");
    out.push_u32(258);
    out.push_slice(&[7u8]);
    assert_eq!(out, vec![3u8, b'h', 0xc3, 0xa9, 2, 1, 0, 0, 1, 0, 0, 0, 7]);
}

#[test]
fn long_string_length_byte_wraps() {
    let text = "a".repeat(300);
    let mut out: Vec<u8> = Vec::new();
    out.push_pascal_string(text.as_str());
    assert_eq!(out[0], (300 % 256) as u8);
    assert_eq!(out.len(), 301);
}
