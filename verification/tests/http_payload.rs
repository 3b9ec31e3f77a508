use my_no_sql_server::http_payload::{write_byte_array, write_pascal_string, write_sync_frame};

#[test]
fn pascal_string_and_byte_array() {
    let mut dest = vec![9u8];
    write_pascal_string("ab", &mut dest);
    write_byte_array(&[1u8, 2, 3], &mut dest);
    assert_eq!(dest, vec![9u8, 2, b'a', b'b', 3, 0, 0, 0, 1, 2, 3]);
}

#[test]
fn sync_frame_layout() {
    let frame = write_sync_frame("initTable", "{\"tableName\":\"t\"}", b"[]");
    let header = "initTable:{\"tableName\":\"t\"}";
    let mut expected = vec![header.len() as u8];
    expected.extend_from_slice(header.as_bytes());
    expected.extend_from_slice(&[2, 0, 0, 0, b'[', b']']);
    assert_eq!(frame, expected);
}
