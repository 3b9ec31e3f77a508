use my_no_sql_server::socket_read_buffer::SocketReadBuffer;

fn arrays_has_the_same_elements(src: &[u8], dest: &[u8]) {
    assert_eq!(src.len(), dest.len());

    for i in 0..src.len() {
        assert_eq!(src[i], dest[i]);
    }
}

#[test]
fn test_write_and_commit() {
    let mut buffer = SocketReadBuffer::new(1024);

    let write = buffer.borrow_to_write().unwrap();

    write[0] = 1;
    write[1] = 2;
    write[2] = 3;

    buffer.commit_written_size(3);

    let write = buffer.borrow_to_write().unwrap();

    write[0] = 4;
    write[1] = 5;
    write[2] = 6;

    buffer.commit_written_size(3);

    let result_data = buffer.read_bytes(6).unwrap();

    arrays_has_the_same_elements(result_data, &[1u8, 2u8, 3u8, 4u8, 5u8, 6u8]);
}

#[test]
fn test_read_more_then_we_get() {
    let mut buffer = SocketReadBuffer::new(1024);

    let write = buffer.borrow_to_write().unwrap();

    write[0] = 1;
    write[1] = 2;
    write[2] = 3;

    buffer.commit_written_size(3);

    let result_data = buffer.read_bytes(4);

    assert_eq!(true, result_data.is_none());
}

#[test]
fn test_write_and_commit_some_data_read() {
    let mut buffer = SocketReadBuffer::new(1024);

    let write = buffer.borrow_to_write().unwrap();

    write[0] = 1;
    write[1] = 2;
    write[2] = 3;

    buffer.commit_written_size(3);

    let result_data = buffer.read_bytes(2).unwrap();
    arrays_has_the_same_elements(result_data, &[1u8, 2u8]);

    buffer.confirm_read_package();

    let write = buffer.borrow_to_write().unwrap();

    write[0] = 4;
    write[1] = 5;
    write[2] = 6;
    buffer.commit_written_size(3);

    let result_data = buffer.read_bytes(4).unwrap();
    arrays_has_the_same_elements(result_data, &[3u8, 4u8, 5u8, 6u8]);
}

#[test]
fn to_string_shows_positions() {
    let mut buffer = SocketReadBuffer::new(16);
    buffer.borrow_to_write().unwrap()[0] = 7;
    buffer.commit_written_size(2);
    buffer.read_byte();
    assert_eq!(buffer.to_string(), "read:1; write;2");
}

#[test]
fn full_buffer_has_no_space_to_write() {
    let mut buffer = SocketReadBuffer::new(2);
    buffer.commit_written_size(2);
    assert!(buffer.borrow_to_write().is_none());
}

#[test]
fn reset_read_pos_rereads_committed_bytes() {
    let mut buffer = SocketReadBuffer::new(8);
    let write = buffer.borrow_to_write().unwrap();
    write[0] = 10;
    write[1] = 20;
    buffer.commit_written_size(2);
    assert_eq!(buffer.read_byte(), Some(10));
    buffer.reset_read_pos();
    assert_eq!(buffer.read_byte(), Some(10));
    assert_eq!(buffer.read_byte(), Some(20));
    assert_eq!(buffer.read_byte(), None);
}

#[test]
fn confirm_with_nothing_unread_empties_the_buffer() {
    let mut buffer = SocketReadBuffer::new(4);
    let write = buffer.borrow_to_write().unwrap();
    write[0] = 1;
    buffer.commit_written_size(1);
    buffer.read_byte();
    buffer.confirm_read_package();
    assert_eq!(buffer.to_string(), "read:0; write;0");
    assert!(buffer.read_byte().is_none());
}
