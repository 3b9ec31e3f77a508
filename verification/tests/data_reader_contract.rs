use my_no_sql_server::data_reader_contract::{read_next_packet, DataReaderContract};
use my_no_sql_server::socket_read_buffer::SocketReadBuffer;

fn serialize(src: &DataReaderContract) -> SocketReadBuffer {
    let mut buffer = SocketReadBuffer::new(1024);

    let bytes = src.serialize();

    let write_buffer = buffer.borrow_to_write().unwrap();

    write_buffer[0..bytes.len()].copy_from_slice(&bytes[..]);

    buffer.commit_written_size(bytes.len());

    buffer
}

#[test]
fn test_ping_contract() {
    let src = DataReaderContract::Ping;

    let mut buffer = serialize(&src);

    let dest = DataReaderContract::deserialize(&mut buffer)
        .unwrap()
        .unwrap();

    if let DataReaderContract::Ping = dest {
    } else {
        panic!("Dest contract is wrong")
    }
}

#[test]
fn test_pong_contract() {
    let src = DataReaderContract::Pong;

    let mut buffer = serialize(&src);

    let dest = DataReaderContract::deserialize(&mut buffer)
        .unwrap()
        .unwrap();

    if let DataReaderContract::Pong = dest {
    } else {
        panic!("Dest contract is wrong")
    }
}

#[test]
fn test_greeting_contract() {
    let src = DataReaderContract::Greeting {
        name: "test".to_string(),
    };

    let mut buffer = serialize(&src);

    let dest = DataReaderContract::deserialize(&mut buffer)
        .unwrap()
        .unwrap();

    if let DataReaderContract::Greeting { name } = dest {
        assert_eq!("test", name);
    } else {
        panic!("Dest contract is wrong")
    }
}

#[test]
fn test_init_subscribe_contract() {
    let src = DataReaderContract::Subscribe {
        table_name: "test".to_string(),
    };

    let mut buffer = serialize(&src);

    let dest = DataReaderContract::deserialize(&mut buffer)
        .unwrap()
        .unwrap();

    if let DataReaderContract::Subscribe { table_name } = dest {
        assert_eq!("test", table_name);
    } else {
        panic!("Dest contract is wrong")
    }
}

#[test]
fn test_init_init_table_contract() {
    let src = DataReaderContract::InitTable {
        table_name: "test".to_string(),
        data: vec![0u8, 1u8, 2u8],
    };

    let mut buffer = serialize(&src);

    let dest = DataReaderContract::deserialize(&mut buffer)
        .unwrap()
        .unwrap();

    if let DataReaderContract::InitTable { table_name, data } = dest {
        assert_eq!("test", table_name);
        assert_eq!(3, data.len());
        assert_eq!(0, data[0]);
        assert_eq!(1, data[1]);
        assert_eq!(2, data[2]);
    } else {
        panic!("Dest contract is wrong {:?}", &dest);
    }
}

#[test]
fn test_init_init_partition_contract() {
    let src = DataReaderContract::InitPartition {
        table_name: "test".to_string(),
        partition_key: "test1".to_string(),
        data: vec![0u8, 1u8, 2u8],
    };

    let mut buffer = serialize(&src);

    let dest = DataReaderContract::deserialize(&mut buffer)
        .unwrap()
        .unwrap();

    if let DataReaderContract::InitPartition {
        table_name,
        partition_key,
        data,
    } = dest
    {
        assert_eq!("test", table_name);
        assert_eq!("test1", partition_key);
        assert_eq!(3, data.len());
        assert_eq!(0, data[0]);
        assert_eq!(1, data[1]);
        assert_eq!(2, data[2]);
    } else {
        panic!("Dest contract is wrong {:?}", &dest);
    }
}

#[test]
fn test_init_update_rows_contract() {
    let src = DataReaderContract::UpdateRows {
        table_name: "test".to_string(),
        data: vec![0u8, 1u8, 2u8],
    };

    let mut buffer = serialize(&src);

    let dest = DataReaderContract::deserialize(&mut buffer)
        .unwrap()
        .unwrap();

    if let DataReaderContract::UpdateRows { table_name, data } = dest {
        assert_eq!("test", table_name);
        assert_eq!(3, data.len());
        assert_eq!(0, data[0]);
        assert_eq!(1, data[1]);
        assert_eq!(2, data[2]);
    } else {
        panic!("Dest contract is wrong {:?}", &dest);
    }
}
#[test]
fn test_init_delete_rows_contract() {
    let src = DataReaderContract::DeleteRows {
        table_name: "test".to_string(),
        rows: vec![
            ("pk1".to_string(), "rk1".to_string()),
            ("pk2".to_string(), "rk2".to_string()),
        ],
    };

    let mut buffer = serialize(&src);

    let dest = DataReaderContract::deserialize(&mut buffer)
        .unwrap()
        .unwrap();

    if let DataReaderContract::DeleteRows { table_name, rows } = dest {
        assert_eq!("test", table_name);
        assert_eq!(2, rows.len());
        assert_eq!("pk1", rows[0].0);
        assert_eq!("rk1", rows[0].1);

        assert_eq!("pk2", rows[1].0);
        assert_eq!("rk2", rows[1].1);
    } else {
        panic!("Dest contract is wrong {:?}", &dest);
    }
}

fn buffer_with(bytes: &[u8]) -> SocketReadBuffer {
    let mut buffer = SocketReadBuffer::new(64);
    let write_buffer = buffer.borrow_to_write().unwrap();
    write_buffer[0..bytes.len()].copy_from_slice(bytes);
    buffer.commit_written_size(bytes.len());
    buffer
}

#[test]
fn serialize_lays_out_init_partition_bytes() {
    let src = DataReaderContract::InitPartition {
        table_name: "t".to_string(),
        partition_key: "pk".to_string(),
        data: vec![9u8],
    };
    assert_eq!(
        src.serialize(),
        vec![5u8, 1, b't', 2, b'p', b'k', 1, 0, 0, 0, 9]
    );
}

#[test]
fn serialize_lays_out_delete_rows_bytes() {
    let src = DataReaderContract::DeleteRows {
        table_name: "t".to_string(),
        rows: vec![("a".to_string(), "b".to_string())],
    };
    assert_eq!(
        src.serialize(),
        vec![7u8, 1, b't', 1, 0, 0, 0, 1, b'a', 1, b'b']
    );
}

#[test]
fn unknown_packet_type_is_an_error() {
    let mut buffer = buffer_with(&[42u8, 1, 2]);
    let result = DataReaderContract::deserialize(&mut buffer);
    assert_eq!(result.unwrap_err(), "Unknown command type 42");
}

#[test]
fn partial_packet_reads_as_none() {
    let bytes = DataReaderContract::Greeting {
        name: "reader".to_string(),
    }
    .serialize();
    for cut in 0..bytes.len() {
        let mut buffer = buffer_with(&bytes[..cut]);
        let result = DataReaderContract::deserialize(&mut buffer).unwrap();
        assert!(result.is_none());
    }
}

#[test]
fn delete_rows_cut_inside_rows_reads_as_none() {
    let bytes = DataReaderContract::DeleteRows {
        table_name: "t".to_string(),
        rows: vec![("a".to_string(), "b".to_string()), ("c".to_string(), "d".to_string())],
    }
    .serialize();
    let mut buffer = buffer_with(&bytes[..bytes.len() - 1]);
    assert!(DataReaderContract::deserialize(&mut buffer).unwrap().is_none());
}

#[test]
fn invalid_text_is_reported_by_the_checked_read() {
    let mut buffer = buffer_with(&[2u8, 2, 0xff, 0xfe]);
    assert!(DataReaderContract::deserialize_checked(&mut buffer).is_none());
}

#[test]
fn checked_read_gives_what_deserialize_gives() {
    let bytes = DataReaderContract::Subscribe {
        table_name: "table".to_string(),
    }
    .serialize();
    let mut buffer = buffer_with(&bytes);
    match DataReaderContract::deserialize_checked(&mut buffer) {
        Some(Ok(Some(DataReaderContract::Subscribe { table_name }))) => {
            assert_eq!(table_name, "table")
        }
        _ => panic!("Dest contract is wrong"),
    }
}

#[test]
fn table_name_of_packets() {
    assert!(DataReaderContract::Ping.get_table_name().is_none());
    assert!(DataReaderContract::Greeting {
        name: "n".to_string()
    }
    .get_table_name()
    .is_none());
    let c = DataReaderContract::UpdateRows {
        table_name: "rows".to_string(),
        data: vec![],
    };
    assert_eq!(c.get_table_name(), Some("rows"));
}

#[test]
fn read_next_packet_confirms_complete_packets_and_rewinds_partial_ones() {
    let mut bytes = DataReaderContract::Ping.serialize();
    bytes.extend(
        DataReaderContract::Greeting {
            name: "abc".to_string(),
        }
        .serialize(),
    );
    let cut = bytes.len() - 1;
    let mut buffer = buffer_with(&bytes[..cut]);

    let first = read_next_packet(&mut buffer).unwrap().unwrap().unwrap();
    assert!(matches!(first, DataReaderContract::Ping));
    assert_eq!(buffer.to_string(), "read:0; write;4");

    assert!(read_next_packet(&mut buffer).unwrap().unwrap().is_none());
    assert_eq!(buffer.to_string(), "read:0; write;4");

    let write = buffer.borrow_to_write().unwrap();
    write[0] = b'c';
    buffer.commit_written_size(1);
    match read_next_packet(&mut buffer).unwrap().unwrap().unwrap() {
        DataReaderContract::Greeting { name } => assert_eq!(name, "abc"),
        other => panic!("Dest contract is wrong {:?}", other),
    }
    assert_eq!(buffer.to_string(), "read:0; write;0");
}
