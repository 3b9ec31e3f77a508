use my_no_sql_server::blob_names::{get_blob_file_name_by_partition_name, partition_name_from_blob_file_name};

#[test]
fn blob_name_is_base64_of_partition_key() {
    assert_eq!(get_blob_file_name_by_partition_name("test"), "dGVzdA==");
    assert_eq!(get_blob_file_name_by_partition_name(""), "");
}

#[test]
fn blob_name_round_trip() {
    for key in ["pk", "partition/1", "ключ", ""] {
        let blob = get_blob_file_name_by_partition_name(key);
        assert_eq!(partition_name_from_blob_file_name(&blob), Some(key.to_string()));
    }
}

#[test]
fn bad_blob_names_give_none() {
    assert_eq!(partition_name_from_blob_file_name("not base64!"), None);
    assert_eq!(partition_name_from_blob_file_name("/w=="), None);
}
