//! Verified core of a NoSQL data server: the binary protocol spoken with data
//! readers, the socket read buffer it is parsed from, and the bookkeeping that
//! surrounds readers, logs and persistence.
pub mod shared;
pub mod text;
pub mod wire;
pub mod socket_read_buffer;
pub mod type_parsers;
pub mod data_reader_contract;
pub mod date_time;
pub mod persist_history_duration;
pub mod logs;
pub mod data_reader_updatable_data;
pub mod tcp_connection_info;
pub mod http_payload;
pub mod blob_names;
pub mod key_order;
pub mod named_map;
pub mod data_readers_data;
pub mod db_namespace;
pub mod http_writers;
pub mod request_metrics;
pub mod gc_decisions;
pub mod connection_delivery_info;
pub mod sync_events;
pub mod tcp_payload_to_send;
pub mod sync_handler_mappers;
pub mod transactions_mappers;
pub mod data_readers_broadcast;
pub mod sync_persist;
pub mod sync_loop;
pub mod sync_to_main_node;
pub mod save_retries;
pub mod table_load;
pub mod gc_db_rows;
pub mod incoming_packets;
