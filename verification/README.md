# my_no_sql_server

The verified core of a NoSQL data server that keeps subscribed readers in
sync with its tables.

- `src/` is the library, written in Verus and proved by it: the binary
  protocol spoken with readers (`data_reader_contract`, `wire`,
  `type_parsers`, `socket_read_buffer`), the packets and persistence marks
  each table change turns into (`sync_events`, `tcp_payload_to_send`,
  `sync_handler_mappers`, `transactions_mappers`, `data_readers_broadcast`,
  `sync_persist`, `sync_loop`), the steps of garbage collection and of
  retried saves, and the bookkeeping of readers, writers, logs, namespaces
  and metrics. A few functions there carry no contract on their result:
  those that read the system clock (`MyDateTime::utc_now`,
  `AtomicDateTime::utc_now`) and those that read or change atomic cells
  shared between threads (the other `AtomicDateTime` methods and the
  counters of `TcpConnectionInfo`), whose values are not modelled.
- `app/` holds the asynchronous plumbing around it: locks, channels, sockets,
  clocks, console output and Prometheus metrics.
- `tests/` runs the library on concrete values.
