//! What the server knows of a data reader connected over TCP.
use std::sync::atomic::AtomicUsize;
use std::sync::Arc;
use vstd::prelude::*;

verus! {

/// Counters the socket layer keeps up to date while the connection lives.
pub struct ConnectionStatistics {
    /// Bytes queued for sending and not sent yet; the socket layer changes it
    /// concurrently, so its value is not modelled.
    pub pending_to_send_buffer_size: AtomicUsize,
}

/// A TCP connection of a data reader: its id, its peer address as text (when
/// the socket knows it) and its statistics.
pub struct TcpConnection {
    pub id: i32,
    pub addr: Option<String>,
    pub statistics: ConnectionStatistics,
}

pub enum ReaderName {
    AsReader(String),
    AsNode { location: String, version: String },
}

impl ReaderName {
    pub fn is_node(&self) -> (r: bool)
        ensures
            r == (self is AsNode),
    {
        match self {
            ReaderName::AsReader(_) => false,
            ReaderName::AsNode { .. } => true,
        }
    }

    /// The reader's name, or a node's location.
    pub fn get_name(&self) -> (r: &str)
        ensures
            r@ == match self {
                ReaderName::AsReader(name) => name@,
                ReaderName::AsNode { location, .. } => location@,
            },
    {
        match self {
            ReaderName::AsReader(name) => name.as_str(),
            ReaderName::AsNode { location, .. } => location.as_str(),
        }
    }
}

pub struct TcpConnectionInfo {
    connection: Arc<TcpConnection>,
    pub name: ReaderName,
    sent_per_second_accumulator: AtomicUsize,
    pub compress_data: bool,
}

impl TcpConnectionInfo {
    /// The connection this information is about.
    pub closed spec fn connection(&self) -> TcpConnection {
        *self.connection
    }

    /// Under which name the reader introduced itself.
    pub closed spec fn reader_name(&self) -> ReaderName {
        self.name
    }

    /// Whether payloads to this reader are compressed.
    pub closed spec fn compressed(&self) -> bool {
        self.compress_data
    }

    pub fn new(connection: Arc<TcpConnection>, name: ReaderName, compress_data: bool) -> (r: Self)
        ensures
            r.connection() == *connection,
            r.reader_name() == name,
            r.compressed() == compress_data,
    {
        Self {
            connection,
            name,
            sent_per_second_accumulator: AtomicUsize::new(0),
            compress_data,
        }
    }

    pub fn connection_statistics(&self) -> (r: &ConnectionStatistics)
        ensures
            *r == self.connection().statistics,
    {
        &self.connection.statistics
    }

    pub fn is_node(&self) -> (r: bool)
        ensures
            r == (self.reader_name() is AsNode),
    {
        self.name.is_node()
    }

    pub fn get_id(&self) -> (r: i32)
        ensures
            r == self.connection().id,
    {
        self.connection.id
    }

    /// The peer address, or `unknown` when the socket does not know it.
    pub fn get_ip(&self) -> (r: String)
        ensures
            r@ == match self.connection().addr {
                Some(addr) => addr@,
                None => "unknown"@,
            },
    {
        match &self.connection.addr {
            Some(addr) => addr.clone(),
            None => String::from_str("unknown"),
        }
    }

    pub fn is_compressed_data(&self) -> (r: bool)
        ensures
            r == self.compressed(),
    {
        self.compress_data
    }

    pub fn get_name(&self) -> (r: &str)
        ensures
            r@ == match self.reader_name() {
                ReaderName::AsReader(name) => name@,
                ReaderName::AsNode { location, .. } => location@,
            },
    {
        self.name.get_name()
    }

    /// Counts `amount` more packets sent in the current second.
    pub fn add_sent_amount(&self, amount: usize) {
        self.sent_per_second_accumulator.fetch_add(amount, std::sync::atomic::Ordering::SeqCst);
    }

    /// The packets counted since the last call, starting a new count.
    pub fn take_sent_amount(&self) -> (r: usize) {
        self.sent_per_second_accumulator.swap(0, std::sync::atomic::Ordering::SeqCst)
    }

    /// The bytes queued for sending, as the socket layer last recorded them.
    pub fn get_pending_to_send(&self) -> (r: usize) {
        self.connection.statistics.pending_to_send_buffer_size.load(
            std::sync::atomic::Ordering::Relaxed,
        )
    }
}

} // verus!
