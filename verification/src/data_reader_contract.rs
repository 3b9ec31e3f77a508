//! The packets exchanged with a data reader over its socket.
use crate::socket_read_buffer::SocketReadBuffer;
use crate::text::{decimal_digits, u64_to_decimal};
use crate::type_parsers::{Decoded, SocketPacketWriter};
use crate::wire::{
    block_bytes, ends_within, holds_at, is_prefix, lemma_holds_at_concat, lemma_prefix_read_block,
    lemma_prefix_read_pairs, lemma_prefix_read_text, lemma_prefix_read_u32, lemma_prefix_read_u8,
    lemma_read_block, lemma_read_pairs, lemma_read_text, lemma_read_u32, pairs_bytes,
    read_block_at, read_pairs_at, read_text_at, read_u32_at, read_u8_at, stable, text_bytes,
    text_fits, Step,
};
use vstd::bytes::spec_u32_to_le_bytes;
use vstd::prelude::*;

verus! {

#[derive(Debug)]
pub enum DataReaderContract {
    Ping,
    Pong,
    Greeting { name: String },
    Subscribe { table_name: String },
    InitTable { table_name: String, data: Vec<u8> },
    InitPartition { table_name: String, partition_key: String, data: Vec<u8> },
    UpdateRows { table_name: String, data: Vec<u8> },
    DeleteRows { table_name: String, rows: Vec<(String, String)> },
}

pub const PACKET_PING: u8 = 0;

pub const PACKET_PONG: u8 = 1;

pub const PACKET_GREETING: u8 = 2;

pub const PACKET_SUBSCRIBE: u8 = 3;

pub const PACKET_INIT_TABLE: u8 = 4;

pub const PACKET_INIT_PARTITION: u8 = 5;

pub const PACKET_UPDATE_ROWS: u8 = 6;

pub const PACKET_DELETE_ROWS: u8 = 7;

/// A packet with its strings as characters and its data as bytes.
pub enum ContractView {
    Ping,
    Pong,
    Greeting { name: Seq<char> },
    Subscribe { table_name: Seq<char> },
    InitTable { table_name: Seq<char>, data: Seq<u8> },
    InitPartition { table_name: Seq<char>, partition_key: Seq<char>, data: Seq<u8> },
    UpdateRows { table_name: Seq<char>, data: Seq<u8> },
    DeleteRows { table_name: Seq<char>, rows: Seq<(Seq<char>, Seq<char>)> },
}

/// What a packet's leading byte announces: a known packet, or an unknown type.
pub enum PacketView {
    Contract(ContractView),
    Unknown(u8),
}

/// The row keys of a `DeleteRows` packet as character sequences.
pub open spec fn rows_view(rows: Seq<(String, String)>) -> Seq<(Seq<char>, Seq<char>)> {
    rows.map_values(|p: (String, String)| (p.0@, p.1@))
}

impl View for DataReaderContract {
    type V = ContractView;

    open spec fn view(&self) -> ContractView {
        match self {
            DataReaderContract::Ping => ContractView::Ping,
            DataReaderContract::Pong => ContractView::Pong,
            DataReaderContract::Greeting { name } => ContractView::Greeting { name: name@ },
            DataReaderContract::Subscribe { table_name } => ContractView::Subscribe {
                table_name: table_name@,
            },
            DataReaderContract::InitTable { table_name, data } => ContractView::InitTable {
                table_name: table_name@,
                data: data@,
            },
            DataReaderContract::InitPartition { table_name, partition_key, data } =>
                ContractView::InitPartition {
                table_name: table_name@,
                partition_key: partition_key@,
                data: data@,
            },
            DataReaderContract::UpdateRows { table_name, data } => ContractView::UpdateRows {
                table_name: table_name@,
                data: data@,
            },
            DataReaderContract::DeleteRows { table_name, rows } => ContractView::DeleteRows {
                table_name: table_name@,
                rows: rows_view(rows@),
            },
        }
    }
}

/// The table a packet is about; none for `Ping`, `Pong` and `Greeting`.
pub open spec fn table_name_of(c: ContractView) -> Option<Seq<char>> {
    match c {
        ContractView::Ping => None,
        ContractView::Pong => None,
        ContractView::Greeting { .. } => None,
        ContractView::Subscribe { table_name } => Some(table_name),
        ContractView::InitTable { table_name, .. } => Some(table_name),
        ContractView::InitPartition { table_name, .. } => Some(table_name),
        ContractView::UpdateRows { table_name, .. } => Some(table_name),
        ContractView::DeleteRows { table_name, .. } => Some(table_name),
    }
}

/// The bytes that `serialize` lays a packet down as.
pub open spec fn contract_bytes(c: ContractView) -> Seq<u8> {
    match c {
        ContractView::Ping => seq![PACKET_PING],
        ContractView::Pong => seq![PACKET_PONG],
        ContractView::Greeting { name } => seq![PACKET_GREETING] + text_bytes(name),
        ContractView::Subscribe { table_name } => seq![PACKET_SUBSCRIBE] + text_bytes(table_name),
        ContractView::InitTable { table_name, data } => seq![PACKET_INIT_TABLE] + text_bytes(
            table_name,
        ) + block_bytes(data),
        ContractView::InitPartition { table_name, partition_key, data } => seq![
            PACKET_INIT_PARTITION,
        ] + text_bytes(table_name) + text_bytes(partition_key) + block_bytes(data),
        ContractView::UpdateRows { table_name, data } => seq![PACKET_UPDATE_ROWS] + text_bytes(
            table_name,
        ) + block_bytes(data),
        ContractView::DeleteRows { table_name, rows } => seq![PACKET_DELETE_ROWS] + text_bytes(
            table_name,
        ) + spec_u32_to_le_bytes(rows.len() as u32) + pairs_bytes(rows),
    }
}

/// Every string of the packet fits in 255 UTF-8 bytes and every length fits
/// in a `u32`: the packets whose bytes carry them unchanged.
pub open spec fn contract_fits(c: ContractView) -> bool {
    match c {
        ContractView::Ping => true,
        ContractView::Pong => true,
        ContractView::Greeting { name } => text_fits(name),
        ContractView::Subscribe { table_name } => text_fits(table_name),
        ContractView::InitTable { table_name, data } => text_fits(table_name) && data.len()
            <= u32::MAX,
        ContractView::InitPartition { table_name, partition_key, data } => text_fits(table_name)
            && text_fits(partition_key) && data.len() <= u32::MAX,
        ContractView::UpdateRows { table_name, data } => text_fits(table_name) && data.len()
            <= u32::MAX,
        ContractView::DeleteRows { table_name, rows } => {
            &&& text_fits(table_name)
            &&& rows.len() <= u32::MAX
            &&& forall|i: int|
                0 <= i < rows.len() ==> text_fits(#[trigger] rows[i].0) && text_fits(rows[i].1)
        },
    }
}

/// The body of a `Greeting` packet at `pos`.
pub open spec fn greeting_at(data: Seq<u8>, pos: int) -> Step<ContractView> {
    match read_text_at(data, pos) {
        Step::Done(name, p) => Step::Done(ContractView::Greeting { name }, p),
        Step::Short(p) => Step::Short(p),
        Step::BadText(p) => Step::BadText(p),
    }
}

/// The body of a `Subscribe` packet at `pos`.
pub open spec fn subscribe_at(data: Seq<u8>, pos: int) -> Step<ContractView> {
    match read_text_at(data, pos) {
        Step::Done(table_name, p) => Step::Done(ContractView::Subscribe { table_name }, p),
        Step::Short(p) => Step::Short(p),
        Step::BadText(p) => Step::BadText(p),
    }
}

/// The body of an `InitTable` packet at `pos`.
pub open spec fn init_table_at(data: Seq<u8>, pos: int) -> Step<ContractView> {
    match read_text_at(data, pos) {
        Step::Done(table_name, p1) => match read_block_at(data, p1) {
            Step::Done(d, p2) => Step::Done(ContractView::InitTable { table_name, data: d }, p2),
            Step::Short(p) => Step::Short(p),
            Step::BadText(p) => Step::BadText(p),
        },
        Step::Short(p) => Step::Short(p),
        Step::BadText(p) => Step::BadText(p),
    }
}

/// The body of an `InitPartition` packet at `pos`.
pub open spec fn init_partition_at(data: Seq<u8>, pos: int) -> Step<ContractView> {
    match read_text_at(data, pos) {
        Step::Done(table_name, p1) => match read_text_at(data, p1) {
            Step::Done(partition_key, p2) => match read_block_at(data, p2) {
                Step::Done(d, p3) => Step::Done(
                    ContractView::InitPartition { table_name, partition_key, data: d },
                    p3,
                ),
                Step::Short(p) => Step::Short(p),
                Step::BadText(p) => Step::BadText(p),
            },
            Step::Short(p) => Step::Short(p),
            Step::BadText(p) => Step::BadText(p),
        },
        Step::Short(p) => Step::Short(p),
        Step::BadText(p) => Step::BadText(p),
    }
}

/// The body of an `UpdateRows` packet at `pos`.
pub open spec fn update_rows_at(data: Seq<u8>, pos: int) -> Step<ContractView> {
    match read_text_at(data, pos) {
        Step::Done(table_name, p1) => match read_block_at(data, p1) {
            Step::Done(d, p2) => Step::Done(ContractView::UpdateRows { table_name, data: d }, p2),
            Step::Short(p) => Step::Short(p),
            Step::BadText(p) => Step::BadText(p),
        },
        Step::Short(p) => Step::Short(p),
        Step::BadText(p) => Step::BadText(p),
    }
}

/// The body of a `DeleteRows` packet at `pos`: the table, the number of rows
/// as a little-endian `u32`, then each row's partition key and row key.
pub open spec fn delete_rows_at(data: Seq<u8>, pos: int) -> Step<ContractView> {
    match read_text_at(data, pos) {
        Step::Done(table_name, p1) => match read_u32_at(data, p1) {
            Step::Done(n, p2) => match read_pairs_at(data, p2, n as nat) {
                Step::Done(rows, p3) => Step::Done(ContractView::DeleteRows { table_name, rows }, p3),
                Step::Short(p) => Step::Short(p),
                Step::BadText(p) => Step::BadText(p),
            },
            Step::Short(p) => Step::Short(p),
            Step::BadText(p) => Step::BadText(p),
        },
        Step::Short(p) => Step::Short(p),
        Step::BadText(p) => Step::BadText(p),
    }
}

/// A packet body read as a known packet.
pub open spec fn as_packet(s: Step<ContractView>) -> Step<PacketView> {
    match s {
        Step::Done(c, p) => Step::Done(PacketView::Contract(c), p),
        Step::Short(p) => Step::Short(p),
        Step::BadText(p) => Step::BadText(p),
    }
}

/// A whole packet at `pos`: the type byte, then the body it announces.
pub open spec fn packet_at(data: Seq<u8>, pos: int) -> Step<PacketView> {
    match read_u8_at(data, pos) {
        Step::Done(t, p) => if t == PACKET_PING {
            Step::Done(PacketView::Contract(ContractView::Ping), p)
        } else if t == PACKET_PONG {
            Step::Done(PacketView::Contract(ContractView::Pong), p)
        } else if t == PACKET_GREETING {
            as_packet(greeting_at(data, p))
        } else if t == PACKET_SUBSCRIBE {
            as_packet(subscribe_at(data, p))
        } else if t == PACKET_INIT_TABLE {
            as_packet(init_table_at(data, p))
        } else if t == PACKET_INIT_PARTITION {
            as_packet(init_partition_at(data, p))
        } else if t == PACKET_UPDATE_ROWS {
            as_packet(update_rows_at(data, p))
        } else if t == PACKET_DELETE_ROWS {
            as_packet(delete_rows_at(data, p))
        } else {
            Step::Done(PacketView::Unknown(t), p)
        },
        Step::Short(p) => Step::Short(p),
        Step::BadText(p) => Step::BadText(p),
    }
}

/// The error text for a packet of unknown type `t`.
pub open spec fn unknown_packet_text(t: u8) -> Seq<char> {
    "Unknown command type "@ + decimal_digits(t as nat)
}

/// How a non-panicking read of a packet body relates to its spec: the value,
/// `Incomplete` or `InvalidText`, with the read position where the spec puts it.
pub open spec fn decoded_as(
    r: Decoded<DataReaderContract>,
    s: Step<ContractView>,
    before: crate::socket_read_buffer::BufferView,
    after: crate::socket_read_buffer::BufferView,
) -> bool {
    &&& after.well_formed()
    &&& match s {
        Step::Done(c, p) => r matches Decoded::Value(v) && v@ == c && after == before.with_read_pos(p),
        Step::Short(p) => r is Incomplete && after == before.with_read_pos(p),
        Step::BadText(p) => r is InvalidText && after == before.with_read_pos(p),
    }
}

/// How a packet body parse relates to its spec, on inputs whose strings are
/// UTF-8: the packet, or `None` when the bytes end early.
pub open spec fn parsed_as(
    r: Option<DataReaderContract>,
    s: Step<ContractView>,
    before: crate::socket_read_buffer::BufferView,
    after: crate::socket_read_buffer::BufferView,
) -> bool {
    &&& after.well_formed()
    &&& match s {
        Step::Done(c, p) => r matches Some(v) && v@ == c && after == before.with_read_pos(p),
        Step::Short(p) => r is None && after == before.with_read_pos(p),
        Step::BadText(_) => false,
    }
}

/// Once a run of pairs stops short (or on bad text), reading more pairs stops
/// at the same place.
proof fn lemma_pairs_stop(data: Seq<u8>, pos: int, k: nat, m: nat)
    requires
        k <= m,
        !(read_pairs_at(data, pos, k) is Done),
    ensures
        read_pairs_at(data, pos, m) == read_pairs_at(data, pos, k),
    decreases m - k,
{
    if m > k {
        lemma_pairs_stop(data, pos, k, (m - 1) as nat);
    }
}

impl DataReaderContract {
    /// The table the packet is about; `None` for `Ping`, `Pong` and `Greeting`.
    pub fn get_table_name(&self) -> (r: Option<&str>)
        ensures
            match table_name_of(self@) {
                Some(t) => r matches Some(s) && s@ == t,
                None => r is None,
            },
    {
        match self {
            DataReaderContract::Ping => None,
            DataReaderContract::Pong => None,
            DataReaderContract::Greeting { name: _ } => None,
            DataReaderContract::Subscribe { table_name } => Some(table_name.as_str()),
            DataReaderContract::InitTable { table_name, data: _ } => Some(table_name.as_str()),
            DataReaderContract::InitPartition { table_name, partition_key: _, data: _ } => Some(
                table_name.as_str(),
            ),
            DataReaderContract::UpdateRows { table_name, data: _ } => Some(table_name.as_str()),
            DataReaderContract::DeleteRows { table_name, rows: _ } => Some(table_name.as_str()),
        }
    }

    /// The packet's bytes: its type byte, then its fields.
    pub fn serialize(&self) -> (r: Vec<u8>)
        ensures
            r@ == contract_bytes(self@),
    {
        let mut result: Vec<u8> = Vec::new();
        match self {
            DataReaderContract::Ping => result.push(PACKET_PING),
            DataReaderContract::Pong => result.push(PACKET_PONG),
            DataReaderContract::Greeting { name } => {
                result.push(PACKET_GREETING);
                result.push_pascal_string(name.as_str());
            },
            DataReaderContract::Subscribe { table_name } => {
                result.push(PACKET_SUBSCRIBE);
                result.push_pascal_string(table_name.as_str());
            },
            DataReaderContract::InitTable { table_name, data } => {
                result.push(PACKET_INIT_TABLE);
                result.push_pascal_string(table_name.as_str());
                result.push_slice(data.as_slice());
            },
            DataReaderContract::UpdateRows { table_name, data } => {
                result.push(PACKET_UPDATE_ROWS);
                result.push_pascal_string(table_name.as_str());
                result.push_slice(data.as_slice());
            },
            DataReaderContract::InitPartition { table_name, partition_key, data } => {
                result.push(PACKET_INIT_PARTITION);
                result.push_pascal_string(table_name.as_str());
                result.push_pascal_string(partition_key.as_str());
                result.push_slice(data.as_slice());
            },
            DataReaderContract::DeleteRows { table_name, rows } => {
                result.push(PACKET_DELETE_ROWS);
                result.push_pascal_string(table_name.as_str());
                result.push_u32(rows.len() as u32);
                let ghost head = result@;
                let mut i: usize = 0;
                while i < rows.len()
                    invariant
                        i <= rows.len(),
                        result@ == head + pairs_bytes(rows_view(rows@.subrange(0, i as int))),
                    decreases rows.len() - i,
                {
                    let (partition_key, row_key) = &rows[i];
                    result.push_pascal_string(partition_key.as_str());
                    result.push_pascal_string(row_key.as_str());
                    proof {
                        let before = rows_view(rows@.subrange(0, i as int));
                        let after = rows_view(rows@.subrange(0, i + 1));
                        assert(after.drop_last() =~= before);
                        assert(after.last() == (partition_key@, row_key@));
                    }
                    i = i + 1;
                }
                proof {
                    assert(rows@.subrange(0, rows@.len() as int) =~= rows@);
                }
            },
        }
        proof {
            assert(result@ =~= contract_bytes(self@));
        }
        result
    }
}

/// Reads a `Greeting` body, telling missing bytes from bytes that are not UTF-8.
pub fn decode_greeting(payload: &mut SocketReadBuffer) -> (r: Decoded<DataReaderContract>)
    requires
        old(payload)@.well_formed(),
    ensures
        decoded_as(r, greeting_at(old(payload)@.committed(), old(payload)@.read_pos), old(payload)@, final(payload)@),
{
    let name = match payload.read_text() {
        Decoded::Value(s) => s,
        Decoded::Incomplete => return Decoded::Incomplete,
        Decoded::InvalidText => return Decoded::InvalidText,
    };
    Decoded::Value(DataReaderContract::Greeting { name })
}

/// Reads a `Subscribe` body, telling missing bytes from bytes that are not UTF-8.
pub fn decode_subscribe(payload: &mut SocketReadBuffer) -> (r: Decoded<DataReaderContract>)
    requires
        old(payload)@.well_formed(),
    ensures
        decoded_as(r, subscribe_at(old(payload)@.committed(), old(payload)@.read_pos), old(payload)@, final(payload)@),
{
    let table_name = match payload.read_text() {
        Decoded::Value(s) => s,
        Decoded::Incomplete => return Decoded::Incomplete,
        Decoded::InvalidText => return Decoded::InvalidText,
    };
    Decoded::Value(DataReaderContract::Subscribe { table_name })
}

/// Reads an `InitTable` body, telling missing bytes from bytes that are not UTF-8.
pub fn decode_init_table(payload: &mut SocketReadBuffer) -> (r: Decoded<DataReaderContract>)
    requires
        old(payload)@.well_formed(),
    ensures
        decoded_as(r, init_table_at(old(payload)@.committed(), old(payload)@.read_pos), old(payload)@, final(payload)@),
{
    let table_name = match payload.read_text() {
        Decoded::Value(s) => s,
        Decoded::Incomplete => return Decoded::Incomplete,
        Decoded::InvalidText => return Decoded::InvalidText,
    };
    let data = match payload.parse_slice() {
        Some(d) => d,
        None => return Decoded::Incomplete,
    };
    Decoded::Value(DataReaderContract::InitTable { table_name, data })
}

/// Reads an `InitPartition` body, telling missing bytes from bytes that are not UTF-8.
pub fn decode_init_partition(payload: &mut SocketReadBuffer) -> (r: Decoded<DataReaderContract>)
    requires
        old(payload)@.well_formed(),
    ensures
        decoded_as(r, init_partition_at(old(payload)@.committed(), old(payload)@.read_pos), old(payload)@, final(payload)@),
{
    let table_name = match payload.read_text() {
        Decoded::Value(s) => s,
        Decoded::Incomplete => return Decoded::Incomplete,
        Decoded::InvalidText => return Decoded::InvalidText,
    };
    let partition_key = match payload.read_text() {
        Decoded::Value(s) => s,
        Decoded::Incomplete => return Decoded::Incomplete,
        Decoded::InvalidText => return Decoded::InvalidText,
    };
    let data = match payload.parse_slice() {
        Some(d) => d,
        None => return Decoded::Incomplete,
    };
    Decoded::Value(DataReaderContract::InitPartition { table_name, partition_key, data })
}

/// Reads an `UpdateRows` body, telling missing bytes from bytes that are not UTF-8.
pub fn decode_update_rows(payload: &mut SocketReadBuffer) -> (r: Decoded<DataReaderContract>)
    requires
        old(payload)@.well_formed(),
    ensures
        decoded_as(r, update_rows_at(old(payload)@.committed(), old(payload)@.read_pos), old(payload)@, final(payload)@),
{
    let table_name = match payload.read_text() {
        Decoded::Value(s) => s,
        Decoded::Incomplete => return Decoded::Incomplete,
        Decoded::InvalidText => return Decoded::InvalidText,
    };
    let data = match payload.parse_slice() {
        Some(d) => d,
        None => return Decoded::Incomplete,
    };
    Decoded::Value(DataReaderContract::UpdateRows { table_name, data })
}

/// Reads `count` pairs of strings, telling missing bytes from bytes that are
/// not UTF-8.
fn read_string_pairs(payload: &mut SocketReadBuffer, count: u32) -> (r: Decoded<Vec<(String, String)>>)
    requires
        old(payload)@.well_formed(),
    ensures
        final(payload)@.well_formed(),
        match read_pairs_at(old(payload)@.committed(), old(payload)@.read_pos, count as nat) {
            Step::Done(rows, p) => r matches Decoded::Value(v) && rows_view(v@) == rows && final(payload)@ == old(payload)@.with_read_pos(p),
            Step::Short(p) => r is Incomplete && final(payload)@ == old(payload)@.with_read_pos(p),
            Step::BadText(p) => r is InvalidText && final(payload)@ == old(payload)@.with_read_pos(p),
        },
{
    let ghost data = old(payload)@.committed();
    let ghost start = old(payload)@.read_pos;
    let mut rows: Vec<(String, String)> = Vec::new();
    let mut i: u32 = 0;
    let mut stopped: Decoded<()> = Decoded::Value(());
    proof {
        assert(rows_view(rows@) =~= Seq::<(Seq<char>, Seq<char>)>::empty());
    }
    while i < count
        invariant_except_break
            stopped is Value,
            read_pairs_at(data, start, i as nat) == Step::Done(rows_view(rows@), payload@.read_pos),
        invariant
            i <= count,
            payload@.well_formed(),
            payload@.bytes == old(payload)@.bytes,
            payload@.write_pos == old(payload)@.write_pos,
            payload@.committed() == data,
        ensures
            stopped is Value ==> read_pairs_at(data, start, count as nat) == Step::Done(rows_view(rows@), payload@.read_pos),
            stopped is Incomplete ==> read_pairs_at(data, start, count as nat) == Step::<Seq<(Seq<char>, Seq<char>)>>::Short(payload@.read_pos),
            stopped is InvalidText ==> read_pairs_at(data, start, count as nat) == Step::<Seq<(Seq<char>, Seq<char>)>>::BadText(payload@.read_pos),
        decreases count - i,
    {
        let n1 = Ghost((i + 1) as nat);
        assert((n1@ - 1) as nat == i as nat);
        let partition_key = match payload.read_text() {
            Decoded::Value(s) => s,
            Decoded::Incomplete => {
                proof {
                    lemma_pairs_stop(data, start, n1@, count as nat);
                }
                stopped = Decoded::Incomplete;
                break;
            },
            Decoded::InvalidText => {
                proof {
                    lemma_pairs_stop(data, start, n1@, count as nat);
                }
                stopped = Decoded::InvalidText;
                break;
            },
        };
        let row_key = match payload.read_text() {
            Decoded::Value(s) => s,
            Decoded::Incomplete => {
                proof {
                    lemma_pairs_stop(data, start, n1@, count as nat);
                }
                stopped = Decoded::Incomplete;
                break;
            },
            Decoded::InvalidText => {
                proof {
                    lemma_pairs_stop(data, start, n1@, count as nat);
                }
                stopped = Decoded::InvalidText;
                break;
            },
        };
        let ghost pk = partition_key@;
        let ghost rk = row_key@;
        let ghost prev = rows@;
        rows.push((partition_key, row_key));
        proof {
            assert(rows_view(rows@) =~= rows_view(prev).push((pk, rk)));
        }
        i = i + 1;
    }
    match stopped {
        Decoded::Value(_) => Decoded::Value(rows),
        Decoded::Incomplete => Decoded::Incomplete,
        Decoded::InvalidText => Decoded::InvalidText,
    }
}

/// Reads a `DeleteRows` body, telling missing bytes from bytes that are not UTF-8.
pub fn decode_delete_rows(payload: &mut SocketReadBuffer) -> (r: Decoded<DataReaderContract>)
    requires
        old(payload)@.well_formed(),
    ensures
        decoded_as(r, delete_rows_at(old(payload)@.committed(), old(payload)@.read_pos), old(payload)@, final(payload)@),
{
    let table_name = match payload.read_text() {
        Decoded::Value(s) => s,
        Decoded::Incomplete => return Decoded::Incomplete,
        Decoded::InvalidText => return Decoded::InvalidText,
    };
    let len = match payload.parse_u32() {
        Some(v) => v,
        None => return Decoded::Incomplete,
    };
    match read_string_pairs(payload, len) {
        Decoded::Value(rows) => Decoded::Value(DataReaderContract::DeleteRows { table_name, rows }),
        Decoded::Incomplete => Decoded::Incomplete,
        Decoded::InvalidText => Decoded::InvalidText,
    }
}

/// Reads a `Greeting` body, or `None` when the bytes end early.
pub fn parse_greeting_packet(payload: &mut SocketReadBuffer) -> (r: Option<DataReaderContract>)
    requires
        old(payload)@.well_formed(),
        !(greeting_at(old(payload)@.committed(), old(payload)@.read_pos) is BadText),
    ensures
        parsed_as(r, greeting_at(old(payload)@.committed(), old(payload)@.read_pos), old(payload)@, final(payload)@),
{
    match decode_greeting(payload) {
        Decoded::Value(c) => Some(c),
        _ => None,
    }
}

/// Reads a `Subscribe` body, or `None` when the bytes end early.
pub fn parse_subscribe_packet(payload: &mut SocketReadBuffer) -> (r: Option<DataReaderContract>)
    requires
        old(payload)@.well_formed(),
        !(subscribe_at(old(payload)@.committed(), old(payload)@.read_pos) is BadText),
    ensures
        parsed_as(r, subscribe_at(old(payload)@.committed(), old(payload)@.read_pos), old(payload)@, final(payload)@),
{
    match decode_subscribe(payload) {
        Decoded::Value(c) => Some(c),
        _ => None,
    }
}

/// Reads an `InitTable` body, or `None` when the bytes end early.
pub fn parse_init_table_contract(payload: &mut SocketReadBuffer) -> (r: Option<DataReaderContract>)
    requires
        old(payload)@.well_formed(),
        !(init_table_at(old(payload)@.committed(), old(payload)@.read_pos) is BadText),
    ensures
        parsed_as(r, init_table_at(old(payload)@.committed(), old(payload)@.read_pos), old(payload)@, final(payload)@),
{
    match decode_init_table(payload) {
        Decoded::Value(c) => Some(c),
        _ => None,
    }
}

/// Reads an `InitPartition` body, or `None` when the bytes end early.
pub fn parse_init_partition_contract(payload: &mut SocketReadBuffer) -> (r: Option<DataReaderContract>)
    requires
        old(payload)@.well_formed(),
        !(init_partition_at(old(payload)@.committed(), old(payload)@.read_pos) is BadText),
    ensures
        parsed_as(r, init_partition_at(old(payload)@.committed(), old(payload)@.read_pos), old(payload)@, final(payload)@),
{
    match decode_init_partition(payload) {
        Decoded::Value(c) => Some(c),
        _ => None,
    }
}

/// Reads an `UpdateRows` body, or `None` when the bytes end early.
pub fn parse_update_rows_contract(payload: &mut SocketReadBuffer) -> (r: Option<DataReaderContract>)
    requires
        old(payload)@.well_formed(),
        !(update_rows_at(old(payload)@.committed(), old(payload)@.read_pos) is BadText),
    ensures
        parsed_as(r, update_rows_at(old(payload)@.committed(), old(payload)@.read_pos), old(payload)@, final(payload)@),
{
    match decode_update_rows(payload) {
        Decoded::Value(c) => Some(c),
        _ => None,
    }
}

/// Reads a `DeleteRows` body, or `None` when the bytes end early.
pub fn parse_delete_rows_contract(payload: &mut SocketReadBuffer) -> (r: Option<DataReaderContract>)
    requires
        old(payload)@.well_formed(),
        !(delete_rows_at(old(payload)@.committed(), old(payload)@.read_pos) is BadText),
    ensures
        parsed_as(r, delete_rows_at(old(payload)@.committed(), old(payload)@.read_pos), old(payload)@, final(payload)@),
{
    match decode_delete_rows(payload) {
        Decoded::Value(c) => Some(c),
        _ => None,
    }
}

/// The error text for an unknown packet type.
fn unknown_packet_error(packet: u8) -> (r: String)
    ensures
        r@ == unknown_packet_text(packet),
{
    let mut message = String::from_str("Unknown command type ");
    let number = u64_to_decimal(packet as u64);
    message.append(number.as_str());
    message
}

impl DataReaderContract {
    /// Reads the next packet: `Ok(None)` when the committed bytes end before
    /// it does, an error for an unknown packet type. The read position moves
    /// past what was read. Strings that are not UTF-8 are outside the
    /// contract: there the reader panics.
    pub fn deserialize(payload: &mut SocketReadBuffer) -> (r: Result<Option<DataReaderContract>, String>)
        requires
            old(payload)@.well_formed(),
            !(packet_at(old(payload)@.committed(), old(payload)@.read_pos) is BadText),
        ensures
            final(payload)@.well_formed(),
            match packet_at(old(payload)@.committed(), old(payload)@.read_pos) {
                Step::Done(PacketView::Contract(c), p) => r matches Ok(Some(v)) && v@ == c
                    && final(payload)@ == old(payload)@.with_read_pos(p),
                Step::Done(PacketView::Unknown(t), p) => r matches Err(e) && e@ == unknown_packet_text(t)
                    && final(payload)@ == old(payload)@.with_read_pos(p),
                Step::Short(p) => r matches Ok(None) && final(payload)@ == old(payload)@.with_read_pos(p),
                Step::BadText(_) => false,
            },
    {
        let packet = payload.read_byte();
        if packet.is_none() {
            return Ok(None);
        }
        let packet = packet.unwrap();
        if packet == PACKET_PING {
            Ok(Some(DataReaderContract::Ping))
        } else if packet == PACKET_PONG {
            Ok(Some(DataReaderContract::Pong))
        } else if packet == PACKET_GREETING {
            Ok(parse_greeting_packet(payload))
        } else if packet == PACKET_SUBSCRIBE {
            Ok(parse_subscribe_packet(payload))
        } else if packet == PACKET_INIT_TABLE {
            Ok(parse_init_table_contract(payload))
        } else if packet == PACKET_INIT_PARTITION {
            Ok(parse_init_partition_contract(payload))
        } else if packet == PACKET_UPDATE_ROWS {
            Ok(parse_update_rows_contract(payload))
        } else if packet == PACKET_DELETE_ROWS {
            Ok(parse_delete_rows_contract(payload))
        } else {
            Err(unknown_packet_error(packet))
        }
    }

    /// Reads the next packet as `deserialize` does, but returns `None`
    /// instead of reading on when one of its strings is not UTF-8, with the
    /// read position past the offending bytes.
    pub fn deserialize_checked(payload: &mut SocketReadBuffer) -> (r: Option<Result<Option<DataReaderContract>, String>>)
        requires
            old(payload)@.well_formed(),
        ensures
            final(payload)@.well_formed(),
            match packet_at(old(payload)@.committed(), old(payload)@.read_pos) {
                Step::Done(PacketView::Contract(c), p) => r matches Some(Ok(Some(v))) && v@ == c
                    && final(payload)@ == old(payload)@.with_read_pos(p),
                Step::Done(PacketView::Unknown(t), p) => r matches Some(Err(e)) && e@ == unknown_packet_text(t)
                    && final(payload)@ == old(payload)@.with_read_pos(p),
                Step::Short(p) => r matches Some(Ok(None)) && final(payload)@ == old(payload)@.with_read_pos(p),
                Step::BadText(p) => r is None && final(payload)@ == old(payload)@.with_read_pos(p),
            },
    {
        let packet = match payload.read_byte() {
            Some(b) => b,
            None => return Some(Ok(None)),
        };
        let body = if packet == PACKET_PING {
            Decoded::Value(DataReaderContract::Ping)
        } else if packet == PACKET_PONG {
            Decoded::Value(DataReaderContract::Pong)
        } else if packet == PACKET_GREETING {
            decode_greeting(payload)
        } else if packet == PACKET_SUBSCRIBE {
            decode_subscribe(payload)
        } else if packet == PACKET_INIT_TABLE {
            decode_init_table(payload)
        } else if packet == PACKET_INIT_PARTITION {
            decode_init_partition(payload)
        } else if packet == PACKET_UPDATE_ROWS {
            decode_update_rows(payload)
        } else if packet == PACKET_DELETE_ROWS {
            decode_delete_rows(payload)
        } else {
            return Some(Err(unknown_packet_error(packet)));
        };
        match body {
            Decoded::Value(c) => Some(Ok(Some(c))),
            Decoded::Incomplete => Some(Ok(None)),
            Decoded::InvalidText => None,
        }
    }
}

/// The type byte and the bytes after it.
proof fn lemma_first_byte(data: Seq<u8>, pos: int, b: u8, rest: Seq<u8>)
    requires
        holds_at(data, pos, seq![b] + rest),
    ensures
        read_u8_at(data, pos) == Step::Done(b, pos + 1),
        holds_at(data, pos + 1, rest),
{
    lemma_holds_at_concat(data, pos, seq![b], rest);
    assert(data.subrange(pos, pos + 1)[0] == data[pos]);
}

/// Reading back what `serialize` wrote gives the same packet: for every
/// packet whose strings fit in 255 UTF-8 bytes and whose lengths fit in a
/// `u32`, wherever its bytes stand in the committed bytes, the packet read
/// there is that packet, and the read ends right after its bytes.
pub proof fn lemma_serialize_then_deserialize(data: Seq<u8>, pos: int, c: ContractView)
    requires
        holds_at(data, pos, contract_bytes(c)),
        contract_fits(c),
    ensures
        packet_at(data, pos) == Step::Done(PacketView::Contract(c), pos + contract_bytes(c).len()),
{
    match c {
        ContractView::Ping => {
            lemma_first_byte(data, pos, PACKET_PING, Seq::empty());
            assert(seq![PACKET_PING] =~= seq![PACKET_PING] + Seq::<u8>::empty());
        },
        ContractView::Pong => {
            lemma_first_byte(data, pos, PACKET_PONG, Seq::empty());
            assert(seq![PACKET_PONG] =~= seq![PACKET_PONG] + Seq::<u8>::empty());
        },
        ContractView::Greeting { name } => {
            lemma_first_byte(data, pos, PACKET_GREETING, text_bytes(name));
            lemma_read_text(data, pos + 1, name);
        },
        ContractView::Subscribe { table_name } => {
            lemma_first_byte(data, pos, PACKET_SUBSCRIBE, text_bytes(table_name));
            lemma_read_text(data, pos + 1, table_name);
        },
        ContractView::InitTable { table_name, data: d } => {
            let a = text_bytes(table_name);
            let b = block_bytes(d);
            assert(contract_bytes(c) =~= seq![PACKET_INIT_TABLE] + (a + b));
            lemma_first_byte(data, pos, PACKET_INIT_TABLE, a + b);
            lemma_holds_at_concat(data, pos + 1, a, b);
            lemma_read_text(data, pos + 1, table_name);
            lemma_read_block(data, pos + 1 + a.len(), d);
        },
        ContractView::UpdateRows { table_name, data: d } => {
            let a = text_bytes(table_name);
            let b = block_bytes(d);
            assert(contract_bytes(c) =~= seq![PACKET_UPDATE_ROWS] + (a + b));
            lemma_first_byte(data, pos, PACKET_UPDATE_ROWS, a + b);
            lemma_holds_at_concat(data, pos + 1, a, b);
            lemma_read_text(data, pos + 1, table_name);
            lemma_read_block(data, pos + 1 + a.len(), d);
        },
        ContractView::InitPartition { table_name, partition_key, data: d } => {
            let a = text_bytes(table_name);
            let k = text_bytes(partition_key);
            let b = block_bytes(d);
            assert(contract_bytes(c) =~= seq![PACKET_INIT_PARTITION] + (a + (k + b)));
            lemma_first_byte(data, pos, PACKET_INIT_PARTITION, a + (k + b));
            lemma_holds_at_concat(data, pos + 1, a, k + b);
            lemma_holds_at_concat(data, pos + 1 + a.len(), k, b);
            lemma_read_text(data, pos + 1, table_name);
            lemma_read_text(data, pos + 1 + a.len(), partition_key);
            lemma_read_block(data, pos + 1 + a.len() + k.len(), d);
        },
        ContractView::DeleteRows { table_name, rows } => {
            let a = text_bytes(table_name);
            let n = spec_u32_to_le_bytes(rows.len() as u32);
            let b = pairs_bytes(rows);
            vstd::bytes::lemma_auto_spec_u32_to_from_le_bytes();
            assert(contract_bytes(c) =~= seq![PACKET_DELETE_ROWS] + (a + (n + b)));
            lemma_first_byte(data, pos, PACKET_DELETE_ROWS, a + (n + b));
            lemma_holds_at_concat(data, pos + 1, a, n + b);
            lemma_holds_at_concat(data, pos + 1 + a.len(), n, b);
            lemma_read_text(data, pos + 1, table_name);
            lemma_read_u32(data, pos + 1 + a.len(), rows.len() as u32);
            lemma_read_pairs(data, pos + 1 + a.len() + 4, rows);
        },
    }
}

/// Reading a packet body over a prefix of the bytes stops short or reads
/// what the whole bytes give, and ends within the prefix.
proof fn lemma_prefix_body(data: Seq<u8>, more: Seq<u8>, t: u8, pos: int)
    requires
        is_prefix(data, more),
        0 <= pos <= data.len(),
    ensures
        stable(packet_at(data, pos - 1), packet_at(more, pos - 1)) || read_u8_at(data, pos - 1) != Step::Done(t, pos),
        read_u8_at(data, pos - 1) == Step::Done(t, pos) ==> ends_within(packet_at(data, pos - 1), data.len() as int),
{
    lemma_prefix_read_text(data, more, pos);
    if let Step::Done(_, p1) = read_text_at(data, pos) {
        lemma_prefix_read_text(data, more, p1);
        lemma_prefix_read_block(data, more, p1);
        lemma_prefix_read_u32(data, more, p1);
        if let Step::Done(_, p2) = read_text_at(data, p1) {
            lemma_prefix_read_block(data, more, p2);
        }
        if let Step::Done(n, p2) = read_u32_at(data, p1) {
            lemma_prefix_read_pairs(data, more, p2, n as nat);
        }
    }
}

/// Reading a packet over a prefix of the bytes stops short or reads what
/// the whole bytes give, and ends within the prefix.
pub proof fn lemma_prefix_packet(data: Seq<u8>, more: Seq<u8>, pos: int)
    requires
        is_prefix(data, more),
        0 <= pos,
    ensures
        stable(packet_at(data, pos), packet_at(more, pos)),
        ends_within(packet_at(data, pos), data.len() as int),
{
    lemma_prefix_read_u8(data, more, pos);
    if let Step::Done(t, p) = read_u8_at(data, pos) {
        lemma_prefix_body(data, more, t, p);
    }
}

/// A packet whose bytes have only partly arrived reads as incomplete: for
/// every packet that `serialize` carries unchanged, when the committed bytes
/// from `pos` on are a proper prefix of its bytes, the read stops short and is
/// neither an error nor another packet.
pub proof fn lemma_partial_packet_is_incomplete(data: Seq<u8>, pos: int, c: ContractView)
    requires
        contract_fits(c),
        0 <= pos <= data.len(),
        data.len() < pos + contract_bytes(c).len(),
        data.subrange(pos, data.len() as int) == contract_bytes(c).subrange(0, data.len() - pos),
    ensures
        packet_at(data, pos) is Short,
{
    let cb = contract_bytes(c);
    let more = data + cb.subrange(data.len() - pos, cb.len() as int);
    assert(more.subrange(0, data.len() as int) =~= data);
    assert(more.subrange(pos, pos + cb.len()) =~= cb) by {
        assert forall|i: int| 0 <= i < cb.len() implies #[trigger] more.subrange(pos, pos + cb.len())[i] == cb[i] by {
            if pos + i < data.len() {
                assert(data.subrange(pos, data.len() as int)[i] == data[pos + i]);
                assert(cb.subrange(0, data.len() - pos)[i] == cb[i]);
            }
        }
    }
    lemma_serialize_then_deserialize(more, pos, c);
    lemma_prefix_packet(data, more, pos);
}

/// One step of reading packets off a socket buffer: the next complete packet,
/// after which the bytes read are dropped (`confirm_read_package`); `Ok(None)`
/// when the next packet has not fully arrived, after which reading starts over
/// from the front (`reset_read_pos`); an error for an unknown packet type; or
/// `None` when a string of the packet is not UTF-8 (where the server panics).
pub fn read_next_packet(buffer: &mut SocketReadBuffer) -> (r: Option<Result<Option<DataReaderContract>, String>>)
    requires
        old(buffer)@.well_formed(),
    ensures
        final(buffer)@.well_formed(),
        match packet_at(old(buffer)@.committed(), old(buffer)@.read_pos) {
            Step::Done(PacketView::Contract(c), p) => r matches Some(Ok(Some(v))) && v@ == c
                && final(buffer)@.read_pos == 0
                && final(buffer)@.unread() == old(buffer)@.bytes.subrange(p, old(buffer)@.write_pos),
            Step::Done(PacketView::Unknown(t), p) => r matches Some(Err(e)) && e@ == unknown_packet_text(t)
                && final(buffer)@ == old(buffer)@.with_read_pos(p),
            Step::Short(_) => r matches Some(Ok(None)) && final(buffer)@ == old(buffer)@.with_read_pos(0),
            Step::BadText(p) => r is None && final(buffer)@ == old(buffer)@.with_read_pos(p),
        },
{
    let result = DataReaderContract::deserialize_checked(buffer);
    match result {
        Some(Ok(Some(contract))) => {
            buffer.confirm_read_package();
            Some(Ok(Some(contract)))
        },
        Some(Ok(None)) => {
            buffer.reset_read_pos();
            Some(Ok(None))
        },
        other => other,
    }
}

} // verus!
