//! What the server does with each packet a reader sends over its socket.
use crate::data_reader_contract::{contract_bytes, ContractView, DataReaderContract};
use crate::data_readers_broadcast::DataReadersCommand;
use vstd::prelude::*;

verus! {

#[derive(Debug)]
pub enum IncomingAction {
    /// Send these bytes back to the reader.
    Reply(Vec<u8>),
    /// The reader named itself.
    SetName(String),
    /// Hand this command to the readers' broadcast loop.
    Post(DataReadersCommand),
}

/// The packets a reader may send: a ping, its greeting, or a subscription.
pub open spec fn accepted_from_reader(c: ContractView) -> bool {
    c is Ping || c is Greeting || c is Subscribe
}

/// Answers a ping with a pong, takes a greeting as the reader's name and
/// turns a subscription into a command for the broadcast loop.
pub fn handle_incoming_package(contract: DataReaderContract, connection_id: u64) -> (r: IncomingAction)
    requires
        accepted_from_reader(contract@),
    ensures
        match contract@ {
            ContractView::Ping => r matches IncomingAction::Reply(bytes) && bytes@ == contract_bytes(ContractView::Pong),
            ContractView::Greeting { name } => r matches IncomingAction::SetName(n) && n@ == name,
            ContractView::Subscribe { table_name } => r matches IncomingAction::Post(
                DataReadersCommand::Subscribe { connection_id: id, table_name: t },
            ) && id == connection_id && t@ == table_name,
            _ => false,
        },
{
    match contract {
        DataReaderContract::Ping => IncomingAction::Reply(DataReaderContract::Pong.serialize()),
        DataReaderContract::Greeting { name } => IncomingAction::SetName(name),
        DataReaderContract::Subscribe { table_name } => IncomingAction::Post(DataReadersCommand::Subscribe { connection_id, table_name }),
        _ => vstd::pervasive::unreached(),
    }
}

} // verus!
