//! What an endpoint is told of its chain.

use vstd::prelude::*;

verus! {

/// The settings of one chain endpoint.
#[derive(Clone, Debug, PartialEq, Eq)]
pub struct ChainConfig {
    pub id: String,
    pub counter_chain: String,
    pub ckb_rpc: String,
    pub ckb_indexer_rpc: String,
    pub key_name: String,
    /// The arguments of the type-id scripts of the four contracts.
    pub client_type_args: [u8; 32],
    pub connection_type_args: [u8; 32],
    pub channel_type_args: [u8; 32],
    pub packet_type_args: [u8; 32],
}

impl ChainConfig {
    /// The identifier of the client: the arguments of its contract's type-id
    /// script.
    pub fn client_id(&self) -> (id: [u8; 32])
        ensures
            id == self.client_type_args,
    {
        self.client_type_args
    }
}

/// The outputs that hold the code of the four contracts.
#[derive(Clone, Copy, Debug, PartialEq, Eq)]
pub struct ContractOutPoints {
    pub client: crate::cell::OutPoint,
    pub connection: crate::cell::OutPoint,
    pub channel: crate::cell::OutPoint,
    pub packet: crate::cell::OutPoint,
}

/// The contract whose code cell was looked for.
#[derive(Clone, Copy, Debug, PartialEq, Eq, Structural)]
pub enum Contract {
    Client,
    Connection,
    Channel,
    Packet,
}

/// A setting names a contract that the ledger does not hold.
#[derive(Clone, Copy, Debug, PartialEq, Eq, Structural)]
pub struct ContractMissing {
    pub contract: Contract,
}

/// Decides whether an endpoint can start: each of the four contracts that
/// its settings name must have been found. Of those that were not, the first
/// in the order client, connection, channel, packet is reported.
pub fn check_contract_cells(
    client: Option<crate::cell::OutPoint>,
    connection: Option<crate::cell::OutPoint>,
    channel: Option<crate::cell::OutPoint>,
    packet: Option<crate::cell::OutPoint>,
) -> (r: Result<ContractOutPoints, ContractMissing>)
    ensures
        match r {
            Ok(found) => {
                &&& client == Some(found.client)
                &&& connection == Some(found.connection)
                &&& channel == Some(found.channel)
                &&& packet == Some(found.packet)
            },
            Err(e) => e.contract == (if client is None {
                Contract::Client
            } else if connection is None {
                Contract::Connection
            } else if channel is None {
                Contract::Channel
            } else {
                Contract::Packet
            }) && (client is None || connection is None || channel is None || packet is None),
        },
{
    let client = match client {
        Some(found) => found,
        None => {
            return Err(ContractMissing { contract: Contract::Client });
        },
    };
    let connection = match connection {
        Some(found) => found,
        None => {
            return Err(ContractMissing { contract: Contract::Connection });
        },
    };
    let channel = match channel {
        Some(found) => found,
        None => {
            return Err(ContractMissing { contract: Contract::Channel });
        },
    };
    let packet = match packet {
        Some(found) => found,
        None => {
            return Err(ContractMissing { contract: Contract::Packet });
        },
    };
    Ok(ContractOutPoints { client, connection, channel, packet })
}

} // verus!
