//! The protocol objects that the relayer reads off the ledger: the
//! connections of a client, a channel end and a packet with its status.

use crate::bytes::copy_bytes;
use vstd::prelude::*;

verus! {

/// How far a connection or a channel has come in its handshake.
#[derive(Clone, Copy, Debug, PartialEq, Eq, Structural)]
pub enum State {
    Unknown,
    Init,
    OpenTry,
    Open,
    Closed,
    Frozen,
}

/// Whether a channel delivers packets in the order in which they were sent.
#[derive(Clone, Copy, Debug, PartialEq, Eq, Structural)]
pub enum ChannelOrder {
    Unknown,
    Unordered,
    Ordered,
}

/// Where a packet stands in its life.
#[derive(Clone, Copy, Debug, PartialEq, Eq, Structural)]
pub enum PacketStatus {
    Send,
    Recv,
    InboxAck,
    OutboxAck,
}

/// One end of a connection.
#[derive(Clone, Debug, PartialEq, Eq)]
pub struct ConnectionEnd {
    pub state: State,
    pub client_id: Vec<u8>,
    pub counterparty_client_id: Vec<u8>,
    pub counterparty_connection_id: Vec<u8>,
    pub delay_period: u64,
}

/// The mathematical value of a [`ConnectionEnd`].
pub struct ConnectionEndView {
    pub state: State,
    pub client_id: Seq<u8>,
    pub counterparty_client_id: Seq<u8>,
    pub counterparty_connection_id: Seq<u8>,
    pub delay_period: u64,
}

impl View for ConnectionEnd {
    type V = ConnectionEndView;

    open spec fn view(&self) -> ConnectionEndView {
        ConnectionEndView {
            state: self.state,
            client_id: self.client_id@,
            counterparty_client_id: self.counterparty_client_id@,
            counterparty_connection_id: self.counterparty_connection_id@,
            delay_period: self.delay_period,
        }
    }
}

/// The values of a list of connection ends.
pub open spec fn connection_ends_view(ends: Seq<ConnectionEnd>) -> Seq<ConnectionEndView> {
    Seq::new(ends.len(), |i: int| ends[i]@)
}

/// The connections of a client, in the order of their numbers, and the
/// number that the next channel will get.
#[derive(Clone, Debug, PartialEq, Eq)]
pub struct ConnectionSet {
    pub next_channel_number: u16,
    pub connections: Vec<ConnectionEnd>,
}

/// The mathematical value of a [`ConnectionSet`].
pub struct ConnectionSetView {
    pub next_channel_number: u16,
    pub connections: Seq<ConnectionEndView>,
}

impl View for ConnectionSet {
    type V = ConnectionSetView;

    open spec fn view(&self) -> ConnectionSetView {
        ConnectionSetView {
            next_channel_number: self.next_channel_number,
            connections: connection_ends_view(self.connections@),
        }
    }
}

/// One end of a channel.
#[derive(Clone, Debug, PartialEq, Eq)]
pub struct Channel {
    pub number: u16,
    pub port_id: Vec<u8>,
    pub state: State,
    pub order: ChannelOrder,
    pub next_sequence_sends: u16,
    pub next_sequence_recvs: u16,
    pub next_sequence_acks: u16,
    pub counterparty_port_id: Vec<u8>,
    pub counterparty_channel_id: Vec<u8>,
    pub connection_id: Vec<u8>,
}

/// The mathematical value of a [`Channel`].
pub struct ChannelView {
    pub number: u16,
    pub port_id: Seq<u8>,
    pub state: State,
    pub order: ChannelOrder,
    pub next_sequence_sends: u16,
    pub next_sequence_recvs: u16,
    pub next_sequence_acks: u16,
    pub counterparty_port_id: Seq<u8>,
    pub counterparty_channel_id: Seq<u8>,
    pub connection_id: Seq<u8>,
}

impl View for Channel {
    type V = ChannelView;

    open spec fn view(&self) -> ChannelView {
        ChannelView {
            number: self.number,
            port_id: self.port_id@,
            state: self.state,
            order: self.order,
            next_sequence_sends: self.next_sequence_sends,
            next_sequence_recvs: self.next_sequence_recvs,
            next_sequence_acks: self.next_sequence_acks,
            counterparty_port_id: self.counterparty_port_id@,
            counterparty_channel_id: self.counterparty_channel_id@,
            connection_id: self.connection_id@,
        }
    }
}

/// A packet as one chain sends it to another.
#[derive(Clone, Debug, PartialEq, Eq)]
pub struct Packet {
    pub sequence: u16,
    pub source_port_id: Vec<u8>,
    pub source_channel_id: Vec<u8>,
    pub destination_port_id: Vec<u8>,
    pub destination_channel_id: Vec<u8>,
    pub data: Vec<u8>,
    pub timeout_height: u64,
    pub timeout_timestamp: u64,
}

/// The mathematical value of a [`Packet`].
pub struct PacketView {
    pub sequence: u16,
    pub source_port_id: Seq<u8>,
    pub source_channel_id: Seq<u8>,
    pub destination_port_id: Seq<u8>,
    pub destination_channel_id: Seq<u8>,
    pub data: Seq<u8>,
    pub timeout_height: u64,
    pub timeout_timestamp: u64,
}

impl View for Packet {
    type V = PacketView;

    open spec fn view(&self) -> PacketView {
        PacketView {
            sequence: self.sequence,
            source_port_id: self.source_port_id@,
            source_channel_id: self.source_channel_id@,
            destination_port_id: self.destination_port_id@,
            destination_channel_id: self.destination_channel_id@,
            data: self.data@,
            timeout_height: self.timeout_height,
            timeout_timestamp: self.timeout_timestamp,
        }
    }
}

/// A packet as a cell records it: the packet, where it stands, and the
/// transaction that acknowledged it, if any did.
#[derive(Clone, Debug, PartialEq, Eq)]
pub struct PacketRecord {
    pub packet: Packet,
    pub tx_hash: Option<[u8; 32]>,
    pub status: PacketStatus,
}

/// The mathematical value of a [`PacketRecord`].
pub struct PacketRecordView {
    pub packet: PacketView,
    pub tx_hash: Option<Seq<u8>>,
    pub status: PacketStatus,
}

impl View for PacketRecord {
    type V = PacketRecordView;

    open spec fn view(&self) -> PacketRecordView {
        PacketRecordView {
            packet: self.packet@,
            tx_hash: crate::wire::opt_hash_view(self.tx_hash),
            status: self.status,
        }
    }
}

impl ConnectionEnd {
    /// A copy with the same value.
    pub fn duplicate(&self) -> (r: ConnectionEnd)
        ensures
            r@ == self@,
    {
        ConnectionEnd {
            state: self.state,
            client_id: copy_bytes(&self.client_id),
            counterparty_client_id: copy_bytes(&self.counterparty_client_id),
            counterparty_connection_id: copy_bytes(&self.counterparty_connection_id),
            delay_period: self.delay_period,
        }
    }
}

impl Channel {
    /// A copy with the same value.
    pub fn duplicate(&self) -> (r: Channel)
        ensures
            r@ == self@,
    {
        Channel {
            number: self.number,
            port_id: copy_bytes(&self.port_id),
            state: self.state,
            order: self.order,
            next_sequence_sends: self.next_sequence_sends,
            next_sequence_recvs: self.next_sequence_recvs,
            next_sequence_acks: self.next_sequence_acks,
            counterparty_port_id: copy_bytes(&self.counterparty_port_id),
            counterparty_channel_id: copy_bytes(&self.counterparty_channel_id),
            connection_id: copy_bytes(&self.connection_id),
        }
    }
}

} // verus!
