//! Byte layout of the records of connections, channels and packets.
//!
//! | record          | fields, in order                                        |
//! |-----------------|---------------------------------------------------------|
//! | connection end  | state, client id, counterparty client id, counterparty  |
//! |                 | connection id, delay period                             |
//! | connections     | next channel number, count, that many connection ends   |
//! | channel end     | number, port id, state, order, next sequence to send,   |
//! |                 | to receive, to acknowledge, counterparty port id,       |
//! |                 | counterparty channel id, connection id                  |
//! | packet          | sequence, source port and channel id, destination port  |
//! |                 | and channel id, data, timeout height and timestamp      |
//! | packet record   | packet, acknowledging transaction if any, status        |
//!
//! Identifiers and data are byte strings behind their length; numbers of
//! channels and sequences take two bytes, the count four, periods and
//! timeouts eight; a state, an order or a status is a tag of one byte,
//! counted from one. A record is decoded only from bytes that hold it and
//! nothing more.

use crate::bytes::lemma_concat_assoc;
use crate::ibc::{
    connection_ends_view, Channel, ChannelOrder, ChannelView, ConnectionEnd, ConnectionEndView,
    ConnectionSet, ConnectionSetView, Packet, PacketRecord, PacketRecordView, PacketStatus,
    PacketView, State,
};
use crate::wire::{
    enc_blob, enc_opt_hash, enc_u16, enc_u32, enc_u64, enc_u8, got, left, lemma_blob_front,
    lemma_opt_hash_front, lemma_par_blob, lemma_par_opt_hash, lemma_par_u16, lemma_par_u32,
    lemma_par_u64, lemma_par_u8, lemma_u16_front, lemma_u32_front, lemma_u64_front,
    lemma_u8_front, par_blob, par_opt_hash, par_u16, par_u32, par_u64, par_u8, put_blob,
    put_opt_hash, put_u16, put_u32, put_u64, put_u8, take_blob, take_opt_hash, take_u16,
    take_u32, take_u64, take_u8,
};
use vstd::prelude::*;

verus! {

/// The byte that stands for a handshake state.
pub open spec fn state_tag(v: State) -> u8 {
    match v {
        State::Unknown => 1,
        State::Init => 2,
        State::OpenTry => 3,
        State::Open => 4,
        State::Closed => 5,
        State::Frozen => 6,
    }
}

/// What the byte `tag` stands for, if it stands for a handshake state.
pub open spec fn state_of_tag(tag: u8) -> Option<State> {
    if tag == 1 {
        Some(State::Unknown)
    } else if tag == 2 {
        Some(State::Init)
    } else if tag == 3 {
        Some(State::OpenTry)
    } else if tag == 4 {
        Some(State::Open)
    } else if tag == 5 {
        Some(State::Closed)
    } else if tag == 6 {
        Some(State::Frozen)
    } else {
        None
    }
}

/// The byte of a handshake state.
pub open spec fn enc_state(v: State) -> Seq<u8> {
    enc_u8(state_tag(v))
}

/// Takes a handshake state off the front of `b`.
pub open spec fn par_state(b: Seq<u8>) -> Option<(State, Seq<u8>)> {
    let tag = par_u8(b);
    if tag is Some && state_of_tag(got(tag)) is Some {
        Some((state_of_tag(got(tag))->0, left(tag)))
    } else {
        None
    }
}

/// What was written in front is read first.
pub proof fn lemma_par_state(v: State, rest: Seq<u8>)
    ensures
        par_state(enc_state(v) + rest) == Some((v, rest)),
{
    lemma_par_u8(state_tag(v), rest);
}

/// What is read off the front is what stands there.
pub proof fn lemma_state_front(b: Seq<u8>, v: State, rest: Seq<u8>)
    requires
        par_state(b) == Some((v, rest)),
    ensures
        b == enc_state(v) + rest,
{
    let tag = par_u8(b);
    lemma_u8_front(b, got(tag), left(tag));
}

impl State {
    /// The byte that stands for this value.
    pub fn tag(self) -> (t: u8)
        ensures
            t == state_tag(self),
    {
        match self {
            State::Unknown => 1,
            State::Init => 2,
            State::OpenTry => 3,
            State::Open => 4,
            State::Closed => 5,
            State::Frozen => 6,
        }
    }

    /// The value that the byte `tag` stands for, if any.
    pub fn from_tag(tag: u8) -> (r: Option<State>)
        ensures
            r == state_of_tag(tag),
    {
        if tag == 1 {
            Some(State::Unknown)
        } else if tag == 2 {
            Some(State::Init)
        } else if tag == 3 {
            Some(State::OpenTry)
        } else if tag == 4 {
            Some(State::Open)
        } else if tag == 5 {
            Some(State::Closed)
        } else if tag == 6 {
            Some(State::Frozen)
        } else {
            None
        }
    }
}

/// Appends the byte of a handshake state.
pub fn put_state(dst: &mut Vec<u8>, v: State)
    ensures
        final(dst)@ == old(dst)@ + enc_state(v),
{
    put_u8(dst, v.tag());
}

/// Takes a handshake state off `b` at `pos`.
pub fn take_state(b: &[u8], pos: usize) -> (r: Option<(State, usize)>)
    requires
        pos <= b@.len(),
    ensures
        match r {
            Some((v, next)) => pos <= next <= b@.len() && par_state(b@.skip(pos as int)) == Some(
                (v, b@.skip(next as int)),
            ),
            None => par_state(b@.skip(pos as int)) is None,
        },
{
    let (tag, next) = match take_u8(b, pos) {
        Some(taken) => taken,
        None => {
            return None;
        },
    };
    match State::from_tag(tag) {
        Some(v) => Some((v, next)),
        None => None,
    }
}

/// The byte that stands for a channel order.
pub open spec fn order_tag(v: ChannelOrder) -> u8 {
    match v {
        ChannelOrder::Unknown => 1,
        ChannelOrder::Unordered => 2,
        ChannelOrder::Ordered => 3,
    }
}

/// What the byte `tag` stands for, if it stands for a channel order.
pub open spec fn order_of_tag(tag: u8) -> Option<ChannelOrder> {
    if tag == 1 {
        Some(ChannelOrder::Unknown)
    } else if tag == 2 {
        Some(ChannelOrder::Unordered)
    } else if tag == 3 {
        Some(ChannelOrder::Ordered)
    } else {
        None
    }
}

/// The byte of a channel order.
pub open spec fn enc_order(v: ChannelOrder) -> Seq<u8> {
    enc_u8(order_tag(v))
}

/// Takes a channel order off the front of `b`.
pub open spec fn par_order(b: Seq<u8>) -> Option<(ChannelOrder, Seq<u8>)> {
    let tag = par_u8(b);
    if tag is Some && order_of_tag(got(tag)) is Some {
        Some((order_of_tag(got(tag))->0, left(tag)))
    } else {
        None
    }
}

/// What was written in front is read first.
pub proof fn lemma_par_order(v: ChannelOrder, rest: Seq<u8>)
    ensures
        par_order(enc_order(v) + rest) == Some((v, rest)),
{
    lemma_par_u8(order_tag(v), rest);
}

/// What is read off the front is what stands there.
pub proof fn lemma_order_front(b: Seq<u8>, v: ChannelOrder, rest: Seq<u8>)
    requires
        par_order(b) == Some((v, rest)),
    ensures
        b == enc_order(v) + rest,
{
    let tag = par_u8(b);
    lemma_u8_front(b, got(tag), left(tag));
}

impl ChannelOrder {
    /// The byte that stands for this value.
    pub fn tag(self) -> (t: u8)
        ensures
            t == order_tag(self),
    {
        match self {
            ChannelOrder::Unknown => 1,
            ChannelOrder::Unordered => 2,
            ChannelOrder::Ordered => 3,
        }
    }

    /// The value that the byte `tag` stands for, if any.
    pub fn from_tag(tag: u8) -> (r: Option<ChannelOrder>)
        ensures
            r == order_of_tag(tag),
    {
        if tag == 1 {
            Some(ChannelOrder::Unknown)
        } else if tag == 2 {
            Some(ChannelOrder::Unordered)
        } else if tag == 3 {
            Some(ChannelOrder::Ordered)
        } else {
            None
        }
    }
}

/// Appends the byte of a channel order.
pub fn put_order(dst: &mut Vec<u8>, v: ChannelOrder)
    ensures
        final(dst)@ == old(dst)@ + enc_order(v),
{
    put_u8(dst, v.tag());
}

/// Takes a channel order off `b` at `pos`.
pub fn take_order(b: &[u8], pos: usize) -> (r: Option<(ChannelOrder, usize)>)
    requires
        pos <= b@.len(),
    ensures
        match r {
            Some((v, next)) => pos <= next <= b@.len() && par_order(b@.skip(pos as int)) == Some(
                (v, b@.skip(next as int)),
            ),
            None => par_order(b@.skip(pos as int)) is None,
        },
{
    let (tag, next) = match take_u8(b, pos) {
        Some(taken) => taken,
        None => {
            return None;
        },
    };
    match ChannelOrder::from_tag(tag) {
        Some(v) => Some((v, next)),
        None => None,
    }
}

/// The byte that stands for a packet status.
pub open spec fn status_tag(v: PacketStatus) -> u8 {
    match v {
        PacketStatus::Send => 1,
        PacketStatus::Recv => 2,
        PacketStatus::InboxAck => 3,
        PacketStatus::OutboxAck => 4,
    }
}

/// What the byte `tag` stands for, if it stands for a packet status.
pub open spec fn status_of_tag(tag: u8) -> Option<PacketStatus> {
    if tag == 1 {
        Some(PacketStatus::Send)
    } else if tag == 2 {
        Some(PacketStatus::Recv)
    } else if tag == 3 {
        Some(PacketStatus::InboxAck)
    } else if tag == 4 {
        Some(PacketStatus::OutboxAck)
    } else {
        None
    }
}

/// The byte of a packet status.
pub open spec fn enc_status(v: PacketStatus) -> Seq<u8> {
    enc_u8(status_tag(v))
}

/// Takes a packet status off the front of `b`.
pub open spec fn par_status(b: Seq<u8>) -> Option<(PacketStatus, Seq<u8>)> {
    let tag = par_u8(b);
    if tag is Some && status_of_tag(got(tag)) is Some {
        Some((status_of_tag(got(tag))->0, left(tag)))
    } else {
        None
    }
}

/// What was written in front is read first.
pub proof fn lemma_par_status(v: PacketStatus, rest: Seq<u8>)
    ensures
        par_status(enc_status(v) + rest) == Some((v, rest)),
{
    lemma_par_u8(status_tag(v), rest);
}

/// What is read off the front is what stands there.
pub proof fn lemma_status_front(b: Seq<u8>, v: PacketStatus, rest: Seq<u8>)
    requires
        par_status(b) == Some((v, rest)),
    ensures
        b == enc_status(v) + rest,
{
    let tag = par_u8(b);
    lemma_u8_front(b, got(tag), left(tag));
}

impl PacketStatus {
    /// The byte that stands for this value.
    pub fn tag(self) -> (t: u8)
        ensures
            t == status_tag(self),
    {
        match self {
            PacketStatus::Send => 1,
            PacketStatus::Recv => 2,
            PacketStatus::InboxAck => 3,
            PacketStatus::OutboxAck => 4,
        }
    }

    /// The value that the byte `tag` stands for, if any.
    pub fn from_tag(tag: u8) -> (r: Option<PacketStatus>)
        ensures
            r == status_of_tag(tag),
    {
        if tag == 1 {
            Some(PacketStatus::Send)
        } else if tag == 2 {
            Some(PacketStatus::Recv)
        } else if tag == 3 {
            Some(PacketStatus::InboxAck)
        } else if tag == 4 {
            Some(PacketStatus::OutboxAck)
        } else {
            None
        }
    }
}

/// Appends the byte of a packet status.
pub fn put_status(dst: &mut Vec<u8>, v: PacketStatus)
    ensures
        final(dst)@ == old(dst)@ + enc_status(v),
{
    put_u8(dst, v.tag());
}

/// Takes a packet status off `b` at `pos`.
pub fn take_status(b: &[u8], pos: usize) -> (r: Option<(PacketStatus, usize)>)
    requires
        pos <= b@.len(),
    ensures
        match r {
            Some((v, next)) => pos <= next <= b@.len() && par_status(b@.skip(pos as int)) == Some(
                (v, b@.skip(next as int)),
            ),
            None => par_status(b@.skip(pos as int)) is None,
        },
{
    let (tag, next) = match take_u8(b, pos) {
        Some(taken) => taken,
        None => {
            return None;
        },
    };
    match PacketStatus::from_tag(tag) {
        Some(v) => Some((v, next)),
        None => None,
    }
}

/// The bytes of a connection end: its fields in order.
pub open spec fn enc_connection_end(x: ConnectionEndView) -> Seq<u8> {
    enc_state(x.state)
        + enc_blob(x.client_id)
        + enc_blob(x.counterparty_client_id)
        + enc_blob(x.counterparty_connection_id)
        + enc_u64(x.delay_period)
}

/// Whether each byte string of a connection end is short enough for its length to
/// be written in four bytes.
pub open spec fn connection_end_fits(x: ConnectionEndView) -> bool {
    &&& x.client_id.len() <= u32::MAX
    &&& x.counterparty_client_id.len() <= u32::MAX
    &&& x.counterparty_connection_id.len() <= u32::MAX
}

/// Takes a connection end off the front of `b`.
pub open spec fn par_connection_end(b: Seq<u8>) -> Option<(ConnectionEndView, Seq<u8>)> {
    let state = par_state(b);
    let client_id = par_blob(left(state));
    let counterparty_client_id = par_blob(left(client_id));
    let counterparty_connection_id = par_blob(left(counterparty_client_id));
    let delay_period = par_u64(left(counterparty_connection_id));
    if {
        &&& state is Some
        &&& client_id is Some
        &&& counterparty_client_id is Some
        &&& counterparty_connection_id is Some
        &&& delay_period is Some
    } {
        Some(
            (
                ConnectionEndView {
                    state: got(state),
                    client_id: got(client_id),
                    counterparty_client_id: got(counterparty_client_id),
                    counterparty_connection_id: got(counterparty_connection_id),
                    delay_period: got(delay_period),
                },
                left(delay_period),
            ),
        )
    } else {
        None
    }
}

/// What was written in front is read first.
pub proof fn lemma_par_connection_end(x: ConnectionEndView, rest: Seq<u8>)
    requires
        connection_end_fits(x),
    ensures
        par_connection_end(enc_connection_end(x) + rest) == Some((x, rest)),
{
    let t5 = rest;
    let t4 = enc_u64(x.delay_period) + t5;
    let t3 = enc_blob(x.counterparty_connection_id) + t4;
    let t2 = enc_blob(x.counterparty_client_id) + t3;
    let t1 = enc_blob(x.client_id) + t2;
    let t0 = enc_state(x.state) + t1;
    let s1 = enc_state(x.state);
    let s2 = s1 + enc_blob(x.client_id);
    let s3 = s2 + enc_blob(x.counterparty_client_id);
    let s4 = s3 + enc_blob(x.counterparty_connection_id);
    let s5 = s4 + enc_u64(x.delay_period);
    lemma_concat_assoc(s4, enc_u64(x.delay_period), t5);
    lemma_concat_assoc(s3, enc_blob(x.counterparty_connection_id), t4);
    lemma_concat_assoc(s2, enc_blob(x.counterparty_client_id), t3);
    lemma_concat_assoc(s1, enc_blob(x.client_id), t2);
    assert(enc_connection_end(x) + rest == t0);
    lemma_par_state(x.state, t1);
    lemma_par_blob(x.client_id, t2);
    lemma_par_blob(x.counterparty_client_id, t3);
    lemma_par_blob(x.counterparty_connection_id, t4);
    lemma_par_u64(x.delay_period, t5);
}

/// What is read off the front is what stands there.
pub proof fn lemma_connection_end_front(b: Seq<u8>, x: ConnectionEndView, rest: Seq<u8>)
    requires
        par_connection_end(b) == Some((x, rest)),
    ensures
        b == enc_connection_end(x) + rest,
        connection_end_fits(x),
{
    let state = par_state(b);
    let client_id = par_blob(left(state));
    let counterparty_client_id = par_blob(left(client_id));
    let counterparty_connection_id = par_blob(left(counterparty_client_id));
    let delay_period = par_u64(left(counterparty_connection_id));
    lemma_state_front(b, x.state, left(state));
    lemma_blob_front(left(state), x.client_id, left(client_id));
    lemma_blob_front(left(client_id), x.counterparty_client_id, left(counterparty_client_id));
    lemma_blob_front(
        left(counterparty_client_id),
        x.counterparty_connection_id,
        left(counterparty_connection_id),
    );
    lemma_u64_front(left(counterparty_connection_id), x.delay_period, left(delay_period));
    let s1 = enc_state(x.state);
    let s2 = s1 + enc_blob(x.client_id);
    let s3 = s2 + enc_blob(x.counterparty_client_id);
    let s4 = s3 + enc_blob(x.counterparty_connection_id);
    let s5 = s4 + enc_u64(x.delay_period);
    lemma_concat_assoc(s4, enc_u64(x.delay_period), rest);
    lemma_concat_assoc(
        s3,
        enc_blob(x.counterparty_connection_id),
        left(counterparty_connection_id),
    );
    lemma_concat_assoc(s2, enc_blob(x.counterparty_client_id), left(counterparty_client_id));
    lemma_concat_assoc(s1, enc_blob(x.client_id), left(client_id));
}

/// Appends the bytes of a connection end.
pub fn put_connection_end(dst: &mut Vec<u8>, x: &ConnectionEnd)
    requires
        connection_end_fits(x@),
    ensures
        final(dst)@ == old(dst)@ + enc_connection_end(x@),
{
    put_state(dst, x.state);
    put_blob(dst, &x.client_id);
    put_blob(dst, &x.counterparty_client_id);
    put_blob(dst, &x.counterparty_connection_id);
    put_u64(dst, x.delay_period);
    proof {
        let s1 = enc_state(x@.state);
        let s2 = s1 + enc_blob(x@.client_id);
        let s3 = s2 + enc_blob(x@.counterparty_client_id);
        let s4 = s3 + enc_blob(x@.counterparty_connection_id);
        let s5 = s4 + enc_u64(x@.delay_period);
        lemma_concat_assoc(old(dst)@, s1, enc_blob(x@.client_id));
        lemma_concat_assoc(old(dst)@, s2, enc_blob(x@.counterparty_client_id));
        lemma_concat_assoc(old(dst)@, s3, enc_blob(x@.counterparty_connection_id));
        lemma_concat_assoc(old(dst)@, s4, enc_u64(x@.delay_period));
    }
}

/// Takes a connection end off `b` at `pos`.
pub fn take_connection_end(b: &[u8], pos: usize) -> (r: Option<(ConnectionEnd, usize)>)
    requires
        pos <= b@.len(),
    ensures
        match r {
            Some((x, next)) => pos <= next <= b@.len() && par_connection_end(
                b@.skip(pos as int),
            ) == Some(
                (x@, b@.skip(next as int)),
            ),
            None => par_connection_end(b@.skip(pos as int)) is None,
        },
{
    let (state, at1) = match take_state(b, pos) {
        Some(taken) => taken,
        None => {
            return None;
        },
    };
    let (client_id, at2) = match take_blob(b, at1) {
        Some(taken) => taken,
        None => {
            return None;
        },
    };
    let (counterparty_client_id, at3) = match take_blob(b, at2) {
        Some(taken) => taken,
        None => {
            return None;
        },
    };
    let (counterparty_connection_id, at4) = match take_blob(b, at3) {
        Some(taken) => taken,
        None => {
            return None;
        },
    };
    let (delay_period, at5) = match take_u64(b, at4) {
        Some(taken) => taken,
        None => {
            return None;
        },
    };
    Some(
        (
            ConnectionEnd {
                state,
                client_id,
                counterparty_client_id,
                counterparty_connection_id,
                delay_period,
            },
            at5,
        ),
    )
}

/// The bytes of a channel end: its fields in order.
pub open spec fn enc_channel(x: ChannelView) -> Seq<u8> {
    enc_u16(x.number)
        + enc_blob(x.port_id)
        + enc_state(x.state)
        + enc_order(x.order)
        + enc_u16(x.next_sequence_sends)
        + enc_u16(x.next_sequence_recvs)
        + enc_u16(x.next_sequence_acks)
        + enc_blob(x.counterparty_port_id)
        + enc_blob(x.counterparty_channel_id)
        + enc_blob(x.connection_id)
}

/// Whether each byte string of a channel end is short enough for its length to
/// be written in four bytes.
pub open spec fn channel_fits(x: ChannelView) -> bool {
    &&& x.port_id.len() <= u32::MAX
    &&& x.counterparty_port_id.len() <= u32::MAX
    &&& x.counterparty_channel_id.len() <= u32::MAX
    &&& x.connection_id.len() <= u32::MAX
}

/// Takes a channel end off the front of `b`.
pub open spec fn par_channel(b: Seq<u8>) -> Option<(ChannelView, Seq<u8>)> {
    let number = par_u16(b);
    let port_id = par_blob(left(number));
    let state = par_state(left(port_id));
    let order = par_order(left(state));
    let next_sequence_sends = par_u16(left(order));
    let next_sequence_recvs = par_u16(left(next_sequence_sends));
    let next_sequence_acks = par_u16(left(next_sequence_recvs));
    let counterparty_port_id = par_blob(left(next_sequence_acks));
    let counterparty_channel_id = par_blob(left(counterparty_port_id));
    let connection_id = par_blob(left(counterparty_channel_id));
    if {
        &&& number is Some
        &&& port_id is Some
        &&& state is Some
        &&& order is Some
        &&& next_sequence_sends is Some
        &&& next_sequence_recvs is Some
        &&& next_sequence_acks is Some
        &&& counterparty_port_id is Some
        &&& counterparty_channel_id is Some
        &&& connection_id is Some
    } {
        Some(
            (
                ChannelView {
                    number: got(number),
                    port_id: got(port_id),
                    state: got(state),
                    order: got(order),
                    next_sequence_sends: got(next_sequence_sends),
                    next_sequence_recvs: got(next_sequence_recvs),
                    next_sequence_acks: got(next_sequence_acks),
                    counterparty_port_id: got(counterparty_port_id),
                    counterparty_channel_id: got(counterparty_channel_id),
                    connection_id: got(connection_id),
                },
                left(connection_id),
            ),
        )
    } else {
        None
    }
}

/// What was written in front is read first.
pub proof fn lemma_par_channel(x: ChannelView, rest: Seq<u8>)
    requires
        channel_fits(x),
    ensures
        par_channel(enc_channel(x) + rest) == Some((x, rest)),
{
    let t10 = rest;
    let t9 = enc_blob(x.connection_id) + t10;
    let t8 = enc_blob(x.counterparty_channel_id) + t9;
    let t7 = enc_blob(x.counterparty_port_id) + t8;
    let t6 = enc_u16(x.next_sequence_acks) + t7;
    let t5 = enc_u16(x.next_sequence_recvs) + t6;
    let t4 = enc_u16(x.next_sequence_sends) + t5;
    let t3 = enc_order(x.order) + t4;
    let t2 = enc_state(x.state) + t3;
    let t1 = enc_blob(x.port_id) + t2;
    let t0 = enc_u16(x.number) + t1;
    let s1 = enc_u16(x.number);
    let s2 = s1 + enc_blob(x.port_id);
    let s3 = s2 + enc_state(x.state);
    let s4 = s3 + enc_order(x.order);
    let s5 = s4 + enc_u16(x.next_sequence_sends);
    let s6 = s5 + enc_u16(x.next_sequence_recvs);
    let s7 = s6 + enc_u16(x.next_sequence_acks);
    let s8 = s7 + enc_blob(x.counterparty_port_id);
    let s9 = s8 + enc_blob(x.counterparty_channel_id);
    let s10 = s9 + enc_blob(x.connection_id);
    lemma_concat_assoc(s9, enc_blob(x.connection_id), t10);
    lemma_concat_assoc(s8, enc_blob(x.counterparty_channel_id), t9);
    lemma_concat_assoc(s7, enc_blob(x.counterparty_port_id), t8);
    lemma_concat_assoc(s6, enc_u16(x.next_sequence_acks), t7);
    lemma_concat_assoc(s5, enc_u16(x.next_sequence_recvs), t6);
    lemma_concat_assoc(s4, enc_u16(x.next_sequence_sends), t5);
    lemma_concat_assoc(s3, enc_order(x.order), t4);
    lemma_concat_assoc(s2, enc_state(x.state), t3);
    lemma_concat_assoc(s1, enc_blob(x.port_id), t2);
    assert(enc_channel(x) + rest == t0);
    lemma_par_u16(x.number, t1);
    lemma_par_blob(x.port_id, t2);
    lemma_par_state(x.state, t3);
    lemma_par_order(x.order, t4);
    lemma_par_u16(x.next_sequence_sends, t5);
    lemma_par_u16(x.next_sequence_recvs, t6);
    lemma_par_u16(x.next_sequence_acks, t7);
    lemma_par_blob(x.counterparty_port_id, t8);
    lemma_par_blob(x.counterparty_channel_id, t9);
    lemma_par_blob(x.connection_id, t10);
}

/// What is read off the front is what stands there.
pub proof fn lemma_channel_front(b: Seq<u8>, x: ChannelView, rest: Seq<u8>)
    requires
        par_channel(b) == Some((x, rest)),
    ensures
        b == enc_channel(x) + rest,
        channel_fits(x),
{
    let number = par_u16(b);
    let port_id = par_blob(left(number));
    let state = par_state(left(port_id));
    let order = par_order(left(state));
    let next_sequence_sends = par_u16(left(order));
    let next_sequence_recvs = par_u16(left(next_sequence_sends));
    let next_sequence_acks = par_u16(left(next_sequence_recvs));
    let counterparty_port_id = par_blob(left(next_sequence_acks));
    let counterparty_channel_id = par_blob(left(counterparty_port_id));
    let connection_id = par_blob(left(counterparty_channel_id));
    lemma_u16_front(b, x.number, left(number));
    lemma_blob_front(left(number), x.port_id, left(port_id));
    lemma_state_front(left(port_id), x.state, left(state));
    lemma_order_front(left(state), x.order, left(order));
    lemma_u16_front(left(order), x.next_sequence_sends, left(next_sequence_sends));
    lemma_u16_front(left(next_sequence_sends), x.next_sequence_recvs, left(next_sequence_recvs));
    lemma_u16_front(left(next_sequence_recvs), x.next_sequence_acks, left(next_sequence_acks));
    lemma_blob_front(left(next_sequence_acks), x.counterparty_port_id, left(counterparty_port_id));
    lemma_blob_front(
        left(counterparty_port_id),
        x.counterparty_channel_id,
        left(counterparty_channel_id),
    );
    lemma_blob_front(left(counterparty_channel_id), x.connection_id, left(connection_id));
    let s1 = enc_u16(x.number);
    let s2 = s1 + enc_blob(x.port_id);
    let s3 = s2 + enc_state(x.state);
    let s4 = s3 + enc_order(x.order);
    let s5 = s4 + enc_u16(x.next_sequence_sends);
    let s6 = s5 + enc_u16(x.next_sequence_recvs);
    let s7 = s6 + enc_u16(x.next_sequence_acks);
    let s8 = s7 + enc_blob(x.counterparty_port_id);
    let s9 = s8 + enc_blob(x.counterparty_channel_id);
    let s10 = s9 + enc_blob(x.connection_id);
    lemma_concat_assoc(s9, enc_blob(x.connection_id), rest);
    lemma_concat_assoc(s8, enc_blob(x.counterparty_channel_id), left(counterparty_channel_id));
    lemma_concat_assoc(s7, enc_blob(x.counterparty_port_id), left(counterparty_port_id));
    lemma_concat_assoc(s6, enc_u16(x.next_sequence_acks), left(next_sequence_acks));
    lemma_concat_assoc(s5, enc_u16(x.next_sequence_recvs), left(next_sequence_recvs));
    lemma_concat_assoc(s4, enc_u16(x.next_sequence_sends), left(next_sequence_sends));
    lemma_concat_assoc(s3, enc_order(x.order), left(order));
    lemma_concat_assoc(s2, enc_state(x.state), left(state));
    lemma_concat_assoc(s1, enc_blob(x.port_id), left(port_id));
}

/// Appends the bytes of a channel end.
pub fn put_channel(dst: &mut Vec<u8>, x: &Channel)
    requires
        channel_fits(x@),
    ensures
        final(dst)@ == old(dst)@ + enc_channel(x@),
{
    put_u16(dst, x.number);
    put_blob(dst, &x.port_id);
    put_state(dst, x.state);
    put_order(dst, x.order);
    put_u16(dst, x.next_sequence_sends);
    put_u16(dst, x.next_sequence_recvs);
    put_u16(dst, x.next_sequence_acks);
    put_blob(dst, &x.counterparty_port_id);
    put_blob(dst, &x.counterparty_channel_id);
    put_blob(dst, &x.connection_id);
    proof {
        let s1 = enc_u16(x@.number);
        let s2 = s1 + enc_blob(x@.port_id);
        let s3 = s2 + enc_state(x@.state);
        let s4 = s3 + enc_order(x@.order);
        let s5 = s4 + enc_u16(x@.next_sequence_sends);
        let s6 = s5 + enc_u16(x@.next_sequence_recvs);
        let s7 = s6 + enc_u16(x@.next_sequence_acks);
        let s8 = s7 + enc_blob(x@.counterparty_port_id);
        let s9 = s8 + enc_blob(x@.counterparty_channel_id);
        let s10 = s9 + enc_blob(x@.connection_id);
        lemma_concat_assoc(old(dst)@, s1, enc_blob(x@.port_id));
        lemma_concat_assoc(old(dst)@, s2, enc_state(x@.state));
        lemma_concat_assoc(old(dst)@, s3, enc_order(x@.order));
        lemma_concat_assoc(old(dst)@, s4, enc_u16(x@.next_sequence_sends));
        lemma_concat_assoc(old(dst)@, s5, enc_u16(x@.next_sequence_recvs));
        lemma_concat_assoc(old(dst)@, s6, enc_u16(x@.next_sequence_acks));
        lemma_concat_assoc(old(dst)@, s7, enc_blob(x@.counterparty_port_id));
        lemma_concat_assoc(old(dst)@, s8, enc_blob(x@.counterparty_channel_id));
        lemma_concat_assoc(old(dst)@, s9, enc_blob(x@.connection_id));
    }
}

/// Takes a channel end off `b` at `pos`.
pub fn take_channel(b: &[u8], pos: usize) -> (r: Option<(Channel, usize)>)
    requires
        pos <= b@.len(),
    ensures
        match r {
            Some((x, next)) => pos <= next <= b@.len() && par_channel(b@.skip(pos as int)) == Some(
                (x@, b@.skip(next as int)),
            ),
            None => par_channel(b@.skip(pos as int)) is None,
        },
{
    let (number, at1) = match take_u16(b, pos) {
        Some(taken) => taken,
        None => {
            return None;
        },
    };
    let (port_id, at2) = match take_blob(b, at1) {
        Some(taken) => taken,
        None => {
            return None;
        },
    };
    let (state, at3) = match take_state(b, at2) {
        Some(taken) => taken,
        None => {
            return None;
        },
    };
    let (order, at4) = match take_order(b, at3) {
        Some(taken) => taken,
        None => {
            return None;
        },
    };
    let (next_sequence_sends, at5) = match take_u16(b, at4) {
        Some(taken) => taken,
        None => {
            return None;
        },
    };
    let (next_sequence_recvs, at6) = match take_u16(b, at5) {
        Some(taken) => taken,
        None => {
            return None;
        },
    };
    let (next_sequence_acks, at7) = match take_u16(b, at6) {
        Some(taken) => taken,
        None => {
            return None;
        },
    };
    let (counterparty_port_id, at8) = match take_blob(b, at7) {
        Some(taken) => taken,
        None => {
            return None;
        },
    };
    let (counterparty_channel_id, at9) = match take_blob(b, at8) {
        Some(taken) => taken,
        None => {
            return None;
        },
    };
    let (connection_id, at10) = match take_blob(b, at9) {
        Some(taken) => taken,
        None => {
            return None;
        },
    };
    Some(
        (
            Channel {
                number,
                port_id,
                state,
                order,
                next_sequence_sends,
                next_sequence_recvs,
                next_sequence_acks,
                counterparty_port_id,
                counterparty_channel_id,
                connection_id,
            },
            at10,
        ),
    )
}

/// The bytes of a packet: its fields in order.
pub open spec fn enc_packet(x: PacketView) -> Seq<u8> {
    enc_u16(x.sequence)
        + enc_blob(x.source_port_id)
        + enc_blob(x.source_channel_id)
        + enc_blob(x.destination_port_id)
        + enc_blob(x.destination_channel_id)
        + enc_blob(x.data)
        + enc_u64(x.timeout_height)
        + enc_u64(x.timeout_timestamp)
}

/// Whether each byte string of a packet is short enough for its length to
/// be written in four bytes.
pub open spec fn packet_fits(x: PacketView) -> bool {
    &&& x.source_port_id.len() <= u32::MAX
    &&& x.source_channel_id.len() <= u32::MAX
    &&& x.destination_port_id.len() <= u32::MAX
    &&& x.destination_channel_id.len() <= u32::MAX
    &&& x.data.len() <= u32::MAX
}

/// Takes a packet off the front of `b`.
pub open spec fn par_packet(b: Seq<u8>) -> Option<(PacketView, Seq<u8>)> {
    let sequence = par_u16(b);
    let source_port_id = par_blob(left(sequence));
    let source_channel_id = par_blob(left(source_port_id));
    let destination_port_id = par_blob(left(source_channel_id));
    let destination_channel_id = par_blob(left(destination_port_id));
    let data = par_blob(left(destination_channel_id));
    let timeout_height = par_u64(left(data));
    let timeout_timestamp = par_u64(left(timeout_height));
    if {
        &&& sequence is Some
        &&& source_port_id is Some
        &&& source_channel_id is Some
        &&& destination_port_id is Some
        &&& destination_channel_id is Some
        &&& data is Some
        &&& timeout_height is Some
        &&& timeout_timestamp is Some
    } {
        Some(
            (
                PacketView {
                    sequence: got(sequence),
                    source_port_id: got(source_port_id),
                    source_channel_id: got(source_channel_id),
                    destination_port_id: got(destination_port_id),
                    destination_channel_id: got(destination_channel_id),
                    data: got(data),
                    timeout_height: got(timeout_height),
                    timeout_timestamp: got(timeout_timestamp),
                },
                left(timeout_timestamp),
            ),
        )
    } else {
        None
    }
}

/// What was written in front is read first.
pub proof fn lemma_par_packet(x: PacketView, rest: Seq<u8>)
    requires
        packet_fits(x),
    ensures
        par_packet(enc_packet(x) + rest) == Some((x, rest)),
{
    let t8 = rest;
    let t7 = enc_u64(x.timeout_timestamp) + t8;
    let t6 = enc_u64(x.timeout_height) + t7;
    let t5 = enc_blob(x.data) + t6;
    let t4 = enc_blob(x.destination_channel_id) + t5;
    let t3 = enc_blob(x.destination_port_id) + t4;
    let t2 = enc_blob(x.source_channel_id) + t3;
    let t1 = enc_blob(x.source_port_id) + t2;
    let t0 = enc_u16(x.sequence) + t1;
    let s1 = enc_u16(x.sequence);
    let s2 = s1 + enc_blob(x.source_port_id);
    let s3 = s2 + enc_blob(x.source_channel_id);
    let s4 = s3 + enc_blob(x.destination_port_id);
    let s5 = s4 + enc_blob(x.destination_channel_id);
    let s6 = s5 + enc_blob(x.data);
    let s7 = s6 + enc_u64(x.timeout_height);
    let s8 = s7 + enc_u64(x.timeout_timestamp);
    lemma_concat_assoc(s7, enc_u64(x.timeout_timestamp), t8);
    lemma_concat_assoc(s6, enc_u64(x.timeout_height), t7);
    lemma_concat_assoc(s5, enc_blob(x.data), t6);
    lemma_concat_assoc(s4, enc_blob(x.destination_channel_id), t5);
    lemma_concat_assoc(s3, enc_blob(x.destination_port_id), t4);
    lemma_concat_assoc(s2, enc_blob(x.source_channel_id), t3);
    lemma_concat_assoc(s1, enc_blob(x.source_port_id), t2);
    assert(enc_packet(x) + rest == t0);
    lemma_par_u16(x.sequence, t1);
    lemma_par_blob(x.source_port_id, t2);
    lemma_par_blob(x.source_channel_id, t3);
    lemma_par_blob(x.destination_port_id, t4);
    lemma_par_blob(x.destination_channel_id, t5);
    lemma_par_blob(x.data, t6);
    lemma_par_u64(x.timeout_height, t7);
    lemma_par_u64(x.timeout_timestamp, t8);
}

/// What is read off the front is what stands there.
pub proof fn lemma_packet_front(b: Seq<u8>, x: PacketView, rest: Seq<u8>)
    requires
        par_packet(b) == Some((x, rest)),
    ensures
        b == enc_packet(x) + rest,
        packet_fits(x),
{
    let sequence = par_u16(b);
    let source_port_id = par_blob(left(sequence));
    let source_channel_id = par_blob(left(source_port_id));
    let destination_port_id = par_blob(left(source_channel_id));
    let destination_channel_id = par_blob(left(destination_port_id));
    let data = par_blob(left(destination_channel_id));
    let timeout_height = par_u64(left(data));
    let timeout_timestamp = par_u64(left(timeout_height));
    lemma_u16_front(b, x.sequence, left(sequence));
    lemma_blob_front(left(sequence), x.source_port_id, left(source_port_id));
    lemma_blob_front(left(source_port_id), x.source_channel_id, left(source_channel_id));
    lemma_blob_front(left(source_channel_id), x.destination_port_id, left(destination_port_id));
    lemma_blob_front(
        left(destination_port_id),
        x.destination_channel_id,
        left(destination_channel_id),
    );
    lemma_blob_front(left(destination_channel_id), x.data, left(data));
    lemma_u64_front(left(data), x.timeout_height, left(timeout_height));
    lemma_u64_front(left(timeout_height), x.timeout_timestamp, left(timeout_timestamp));
    let s1 = enc_u16(x.sequence);
    let s2 = s1 + enc_blob(x.source_port_id);
    let s3 = s2 + enc_blob(x.source_channel_id);
    let s4 = s3 + enc_blob(x.destination_port_id);
    let s5 = s4 + enc_blob(x.destination_channel_id);
    let s6 = s5 + enc_blob(x.data);
    let s7 = s6 + enc_u64(x.timeout_height);
    let s8 = s7 + enc_u64(x.timeout_timestamp);
    lemma_concat_assoc(s7, enc_u64(x.timeout_timestamp), rest);
    lemma_concat_assoc(s6, enc_u64(x.timeout_height), left(timeout_height));
    lemma_concat_assoc(s5, enc_blob(x.data), left(data));
    lemma_concat_assoc(s4, enc_blob(x.destination_channel_id), left(destination_channel_id));
    lemma_concat_assoc(s3, enc_blob(x.destination_port_id), left(destination_port_id));
    lemma_concat_assoc(s2, enc_blob(x.source_channel_id), left(source_channel_id));
    lemma_concat_assoc(s1, enc_blob(x.source_port_id), left(source_port_id));
}

/// Appends the bytes of a packet.
pub fn put_packet(dst: &mut Vec<u8>, x: &Packet)
    requires
        packet_fits(x@),
    ensures
        final(dst)@ == old(dst)@ + enc_packet(x@),
{
    put_u16(dst, x.sequence);
    put_blob(dst, &x.source_port_id);
    put_blob(dst, &x.source_channel_id);
    put_blob(dst, &x.destination_port_id);
    put_blob(dst, &x.destination_channel_id);
    put_blob(dst, &x.data);
    put_u64(dst, x.timeout_height);
    put_u64(dst, x.timeout_timestamp);
    proof {
        let s1 = enc_u16(x@.sequence);
        let s2 = s1 + enc_blob(x@.source_port_id);
        let s3 = s2 + enc_blob(x@.source_channel_id);
        let s4 = s3 + enc_blob(x@.destination_port_id);
        let s5 = s4 + enc_blob(x@.destination_channel_id);
        let s6 = s5 + enc_blob(x@.data);
        let s7 = s6 + enc_u64(x@.timeout_height);
        let s8 = s7 + enc_u64(x@.timeout_timestamp);
        lemma_concat_assoc(old(dst)@, s1, enc_blob(x@.source_port_id));
        lemma_concat_assoc(old(dst)@, s2, enc_blob(x@.source_channel_id));
        lemma_concat_assoc(old(dst)@, s3, enc_blob(x@.destination_port_id));
        lemma_concat_assoc(old(dst)@, s4, enc_blob(x@.destination_channel_id));
        lemma_concat_assoc(old(dst)@, s5, enc_blob(x@.data));
        lemma_concat_assoc(old(dst)@, s6, enc_u64(x@.timeout_height));
        lemma_concat_assoc(old(dst)@, s7, enc_u64(x@.timeout_timestamp));
    }
}

/// Takes a packet off `b` at `pos`.
pub fn take_packet(b: &[u8], pos: usize) -> (r: Option<(Packet, usize)>)
    requires
        pos <= b@.len(),
    ensures
        match r {
            Some((x, next)) => pos <= next <= b@.len() && par_packet(b@.skip(pos as int)) == Some(
                (x@, b@.skip(next as int)),
            ),
            None => par_packet(b@.skip(pos as int)) is None,
        },
{
    let (sequence, at1) = match take_u16(b, pos) {
        Some(taken) => taken,
        None => {
            return None;
        },
    };
    let (source_port_id, at2) = match take_blob(b, at1) {
        Some(taken) => taken,
        None => {
            return None;
        },
    };
    let (source_channel_id, at3) = match take_blob(b, at2) {
        Some(taken) => taken,
        None => {
            return None;
        },
    };
    let (destination_port_id, at4) = match take_blob(b, at3) {
        Some(taken) => taken,
        None => {
            return None;
        },
    };
    let (destination_channel_id, at5) = match take_blob(b, at4) {
        Some(taken) => taken,
        None => {
            return None;
        },
    };
    let (data, at6) = match take_blob(b, at5) {
        Some(taken) => taken,
        None => {
            return None;
        },
    };
    let (timeout_height, at7) = match take_u64(b, at6) {
        Some(taken) => taken,
        None => {
            return None;
        },
    };
    let (timeout_timestamp, at8) = match take_u64(b, at7) {
        Some(taken) => taken,
        None => {
            return None;
        },
    };
    Some(
        (
            Packet {
                sequence,
                source_port_id,
                source_channel_id,
                destination_port_id,
                destination_channel_id,
                data,
                timeout_height,
                timeout_timestamp,
            },
            at8,
        ),
    )
}

/// The bytes of a packet record: the packet, the acknowledging transaction
/// if any, and the status.
pub open spec fn enc_packet_record(x: PacketRecordView) -> Seq<u8> {
    enc_packet(x.packet) + enc_opt_hash(x.tx_hash) + enc_status(x.status)
}

/// Whether the parts of a packet record can be written: its byte strings are
/// short enough, and its hash, where it has one, has 32 bytes.
pub open spec fn packet_record_fits(x: PacketRecordView) -> bool {
    &&& packet_fits(x.packet)
    &&& x.tx_hash matches Some(h) ==> h.len() == 32
}

/// Takes a packet record off the front of `b`.
pub open spec fn par_packet_record(b: Seq<u8>) -> Option<(PacketRecordView, Seq<u8>)> {
    let packet = par_packet(b);
    let tx_hash = par_opt_hash(left(packet));
    let status = par_status(left(tx_hash));
    if packet is Some && tx_hash is Some && status is Some {
        Some(
            (
                PacketRecordView {
                    packet: got(packet),
                    tx_hash: got(tx_hash),
                    status: got(status),
                },
                left(status),
            ),
        )
    } else {
        None
    }
}

/// What was written in front is read first.
pub proof fn lemma_par_packet_record(x: PacketRecordView, rest: Seq<u8>)
    requires
        packet_record_fits(x),
    ensures
        par_packet_record(enc_packet_record(x) + rest) == Some((x, rest)),
{
    let t2 = enc_status(x.status) + rest;
    let t1 = enc_opt_hash(x.tx_hash) + t2;
    lemma_concat_assoc(enc_packet(x.packet) + enc_opt_hash(x.tx_hash), enc_status(x.status), rest);
    lemma_concat_assoc(enc_packet(x.packet), enc_opt_hash(x.tx_hash), t2);
    lemma_par_packet(x.packet, t1);
    lemma_par_opt_hash(x.tx_hash, t2);
    lemma_par_status(x.status, rest);
}

/// What is read off the front is what stands there.
pub proof fn lemma_packet_record_front(b: Seq<u8>, x: PacketRecordView, rest: Seq<u8>)
    requires
        par_packet_record(b) == Some((x, rest)),
    ensures
        b == enc_packet_record(x) + rest,
        packet_record_fits(x),
{
    let packet = par_packet(b);
    let tx_hash = par_opt_hash(left(packet));
    let status = par_status(left(tx_hash));
    lemma_packet_front(b, x.packet, left(packet));
    lemma_opt_hash_front(left(packet), x.tx_hash, left(tx_hash));
    lemma_status_front(left(tx_hash), x.status, rest);
    lemma_concat_assoc(enc_packet(x.packet) + enc_opt_hash(x.tx_hash), enc_status(x.status), rest);
    lemma_concat_assoc(enc_packet(x.packet), enc_opt_hash(x.tx_hash), left(tx_hash));
}

/// The bytes of a list of connection ends: one after the other.
pub open spec fn enc_connection_ends(ends: Seq<ConnectionEndView>) -> Seq<u8>
    decreases ends.len(),
{
    if ends.len() == 0 {
        Seq::empty()
    } else {
        enc_connection_end(ends[0]) + enc_connection_ends(ends.skip(1))
    }
}

/// Whether each of the connection ends can be written.
pub open spec fn connection_ends_fit(ends: Seq<ConnectionEndView>) -> bool {
    forall|i: int| 0 <= i < ends.len() ==> connection_end_fits(#[trigger] ends[i])
}

/// What reading on gives, with what was read before put in front.
pub open spec fn with_front(
    front: Seq<ConnectionEndView>,
    more: Option<(Seq<ConnectionEndView>, Seq<u8>)>,
) -> Option<(Seq<ConnectionEndView>, Seq<u8>)> {
    match more {
        Some((ends, rest)) => Some((front + ends, rest)),
        None => None,
    }
}

/// Takes `count` connection ends off the front of `b`.
pub open spec fn par_connection_ends(b: Seq<u8>, count: nat) -> Option<
    (Seq<ConnectionEndView>, Seq<u8>),
>
    decreases count,
{
    if count == 0 {
        Some((Seq::empty(), b))
    } else {
        let first = par_connection_end(b);
        if first is Some {
            with_front(seq![got(first)], par_connection_ends(left(first), (count - 1) as nat))
        } else {
            None
        }
    }
}

/// What was written in front is read first.
pub proof fn lemma_par_connection_ends(ends: Seq<ConnectionEndView>, rest: Seq<u8>)
    requires
        connection_ends_fit(ends),
    ensures
        par_connection_ends(enc_connection_ends(ends) + rest, ends.len()) == Some((ends, rest)),
    decreases ends.len(),
{
    if ends.len() == 0 {
        assert(enc_connection_ends(ends) + rest =~= rest);
        assert(ends =~= Seq::empty());
    } else {
        let tail = ends.skip(1);
        let t1 = enc_connection_ends(tail) + rest;
        lemma_concat_assoc(enc_connection_end(ends[0]), enc_connection_ends(tail), rest);
        lemma_par_connection_end(ends[0], t1);
        assert forall|i: int| 0 <= i < tail.len() implies connection_end_fits(
            #[trigger] tail[i],
        ) by {
            assert(tail[i] == ends[i + 1]);
        }
        lemma_par_connection_ends(tail, rest);
        assert(seq![ends[0]] + tail =~= ends);
    }
}

/// What is read off the front is what stands there.
pub proof fn lemma_connection_ends_front(
    b: Seq<u8>,
    count: nat,
    ends: Seq<ConnectionEndView>,
    rest: Seq<u8>,
)
    requires
        par_connection_ends(b, count) == Some((ends, rest)),
    ensures
        b == enc_connection_ends(ends) + rest,
        ends.len() == count,
        connection_ends_fit(ends),
    decreases count,
{
    if count == 0 {
        assert(b =~= enc_connection_ends(ends) + rest);
    } else {
        let first = par_connection_end(b);
        let more = par_connection_ends(left(first), (count - 1) as nat);
        lemma_connection_end_front(b, got(first), left(first));
        lemma_connection_ends_front(left(first), (count - 1) as nat, got(more), rest);
        assert(ends == seq![got(first)] + got(more));
        assert(ends.skip(1) =~= got(more));
        lemma_concat_assoc(enc_connection_end(ends[0]), enc_connection_ends(got(more)), rest);
        assert forall|i: int| 0 <= i < ends.len() implies connection_end_fits(
            #[trigger] ends[i],
        ) by {
            if i > 0 {
                assert(ends[i] == got(more)[i - 1]);
            }
        }
    }
}

/// The bytes of the connections of a client: the number of the next channel,
/// the count of connection ends, and the connection ends.
pub open spec fn enc_connection_set(x: ConnectionSetView) -> Seq<u8> {
    enc_u16(x.next_channel_number) + enc_u32(x.connections.len() as u32) + enc_connection_ends(
        x.connections,
    )
}

/// Whether the connections of a client can be written: their count fits in
/// four bytes, and so does each length in them.
pub open spec fn connection_set_fits(x: ConnectionSetView) -> bool {
    &&& x.connections.len() <= u32::MAX
    &&& connection_ends_fit(x.connections)
}

/// Takes the connections of a client off the front of `b`.
pub open spec fn par_connection_set(b: Seq<u8>) -> Option<(ConnectionSetView, Seq<u8>)> {
    let next_channel_number = par_u16(b);
    let count = par_u32(left(next_channel_number));
    let connections = par_connection_ends(left(count), got(count) as nat);
    if next_channel_number is Some && count is Some && connections is Some {
        Some(
            (
                ConnectionSetView {
                    next_channel_number: got(next_channel_number),
                    connections: got(connections),
                },
                left(connections),
            ),
        )
    } else {
        None
    }
}

/// What was written in front is read first.
pub proof fn lemma_par_connection_set(x: ConnectionSetView, rest: Seq<u8>)
    requires
        connection_set_fits(x),
    ensures
        par_connection_set(enc_connection_set(x) + rest) == Some((x, rest)),
{
    let count = x.connections.len() as u32;
    let t2 = enc_connection_ends(x.connections) + rest;
    let t1 = enc_u32(count) + t2;
    lemma_concat_assoc(
        enc_u16(x.next_channel_number) + enc_u32(count),
        enc_connection_ends(x.connections),
        rest,
    );
    lemma_concat_assoc(enc_u16(x.next_channel_number), enc_u32(count), t2);
    lemma_par_u16(x.next_channel_number, t1);
    lemma_par_u32(count, t2);
    lemma_par_connection_ends(x.connections, rest);
}

/// What is read off the front is what stands there.
pub proof fn lemma_connection_set_front(b: Seq<u8>, x: ConnectionSetView, rest: Seq<u8>)
    requires
        par_connection_set(b) == Some((x, rest)),
    ensures
        b == enc_connection_set(x) + rest,
        connection_set_fits(x),
{
    let next_channel_number = par_u16(b);
    let count = par_u32(left(next_channel_number));
    lemma_u16_front(b, x.next_channel_number, left(next_channel_number));
    lemma_u32_front(left(next_channel_number), got(count), left(count));
    lemma_connection_ends_front(left(count), got(count) as nat, x.connections, rest);
    lemma_concat_assoc(
        enc_u16(x.next_channel_number) + enc_u32(got(count)),
        enc_connection_ends(x.connections),
        rest,
    );
    lemma_concat_assoc(enc_u16(x.next_channel_number), enc_u32(got(count)), left(count));
}

/// Appends the bytes of a packet record.
pub fn put_packet_record(dst: &mut Vec<u8>, x: &PacketRecord)
    requires
        packet_record_fits(x@),
    ensures
        final(dst)@ == old(dst)@ + enc_packet_record(x@),
{
    put_packet(dst, &x.packet);
    put_opt_hash(dst, &x.tx_hash);
    put_status(dst, x.status);
    proof {
        let head = enc_packet(x@.packet);
        lemma_concat_assoc(old(dst)@, head, enc_opt_hash(x@.tx_hash));
        lemma_concat_assoc(old(dst)@, head + enc_opt_hash(x@.tx_hash), enc_status(x@.status));
    }
}

/// Takes a packet record off `b` at `pos`.
pub fn take_packet_record(b: &[u8], pos: usize) -> (r: Option<(PacketRecord, usize)>)
    requires
        pos <= b@.len(),
    ensures
        match r {
            Some((x, next)) => pos <= next <= b@.len() && par_packet_record(b@.skip(pos as int))
                == Some((x@, b@.skip(next as int))),
            None => par_packet_record(b@.skip(pos as int)) is None,
        },
{
    let (packet, at1) = match take_packet(b, pos) {
        Some(taken) => taken,
        None => {
            return None;
        },
    };
    let (tx_hash, at2) = match take_opt_hash(b, at1) {
        Some(taken) => taken,
        None => {
            return None;
        },
    };
    let (status, at3) = match take_status(b, at2) {
        Some(taken) => taken,
        None => {
            return None;
        },
    };
    Some((PacketRecord { packet, tx_hash, status }, at3))
}

/// Appends the bytes of the connections of a client.
pub fn put_connection_set(dst: &mut Vec<u8>, x: &ConnectionSet)
    requires
        connection_set_fits(x@),
    ensures
        final(dst)@ == old(dst)@ + enc_connection_set(x@),
{
    let ghost ends = x@.connections;
    put_u16(dst, x.next_channel_number);
    put_u32(dst, x.connections.len() as u32);
    let ghost head = dst@;
    assert(ends.skip(0) =~= ends);
    let mut i: usize = 0;
    while i < x.connections.len()
        invariant
            i <= x.connections.len(),
            ends == connection_ends_view(x.connections@),
            connection_ends_fit(ends),
            dst@ + enc_connection_ends(ends.skip(i as int)) == head + enc_connection_ends(ends),
        decreases x.connections.len() - i,
    {
        let ghost before = dst@;
        assert(ends[i as int] == x.connections@[i as int]@);
        assert(ends.skip(i as int).skip(1) =~= ends.skip(i + 1));
        assert(ends.skip(i as int)[0] == ends[i as int]);
        put_connection_end(dst, &x.connections[i]);
        assert(dst@ + enc_connection_ends(ends.skip(i + 1)) =~= before + enc_connection_ends(
            ends.skip(i as int),
        ));
        i = i + 1;
    }
    assert(ends.skip(i as int) =~= Seq::empty());
    assert(dst@ =~= old(dst)@ + enc_connection_set(x@));
}

/// Takes the connections of a client off `b` at `pos`.
#[verifier::loop_isolation(false)]
pub fn take_connection_set(b: &[u8], pos: usize) -> (r: Option<(ConnectionSet, usize)>)
    requires
        pos <= b@.len(),
    ensures
        match r {
            Some((x, next)) => pos <= next <= b@.len() && par_connection_set(b@.skip(pos as int))
                == Some((x@, b@.skip(next as int))),
            None => par_connection_set(b@.skip(pos as int)) is None,
        },
{
    let (next_channel_number, at1) = match take_u16(b, pos) {
        Some(taken) => taken,
        None => {
            return None;
        },
    };
    let (count, at2) = match take_u32(b, at1) {
        Some(taken) => taken,
        None => {
            return None;
        },
    };
    let mut connections: Vec<ConnectionEnd> = Vec::new();
    let mut p: usize = at2;
    let mut i: u32 = 0;
    while i < count
        invariant
            i <= count,
            at2 <= p <= b@.len(),
            connections@.len() == i,
            par_connection_ends(b@.skip(at2 as int), count as nat) == with_front(
                connection_ends_view(connections@),
                par_connection_ends(b@.skip(p as int), (count - i) as nat),
            ),
        decreases count - i,
    {
        let ghost front = connection_ends_view(connections@);
        let (end, next) = match take_connection_end(b, p) {
            Some(taken) => taken,
            None => {
                return None;
            },
        };
        connections.push(end);
        proof {
            let more = par_connection_ends(b@.skip(next as int), (count - i - 1) as nat);
            assert(connection_ends_view(connections@) =~= front + seq![end@]);
            match more {
                Some((ends, rest)) => {
                    assert((front + seq![end@]) + ends =~= front + (seq![end@] + ends));
                },
                None => {},
            }
        }
        p = next;
        i = i + 1;
    }
    proof {
        assert(connection_ends_view(connections@) + Seq::<ConnectionEndView>::empty()
            =~= connection_ends_view(connections@));
    }
    Some((ConnectionSet { next_channel_number, connections }, p))
}

/// Why bytes are not the record asked for.
#[derive(Clone, Copy, Debug, PartialEq, Eq, Structural)]
pub enum CodecError {
    /// The bytes end before the record does, or hold a tag that stands for
    /// nothing.
    Malformed,
    /// The bytes hold the record and `extra` bytes more.
    TrailingBytes { extra: usize },
}

/// What decoding makes of what reading off the front gave: the record where
/// nothing is left behind it.
pub open spec fn whole<T>(taken: Option<(T, Seq<u8>)>) -> Result<T, CodecError> {
    match taken {
        Some((x, rest)) => if rest.len() == 0 {
            Ok(x)
        } else {
            Err(CodecError::TrailingBytes { extra: rest.len() as usize })
        },
        None => Err(CodecError::Malformed),
    }
}

/// What decoding bytes as the connections of a client gives.
pub open spec fn decoded_connection_set(b: Seq<u8>) -> Result<ConnectionSetView, CodecError> {
    whole(par_connection_set(b))
}

/// What decoding bytes as a channel end gives.
pub open spec fn decoded_channel(b: Seq<u8>) -> Result<ChannelView, CodecError> {
    whole(par_channel(b))
}

/// What decoding bytes as a packet record gives.
pub open spec fn decoded_packet_record(b: Seq<u8>) -> Result<PacketRecordView, CodecError> {
    whole(par_packet_record(b))
}

impl ConnectionSet {
    /// Encodes the connections of a client.
    pub fn encode(&self) -> (r: Vec<u8>)
        requires
            connection_set_fits(self@),
        ensures
            r@ == enc_connection_set(self@),
    {
        let mut r: Vec<u8> = Vec::new();
        put_connection_set(&mut r, self);
        assert(r@ =~= enc_connection_set(self@));
        r
    }

    /// Decodes the connections of a client from bytes that hold them and
    /// nothing more.
    pub fn decode(bytes: &[u8]) -> (r: Result<ConnectionSet, CodecError>)
        ensures
            match r {
                Ok(x) => decoded_connection_set(bytes@) == Ok::<ConnectionSetView, CodecError>(x@),
                Err(e) => decoded_connection_set(bytes@) == Err::<ConnectionSetView, CodecError>(
                    e,
                ),
            },
    {
        assert(bytes@.skip(0) =~= bytes@);
        match take_connection_set(bytes, 0) {
            Some((x, next)) => if next == bytes.len() {
                Ok(x)
            } else {
                Err(CodecError::TrailingBytes { extra: bytes.len() - next })
            },
            None => Err(CodecError::Malformed),
        }
    }
}

impl Channel {
    /// Encodes the channel end.
    pub fn encode(&self) -> (r: Vec<u8>)
        requires
            channel_fits(self@),
        ensures
            r@ == enc_channel(self@),
    {
        let mut r: Vec<u8> = Vec::new();
        put_channel(&mut r, self);
        assert(r@ =~= enc_channel(self@));
        r
    }

    /// Decodes a channel end from bytes that hold it and nothing more.
    pub fn decode(bytes: &[u8]) -> (r: Result<Channel, CodecError>)
        ensures
            match r {
                Ok(x) => decoded_channel(bytes@) == Ok::<ChannelView, CodecError>(x@),
                Err(e) => decoded_channel(bytes@) == Err::<ChannelView, CodecError>(e),
            },
    {
        assert(bytes@.skip(0) =~= bytes@);
        match take_channel(bytes, 0) {
            Some((x, next)) => if next == bytes.len() {
                Ok(x)
            } else {
                Err(CodecError::TrailingBytes { extra: bytes.len() - next })
            },
            None => Err(CodecError::Malformed),
        }
    }
}

impl PacketRecord {
    /// Encodes the packet record.
    pub fn encode(&self) -> (r: Vec<u8>)
        requires
            packet_record_fits(self@),
        ensures
            r@ == enc_packet_record(self@),
    {
        let mut r: Vec<u8> = Vec::new();
        put_packet_record(&mut r, self);
        assert(r@ =~= enc_packet_record(self@));
        r
    }

    /// Decodes a packet record from bytes that hold it and nothing more.
    pub fn decode(bytes: &[u8]) -> (r: Result<PacketRecord, CodecError>)
        ensures
            match r {
                Ok(x) => decoded_packet_record(bytes@) == Ok::<PacketRecordView, CodecError>(x@),
                Err(e) => decoded_packet_record(bytes@) == Err::<PacketRecordView, CodecError>(e),
            },
    {
        assert(bytes@.skip(0) =~= bytes@);
        match take_packet_record(bytes, 0) {
            Some((x, next)) => if next == bytes.len() {
                Ok(x)
            } else {
                Err(CodecError::TrailingBytes { extra: bytes.len() - next })
            },
            None => Err(CodecError::Malformed),
        }
    }
}

/// Decoding the encoding of the connections of a client gives them back, and
/// bytes that decode are the encoding of what they decode to.
pub proof fn lemma_connection_set_round_trip(x: ConnectionSetView, b: Seq<u8>)
    ensures
        connection_set_fits(x) ==> decoded_connection_set(enc_connection_set(x)) == Ok::<
            ConnectionSetView,
            CodecError,
        >(x),
        decoded_connection_set(b) == Ok::<ConnectionSetView, CodecError>(x) ==> b
            == enc_connection_set(x) && connection_set_fits(x),
{
    if connection_set_fits(x) {
        lemma_par_connection_set(x, Seq::empty());
        assert(enc_connection_set(x) + Seq::<u8>::empty() =~= enc_connection_set(x));
    }
    if decoded_connection_set(b) == Ok::<ConnectionSetView, CodecError>(x) {
        let rest = left(par_connection_set(b));
        lemma_connection_set_front(b, x, rest);
        assert(enc_connection_set(x) + rest =~= enc_connection_set(x));
    }
}

/// Decoding the encoding of a channel end gives it back, and bytes that
/// decode are the encoding of what they decode to.
pub proof fn lemma_channel_round_trip(x: ChannelView, b: Seq<u8>)
    ensures
        channel_fits(x) ==> decoded_channel(enc_channel(x)) == Ok::<ChannelView, CodecError>(x),
        decoded_channel(b) == Ok::<ChannelView, CodecError>(x) ==> b == enc_channel(x)
            && channel_fits(x),
{
    if channel_fits(x) {
        lemma_par_channel(x, Seq::empty());
        assert(enc_channel(x) + Seq::<u8>::empty() =~= enc_channel(x));
    }
    if decoded_channel(b) == Ok::<ChannelView, CodecError>(x) {
        let rest = left(par_channel(b));
        lemma_channel_front(b, x, rest);
        assert(enc_channel(x) + rest =~= enc_channel(x));
    }
}

/// Decoding the encoding of a packet record gives it back, and bytes that
/// decode are the encoding of what they decode to.
pub proof fn lemma_packet_record_round_trip(x: PacketRecordView, b: Seq<u8>)
    ensures
        packet_record_fits(x) ==> decoded_packet_record(enc_packet_record(x)) == Ok::<
            PacketRecordView,
            CodecError,
        >(x),
        decoded_packet_record(b) == Ok::<PacketRecordView, CodecError>(x) ==> b
            == enc_packet_record(x) && packet_record_fits(x),
{
    if packet_record_fits(x) {
        lemma_par_packet_record(x, Seq::empty());
        assert(enc_packet_record(x) + Seq::<u8>::empty() =~= enc_packet_record(x));
    }
    if decoded_packet_record(b) == Ok::<PacketRecordView, CodecError>(x) {
        let rest = left(par_packet_record(b));
        lemma_packet_record_front(b, x, rest);
        assert(enc_packet_record(x) + rest =~= enc_packet_record(x));
    }
}

} // verus!
