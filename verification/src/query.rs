//! What an endpoint answers, decided from what it has read off the ledger.
//!
//! Reading is the caller's business. The functions here take what was read
//! and say what the answer is, or which search to make next.

use crate::bytes::{append_bytes, le16, push_le16, same_bytes};
use crate::cache::{PacketKey, StateCache};
use crate::cell::{live_cells_view, CellInput, LiveCell, LiveCellView};
use crate::ibc::{ConnectionEnd, PacketRecord, PacketRecordView, PacketStatus};
use vstd::prelude::*;

verus! {

/// The network that a node serves.
#[derive(Clone, Copy, Debug, PartialEq, Eq, Structural)]
pub enum NetworkType {
    Mainnet,
    Testnet,
    Dev,
}

/// The name by which a node of the main network calls its chain.
pub open spec fn mainnet_name() -> Seq<u8> {
    seq![0x63u8, 0x6bu8, 0x62u8]
}

/// The name by which a node of the test network calls its chain.
pub open spec fn testnet_name() -> Seq<u8> {
    seq![
        0x63u8, 0x6bu8, 0x62u8, 0x5fu8, 0x74u8, 0x65u8, 0x73u8, 0x74u8, 0x6eu8, 0x65u8, 0x74u8,
    ]
}

/// The network of the chain with the given name.
pub open spec fn network_of(chain: Seq<u8>) -> NetworkType {
    if chain == mainnet_name() {
        NetworkType::Mainnet
    } else if chain == testnet_name() {
        NetworkType::Testnet
    } else {
        NetworkType::Dev
    }
}

/// Tells the network from the name by which a node calls its chain: `ckb` is
/// the main network, `ckb_testnet` the test network, and anything else a
/// development chain.
pub fn network_of_chain(chain: &[u8]) -> (n: NetworkType)
    ensures
        n == network_of(chain@),
{
    let mainnet: [u8; 3] = [0x63, 0x6b, 0x62];
    let testnet: [u8; 11] = [0x63, 0x6b, 0x62, 0x5f, 0x74, 0x65, 0x73, 0x74, 0x6e, 0x65, 0x74];
    assert(mainnet@ =~= mainnet_name());
    assert(testnet@ =~= testnet_name());
    if same_bytes(chain, mainnet.as_slice()) {
        NetworkType::Mainnet
    } else if same_bytes(chain, testnet.as_slice()) {
        NetworkType::Testnet
    } else {
        NetworkType::Dev
    }
}

/// The variant of a channel's cell that is searched for.
#[derive(Clone, Copy, Debug, PartialEq, Eq, Structural)]
pub enum ChannelLookup {
    /// The cell of a channel whose handshake is under way.
    NotOpen,
    /// The cell of a channel that is open.
    Open,
}

/// What to do next in the search for a channel.
#[derive(Debug, PartialEq, Eq)]
pub enum LookupStep<T, E> {
    /// Search for this variant of the cell.
    Search(ChannelLookup),
    /// The search is over, with this result.
    Done(Result<T, E>),
}

impl ChannelLookup {
    /// The variant that the search for a channel starts with.
    pub fn start() -> (first: ChannelLookup)
        ensures
            first == ChannelLookup::NotOpen,
    {
        ChannelLookup::NotOpen
    }

    /// The open flag in the key of the cell of this variant.
    pub fn is_open(self) -> (open: bool)
        ensures
            open == (self == ChannelLookup::Open),
    {
        match self {
            ChannelLookup::NotOpen => false,
            ChannelLookup::Open => true,
        }
    }
}

/// The step that follows the search for the variant `tried` with the given
/// outcome: a channel that was found ends the search; a failed search for
/// the variant that is not open is followed by one for the open variant; a
/// failed search for the open variant ends the search with its error.
pub open spec fn lookup_step<T, E>(tried: ChannelLookup, outcome: Result<T, E>) -> LookupStep<
    T,
    E,
> {
    match (tried, outcome) {
        (_, Ok(found)) => LookupStep::Done(Ok(found)),
        (ChannelLookup::NotOpen, Err(_)) => LookupStep::Search(ChannelLookup::Open),
        (ChannelLookup::Open, Err(e)) => LookupStep::Done(Err(e)),
    }
}

/// Decides how the search for a channel goes on after the variant `tried`
/// was searched for with the given outcome.
pub fn channel_lookup_next<T, E>(tried: ChannelLookup, outcome: Result<T, E>) -> (step: LookupStep<
    T,
    E,
>)
    ensures
        step == lookup_step(tried, outcome),
{
    match outcome {
        Ok(found) => LookupStep::Done(Ok(found)),
        Err(e) => match tried {
            ChannelLookup::NotOpen => LookupStep::Search(ChannelLookup::Open),
            ChannelLookup::Open => LookupStep::Done(Err(e)),
        },
    }
}

/// The search for a channel makes two searches at most: whatever the first
/// one gives, either it ends the search or it is followed by the search for
/// the open variant, which ends it whatever it gives.
pub proof fn lemma_lookup_ends<T, E>(first: Result<T, E>, second: Result<T, E>)
    ensures
        lookup_step(ChannelLookup::NotOpen, first) is Done || (lookup_step(
            ChannelLookup::NotOpen,
            first,
        ) == LookupStep::<T, E>::Search(ChannelLookup::Open) && lookup_step(
            ChannelLookup::Open,
            second,
        ) == LookupStep::Done(second)),
        first is Ok ==> lookup_step(ChannelLookup::NotOpen, first) == LookupStep::Done(first),
{
}

/// Why a query has no answer.
#[derive(Clone, Copy, Debug, PartialEq, Eq, Structural)]
pub enum QueryError {
    /// A search found no cell.
    NoCell,
    /// The port of a packet is not a key of 32 bytes.
    PortIdLength { len: usize },
    /// An acknowledged packet does not name the transaction that
    /// acknowledged it.
    MissingTxHash,
    /// No connection has this number.
    ConnectionIdInvalid { index: usize },
    /// The tip of the chain has the number zero, which no height has.
    ZeroHeight,
    /// The time of the tip, in nanoseconds, does not fit in 64 bits.
    TimestampOverflow,
    /// The capacities of the cells do not add up in 64 bits.
    BalanceOverflow,
}

/// The path under which a packet is committed: the number of its channel,
/// its port and its sequence number.
pub open spec fn packet_path(channel_id: u16, port: Seq<u8>, sequence: u16) -> Seq<u8> {
    le16(channel_id as nat) + port + le16(sequence as nat)
}

/// What a query for a packet in the status `wanted` answers: nothing where
/// the packet is in another status, else the packet's path.
pub open spec fn path_answer(
    record: PacketRecordView,
    channel_id: u16,
    wanted: PacketStatus,
) -> Result<Seq<u8>, QueryError> {
    if record.status != wanted {
        Ok(Seq::empty())
    } else if record.packet.source_port_id.len() != 32 {
        Err(QueryError::PortIdLength { len: record.packet.source_port_id.len() as usize })
    } else {
        Ok(packet_path(channel_id, record.packet.source_port_id, record.packet.sequence))
    }
}

/// Answers a query for a packet in the status `wanted`.
fn answer_path(record: &PacketRecord, channel_id: u16, wanted: PacketStatus) -> (r: Result<
    Vec<u8>,
    QueryError,
>)
    ensures
        match r {
            Ok(bytes) => path_answer(record@, channel_id, wanted) == Ok::<Seq<u8>, QueryError>(
                bytes@,
            ),
            Err(e) => path_answer(record@, channel_id, wanted) == Err::<Seq<u8>, QueryError>(e),
        },
{
    if record.status != wanted {
        return Ok(Vec::new());
    }
    if record.packet.source_port_id.len() != 32 {
        return Err(QueryError::PortIdLength { len: record.packet.source_port_id.len() });
    }
    let mut path: Vec<u8> = Vec::new();
    push_le16(&mut path, channel_id);
    append_bytes(&mut path, record.packet.source_port_id.as_slice());
    push_le16(&mut path, record.packet.sequence);
    assert(path@ =~= packet_path(
        channel_id,
        record@.packet.source_port_id,
        record@.packet.sequence,
    ));
    Ok(path)
}

/// Answers a query for the commitment of a packet: the packet's path where
/// the packet has been sent and not yet received, nothing where it is in any
/// other status.
pub fn query_packet_commitment(record: &PacketRecord, channel_id: u16) -> (r: Result<
    Vec<u8>,
    QueryError,
>)
    ensures
        match r {
            Ok(bytes) => path_answer(record@, channel_id, PacketStatus::Send) == Ok::<
                Seq<u8>,
                QueryError,
            >(bytes@),
            Err(e) => path_answer(record@, channel_id, PacketStatus::Send) == Err::<
                Seq<u8>,
                QueryError,
            >(e),
        },
{
    answer_path(record, channel_id, PacketStatus::Send)
}

/// Answers a query for the receipt of a packet: the packet's path where the
/// packet has been received, nothing where it is in any other status.
pub fn query_packet_receipt(record: &PacketRecord, channel_id: u16) -> (r: Result<
    Vec<u8>,
    QueryError,
>)
    ensures
        match r {
            Ok(bytes) => path_answer(record@, channel_id, PacketStatus::Recv) == Ok::<
                Seq<u8>,
                QueryError,
            >(bytes@),
            Err(e) => path_answer(record@, channel_id, PacketStatus::Recv) == Err::<
                Seq<u8>,
                QueryError,
            >(e),
        },
{
    answer_path(record, channel_id, PacketStatus::Recv)
}

/// What a query for the acknowledgement of a packet answers: nothing where
/// the packet has not been acknowledged, else the hash of the transaction
/// that acknowledged it.
pub open spec fn acknowledgement_answer(record: PacketRecordView) -> Result<Seq<u8>, QueryError> {
    if record.status != PacketStatus::InboxAck {
        Ok(Seq::empty())
    } else {
        match record.tx_hash {
            Some(hash) => Ok(hash),
            None => Err(QueryError::MissingTxHash),
        }
    }
}

/// Answers a query for the acknowledgement of a packet.
pub fn query_packet_acknowledgement(record: &PacketRecord) -> (r: Result<Vec<u8>, QueryError>)
    ensures
        match r {
            Ok(bytes) => acknowledgement_answer(record@) == Ok::<Seq<u8>, QueryError>(bytes@),
            Err(e) => acknowledgement_answer(record@) == Err::<Seq<u8>, QueryError>(e),
        },
{
    if record.status != PacketStatus::InboxAck {
        return Ok(Vec::new());
    }
    match &record.tx_hash {
        Some(hash) => {
            let mut bytes: Vec<u8> = Vec::new();
            append_bytes(&mut bytes, hash.as_slice());
            Ok(bytes)
        },
        None => Err(QueryError::MissingTxHash),
    }
}

/// A packet that a search found, with the input that consumes its cell.
#[derive(Clone, Debug, PartialEq, Eq)]
pub struct FoundPacket {
    pub record: PacketRecord,
    pub input: CellInput,
}

/// The sequence numbers of those of `found` that are in the status `wanted`,
/// in order.
pub open spec fn sequences_in(found: Seq<FoundPacket>, wanted: PacketStatus) -> Seq<u64>
    decreases found.len(),
{
    if found.len() == 0 {
        Seq::empty()
    } else if found.last().record.status == wanted {
        sequences_in(found.drop_last(), wanted).push(found.last().record.packet.sequence as u64)
    } else {
        sequences_in(found.drop_last(), wanted)
    }
}

/// What is remembered of the packet cells after those of `found` that are in
/// the status `wanted` have been remembered, each under its channel, port
/// and sequence number.
pub open spec fn remembered_in(
    before: Map<PacketKey, CellInput>,
    channel_id: u16,
    port_id: [u8; 32],
    found: Seq<FoundPacket>,
    wanted: PacketStatus,
) -> Map<PacketKey, CellInput>
    decreases found.len(),
{
    if found.len() == 0 {
        before
    } else if found.last().record.status == wanted {
        remembered_in(before, channel_id, port_id, found.drop_last(), wanted).insert(
            PacketKey {
                channel_id,
                port_id,
                sequence: found.last().record.packet.sequence as u64,
            },
            found.last().input,
        )
    } else {
        remembered_in(before, channel_id, port_id, found.drop_last(), wanted)
    }
}

/// Answers a query for the acknowledged packets among those found: the
/// sequence numbers of the packets whose acknowledgement has come in.
pub fn query_packet_acknowledgements(found: &Vec<FoundPacket>) -> (sequences: Vec<u64>)
    ensures
        sequences@ == sequences_in(found@, PacketStatus::InboxAck),
{
    let mut sequences: Vec<u64> = Vec::new();
    let mut i: usize = 0;
    while i < found.len()
        invariant
            i <= found.len(),
            sequences@ == sequences_in(found@.subrange(0, i as int), PacketStatus::InboxAck),
        decreases found.len() - i,
    {
        assert(found@.subrange(0, i + 1).drop_last() =~= found@.subrange(0, i as int));
        if found[i].record.status == PacketStatus::InboxAck {
            sequences.push(found[i].record.packet.sequence as u64);
        }
        i = i + 1;
    }
    assert(found@.subrange(0, i as int) =~= found@);
    sequences
}

/// Answers a query for the packets among those found whose acknowledgement
/// the counterparty has not received: the sequence numbers of the packets
/// that are still in the status of having been sent. The input of the cell
/// of each of them is remembered for the message that will acknowledge it.
pub fn query_unreceived_acknowledgements(
    cache: &mut StateCache,
    channel_id: u16,
    port_id: &[u8; 32],
    found: &Vec<FoundPacket>,
) -> (sequences: Vec<u64>)
    ensures
        sequences@ == sequences_in(found@, PacketStatus::Send),
        final(cache).packets@ == remembered_in(
            old(cache).packets@,
            channel_id,
            *port_id,
            found@,
            PacketStatus::Send,
        ),
        final(cache).connection == old(cache).connection,
        final(cache).channels@ == old(cache).channels@,
{
    let mut sequences: Vec<u64> = Vec::new();
    let mut i: usize = 0;
    while i < found.len()
        invariant
            i <= found.len(),
            sequences@ == sequences_in(found@.subrange(0, i as int), PacketStatus::Send),
            cache.packets@ == remembered_in(
                old(cache).packets@,
                channel_id,
                *port_id,
                found@.subrange(0, i as int),
                PacketStatus::Send,
            ),
            cache.connection == old(cache).connection,
            cache.channels@ == old(cache).channels@,
        decreases found.len() - i,
    {
        assert(found@.subrange(0, i + 1).drop_last() =~= found@.subrange(0, i as int));
        if found[i].record.status == PacketStatus::Send {
            let sequence = found[i].record.packet.sequence as u64;
            cache.put_packet(PacketKey { channel_id, port_id: *port_id, sequence }, found[i].input);
            sequences.push(sequence);
        }
        i = i + 1;
    }
    assert(found@.subrange(0, i as int) =~= found@);
    sequences
}

/// How many channels to ask for where the query does not say.
pub const DEFAULT_PAGE_LIMIT: u32 = 100;

/// A page of a listing: how many cells to ask for, and the cursor at which
/// to start.
#[derive(Clone, Debug, PartialEq, Eq)]
pub struct Page {
    pub limit: u32,
    pub cursor: Vec<u8>,
}

/// The four bytes of `n`, most significant first.
pub open spec fn be32(n: nat) -> Seq<u8> {
    seq![
        (n / 16777216 % 256) as u8,
        (n / 65536 % 256) as u8,
        (n / 256 % 256) as u8,
        (n % 256) as u8,
    ]
}

/// The limit and the offset of the page that a query asks for: the low 32
/// bits of each of the two numbers that it gives, or a hundred and zero
/// where it gives none.
pub open spec fn page_bounds(pagination: Option<(u64, u64)>) -> (u32, u32) {
    match pagination {
        Some((limit, offset)) => ((limit % 4294967296) as u32, (offset % 4294967296) as u32),
        None => (DEFAULT_PAGE_LIMIT, 0),
    }
}

/// Says which page of the channels to read for a query with the given limit
/// and offset, if it has them. The cursor is the offset in four bytes, most
/// significant first.
pub fn channels_page(pagination: Option<(u64, u64)>) -> (page: Page)
    ensures
        page.limit == page_bounds(pagination).0,
        page.cursor@ == be32(page_bounds(pagination).1 as nat),
{
    let (limit, offset): (u32, u32) = match pagination {
        Some((limit, offset)) => ((limit % 4294967296) as u32, (offset % 4294967296) as u32),
        None => (DEFAULT_PAGE_LIMIT, 0),
    };
    let mut cursor: Vec<u8> = Vec::new();
    cursor.push((offset / 16777216) as u8);
    cursor.push((offset / 65536 % 256) as u8);
    cursor.push((offset / 256 % 256) as u8);
    cursor.push((offset % 256) as u8);
    assert(cursor@ =~= be32(offset as nat));
    Page { limit, cursor }
}

/// Answers a query for the connection with the number `index`.
pub fn query_connection(connections: &Vec<ConnectionEnd>, index: usize) -> (r: Result<
    ConnectionEnd,
    QueryError,
>)
    ensures
        match r {
            Ok(end) => index < connections@.len() && end@ == connections@[index as int]@,
            Err(e) => index >= connections@.len() && e == (QueryError::ConnectionIdInvalid {
                index,
            }),
        },
{
    if index < connections.len() {
        Ok(connections[index].duplicate())
    } else {
        Err(QueryError::ConnectionIdInvalid { index })
    }
}

/// Takes the first of the cells that a search found.
pub fn first_cell(cells: &Vec<LiveCell>) -> (r: Result<&LiveCell, QueryError>)
    ensures
        match r {
            Ok(cell) => cells@.len() > 0 && *cell == cells@[0],
            Err(e) => cells@.len() == 0 && e == QueryError::NoCell,
        },
{
    if cells.len() > 0 {
        Ok(&cells[0])
    } else {
        Err(QueryError::NoCell)
    }
}

/// The height and the time of the tip of a chain.
#[derive(Clone, Copy, Debug, PartialEq, Eq, Structural)]
pub struct ChainStatus {
    pub revision_number: u64,
    pub revision_height: u64,
    pub timestamp_nanos: u64,
}

/// Nanoseconds in a millisecond.
pub const NANOS_PER_MILLI: u64 = 1_000_000;

/// Answers a query for the status of the chain from the number and the time,
/// in milliseconds, of the block at its tip. The chain has the revision one.
pub fn query_application_status(number: u64, timestamp_millis: u64) -> (r: Result<
    ChainStatus,
    QueryError,
>)
    ensures
        match r {
            Ok(status) => {
                &&& number != 0
                &&& timestamp_millis * NANOS_PER_MILLI <= u64::MAX
                &&& status == (ChainStatus {
                    revision_number: 1,
                    revision_height: number,
                    timestamp_nanos: (timestamp_millis * NANOS_PER_MILLI) as u64,
                })
            },
            Err(QueryError::ZeroHeight) => number == 0,
            Err(QueryError::TimestampOverflow) => number != 0 && timestamp_millis * NANOS_PER_MILLI
                > u64::MAX,
            Err(_) => false,
        },
{
    if number == 0 {
        return Err(QueryError::ZeroHeight);
    }
    if timestamp_millis > u64::MAX / NANOS_PER_MILLI {
        return Err(QueryError::TimestampOverflow);
    }
    Ok(
        ChainStatus {
            revision_number: 1,
            revision_height: number,
            timestamp_nanos: timestamp_millis * NANOS_PER_MILLI,
        },
    )
}

/// The sum of the capacities of those of `cells` that carry no type script.
pub open spec fn plain_capacity(cells: Seq<LiveCellView>) -> nat
    decreases cells.len(),
{
    if cells.len() == 0 {
        0
    } else if cells.last().output.type_ is None {
        plain_capacity(cells.drop_last()) + cells.last().output.capacity as nat
    } else {
        plain_capacity(cells.drop_last())
    }
}

/// The capacities of some of the cells do not add up to more than those of
/// all of them.
pub proof fn lemma_plain_capacity_grows(cells: Seq<LiveCellView>, k: int)
    requires
        0 <= k <= cells.len(),
    ensures
        plain_capacity(cells.subrange(0, k)) <= plain_capacity(cells),
    decreases cells.len() - k,
{
    if k == cells.len() {
        assert(cells.subrange(0, k) =~= cells);
    } else {
        lemma_plain_capacity_grows(cells.drop_last(), k);
        assert(cells.drop_last().subrange(0, k) =~= cells.subrange(0, k));
    }
}

/// Answers a query for the balance of an address from the cells that it
/// locks: the capacities, in shannons, of those that carry no type script.
pub fn query_balance(cells: &Vec<LiveCell>) -> (r: Result<u64, QueryError>)
    ensures
        match r {
            Ok(amount) => amount == plain_capacity(live_cells_view(cells@)),
            Err(e) => e == QueryError::BalanceOverflow && plain_capacity(live_cells_view(cells@))
                > u64::MAX,
        },
{
    let ghost all = live_cells_view(cells@);
    let mut amount: u64 = 0;
    let mut i: usize = 0;
    while i < cells.len()
        invariant
            i <= cells.len(),
            all == live_cells_view(cells@),
            amount == plain_capacity(all.subrange(0, i as int)),
        decreases cells.len() - i,
    {
        proof {
            assert(all.subrange(0, i + 1).drop_last() =~= all.subrange(0, i as int));
            assert(all.subrange(0, i + 1).last() == cells@[i as int]@);
        }
        if cells[i].output.type_.is_none() {
            if cells[i].output.capacity > u64::MAX - amount {
                proof {
                    lemma_plain_capacity_grows(all, i + 1);
                }
                return Err(QueryError::BalanceOverflow);
            }
            amount = amount + cells[i].output.capacity;
        }
        i = i + 1;
    }
    assert(all.subrange(0, i as int) =~= all);
    Ok(amount)
}

} // verus!
