//! Recovery of protocol objects from committed transactions.
//!
//! The cell of a protocol object is the first output of the transaction that
//! carries the script that was searched for as its type script. Its data is
//! the record of the object, and the output itself is what a later
//! transaction has to consume to change the object.

use crate::cell::{
    blobs_view, outputs_view, CellInput, CellOutput, CellOutputView, OutPoint, Script, ScriptView,
};
use crate::codec::{
    decoded_channel, decoded_connection_set, decoded_packet_record, CodecError,
};
use crate::ibc::{
    Channel, ChannelView, ConnectionSet, ConnectionSetView, PacketRecord, PacketRecordView,
};
use crate::locator::same_script;
use vstd::prelude::*;

verus! {

/// What the ledger reports of a transaction.
#[derive(Clone, Copy, Debug, PartialEq, Eq, Structural)]
pub enum TxStatus {
    Pending,
    Proposed,
    Committed,
    Unknown,
    Rejected,
}

/// A transaction with its hash, as far as the recovery of state reads it.
#[derive(Clone, Debug, PartialEq, Eq)]
pub struct ResolvedTransaction {
    pub hash: [u8; 32],
    pub outputs: Vec<CellOutput>,
    pub outputs_data: Vec<Vec<u8>>,
}

/// Why no protocol object was recovered from a transaction.
#[derive(Clone, Copy, Debug, PartialEq, Eq, Structural)]
pub enum ExtractError {
    /// No output carries the script that was searched for.
    NotFound,
    /// The output at `index` carries the script, and the transaction has no
    /// data for it.
    MissingData { index: usize },
    /// The data of the output is not the record of the object.
    Codec(CodecError),
}

/// Whether the output carries `predicate` as its type script.
pub open spec fn carries(output: CellOutputView, predicate: ScriptView) -> bool {
    output.type_ == Some(predicate)
}

/// Whether the output at `i` is the first that carries `predicate`.
pub open spec fn is_first_match(
    outputs: Seq<CellOutputView>,
    predicate: ScriptView,
    i: int,
) -> bool {
    &&& 0 <= i < outputs.len()
    &&& carries(outputs[i], predicate)
    &&& forall|j: int| 0 <= j < i ==> !carries(#[trigger] outputs[j], predicate)
}

/// Whether some output carries `predicate`.
pub open spec fn has_match(outputs: Seq<CellOutputView>, predicate: ScriptView) -> bool {
    exists|i: int| is_first_match(outputs, predicate, i)
}

/// The position of the first output that carries `predicate`.
pub open spec fn first_match(outputs: Seq<CellOutputView>, predicate: ScriptView) -> int {
    choose|i: int| is_first_match(outputs, predicate, i)
}

/// The input that consumes the output at `index` of the transaction with the
/// hash `hash`.
pub open spec fn input_of_output(hash: [u8; 32], index: int) -> CellInput {
    CellInput { previous_output: OutPoint { tx_hash: hash, index: index as u32 }, since: 0 }
}

/// Only one output is the first that carries a script.
pub proof fn lemma_first_match_unique(outputs: Seq<CellOutputView>, predicate: ScriptView, i: int)
    requires
        is_first_match(outputs, predicate, i),
    ensures
        has_match(outputs, predicate),
        first_match(outputs, predicate) == i,
{
    let c = first_match(outputs, predicate);
    assert(is_first_match(outputs, predicate, c));
    if c < i {
        assert(!carries(outputs[c], predicate));
    } else if i < c {
        assert(!carries(outputs[i], predicate));
    }
}

/// Finds the first output of `tx` that carries `predicate` as its type script.
pub fn find_output(tx: &ResolvedTransaction, predicate: &Script) -> (r: Option<usize>)
    ensures
        match r {
            Some(i) => is_first_match(outputs_view(tx.outputs@), predicate@, i as int),
            None => !has_match(outputs_view(tx.outputs@), predicate@),
        },
{
    let ghost outputs = outputs_view(tx.outputs@);
    let mut i: usize = 0;
    while i < tx.outputs.len()
        invariant
            i <= tx.outputs.len(),
            outputs == outputs_view(tx.outputs@),
            forall|j: int| 0 <= j < i ==> !carries(#[trigger] outputs[j], predicate@),
        decreases tx.outputs.len() - i,
    {
        assert(outputs[i as int] == tx.outputs@[i as int]@);
        let found = match &tx.outputs[i].type_ {
            Some(script) => same_script(script, predicate),
            None => false,
        };
        if found {
            return Some(i);
        }
        i = i + 1;
    }
    assert forall|k: int| !is_first_match(outputs, predicate@, k) by {
        if 0 <= k < outputs.len() {
            assert(!carries(outputs[k], predicate@));
        }
    }
    None
}

/// The data of the first output of `tx` that carries `predicate`, and the
/// input that consumes that output.
pub struct Located {
    pub index: usize,
    pub input: CellInput,
}

/// What locating the cell of a protocol object in a transaction gives: the
/// position of the cell, or why there is none.
pub open spec fn located(
    outputs: Seq<CellOutputView>,
    outputs_data: Seq<Seq<u8>>,
    predicate: ScriptView,
) -> Result<int, ExtractError> {
    if !has_match(outputs, predicate) {
        Err(ExtractError::NotFound)
    } else if first_match(outputs, predicate) >= outputs_data.len() {
        Err(ExtractError::MissingData { index: first_match(outputs, predicate) as usize })
    } else {
        Ok(first_match(outputs, predicate))
    }
}

/// Locates the cell of a protocol object in `tx`.
pub fn locate(tx: &ResolvedTransaction, predicate: &Script) -> (r: Result<Located, ExtractError>)
    requires
        tx.outputs@.len() <= u32::MAX,
    ensures
        match r {
            Ok(l) => {
                &&& located(outputs_view(tx.outputs@), blobs_view(tx.outputs_data@), predicate@)
                    == Ok::<int, ExtractError>(l.index as int)
                &&& l.index < tx.outputs_data@.len()
                &&& l.input == input_of_output(tx.hash, l.index as int)
            },
            Err(e) => located(outputs_view(tx.outputs@), blobs_view(tx.outputs_data@), predicate@)
                == Err::<int, ExtractError>(e),
        },
{
    match find_output(tx, predicate) {
        None => Err(ExtractError::NotFound),
        Some(index) => {
            proof {
                lemma_first_match_unique(outputs_view(tx.outputs@), predicate@, index as int);
            }
            if index >= tx.outputs_data.len() {
                Err(ExtractError::MissingData { index })
            } else {
                let input = CellInput {
                    previous_output: OutPoint { tx_hash: tx.hash, index: index as u32 },
                    since: 0,
                };
                Ok(Located { index, input })
            }
        },
    }
}

/// What recovering a record from the located cell gives.
pub open spec fn extracted<T>(
    hash: [u8; 32],
    place: Result<int, ExtractError>,
    decoded: spec_fn(int) -> Result<T, CodecError>,
) -> Result<(T, CellInput), ExtractError> {
    match place {
        Ok(i) => match decoded(i) {
            Ok(x) => Ok((x, input_of_output(hash, i))),
            Err(e) => Err(ExtractError::Codec(e)),
        },
        Err(e) => Err(e),
    }
}

/// What recovering the connections of a client from a transaction gives.
pub open spec fn extracted_connections(
    hash: [u8; 32],
    outputs: Seq<CellOutputView>,
    outputs_data: Seq<Seq<u8>>,
    predicate: ScriptView,
) -> Result<(ConnectionSetView, CellInput), ExtractError> {
    extracted(
        hash,
        located(outputs, outputs_data, predicate),
        |i: int| decoded_connection_set(outputs_data[i]),
    )
}

/// What recovering a channel end from a transaction gives.
pub open spec fn extracted_channel(
    hash: [u8; 32],
    outputs: Seq<CellOutputView>,
    outputs_data: Seq<Seq<u8>>,
    predicate: ScriptView,
) -> Result<(ChannelView, CellInput), ExtractError> {
    extracted(
        hash,
        located(outputs, outputs_data, predicate),
        |i: int| decoded_channel(outputs_data[i]),
    )
}

/// What recovering a packet record from a transaction gives.
pub open spec fn extracted_packet(
    hash: [u8; 32],
    outputs: Seq<CellOutputView>,
    outputs_data: Seq<Seq<u8>>,
    predicate: ScriptView,
) -> Result<(PacketRecordView, CellInput), ExtractError> {
    extracted(
        hash,
        located(outputs, outputs_data, predicate),
        |i: int| decoded_packet_record(outputs_data[i]),
    )
}

/// Recovers the connections of a client from the transaction that wrote
/// their cell, together with the input that consumes that cell.
pub fn extract_connections_from_tx(tx: &ResolvedTransaction, predicate: &Script) -> (r: Result<
    (ConnectionSet, CellInput),
    ExtractError,
>)
    requires
        tx.outputs@.len() <= u32::MAX,
    ensures
        match r {
            Ok((x, input)) => extracted_connections(
                tx.hash,
                outputs_view(tx.outputs@),
                blobs_view(tx.outputs_data@),
                predicate@,
            ) == Ok::<(ConnectionSetView, CellInput), ExtractError>((x@, input)),
            Err(e) => extracted_connections(
                tx.hash,
                outputs_view(tx.outputs@),
                blobs_view(tx.outputs_data@),
                predicate@,
            ) == Err::<(ConnectionSetView, CellInput), ExtractError>(e),
        },
{
    let place = match locate(tx, predicate) {
        Ok(place) => place,
        Err(e) => {
            return Err(e);
        },
    };
    let ghost at = place.index as int;
    assert(blobs_view(tx.outputs_data@)[at] == tx.outputs_data@[at]@);
    match ConnectionSet::decode(tx.outputs_data[place.index].as_slice()) {
        Ok(x) => Ok((x, place.input)),
        Err(e) => Err(ExtractError::Codec(e)),
    }
}

/// Recovers a channel end from the transaction that wrote its cell, together
/// with the input that consumes that cell.
pub fn extract_channel_end_from_tx(tx: &ResolvedTransaction, predicate: &Script) -> (r: Result<
    (Channel, CellInput),
    ExtractError,
>)
    requires
        tx.outputs@.len() <= u32::MAX,
    ensures
        match r {
            Ok((x, input)) => extracted_channel(
                tx.hash,
                outputs_view(tx.outputs@),
                blobs_view(tx.outputs_data@),
                predicate@,
            ) == Ok::<(ChannelView, CellInput), ExtractError>((x@, input)),
            Err(e) => extracted_channel(
                tx.hash,
                outputs_view(tx.outputs@),
                blobs_view(tx.outputs_data@),
                predicate@,
            ) == Err::<(ChannelView, CellInput), ExtractError>(e),
        },
{
    let place = match locate(tx, predicate) {
        Ok(place) => place,
        Err(e) => {
            return Err(e);
        },
    };
    let ghost at = place.index as int;
    assert(blobs_view(tx.outputs_data@)[at] == tx.outputs_data@[at]@);
    match Channel::decode(tx.outputs_data[place.index].as_slice()) {
        Ok(x) => Ok((x, place.input)),
        Err(e) => Err(ExtractError::Codec(e)),
    }
}

/// Recovers a packet record from the transaction that wrote its cell,
/// together with the input that consumes that cell.
pub fn extract_ibc_packet_from_tx(tx: &ResolvedTransaction, predicate: &Script) -> (r: Result<
    (PacketRecord, CellInput),
    ExtractError,
>)
    requires
        tx.outputs@.len() <= u32::MAX,
    ensures
        match r {
            Ok((x, input)) => extracted_packet(
                tx.hash,
                outputs_view(tx.outputs@),
                blobs_view(tx.outputs_data@),
                predicate@,
            ) == Ok::<(PacketRecordView, CellInput), ExtractError>((x@, input)),
            Err(e) => extracted_packet(
                tx.hash,
                outputs_view(tx.outputs@),
                blobs_view(tx.outputs_data@),
                predicate@,
            ) == Err::<(PacketRecordView, CellInput), ExtractError>(e),
        },
{
    let place = match locate(tx, predicate) {
        Ok(place) => place,
        Err(e) => {
            return Err(e);
        },
    };
    let ghost at = place.index as int;
    assert(blobs_view(tx.outputs_data@)[at] == tx.outputs_data@[at]@);
    match PacketRecord::decode(tx.outputs_data[place.index].as_slice()) {
        Ok(x) => Ok((x, place.input)),
        Err(e) => Err(ExtractError::Codec(e)),
    }
}

/// What was fetched for the cell of a channel: the script that the cell
/// carries, what the ledger says of the transaction that wrote it, and the
/// transaction if the ledger still has it.
#[derive(Clone, Debug, PartialEq, Eq)]
pub struct FetchedTransaction {
    pub predicate: Script,
    pub status: TxStatus,
    pub transaction: Option<ResolvedTransaction>,
}

/// The channel end that is listed for what was fetched, if one is: the
/// transaction must be committed and at hand, and the channel end must be
/// recovered from it.
pub open spec fn listed_channel(fetched: FetchedTransaction) -> Option<ChannelView> {
    if fetched.status != TxStatus::Committed {
        None
    } else {
        match fetched.transaction {
            Some(tx) => match extracted_channel(
                tx.hash,
                outputs_view(tx.outputs@),
                blobs_view(tx.outputs_data@),
                fetched.predicate@,
            ) {
                Ok((channel, input)) => Some(channel),
                Err(_) => None,
            },
            None => None,
        }
    }
}

/// The channel ends that are listed for the first `k` of what was fetched,
/// in order.
pub open spec fn listed_channels(fetched: Seq<FetchedTransaction>, k: int) -> Seq<ChannelView>
    decreases k,
{
    if k <= 0 {
        Seq::empty()
    } else {
        match listed_channel(fetched[k - 1]) {
            Some(channel) => listed_channels(fetched, k - 1).push(channel),
            None => listed_channels(fetched, k - 1),
        }
    }
}

/// The values of a list of channel ends.
pub open spec fn channels_view(channels: Seq<Channel>) -> Seq<ChannelView> {
    Seq::new(channels.len(), |i: int| channels[i]@)
}

/// Whether no transaction among those fetched has more outputs than the
/// ledger can number.
pub open spec fn outputs_numbered(fetched: Seq<FetchedTransaction>) -> bool {
    forall|i: int|
        0 <= i < fetched.len() ==> ((#[trigger] fetched[i]).transaction matches Some(tx)
            ==> tx.outputs@.len() <= u32::MAX)
}

/// Lists the channel ends that can be recovered from the committed
/// transactions among those fetched. What is not committed, not at hand or
/// does not hold a channel end is passed over.
pub fn query_channels(fetched: &Vec<FetchedTransaction>) -> (channels: Vec<Channel>)
    requires
        outputs_numbered(fetched@),
    ensures
        channels_view(channels@) == listed_channels(fetched@, fetched@.len() as int),
{
    let mut channels: Vec<Channel> = Vec::new();
    let mut i: usize = 0;
    while i < fetched.len()
        invariant
            i <= fetched.len(),
            outputs_numbered(fetched@),
            channels_view(channels@) == listed_channels(fetched@, i as int),
        decreases fetched.len() - i,
    {
        let ghost before = channels_view(channels@);
        let item = &fetched[i];
        if item.status == TxStatus::Committed {
            match &item.transaction {
                Some(tx) => {
                    match extract_channel_end_from_tx(tx, &item.predicate) {
                        Ok((channel, _input)) => {
                            channels.push(channel);
                            assert(channels_view(channels@) =~= before.push(channel@));
                        },
                        Err(_) => {},
                    }
                },
                None => {},
            }
        }
        i = i + 1;
    }
    channels
}

} // verus!
