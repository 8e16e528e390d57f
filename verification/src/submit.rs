//! The decisions made around the submission of transactions.

use crate::cell::{blobs_view, TransactionDraft};
use crate::ledger::{ckb_witness_args, witness_args_bytes};
use vstd::prelude::*;

verus! {

/// The longest envelope that fits in a witness beside its framing.
pub const MAX_ENVELOPE_LEN: usize = 0xffff_ffeb;

/// The witness that is kept free for the signature of the funding input.
pub open spec fn placeholder_witness() -> Seq<u8> {
    witness_args_bytes(None, None, None)
}

/// The witness that carries `envelope` as the data of the output's type
/// script.
pub open spec fn envelope_witness(envelope: Seq<u8>) -> Seq<u8> {
    witness_args_bytes(None, None, Some(envelope))
}

/// Adds to a balanced draft the two witnesses that a message transaction
/// ends with: an empty one, which the signing step fills, and the one that
/// carries the envelope of the message.
pub fn add_envelope_witnesses(draft: &mut TransactionDraft, envelope: &Vec<u8>)
    requires
        envelope@.len() <= MAX_ENVELOPE_LEN,
    ensures
        blobs_view(final(draft).witnesses@) == blobs_view(old(draft).witnesses@) + seq![
            placeholder_witness(),
            envelope_witness(envelope@),
        ],
        final(draft).inputs == old(draft).inputs,
        final(draft).outputs == old(draft).outputs,
        final(draft).outputs_data == old(draft).outputs_data,
        final(draft).cell_deps == old(draft).cell_deps,
{
    draft.witnesses.push(ckb_witness_args(None, None, None));
    draft.witnesses.push(ckb_witness_args(None, None, Some(envelope)));
    assert(blobs_view(draft.witnesses@) =~= blobs_view(old(draft).witnesses@) + seq![
        placeholder_witness(),
        envelope_witness(envelope@),
    ]);
}

/// What to do with a message once it has been converted.
#[derive(Clone, Copy, Debug, PartialEq, Eq, Structural)]
pub enum MessagePlan {
    /// The message needs no transaction and leaves no event.
    Skip,
    /// The message needs no transaction; its event is reported at once.
    ReportOnly,
    /// The message's transaction is completed, signed and submitted.
    Submit,
}

/// Decides what to do with a converted message.
pub fn plan_message(has_transaction: bool, has_event: bool) -> (plan: MessagePlan)
    ensures
        plan == (if has_transaction {
            MessagePlan::Submit
        } else if has_event {
            MessagePlan::ReportOnly
        } else {
            MessagePlan::Skip
        }),
{
    if has_transaction {
        MessagePlan::Submit
    } else if has_event {
        MessagePlan::ReportOnly
    } else {
        MessagePlan::Skip
    }
}

/// How the submission of one transaction ended.
#[derive(Clone, Copy, Debug, PartialEq, Eq)]
pub struct Outcome {
    /// Whether the message of the transaction leaves an event.
    pub has_event: bool,
    pub tx_hash: [u8; 32],
    /// Whether the transaction was committed in time.
    pub committed: bool,
}

/// An event to report: the event of the message at the position `message`
/// among those submitted, at the height one of the revision one, with the
/// hash of the transaction that caused it.
#[derive(Clone, Copy, Debug, PartialEq, Eq)]
pub struct Report {
    pub message: usize,
    pub revision_number: u64,
    pub revision_height: u64,
    pub tx_hash: [u8; 32],
}

/// A transaction was not committed.
#[derive(Clone, Copy, Debug, PartialEq, Eq, Structural)]
pub struct SendError {
    /// The position of the first transaction that was not committed.
    pub message: usize,
}

/// Whether each of the first `k` transactions was committed.
pub open spec fn committed_before(outcomes: Seq<Outcome>, k: int) -> bool {
    forall|i: int| 0 <= i < k ==> (#[trigger] outcomes[i]).committed
}

/// The report of the event of the message at `i`.
pub open spec fn report_of(outcomes: Seq<Outcome>, i: int) -> Report {
    Report {
        message: i as usize,
        revision_number: 1,
        revision_height: 1,
        tx_hash: outcomes[i].tx_hash,
    }
}

/// The reports of the events of the first `k` messages, in order.
pub open spec fn reports_of(outcomes: Seq<Outcome>, k: int) -> Seq<Report>
    decreases k,
{
    if k <= 0 {
        Seq::empty()
    } else if outcomes[k - 1].has_event {
        reports_of(outcomes, k - 1).push(report_of(outcomes, k - 1))
    } else {
        reports_of(outcomes, k - 1)
    }
}

/// The report of an event that needed no transaction: it has the hash zero.
pub fn report_without_transaction(message: usize) -> (r: Report)
    ensures
        r.message == message,
        r.revision_number == 1,
        r.revision_height == 1,
        r.tx_hash@ == Seq::new(32, |i: int| 0u8),
{
    let r = Report { message, revision_number: 1, revision_height: 1, tx_hash: [0u8; 32] };
    assert(r.tx_hash@ =~= Seq::new(32, |i: int| 0u8));
    r
}

/// Decides what a round of submissions reports. Where every transaction was
/// committed, the events of the messages that leave one are reported, in the
/// order of submission. Where one was not, the round fails with the first
/// such transaction.
pub fn committed_events(outcomes: &Vec<Outcome>) -> (r: Result<Vec<Report>, SendError>)
    ensures
        match r {
            Ok(reports) => committed_before(outcomes@, outcomes@.len() as int) && reports@
                == reports_of(outcomes@, outcomes@.len() as int),
            Err(e) => e.message < outcomes@.len() && committed_before(outcomes@, e.message as int)
                && !outcomes@[e.message as int].committed,
        },
{
    let mut reports: Vec<Report> = Vec::new();
    let mut i: usize = 0;
    while i < outcomes.len()
        invariant
            i <= outcomes.len(),
            committed_before(outcomes@, i as int),
            reports@ == reports_of(outcomes@, i as int),
        decreases outcomes.len() - i,
    {
        if !outcomes[i].committed {
            return Err(SendError { message: i });
        }
        if outcomes[i].has_event {
            reports.push(
                Report {
                    message: i,
                    revision_number: 1,
                    revision_height: 1,
                    tx_hash: outcomes[i].tx_hash,
                },
            );
        }
        i = i + 1;
    }
    Ok(reports)
}

} // verus!
