//! Plain-value models of the ledger's cells, scripts and references.

use crate::bytes::copy_bytes;
use vstd::prelude::*;

verus! {

/// How a script's code hash is matched against deployed code.
#[derive(Clone, Copy, Debug, PartialEq, Eq, Structural)]
pub enum ScriptHashType {
    Data,
    Type,
    Data1,
    Data2,
}

impl ScriptHashType {
    /// The byte that stands for this hash type on the ledger.
    pub open spec fn spec_tag(self) -> u8 {
        match self {
            ScriptHashType::Data => 0,
            ScriptHashType::Type => 1,
            ScriptHashType::Data1 => 2,
            ScriptHashType::Data2 => 4,
        }
    }

    /// The byte that stands for this hash type on the ledger.
    pub fn tag(self) -> (t: u8)
        ensures
            t == self.spec_tag(),
    {
        match self {
            ScriptHashType::Data => 0,
            ScriptHashType::Type => 1,
            ScriptHashType::Data1 => 2,
            ScriptHashType::Data2 => 4,
        }
    }
}

/// A reference to one output of a committed transaction.
#[derive(Clone, Copy, Debug, PartialEq, Eq)]
pub struct OutPoint {
    pub tx_hash: [u8; 32],
    pub index: u32,
}

/// A reference to a cell that a transaction consumes.
#[derive(Clone, Copy, Debug, PartialEq, Eq)]
pub struct CellInput {
    pub previous_output: OutPoint,
    pub since: u64,
}

/// Whether a dependency is a single code cell or a group of them.
#[derive(Clone, Copy, Debug, PartialEq, Eq, Structural)]
pub enum DepType {
    Code,
    DepGroup,
}

/// A cell that a transaction depends on without consuming it.
#[derive(Clone, Copy, Debug, PartialEq, Eq)]
pub struct CellDep {
    pub out_point: OutPoint,
    pub dep_type: DepType,
}

/// A predicate attached to a cell.
#[derive(Clone, Debug, PartialEq, Eq)]
pub struct Script {
    pub code_hash: [u8; 32],
    pub hash_type: ScriptHashType,
    pub args: Vec<u8>,
}

/// The mathematical value of a [`Script`].
pub struct ScriptView {
    pub code_hash: Seq<u8>,
    pub hash_type: ScriptHashType,
    pub args: Seq<u8>,
}

impl View for Script {
    type V = ScriptView;

    open spec fn view(&self) -> ScriptView {
        ScriptView { code_hash: self.code_hash@, hash_type: self.hash_type, args: self.args@ }
    }
}

/// The mathematical value of an optional script.
pub open spec fn opt_script_view(s: Option<Script>) -> Option<ScriptView> {
    match s {
        Some(s) => Some(s@),
        None => None,
    }
}

/// An output record: its capacity and its two predicates.
#[derive(Clone, Debug, PartialEq, Eq)]
pub struct CellOutput {
    pub capacity: u64,
    pub lock: Script,
    pub type_: Option<Script>,
}

/// The mathematical value of a [`CellOutput`].
pub struct CellOutputView {
    pub capacity: u64,
    pub lock: ScriptView,
    pub type_: Option<ScriptView>,
}

impl View for CellOutput {
    type V = CellOutputView;

    open spec fn view(&self) -> CellOutputView {
        CellOutputView {
            capacity: self.capacity,
            lock: self.lock@,
            type_: opt_script_view(self.type_),
        }
    }
}

/// A cell that is live on the ledger, as a cell search reports it.
#[derive(Clone, Debug, PartialEq, Eq)]
pub struct LiveCell {
    pub output: CellOutput,
    pub output_data: Vec<u8>,
    pub out_point: OutPoint,
    pub block_number: u64,
    pub tx_index: u32,
}

/// The mathematical value of a [`LiveCell`].
pub struct LiveCellView {
    pub output: CellOutputView,
    pub output_data: Seq<u8>,
    pub out_point: OutPoint,
    pub block_number: u64,
    pub tx_index: u32,
}

impl View for LiveCell {
    type V = LiveCellView;

    open spec fn view(&self) -> LiveCellView {
        LiveCellView {
            output: self.output@,
            output_data: self.output_data@,
            out_point: self.out_point,
            block_number: self.block_number,
            tx_index: self.tx_index,
        }
    }
}

/// The values of a list of cell outputs.
pub open spec fn outputs_view(outputs: Seq<CellOutput>) -> Seq<CellOutputView> {
    Seq::new(outputs.len(), |i: int| outputs[i]@)
}

/// The values of a list of byte strings.
pub open spec fn blobs_view(blobs: Seq<Vec<u8>>) -> Seq<Seq<u8>> {
    Seq::new(blobs.len(), |i: int| blobs[i]@)
}

/// The values of a list of live cells.
pub open spec fn live_cells_view(cells: Seq<LiveCell>) -> Seq<LiveCellView> {
    Seq::new(cells.len(), |i: int| cells[i]@)
}

/// An unbalanced transaction: what it consumes, what it creates, its
/// witnesses and the code cells it depends on.
#[derive(Clone, Debug, PartialEq, Eq)]
pub struct TransactionDraft {
    pub inputs: Vec<CellInput>,
    pub outputs: Vec<CellOutput>,
    pub outputs_data: Vec<Vec<u8>>,
    pub witnesses: Vec<Vec<u8>>,
    pub cell_deps: Vec<CellDep>,
}

/// The mathematical value of a [`TransactionDraft`].
pub struct TransactionDraftView {
    pub inputs: Seq<CellInput>,
    pub outputs: Seq<CellOutputView>,
    pub outputs_data: Seq<Seq<u8>>,
    pub witnesses: Seq<Seq<u8>>,
    pub cell_deps: Seq<CellDep>,
}

impl View for TransactionDraft {
    type V = TransactionDraftView;

    open spec fn view(&self) -> TransactionDraftView {
        TransactionDraftView {
            inputs: self.inputs@,
            outputs: outputs_view(self.outputs@),
            outputs_data: blobs_view(self.outputs_data@),
            witnesses: blobs_view(self.witnesses@),
            cell_deps: self.cell_deps@,
        }
    }
}

impl Script {
    /// A copy with the same value.
    pub fn duplicate(&self) -> (r: Script)
        ensures
            r@ == self@,
    {
        Script {
            code_hash: self.code_hash,
            hash_type: self.hash_type,
            args: copy_bytes(&self.args),
        }
    }
}

impl CellOutput {
    /// A copy with the same value.
    pub fn duplicate(&self) -> (r: CellOutput)
        ensures
            r@ == self@,
    {
        let type_ = match &self.type_ {
            Some(s) => Some(s.duplicate()),
            None => None,
        };
        CellOutput { capacity: self.capacity, lock: self.lock.duplicate(), type_ }
    }
}

impl LiveCell {
    /// A copy with the same value.
    pub fn duplicate(&self) -> (r: LiveCell)
        ensures
            r@ == self@,
    {
        LiveCell {
            output: self.output.duplicate(),
            output_data: copy_bytes(&self.output_data),
            out_point: self.out_point,
            block_number: self.block_number,
            tx_index: self.tx_index,
        }
    }
}

} // verus!
