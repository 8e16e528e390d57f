//! The bounded window of light-client snapshots.
//!
//! A window of `n` cells holds one client info cell and `n - 1` client cells,
//! one for each slot `0 .. n - 1`. The info cell names the slot of the most
//! recent snapshot; the slot after it, wrapping round, holds the oldest one,
//! which is the next to be overwritten.

use crate::cell::LiveCell;
use crate::record::{Client, ClientInfo, CLIENT_INFO_LEN, CLIENT_LEN};
use vstd::prelude::*;
use vstd::set_lib::{lemma_int_range, lemma_subset_equality, set_int_range};

verus! {

/// The slot that follows `last_id` in a window of `slots` client cells.
pub open spec fn next_slot(last_id: int, slots: int) -> int {
    (last_id + 1) % slots
}

/// Computes the slot that is overwritten next: the one after `last_id`,
/// wrapping round at `slots`.
pub fn oldest_slot(last_id: u8, slots: u8) -> (id: u8)
    requires
        last_id < slots,
    ensures
        id == next_slot(last_id as int, slots as int),
        id < slots,
{
    if last_id + 1 == slots {
        assert(next_slot(last_id as int, slots as int) == 0) by {
            assert((last_id + 1) % (last_id + 1) == 0) by (nonlinear_arith)
                requires
                    last_id >= 0,
            ;
        }
        0
    } else {
        assert(next_slot(last_id as int, slots as int) == last_id + 1) by {
            vstd::arithmetic::div_mod::lemma_small_mod((last_id + 1) as nat, slots as nat);
        }
        last_id + 1
    }
}

/// What is wrong with the cells found for a window.
#[derive(Clone, Copy, Debug, PartialEq, Eq, Structural)]
pub enum Corruption {
    /// Some cells were found, but not as many as the window has.
    CountMismatch { expected: u8, actual: usize },
    /// The cell at `index` holds neither a client nor a client info record.
    InvalidData { index: usize },
    /// The cells at `first` and `second` both hold a client info record.
    DuplicateInfo { first: usize, second: usize },
    /// No cell holds a client info record.
    MissingInfo,
    /// The window has an info cell and no room for any client cell.
    NoClientSlots,
    /// The info cell names a slot that the window does not have.
    LastIdOutOfRange { last_id: u8, slots: u8 },
    /// The client cell at `index` sits in a slot that the window does not have.
    ClientIdOutOfRange { index: usize, id: u8 },
    /// The client cells at `first` and `second` both sit in the slot `id`.
    DuplicateClientId { id: u8, first: usize, second: usize },
}

/// The three cells of a window that an update reads or replaces.
#[derive(Clone, Debug, PartialEq, Eq)]
pub struct UpdateCells {
    pub oldest: LiveCell,
    pub latest: LiveCell,
    pub info: LiveCell,
}

/// The data of each cell, in order.
pub open spec fn cell_datas(cells: Seq<LiveCell>) -> Seq<Seq<u8>> {
    Seq::new(cells.len(), |i: int| cells[i].output_data@)
}

/// Whether `d` has the layout of a client record.
pub open spec fn is_client_data(d: Seq<u8>) -> bool {
    d.len() == CLIENT_LEN
}

/// Whether `d` has the layout of a client info record.
pub open spec fn is_info_data(d: Seq<u8>) -> bool {
    d.len() == CLIENT_INFO_LEN
}

/// The slot that a record names: its own for a client, the last written one
/// for a client info.
pub open spec fn slot_of(d: Seq<u8>) -> int {
    d[0] as int
}

/// Each of the first `k` cells holds a client or a client info record.
pub open spec fn recognised_before(datas: Seq<Seq<u8>>, k: int) -> bool {
    forall|i: int|
        0 <= i < k ==> is_client_data(#[trigger] datas[i]) || is_info_data(datas[i])
}

/// At most one of the first `k` cells holds a client info record.
pub open spec fn single_info_before(datas: Seq<Seq<u8>>, k: int) -> bool {
    forall|i: int, j: int|
        0 <= i < j < k ==> !(is_info_data(#[trigger] datas[i]) && is_info_data(
            #[trigger] datas[j],
        ))
}

/// The cell at `k` holds a client info record.
pub open spec fn info_index(datas: Seq<Seq<u8>>, k: int) -> bool {
    0 <= k < datas.len() && is_info_data(datas[k])
}

/// The cell at `j` holds the client record of slot `s`.
pub open spec fn slot_index(datas: Seq<Seq<u8>>, s: int, j: int) -> bool {
    0 <= j < datas.len() && is_client_data(datas[j]) && slot_of(datas[j]) == s
}

/// Each client among the first `k` cells sits in a slot below `slots`.
pub open spec fn slots_in_range_before(datas: Seq<Seq<u8>>, slots: int, k: int) -> bool {
    forall|i: int|
        0 <= i < k && is_client_data(#[trigger] datas[i]) ==> slot_of(datas[i]) < slots
}

/// No two clients among the first `k` cells sit in the same slot.
pub open spec fn slots_distinct_before(datas: Seq<Seq<u8>>, k: int) -> bool {
    forall|i: int, j: int|
        0 <= i < j < k && is_client_data(#[trigger] datas[i]) && is_client_data(
            #[trigger] datas[j],
        ) ==> slot_of(datas[i]) != slot_of(datas[j])
}

/// The position of the info cell.
pub open spec fn info_position(datas: Seq<Seq<u8>>) -> int {
    choose|k: int| info_index(datas, k)
}

/// The position of the client cell of slot `s`.
pub open spec fn slot_position(datas: Seq<Seq<u8>>, s: int) -> int {
    choose|j: int| slot_index(datas, s, j)
}

/// The slot of the most recent snapshot.
pub open spec fn last_slot(datas: Seq<Seq<u8>>) -> int {
    slot_of(datas[info_position(datas)])
}

/// The slot of the oldest snapshot.
pub open spec fn oldest_slot_of(datas: Seq<Seq<u8>>) -> int {
    next_slot(last_slot(datas), datas.len() - 1)
}

/// The cells are recognised and exactly one of them is the info cell.
pub open spec fn well_scanned(datas: Seq<Seq<u8>>) -> bool {
    &&& recognised_before(datas, datas.len() as int)
    &&& single_info_before(datas, datas.len() as int)
    &&& exists|k: int| info_index(datas, k)
}

/// The cells are a window of `n` cells in good order: one info cell that
/// names an existing slot, and `n - 1` client cells in pairwise distinct
/// slots below `n - 1`.
pub open spec fn valid_group(datas: Seq<Seq<u8>>, n: int) -> bool {
    &&& n >= 2
    &&& datas.len() == n
    &&& well_scanned(datas)
    &&& last_slot(datas) < n - 1
    &&& slots_in_range_before(datas, n - 1, n)
    &&& slots_distinct_before(datas, n)
}

/// Whether `e` is the first thing wrong with the non-empty list of cells
/// `datas`, found for a window of `n` cells. The cells are looked at in
/// order, twice: first for their layout, then for their slots.
pub open spec fn is_fault(datas: Seq<Seq<u8>>, n: u8, e: Corruption) -> bool {
    &&& datas.len() != 0
    &&& match e {
        Corruption::CountMismatch { expected, actual } => {
            &&& datas.len() != n
            &&& expected == n
            &&& actual == datas.len()
        },
        Corruption::InvalidData { index } => {
            &&& datas.len() == n
            &&& index < datas.len()
            &&& recognised_before(datas, index as int)
            &&& single_info_before(datas, index as int)
            &&& !is_client_data(datas[index as int])
            &&& !is_info_data(datas[index as int])
        },
        Corruption::DuplicateInfo { first, second } => {
            &&& datas.len() == n
            &&& first < second < datas.len()
            &&& recognised_before(datas, second as int)
            &&& single_info_before(datas, second as int)
            &&& is_info_data(datas[first as int])
            &&& is_info_data(datas[second as int])
        },
        Corruption::MissingInfo => {
            &&& datas.len() == n
            &&& recognised_before(datas, n as int)
            &&& forall|k: int| !info_index(datas, k)
        },
        Corruption::NoClientSlots => {
            &&& datas.len() == n
            &&& well_scanned(datas)
            &&& n == 1
        },
        Corruption::LastIdOutOfRange { last_id, slots } => {
            &&& datas.len() == n
            &&& well_scanned(datas)
            &&& n >= 2
            &&& slots == n - 1
            &&& last_id == last_slot(datas)
            &&& last_id >= slots
        },
        Corruption::ClientIdOutOfRange { index, id } => {
            &&& datas.len() == n
            &&& well_scanned(datas)
            &&& n >= 2
            &&& last_slot(datas) < n - 1
            &&& index < datas.len()
            &&& slots_in_range_before(datas, n - 1, index as int)
            &&& slots_distinct_before(datas, index as int)
            &&& is_client_data(datas[index as int])
            &&& id == slot_of(datas[index as int])
            &&& id >= n - 1
        },
        Corruption::DuplicateClientId { id, first, second } => {
            &&& datas.len() == n
            &&& well_scanned(datas)
            &&& n >= 2
            &&& last_slot(datas) < n - 1
            &&& first < second < datas.len()
            &&& slots_in_range_before(datas, n - 1, second as int)
            &&& slots_distinct_before(datas, second as int)
            &&& is_client_data(datas[first as int])
            &&& is_client_data(datas[second as int])
            &&& id == slot_of(datas[first as int])
            &&& id == slot_of(datas[second as int])
            &&& id < n - 1
        },
    }
}

/// Whether `u` holds the info cell of the window, the client cell of the
/// most recent slot and the client cell of the oldest slot.
pub open spec fn is_selection(cells: Seq<LiveCell>, u: UpdateCells) -> bool {
    let datas = cell_datas(cells);
    &&& u.info@ == cells[info_position(datas)]@
    &&& u.latest@ == cells[slot_position(datas, last_slot(datas))]@
    &&& u.oldest@ == cells[slot_position(datas, oldest_slot_of(datas))]@
}

/// Where only one cell holds a client info record, that cell is the info cell.
pub proof fn lemma_info_position(datas: Seq<Seq<u8>>, k: int)
    requires
        info_index(datas, k),
        single_info_before(datas, datas.len() as int),
    ensures
        info_position(datas) == k,
{
    let c = info_position(datas);
    assert(info_index(datas, c));
    if c < k {
        assert(!(is_info_data(datas[c]) && is_info_data(datas[k])));
    } else if k < c {
        assert(!(is_info_data(datas[k]) && is_info_data(datas[c])));
    }
}

/// Where no two clients share a slot, the client found in a slot is the
/// client of that slot.
pub proof fn lemma_slot_position(datas: Seq<Seq<u8>>, s: int, j: int)
    requires
        slot_index(datas, s, j),
        slots_distinct_before(datas, datas.len() as int),
    ensures
        slot_position(datas, s) == j,
{
    let c = slot_position(datas, s);
    assert(slot_index(datas, s, c));
    if c < j {
        assert(slot_of(datas[c]) != slot_of(datas[j]));
    } else if j < c {
        assert(slot_of(datas[j]) != slot_of(datas[c]));
    }
}

/// In a window in good order every slot is taken: each slot below `n - 1`
/// has its client cell.
pub proof fn lemma_every_slot_taken(datas: Seq<Seq<u8>>, n: int, s: int)
    requires
        valid_group(datas, n),
        0 <= s < n - 1,
    ensures
        slot_index(datas, s, slot_position(datas, s)),
{
    let k = info_position(datas);
    assert(info_index(datas, k));
    let at = |t: int| if t < k { t } else { t + 1 };
    let ids = Seq::new((n - 1) as nat, |t: int| slot_of(datas[at(t)]));
    assert forall|t: int| 0 <= t < n - 1 implies is_client_data(#[trigger] datas[at(t)]) by {
        let j = at(t);
        assert(j != k);
        assert(is_client_data(datas[j]) || is_info_data(datas[j]));
        if j < k {
            assert(!(is_info_data(datas[j]) && is_info_data(datas[k])));
        } else {
            assert(!(is_info_data(datas[k]) && is_info_data(datas[j])));
        }
    }
    assert forall|a: int, b: int| 0 <= a < ids.len() && 0 <= b < ids.len() && a != b implies ids[a]
        != ids[b] by {
        let ja = at(a);
        let jb = at(b);
        assert(is_client_data(datas[ja]));
        assert(is_client_data(datas[jb]));
        if ja < jb {
            assert(slot_of(datas[ja]) != slot_of(datas[jb]));
        } else {
            assert(jb < ja);
            assert(slot_of(datas[jb]) != slot_of(datas[ja]));
        }
    }
    assert(ids.no_duplicates());
    ids.unique_seq_to_set();
    let range = set_int_range(0, n - 1);
    lemma_int_range(0, n - 1);
    assert forall|v: int| ids.to_set().contains(v) implies range.contains(v) by {
        let t = choose|t: int| 0 <= t < ids.len() && ids[t] == v;
        assert(is_client_data(datas[at(t)]));
    }
    assert(ids.to_set().subset_of(range));
    vstd::seq_lib::seq_to_set_is_finite(ids);
    lemma_subset_equality(ids.to_set(), range);
    assert(range.contains(s));
    assert(ids.to_set().contains(s));
    let t = choose|t: int| 0 <= t < ids.len() && ids[t] == s;
    assert(is_client_data(datas[at(t)]));
    assert(slot_index(datas, s, at(t)));
}

/// A list of cells with something wrong is no window in good order.
pub proof fn lemma_fault_excludes_validity(datas: Seq<Seq<u8>>, n: u8, e: Corruption)
    requires
        is_fault(datas, n, e),
    ensures
        !valid_group(datas, n as int),
{
    if valid_group(datas, n as int) {
        match e {
            Corruption::CountMismatch { expected, actual } => {},
            Corruption::InvalidData { index } => {
                assert(is_client_data(datas[index as int]) || is_info_data(datas[index as int]));
            },
            Corruption::DuplicateInfo { first, second } => {
                assert(!(is_info_data(datas[first as int]) && is_info_data(datas[second as int])));
            },
            Corruption::MissingInfo => {
                let k = choose|k: int| info_index(datas, k);
                assert(info_index(datas, k));
            },
            Corruption::NoClientSlots => {},
            Corruption::LastIdOutOfRange { last_id, slots } => {},
            Corruption::ClientIdOutOfRange { index, id } => {
                assert(slot_of(datas[index as int]) < n - 1);
            },
            Corruption::DuplicateClientId { id, first, second } => {
                assert(slot_of(datas[first as int]) != slot_of(datas[second as int]));
            },
        }
    }
}

/// At most one thing is the first thing wrong with a list of cells.
pub proof fn lemma_fault_unique(datas: Seq<Seq<u8>>, n: u8, e1: Corruption, e2: Corruption)
    requires
        is_fault(datas, n, e1),
        is_fault(datas, n, e2),
    ensures
        e1 == e2,
{
    let len = datas.len() as int;
    if fault_stage(e1) != fault_stage(e2) {
        lemma_fault_ends_scan(datas, n, e1);
        lemma_fault_ends_scan(datas, n, e2);
    } else if fault_stage(e1) == 1 {
        let at1 = fault_position(e1);
        let at2 = fault_position(e2);
        if at1 < at2 {
            lemma_fault_breaks_prefix(datas, n, e1, at2);
        } else if at2 < at1 {
            lemma_fault_breaks_prefix(datas, n, e2, at1);
        } else {
            match (e1, e2) {
                (
                    Corruption::DuplicateInfo { first: f1, second: _ },
                    Corruption::DuplicateInfo { first: f2, second: _ },
                ) => {
                    if f1 < f2 {
                        assert(!(is_info_data(datas[f1 as int]) && is_info_data(
                            datas[f2 as int],
                        )));
                    } else if f2 < f1 {
                        assert(!(is_info_data(datas[f2 as int]) && is_info_data(
                            datas[f1 as int],
                        )));
                    }
                },
                _ => {},
            }
        }
    } else if fault_stage(e1) == 5 {
        let at1 = fault_position(e1);
        let at2 = fault_position(e2);
        if at1 < at2 {
            lemma_fault_breaks_prefix(datas, n, e1, at2);
        } else if at2 < at1 {
            lemma_fault_breaks_prefix(datas, n, e2, at1);
        } else {
            match (e1, e2) {
                (
                    Corruption::DuplicateClientId { id: _, first: f1, second: _ },
                    Corruption::DuplicateClientId { id: _, first: f2, second: _ },
                ) => {
                    if f1 < f2 {
                        assert(slot_of(datas[f1 as int]) != slot_of(datas[f2 as int]));
                    } else if f2 < f1 {
                        assert(slot_of(datas[f2 as int]) != slot_of(datas[f1 as int]));
                    }
                },
                _ => {},
            }
        }
    }
}

/// The pass in which a fault is found, in the order in which they are made.
pub open spec fn fault_stage(e: Corruption) -> int {
    match e {
        Corruption::CountMismatch { .. } => 0,
        Corruption::InvalidData { .. } => 1,
        Corruption::DuplicateInfo { .. } => 1,
        Corruption::MissingInfo => 2,
        Corruption::NoClientSlots => 3,
        Corruption::LastIdOutOfRange { .. } => 4,
        Corruption::ClientIdOutOfRange { .. } => 5,
        Corruption::DuplicateClientId { .. } => 5,
    }
}

/// The position of the cell at which a fault is found, for the faults that
/// are found at a cell.
pub open spec fn fault_position(e: Corruption) -> int {
    match e {
        Corruption::InvalidData { index } => index as int,
        Corruption::DuplicateInfo { first, second } => second as int,
        Corruption::ClientIdOutOfRange { index, id } => index as int,
        Corruption::DuplicateClientId { id, first, second } => second as int,
        _ => 0,
    }
}

/// What had to hold for a pass to be reached.
pub open spec fn stage_reached(datas: Seq<Seq<u8>>, n: u8, stage: int) -> bool {
    &&& stage >= 1 ==> datas.len() == n
    &&& stage >= 2 ==> recognised_before(datas, n as int) && single_info_before(datas, n as int)
    &&& stage >= 3 ==> well_scanned(datas)
    &&& stage >= 4 ==> n >= 2
    &&& stage >= 5 ==> last_slot(datas) < n - 1
}

/// A fault is found only in a pass that was reached, and it ends the scan:
/// no later pass is reached.
pub proof fn lemma_fault_ends_scan(datas: Seq<Seq<u8>>, n: u8, e: Corruption)
    requires
        is_fault(datas, n, e),
    ensures
        stage_reached(datas, n, fault_stage(e)),
        forall|later: int| fault_stage(e) < later <= 5 ==> !stage_reached(datas, n, later),
{
    match e {
        Corruption::InvalidData { index } => {
            if recognised_before(datas, n as int) {
                assert(is_client_data(datas[index as int]) || is_info_data(datas[index as int]));
            }
        },
        Corruption::DuplicateInfo { first, second } => {
            if single_info_before(datas, n as int) {
                assert(!(is_info_data(datas[first as int]) && is_info_data(datas[second as int])));
            }
        },
        Corruption::MissingInfo => {
            assert forall|i: int, j: int| 0 <= i < j < n implies !(is_info_data(
                #[trigger] datas[i],
            ) && is_info_data(#[trigger] datas[j])) by {
                assert(!info_index(datas, i));
            }
            if well_scanned(datas) {
                let k = choose|k: int| info_index(datas, k);
                assert(info_index(datas, k));
            }
        },
        _ => {},
    }
}

/// A fault found at a cell is found at the first cell that has one: the
/// cells before any later position are not in good order.
pub proof fn lemma_fault_breaks_prefix(datas: Seq<Seq<u8>>, n: u8, e: Corruption, later: int)
    requires
        is_fault(datas, n, e),
        fault_position(e) < later <= datas.len(),
    ensures
        fault_stage(e) == 1 ==> !(recognised_before(datas, later) && single_info_before(
            datas,
            later,
        )),
        fault_stage(e) == 5 ==> !(slots_in_range_before(datas, n - 1, later)
            && slots_distinct_before(datas, later)),
{
    match e {
        Corruption::InvalidData { index } => {
            if recognised_before(datas, later) {
                assert(is_client_data(datas[index as int]) || is_info_data(datas[index as int]));
            }
        },
        Corruption::DuplicateInfo { first, second } => {
            if single_info_before(datas, later) {
                assert(!(is_info_data(datas[first as int]) && is_info_data(datas[second as int])));
            }
        },
        Corruption::ClientIdOutOfRange { index, id } => {
            if slots_in_range_before(datas, n - 1, later) {
                assert(slot_of(datas[index as int]) < n - 1);
            }
        },
        Corruption::DuplicateClientId { id, first, second } => {
            if slots_distinct_before(datas, later) {
                assert(slot_of(datas[first as int]) != slot_of(datas[second as int]));
            }
        },
        _ => {},
    }
}

/// The data of the cells of a window after one rotation: the client cell of
/// the oldest slot now holds `new_client`, and the info cell names that slot
/// as the most recent one. All other cells are as they were.
pub open spec fn rotated(datas: Seq<Seq<u8>>, new_client: Seq<u8>) -> Seq<Seq<u8>> {
    let k = info_position(datas);
    let o = slot_position(datas, oldest_slot_of(datas));
    datas.update(k, seq![datas[o][0], datas[k][1]]).update(o, new_client)
}

/// A rotation keeps a window in good order: where the new client record sits
/// in the slot of the cell that it replaces, the cells after the rotation are
/// again a window of `n` cells with one info cell and each slot taken once.
/// The overwritten slot has become the most recent one, the slot after it is
/// the oldest, and the clients of all other slots are untouched.
pub proof fn lemma_rotation_keeps_window(datas: Seq<Seq<u8>>, n: int, new_client: Seq<u8>)
    requires
        valid_group(datas, n),
        is_client_data(new_client),
        slot_of(new_client) == oldest_slot_of(datas),
    ensures
        valid_group(rotated(datas, new_client), n),
        last_slot(rotated(datas, new_client)) == oldest_slot_of(datas),
        oldest_slot_of(rotated(datas, new_client)) == next_slot(oldest_slot_of(datas), n - 1),
        info_position(rotated(datas, new_client)) == info_position(datas),
        forall|s: int|
            0 <= s < n - 1 ==> #[trigger] slot_position(rotated(datas, new_client), s)
                == slot_position(datas, s),
        forall|s: int|
            0 <= s < n - 1 && s != oldest_slot_of(datas) ==> rotated(
                datas,
                new_client,
            )[#[trigger] slot_position(datas, s)] == datas[slot_position(datas, s)],
        rotated(datas, new_client)[slot_position(datas, oldest_slot_of(datas))] == new_client,
{
    let k = info_position(datas);
    assert(info_index(datas, k));
    let old = oldest_slot_of(datas);
    assert(0 <= old < n - 1) by {
        vstd::arithmetic::div_mod::lemma_mod_bound(last_slot(datas) + 1, n - 1);
    }
    lemma_every_slot_taken(datas, n, old);
    let o = slot_position(datas, old);
    let r = rotated(datas, new_client);
    assert(o != k);
    assert(r.len() == n);
    assert(r[k] == seq![datas[o][0], datas[k][1]]);
    assert(r[o] == new_client);
    assert forall|i: int| 0 <= i < n && i != k && i != o implies #[trigger] r[i] == datas[i] by {}
    assert forall|i: int| 0 <= i < n implies (is_info_data(#[trigger] r[i]) <==> is_info_data(
        datas[i],
    )) && (is_client_data(r[i]) <==> is_client_data(datas[i])) by {}
    assert forall|i: int| 0 <= i < n && is_client_data(#[trigger] r[i]) implies slot_of(r[i])
        == slot_of(datas[i]) by {}
    assert(recognised_before(r, n)) by {
        assert forall|i: int| 0 <= i < n implies is_client_data(#[trigger] r[i]) || is_info_data(
            r[i],
        ) by {
            assert(is_client_data(datas[i]) || is_info_data(datas[i]));
        }
    }
    assert(single_info_before(r, n)) by {
        assert forall|i: int, j: int| 0 <= i < j < n implies !(is_info_data(#[trigger] r[i])
            && is_info_data(#[trigger] r[j])) by {
            assert(!(is_info_data(datas[i]) && is_info_data(datas[j])));
        }
    }
    assert(info_index(r, k));
    lemma_info_position(r, k);
    assert(slots_in_range_before(r, n - 1, n)) by {
        assert forall|i: int| 0 <= i < n && is_client_data(#[trigger] r[i]) implies slot_of(r[i])
            < n - 1 by {
            assert(is_client_data(datas[i]));
        }
    }
    assert(slots_distinct_before(r, n)) by {
        assert forall|i: int, j: int|
            0 <= i < j < n && is_client_data(#[trigger] r[i]) && is_client_data(
                #[trigger] r[j],
            ) implies slot_of(r[i]) != slot_of(r[j]) by {
            assert(is_client_data(datas[i]) && is_client_data(datas[j]));
        }
    }
    assert(valid_group(r, n));
    assert forall|s: int| 0 <= s < n - 1 implies #[trigger] slot_position(r, s) == slot_position(
        datas,
        s,
    ) by {
        lemma_every_slot_taken(datas, n, s);
        let j = slot_position(datas, s);
        assert(slot_index(r, s, j));
        lemma_slot_position(r, s, j);
    }
    assert forall|s: int| 0 <= s < n - 1 && s != old implies r[#[trigger] slot_position(datas, s)]
        == datas[slot_position(datas, s)] by {
        lemma_every_slot_taken(datas, n, s);
    }
}

/// In a window of two cells the only slot is both the most recent and the
/// oldest one, before and after every rotation.
pub proof fn lemma_window_of_two(datas: Seq<Seq<u8>>, new_client: Seq<u8>)
    requires
        valid_group(datas, 2),
        is_client_data(new_client),
        slot_of(new_client) == 0,
    ensures
        last_slot(datas) == 0,
        oldest_slot_of(datas) == 0,
        slot_position(datas, oldest_slot_of(datas)) == slot_position(datas, last_slot(datas)),
        valid_group(rotated(datas, new_client), 2),
        last_slot(rotated(datas, new_client)) == 0,
        oldest_slot_of(rotated(datas, new_client)) == 0,
{
    lemma_rotation_keeps_window(datas, 2, new_client);
}

/// Picks, from the cells found for a window of `cells_count` cells, the three
/// that an update works on.
///
/// No cell at all means that the window does not exist yet. Any other list of
/// cells is either a window in good order, and then the info cell and the
/// client cells of the most recent and of the oldest slot come back, or it is
/// reported with the first thing that is wrong with it.
pub fn select_update_cells(cells: &Vec<LiveCell>, cells_count: u8) -> (r: Result<
    Option<UpdateCells>,
    Corruption,
>)
    ensures
        match r {
            Ok(None) => cells@.len() == 0,
            Ok(Some(u)) => {
                &&& valid_group(cell_datas(cells@), cells_count as int)
                &&& is_selection(cells@, u)
                &&& is_info_data(u.info.output_data@)
                &&& is_client_data(u.latest.output_data@)
                &&& is_client_data(u.oldest.output_data@)
                &&& slot_of(u.latest.output_data@) == slot_of(u.info.output_data@)
                &&& slot_of(u.oldest.output_data@) == next_slot(
                    slot_of(u.info.output_data@),
                    cells_count - 1,
                )
            },
            Err(e) => is_fault(cell_datas(cells@), cells_count, e),
        },
        valid_group(cell_datas(cells@), cells_count as int) ==> r matches Ok(Some(_)),
{
    let n = cells.len();
    let ghost datas = cell_datas(cells@);
    if n == 0 {
        return Ok(None);
    }
    if n != cells_count as usize {
        let e = Corruption::CountMismatch { expected: cells_count, actual: n };
        proof {
            lemma_fault_excludes_validity(datas, cells_count, e);
        }
        return Err(e);
    }
    let mut info: Option<usize> = None;
    let mut i: usize = 0;
    while i < n
        invariant
            n == cells.len(),
            n == cells_count,
            datas == cell_datas(cells@),
            i <= n,
            recognised_before(datas, i as int),
            single_info_before(datas, i as int),
            match info {
                Some(k) => k < i && is_info_data(datas[k as int]),
                None => forall|j: int| 0 <= j < i ==> !is_info_data(#[trigger] datas[j]),
            },
        decreases n - i,
    {
        let data = cells[i].output_data.as_slice();
        assert(datas[i as int] == cells[i as int].output_data@);
        if ClientInfo::verify(data) {
            match info {
                Some(first) => {
                    let e = Corruption::DuplicateInfo { first, second: i };
                    proof {
                        lemma_fault_excludes_validity(datas, cells_count, e);
                    }
                    return Err(e);
                },
                None => {
                    info = Some(i);
                },
            }
        } else if !Client::verify(data) {
            let e = Corruption::InvalidData { index: i };
            proof {
                lemma_fault_excludes_validity(datas, cells_count, e);
            }
            return Err(e);
        }
        i = i + 1;
    }
    let k = match info {
        Some(k) => k,
        None => {
            let e = Corruption::MissingInfo;
            proof {
                lemma_fault_excludes_validity(datas, cells_count, e);
            }
            return Err(e);
        },
    };
    proof {
        assert(info_index(datas, k as int));
        lemma_info_position(datas, k as int);
    }
    if cells_count == 1 {
        return Err(Corruption::NoClientSlots);
    }
    let slots: u8 = cells_count - 1;
    assert(datas[k as int] == cells[k as int].output_data@);
    let last_id = cells[k].output_data[0];
    if last_id >= slots {
        return Err(Corruption::LastIdOutOfRange { last_id, slots });
    }
    let mut table: Vec<usize> = Vec::new();
    let mut t: u8 = 0;
    while t < slots
        invariant
            t <= slots,
            table@.len() == t,
            forall|s: int| 0 <= s < t ==> table@[s] == n,
        decreases slots - t,
    {
        table.push(n);
        t = t + 1;
    }
    let mut j: usize = 0;
    while j < n
        invariant
            n == cells.len(),
            n == cells_count,
            slots == cells_count - 1,
            datas == cell_datas(cells@),
            j <= n,
            k < n,
            well_scanned(datas),
            info_position(datas) == k,
            last_slot(datas) < slots,
            table@.len() == slots,
            slots_in_range_before(datas, slots as int, j as int),
            slots_distinct_before(datas, j as int),
            forall|s: int|
                0 <= s < slots && #[trigger] table@[s] != n ==> table@[s] < j && slot_index(
                    datas,
                    s,
                    table@[s] as int,
                ),
            forall|c: int|
                0 <= c < j && is_client_data(#[trigger] datas[c]) ==> table@[slot_of(datas[c])]
                    == c,
        decreases n - j,
    {
        assert(datas[j as int] == cells[j as int].output_data@);
        if j != k {
            assert(is_client_data(datas[j as int])) by {
                assert(is_client_data(datas[j as int]) || is_info_data(datas[j as int]));
                if j < k {
                    assert(!(is_info_data(datas[j as int]) && is_info_data(datas[k as int])));
                } else {
                    assert(!(is_info_data(datas[k as int]) && is_info_data(datas[j as int])));
                }
            }
            let id = cells[j].output_data[0];
            if id >= slots {
                let e = Corruption::ClientIdOutOfRange { index: j, id };
                proof {
                    lemma_fault_excludes_validity(datas, cells_count, e);
                }
                return Err(e);
            }
            let first = table[id as usize];
            if first != n {
                let e = Corruption::DuplicateClientId { id, first, second: j };
                proof {
                    lemma_fault_excludes_validity(datas, cells_count, e);
                }
                return Err(e);
            }
            table.set(id as usize, j);
        }
        j = j + 1;
    }
    let oldest_id = oldest_slot(last_id, slots);
    proof {
        assert(valid_group(datas, cells_count as int));
        lemma_every_slot_taken(datas, cells_count as int, last_id as int);
        lemma_every_slot_taken(datas, cells_count as int, oldest_id as int);
    }
    let i_new = table[last_id as usize];
    let i_old = table[oldest_id as usize];
    assert(i_new == slot_position(datas, last_id as int));
    assert(i_old == slot_position(datas, oldest_id as int));
    assert(datas[i_new as int] == cells[i_new as int].output_data@);
    assert(datas[i_old as int] == cells[i_old as int].output_data@);
    Ok(
        Some(
            UpdateCells {
                oldest: cells[i_old].duplicate(),
                latest: cells[i_new].duplicate(),
                info: cells[k].duplicate(),
            },
        ),
    )
}

} // verus!
