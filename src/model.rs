//! The mathematical model of stored records and of the two backend
//! primitives (conditional insert, fetch-and-increment), with the laws that
//! hold of runs of them.

use crate::policy::{RegistryError, WriteOutcome};
use vstd::prelude::*;

verus! {

/// A stored record, as a mathematical value.
pub struct RecordView {
    pub code: Seq<char>,
    pub value: Seq<char>,
    pub owner: Option<Seq<char>>,
    pub visits: nat,
}

/// Some record of `recs` carries `code`.
pub open spec fn has_code(recs: Seq<RecordView>, code: Seq<char>) -> bool {
    exists|i: int| 0 <= i < recs.len() && #[trigger] recs[i].code == code
}

/// No two records share a code.
pub open spec fn codes_distinct(recs: Seq<RecordView>) -> bool {
    forall|i: int, j: int|
        0 <= i < recs.len() && 0 <= j < recs.len() && i != j ==> #[trigger] recs[i].code
            != #[trigger] recs[j].code
}

/// Position of the record carrying `code` (meaningful when `has_code`).
pub open spec fn index_of(recs: Seq<RecordView>, code: Seq<char>) -> int {
    choose|i: int| 0 <= i < recs.len() && #[trigger] recs[i].code == code
}

/// Some record has a code of exactly `len` characters.
pub open spec fn length_taken(recs: Seq<RecordView>, len: int) -> bool {
    exists|i: int| 0 <= i < recs.len() && #[trigger] recs[i].code.len() == len
}

/// The record a successful allocation creates.
pub open spec fn new_record(code: Seq<char>, value: Seq<char>, owner: Option<Seq<char>>) -> RecordView {
    RecordView { code, value, owner, visits: 0 }
}

/// Conditional insert: stores a fresh record unless `code` is already taken.
pub open spec fn create_spec(
    recs: Seq<RecordView>,
    code: Seq<char>,
    value: Seq<char>,
    owner: Option<Seq<char>>,
) -> (Seq<RecordView>, WriteOutcome) {
    if has_code(recs, code) {
        (recs, WriteOutcome::Collision)
    } else {
        (recs.push(new_record(code, value, owner)), WriteOutcome::Created)
    }
}

/// `recs` with the visit count of record `i` one higher.
pub open spec fn bumped(recs: Seq<RecordView>, i: int) -> Seq<RecordView> {
    recs.update(i, RecordView { visits: recs[i].visits + 1, ..recs[i] })
}

/// Fetch-and-increment: the stored value of `code` with its visit count one
/// higher, "not found" (`Ok(None)`) with nothing changed, or a backend error
/// when the counter is already at the largest value it can hold.
pub open spec fn resolve_spec(recs: Seq<RecordView>, code: Seq<char>) -> (
    Seq<RecordView>,
    Result<Option<Seq<char>>, RegistryError>,
) {
    if !has_code(recs, code) {
        (recs, Ok(None))
    } else {
        let i = index_of(recs, code);
        if recs[i].visits < u64::MAX {
            (bumped(recs, i), Ok(Some(recs[i].value)))
        } else {
            (recs, Err(RegistryError::Backend))
        }
    }
}

/// The visit count of the record carrying `code`.
pub open spec fn visits_of(recs: Seq<RecordView>, code: Seq<char>) -> nat {
    recs[index_of(recs, code)].visits
}

/// `states[i + 1]` is what a successful allocation of `codes[i]` (with
/// `values[i]` and `owners[i]`) made of `states[i]`, for every `i`.
pub open spec fn allocation_run(
    states: Seq<Seq<RecordView>>,
    codes: Seq<Seq<char>>,
    values: Seq<Seq<char>>,
    owners: Seq<Option<Seq<char>>>,
) -> bool {
    &&& states.len() == codes.len() + 1
    &&& values.len() == codes.len()
    &&& owners.len() == codes.len()
    &&& forall|i: int|
        0 <= i < codes.len() ==> #[trigger] create_spec(states[i], codes[i], values[i], owners[i])
            == (states[i + 1], WriteOutcome::Created)
}

/// `states[i + 1]` is what a successful resolution of `code` made of
/// `states[i]`, for every `i`.
pub open spec fn resolution_run(states: Seq<Seq<RecordView>>, code: Seq<char>) -> bool {
    &&& states.len() >= 1
    &&& forall|i: int|
        0 <= i < states.len() - 1 ==> {
            let (post, r) = #[trigger] resolve_spec(states[i], code);
            post == states[i + 1] && r is Ok && r->Ok_0 is Some
        }
}

proof fn lemma_index_of(recs: Seq<RecordView>, i: int)
    requires
        codes_distinct(recs),
        0 <= i < recs.len(),
    ensures
        has_code(recs, recs[i].code),
        index_of(recs, recs[i].code) == i,
{
    assert(recs[i].code == recs[i].code);
}

proof fn lemma_push_distinct(recs: Seq<RecordView>, r: RecordView)
    requires
        codes_distinct(recs),
        !has_code(recs, r.code),
    ensures
        codes_distinct(recs.push(r)),
{
    let p = recs.push(r);
    assert forall|i: int, j: int|
        0 <= i < p.len() && 0 <= j < p.len() && i != j implies #[trigger] p[i].code
        != #[trigger] p[j].code by {
        if i == recs.len() {
            assert(recs[j].code == p[j].code);
        } else if j == recs.len() {
            assert(recs[i].code == p[i].code);
        }
    }
}

proof fn lemma_bumped_keeps_codes(recs: Seq<RecordView>, i: int)
    requires
        0 <= i < recs.len(),
    ensures
        bumped(recs, i).len() == recs.len(),
        forall|j: int| 0 <= j < recs.len() ==> #[trigger] bumped(recs, i)[j].code == recs[j].code,
        forall|j: int| 0 <= j < recs.len() ==> #[trigger] bumped(recs, i)[j].value == recs[j].value,
        forall|j: int| 0 <= j < recs.len() ==> #[trigger] bumped(recs, i)[j].owner == recs[j].owner,
{
}

/// A successful allocation keeps every code distinct and adds exactly one
/// record.
pub proof fn lemma_create_preserves(
    recs: Seq<RecordView>,
    code: Seq<char>,
    value: Seq<char>,
    owner: Option<Seq<char>>,
)
    requires
        codes_distinct(recs),
    ensures
        codes_distinct(create_spec(recs, code, value, owner).0),
{
    if !has_code(recs, code) {
        lemma_push_distinct(recs, new_record(code, value, owner));
    }
}

/// Resolution never changes a code, a value or an owner, and so keeps every
/// code distinct.
pub proof fn lemma_resolve_preserves(recs: Seq<RecordView>, code: Seq<char>)
    requires
        codes_distinct(recs),
    ensures
        codes_distinct(resolve_spec(recs, code).0),
        resolve_spec(recs, code).0.len() == recs.len(),
        forall|j: int|
            0 <= j < recs.len() ==> #[trigger] resolve_spec(recs, code).0[j].code == recs[j].code
                && resolve_spec(recs, code).0[j].value == recs[j].value
                && resolve_spec(recs, code).0[j].owner == recs[j].owner,
{
    if has_code(recs, code) {
        let i = index_of(recs, code);
        lemma_bumped_keeps_codes(recs, i);
        let b = bumped(recs, i);
        assert forall|x: int, y: int|
            0 <= x < b.len() && 0 <= y < b.len() && x != y implies #[trigger] b[x].code
            != #[trigger] b[y].code by {
            assert(b[x].code == recs[x].code);
            assert(b[y].code == recs[y].code);
        }
    }
}

/// Uniqueness: however many allocations succeed in a row, starting from a
/// store whose codes are distinct, no two of them hand out the same code,
/// every handed-out code is stored, and the store's codes stay distinct.
pub proof fn lemma_codes_unique(
    states: Seq<Seq<RecordView>>,
    codes: Seq<Seq<char>>,
    values: Seq<Seq<char>>,
    owners: Seq<Option<Seq<char>>>,
)
    requires
        allocation_run(states, codes, values, owners),
        codes_distinct(states[0]),
    ensures
        forall|i: int, j: int|
            0 <= i < codes.len() && 0 <= j < codes.len() && i != j ==> #[trigger] codes[i]
                != #[trigger] codes[j],
        forall|i: int| 0 <= i < codes.len() ==> has_code(states.last(), #[trigger] codes[i]),
        codes_distinct(states.last()),
{
    let n = codes.len() as int;
    let base = states[0].len() as int;
    lemma_run_prefix(states, codes, values, owners, n);
    let last = states[n];
    assert forall|i: int, j: int|
        0 <= i < codes.len() && 0 <= j < codes.len() && i != j implies #[trigger] codes[i]
        != #[trigger] codes[j] by {
        assert(last[base + i].code == codes[i]);
        assert(last[base + j].code == codes[j]);
    }
    assert forall|i: int| 0 <= i < codes.len() implies has_code(states.last(), #[trigger] codes[i]) by {
        assert(last[base + i].code == codes[i]);
    }
}

proof fn lemma_run_prefix(
    states: Seq<Seq<RecordView>>,
    codes: Seq<Seq<char>>,
    values: Seq<Seq<char>>,
    owners: Seq<Option<Seq<char>>>,
    k: int,
)
    requires
        allocation_run(states, codes, values, owners),
        codes_distinct(states[0]),
        0 <= k <= codes.len(),
    ensures
        states[k].len() == states[0].len() + k,
        forall|j: int| 0 <= j < k ==> #[trigger] states[k][states[0].len() + j].code == codes[j],
        codes_distinct(states[k]),
    decreases k,
{
    if k > 0 {
        lemma_run_prefix(states, codes, values, owners, k - 1);
        let pre = states[k - 1];
        assert(create_spec(pre, codes[k - 1], values[k - 1], owners[k - 1]) == (
        states[k],
        WriteOutcome::Created,
        ));
        lemma_create_preserves(pre, codes[k - 1], values[k - 1], owners[k - 1]);
        assert forall|j: int| 0 <= j < k implies #[trigger] states[k][states[0].len() + j].code
            == codes[j] by {
            if j < k - 1 {
                assert(states[k][states[0].len() + j] == pre[states[0].len() + j]);
            }
        }
    }
}

/// Round trip: right after a successful allocation of `code`, resolving
/// `code` returns exactly the value that was stored.
pub proof fn lemma_round_trip(
    recs: Seq<RecordView>,
    code: Seq<char>,
    value: Seq<char>,
    owner: Option<Seq<char>>,
)
    requires
        codes_distinct(recs),
        create_spec(recs, code, value, owner).1 == WriteOutcome::Created,
    ensures
        resolve_spec(create_spec(recs, code, value, owner).0, code).1 == Ok::<
            Option<Seq<char>>,
            RegistryError,
        >(Some(value)),
{
    let post = create_spec(recs, code, value, owner).0;
    lemma_create_preserves(recs, code, value, owner);
    lemma_index_of(post, recs.len() as int);
}

/// Counter correctness: after `states.len() - 1` successful resolutions of
/// `code` in a row, its visit count has grown by exactly that many, and its
/// value and owner are unchanged.
pub proof fn lemma_visit_count(states: Seq<Seq<RecordView>>, code: Seq<char>)
    requires
        resolution_run(states, code),
        codes_distinct(states[0]),
        has_code(states[0], code),
    ensures
        has_code(states.last(), code),
        visits_of(states.last(), code) == visits_of(states[0], code) + states.len() - 1,
        states.last()[index_of(states.last(), code)].value == states[0][index_of(
            states[0],
            code,
        )].value,
        states.last()[index_of(states.last(), code)].owner == states[0][index_of(
            states[0],
            code,
        )].owner,
{
    lemma_resolution_prefix(states, code, states.len() - 1);
}

proof fn lemma_resolution_prefix(states: Seq<Seq<RecordView>>, code: Seq<char>, k: int)
    requires
        resolution_run(states, code),
        codes_distinct(states[0]),
        has_code(states[0], code),
        0 <= k < states.len(),
    ensures
        codes_distinct(states[k]),
        has_code(states[k], code),
        index_of(states[k], code) == index_of(states[0], code),
        visits_of(states[k], code) == visits_of(states[0], code) + k,
        states[k][index_of(states[k], code)].value == states[0][index_of(states[0], code)].value,
        states[k][index_of(states[k], code)].owner == states[0][index_of(states[0], code)].owner,
    decreases k,
{
    let i0 = index_of(states[0], code);
    if k == 0 {
        lemma_index_of(states[0], i0);
    } else {
        lemma_resolution_prefix(states, code, k - 1);
        let pre = states[k - 1];
        let (post, r) = resolve_spec(pre, code);
        assert(post == states[k] && r is Ok && r->Ok_0 is Some);
        lemma_resolve_preserves(pre, code);
        lemma_bumped_keeps_codes(pre, i0);
        lemma_index_of(post, i0);
    }
}

/// Not-found stability: resolving a code that no record carries reports
/// "not found" and changes nothing, so a later insert under that very code
/// still succeeds.
pub proof fn lemma_not_found_stable(
    recs: Seq<RecordView>,
    code: Seq<char>,
    value: Seq<char>,
    owner: Option<Seq<char>>,
)
    requires
        !has_code(recs, code),
    ensures
        resolve_spec(recs, code) == (recs, Ok::<Option<Seq<char>>, RegistryError>(None)),
        create_spec(resolve_spec(recs, code).0, code, value, owner).1 == WriteOutcome::Created,
{
}

} // verus!
