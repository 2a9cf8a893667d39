//! An in-process registry: the record store with its two atomic primitives,
//! and the allocation and resolution paths built on them.

use crate::codegen::{gen_key, is_code, KEY_LEN};
use crate::model::{
    bumped, codes_distinct, lemma_create_preserves, lemma_resolve_preserves, create_spec, has_code, index_of, length_taken, new_record, resolve_spec,
    RecordView,
};
use crate::policy::{next_step, AllocStep, RegistryError, WriteOutcome, MAX_RETRIES};
use vstd::prelude::*;

verus! {

/// One stored record.
pub struct Record {
    pub code: String,
    pub value: String,
    pub owner: Option<String>,
    pub visit_count: u64,
}

/// The view of an optional string.
pub open spec fn opt_view(o: Option<String>) -> Option<Seq<char>> {
    match o {
        Some(s) => Some(s@),
        None => None,
    }
}

/// The view of what `Registry::resolve` returns.
pub open spec fn resolution_view(r: Result<Option<String>, RegistryError>) -> Result<
    Option<Seq<char>>,
    RegistryError,
> {
    match r {
        Ok(o) => Ok(opt_view(o)),
        Err(e) => Err(e),
    }
}

impl View for Record {
    type V = RecordView;

    open spec fn view(&self) -> RecordView {
        RecordView {
            code: self.code@,
            value: self.value@,
            owner: opt_view(self.owner),
            visits: self.visit_count as nat,
        }
    }
}

fn clone_owner(owner: &Option<String>) -> (r: Option<String>)
    ensures
        opt_view(r) == opt_view(*owner),
{
    match owner {
        Some(o) => Some(o.clone()),
        None => None,
    }
}

/// The record store. Every operation runs to completion under `&mut self`,
/// so a conditional insert and a fetch-and-increment are each atomic.
pub struct Registry {
    records: Vec<Record>,
}

impl View for Registry {
    type V = Seq<RecordView>;

    closed spec fn view(&self) -> Seq<RecordView> {
        self.records@.map_values(|r: Record| r@)
    }
}

impl Registry {
    /// Well-formed: no two records share a code.
    pub open spec fn wf(&self) -> bool {
        codes_distinct(self@)
    }

    /// An empty registry.
    pub fn new() -> (r: Self)
        ensures
            r.wf(),
            r@ == Seq::<RecordView>::empty(),
    {
        let r = Registry { records: Vec::new() };
        assert(r@ =~= Seq::<RecordView>::empty());
        r
    }

    /// Number of stored records.
    pub fn len(&self) -> (n: usize)
        ensures
            n == self@.len(),
    {
        self.records.len()
    }

    fn find(&self, code: &String) -> (r: Option<usize>)
        requires
            self.wf(),
        ensures
            match r {
                Some(i) => i < self@.len() && has_code(self@, code@) && i == index_of(
                    self@,
                    code@,
                ),
                None => !has_code(self@, code@),
            },
    {
        let mut i: usize = 0;
        while i < self.records.len()
            invariant
                self.wf(),
                i <= self.records.len(),
                self@.len() == self.records@.len(),
                forall|k: int| 0 <= k < i ==> #[trigger] self@[k].code != code@,
            decreases self.records.len() - i,
        {
            if self.records[i].code == *code {
                proof {
                    assert(self@[i as int].code == code@);
                    assert(has_code(self@, code@));
                    let j = index_of(self@, code@);
                    assert(self@[j].code == code@);
                    assert(j == i as int);
                }
                return Some(i);
            }
            i = i + 1;
        }
        None
    }

    /// Conditional insert: stores a new record with a zero visit count under
    /// `code` if no record carries it yet, and reports a collision otherwise.
    pub fn try_create(&mut self, code: &String, value: &String, owner: &Option<String>) -> (r:
        WriteOutcome)
        requires
            old(self).wf(),
        ensures
            final(self).wf(),
            (final(self)@, r) == create_spec(old(self)@, code@, value@, opt_view(*owner)),
    {
        match self.find(code) {
            Some(_) => WriteOutcome::Collision,
            None => {
                let rec = Record {
                    code: code.clone(),
                    value: value.clone(),
                    owner: clone_owner(owner),
                    visit_count: 0,
                };
                self.records.push(rec);
                proof {
                    assert(self@ =~= old(self)@.push(new_record(code@, value@, opt_view(*owner))));
                    lemma_create_preserves(old(self)@, code@, value@, opt_view(*owner));
                }
                WriteOutcome::Created
            },
        }
    }

    /// Allocates a fresh code for `value` and `owner`. Attempt `a` (from 0
    /// up to `MAX_RETRIES`) draws a candidate of `KEY_LEN + a` characters and
    /// tries to insert it; the first insert that does not collide wins.
    pub fn allocate(&mut self, value: &String, owner: &Option<String>) -> (r: Result<
        String,
        RegistryError,
    >)
        requires
            old(self).wf(),
        ensures
            final(self).wf(),
            match r {
                Ok(c) => {
                    &&& is_code(c@)
                    &&& KEY_LEN <= c@.len() <= KEY_LEN + MAX_RETRIES
                    &&& forall|len: int|
                        KEY_LEN <= len < c@.len() ==> #[trigger] length_taken(old(self)@, len)
                    &&& create_spec(old(self)@, c@, value@, opt_view(*owner)) == (
                        final(self)@,
                        WriteOutcome::Created,
                    )
                },
                Err(e) => {
                    &&& e == RegistryError::RetriesExhausted
                    &&& final(self)@ == old(self)@
                    &&& forall|len: int|
                        KEY_LEN <= len <= KEY_LEN + MAX_RETRIES ==> #[trigger] length_taken(
                            old(self)@,
                            len,
                        )
                },
            },
            (exists|len: int|
                KEY_LEN <= len <= KEY_LEN + MAX_RETRIES && !#[trigger] length_taken(
                    old(self)@,
                    len,
                )) ==> r is Ok,
    {
        let mut attempt: usize = 0;
        loop
            invariant
                self.wf(),
                self@ == old(self)@,
                attempt <= MAX_RETRIES,
                forall|len: int|
                    KEY_LEN <= len < KEY_LEN + attempt ==> #[trigger] length_taken(old(self)@, len),
            decreases MAX_RETRIES - attempt,
        {
            let code = gen_key(attempt);
            let outcome = self.try_create(&code, value, owner);
            if outcome == WriteOutcome::Collision {
                proof {
                    let i = index_of(old(self)@, code@);
                    assert(old(self)@[i].code.len() == KEY_LEN + attempt);
                    assert(length_taken(old(self)@, KEY_LEN + attempt));
                }
            }
            match next_step(attempt, outcome) {
                AllocStep::Done => {
                    return Ok(code);
                },
                AllocStep::Retry(a) => {
                    attempt = a;
                },
                AllocStep::Failed(e) => {
                    return Err(e);
                },
            }
        }
    }

    /// Resolves `code`: returns its value and adds one to its visit count in
    /// the same step, or returns `Ok(None)` ("not found") and changes nothing.
    /// A counter already at `u64::MAX` is reported as a backend error.
    pub fn resolve(&mut self, code: &String) -> (r: Result<Option<String>, RegistryError>)
        requires
            old(self).wf(),
        ensures
            final(self).wf(),
            (final(self)@, resolution_view(r)) == resolve_spec(old(self)@, code@),
    {
        match self.find(code) {
            None => Ok(None),
            Some(i) => {
                if self.records[i].visit_count == u64::MAX {
                    Err(RegistryError::Backend)
                } else {
                    let value = self.records[i].value.clone();
                    let count = self.records[i].visit_count;
                    let rec = Record {
                        code: self.records[i].code.clone(),
                        value: value.clone(),
                        owner: clone_owner(&self.records[i].owner),
                        visit_count: count + 1,
                    };
                    self.records.set(i, rec);
                    proof {
                        assert(self@ =~= bumped(old(self)@, i as int));
                        lemma_resolve_preserves(old(self)@, code@);
                    }
                    Ok(Some(value))
                }
            },
        }
    }

    /// The visit count of the record carrying `code`, if there is one.
    pub fn visit_count(&self, code: &String) -> (r: Option<u64>)
        requires
            self.wf(),
        ensures
            match r {
                Some(n) => has_code(self@, code@) && n == self@[index_of(self@, code@)].visits,
                None => !has_code(self@, code@),
            },
    {
        match self.find(code) {
            Some(i) => Some(self.records[i].visit_count),
            None => None,
        }
    }

    /// The owner of the record carrying `code` (`Some(None)` for an anonymous
    /// record), or `None` if no record carries it.
    pub fn owner_of(&self, code: &String) -> (r: Option<Option<String>>)
        requires
            self.wf(),
        ensures
            match r {
                Some(o) => has_code(self@, code@) && opt_view(o) == self@[index_of(
                    self@,
                    code@,
                )].owner,
                None => !has_code(self@, code@),
            },
    {
        match self.find(code) {
            Some(i) => Some(clone_owner(&self.records[i].owner)),
            None => None,
        }
    }
}

} // verus!
