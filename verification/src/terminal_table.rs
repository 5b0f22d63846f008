//! The records of the terminals the agent runs, kept by terminal id: what
//! creating, checking, attaching to and killing a terminal does to them.

use crate::error::ApiError;
use crate::terminal::{
    attach_check, attachable, attached, mark_attached, mark_killed, reconcile_status, update_status,
    with_status,
};
use crate::types::{summary_of, TerminalId, TerminalMetadata, TerminalStatus, TerminalSummary, Timestamp};
use vstd::prelude::*;

verus! {

/// The position of the last record with id `k`, if any.
pub open spec fn last_index(rs: Seq<TerminalMetadata>, k: Seq<char>) -> Option<int>
    decreases rs.len(),
{
    if rs.len() == 0 {
        None
    } else if rs.last().id.0@ == k {
        Some(rs.len() - 1)
    } else {
        last_index(rs.drop_last(), k)
    }
}

/// The record of the terminal with id `k`, if any.
pub open spec fn record_in(rs: Seq<TerminalMetadata>, k: Seq<char>) -> Option<TerminalMetadata> {
    match last_index(rs, k) {
        Some(i) => Some(rs[i]),
        None => None,
    }
}

/// The records with the record of `k` replaced by `m`; unchanged when
/// there is no record of `k`.
pub open spec fn with_record(rs: Seq<TerminalMetadata>, k: Seq<char>, m: TerminalMetadata) -> Seq<
    TerminalMetadata,
> {
    match last_index(rs, k) {
        Some(i) => rs.update(i, m),
        None => rs,
    }
}

/// A record after checking on its process: an exit reported by `exited`
/// marks it exited with its code.
pub open spec fn reconciled(m: TerminalMetadata, exited: Option<u32>, now: Timestamp) -> TerminalMetadata {
    match exited {
        Some(code) => with_status(
            m,
            TerminalStatus::Exited,
            if code <= i32::MAX {
                Some(code as i32)
            } else {
                None
            },
            now,
        ),
        None => m,
    }
}

/// The records after killing the terminal `k`: it is exited with code 0.
pub open spec fn killed(rs: Seq<TerminalMetadata>, k: Seq<char>, now: Timestamp) -> Seq<
    TerminalMetadata,
> {
    match record_in(rs, k) {
        Some(m) => with_record(rs, k, with_status(m, TerminalStatus::Exited, Some(0i32), now)),
        None => rs,
    }
}

/// The last record with a given id is where `last_index` says.
proof fn lemma_last_index_shape(rs: Seq<TerminalMetadata>, k: Seq<char>)
    ensures
        match last_index(rs, k) {
            Some(i) => 0 <= i < rs.len() && rs[i].id.0@ == k && forall|j: int|
                i < j < rs.len() ==> #[trigger] rs[j].id.0@ != k,
            None => forall|j: int| 0 <= j < rs.len() ==> #[trigger] rs[j].id.0@ != k,
        },
    decreases rs.len(),
{
    if rs.len() > 0 && rs.last().id.0@ != k {
        lemma_last_index_shape(rs.drop_last(), k);
        let p = rs.drop_last();
        match last_index(p, k) {
            Some(i) => {
                assert forall|j: int| i < j < rs.len() implies #[trigger] rs[j].id.0@ != k by {
                    if j < rs.len() - 1 {
                        assert(rs[j] == p[j]);
                    }
                }
            },
            None => {
                assert forall|j: int| 0 <= j < rs.len() implies #[trigger] rs[j].id.0@ != k by {
                    if j < rs.len() - 1 {
                        assert(rs[j] == p[j]);
                    }
                }
            },
        }
    }
}

/// Replacing a record by one with the same id moves no record.
proof fn lemma_update_same_id(rs: Seq<TerminalMetadata>, i: int, m: TerminalMetadata, k2: Seq<char>)
    requires
        0 <= i < rs.len(),
        m.id.0@ == rs[i].id.0@,
    ensures
        last_index(rs.update(i, m), k2) == last_index(rs, k2),
    decreases rs.len(),
{
    let u = rs.update(i, m);
    if i < rs.len() - 1 {
        assert(u.drop_last() =~= rs.drop_last().update(i, m));
        assert(u.last() == rs.last());
        if rs.last().id.0@ != k2 {
            lemma_update_same_id(rs.drop_last(), i, m, k2);
        }
    } else {
        assert(u.drop_last() =~= rs.drop_last());
    }
}

/// Replacing the record of `k` changes the record of `k` alone.
pub proof fn lemma_with_record(rs: Seq<TerminalMetadata>, k: Seq<char>, m: TerminalMetadata, k2: Seq<char>)
    requires
        m.id.0@ == k,
    ensures
        record_in(with_record(rs, k, m), k2) == if k2 == k && record_in(rs, k) is Some {
            Some(m)
        } else {
            record_in(rs, k2)
        },
{
    lemma_last_index_shape(rs, k);
    lemma_last_index_shape(rs, k2);
    match last_index(rs, k) {
        Some(i) => {
            lemma_update_same_id(rs, i, m, k2);
            match last_index(rs, k2) {
                Some(j) => {
                    if k2 != k {
                        assert(j != i);
                    }
                },
                None => {},
            }
        },
        None => {},
    }
}

/// Adding a record in front of nothing else with its id puts it last.
proof fn lemma_push_record(rs: Seq<TerminalMetadata>, m: TerminalMetadata, k2: Seq<char>)
    ensures
        record_in(rs.push(m), k2) == if k2 == m.id.0@ {
            Some(m)
        } else {
            record_in(rs, k2)
        },
{
    let p = rs.push(m);
    assert(p.drop_last() =~= rs);
    assert(p.last() == m);
    if k2 != m.id.0@ {
        lemma_last_index_shape(rs, k2);
        match last_index(rs, k2) {
            Some(i) => {
                assert(p[i] == rs[i]);
            },
            None => {},
        }
    }
}

/// Killing one terminal leaves every other terminal's record as it was,
/// and the killed terminal can no longer be attached to.
pub proof fn lemma_kill_keeps_others(rs: Seq<TerminalMetadata>, k: Seq<char>, other: Seq<char>, now: Timestamp)
    ensures
        other != k ==> record_in(killed(rs, k, now), other) == record_in(rs, other),
        record_in(killed(rs, k, now), k) matches Some(m) ==> !attachable(m.status),
        record_in(killed(rs, k, now), k) is Some <==> record_in(rs, k) is Some,
{
    match record_in(rs, k) {
        Some(m) => {
            lemma_last_index_shape(rs, k);
            let m2 = with_status(m, TerminalStatus::Exited, Some(0i32), now);
            lemma_with_record(rs, k, m2, other);
            lemma_with_record(rs, k, m2, k);
        },
        None => {},
    }
}

/// Whether no two records share an id.
pub open spec fn unique_ids(rs: Seq<TerminalMetadata>) -> bool {
    forall|i: int, j: int| 0 <= i < j < rs.len() ==> #[trigger] rs[i].id.0@ != #[trigger] rs[j].id.0@
}

/// Replacing a record by one with the same id keeps ids unique.
proof fn lemma_unique_update(rs: Seq<TerminalMetadata>, i: int, m: TerminalMetadata)
    requires
        unique_ids(rs),
        0 <= i < rs.len(),
        m.id.0@ == rs[i].id.0@,
    ensures
        unique_ids(rs.update(i, m)),
{
    let u = rs.update(i, m);
    assert forall|a: int, b: int| 0 <= a < b < u.len() implies #[trigger] u[a].id.0@
        != #[trigger] u[b].id.0@ by {
        assert(u[a].id.0@ == rs[a].id.0@);
        assert(u[b].id.0@ == rs[b].id.0@);
    }
}

/// Adding a record whose id no record has keeps ids unique.
proof fn lemma_unique_push(rs: Seq<TerminalMetadata>, m: TerminalMetadata)
    requires
        unique_ids(rs),
        last_index(rs, m.id.0@) is None,
    ensures
        unique_ids(rs.push(m)),
{
    lemma_last_index_shape(rs, m.id.0@);
    let u = rs.push(m);
    assert forall|a: int, b: int| 0 <= a < b < u.len() implies #[trigger] u[a].id.0@
        != #[trigger] u[b].id.0@ by {
        assert(u[a] == rs[a]);
        if b < rs.len() {
            assert(u[b] == rs[b]);
        }
    }
}

/// Takes out the record at `i`.
fn take_at(rs: &mut Vec<TerminalMetadata>, i: usize) -> (m: TerminalMetadata)
    requires
        i < old(rs)@.len(),
    ensures
        m == old(rs)@[i as int],
        final(rs)@ == old(rs)@.remove(i as int),
{
    rs.remove(i)
}

/// Puts a record in at `i`.
fn put_at(rs: &mut Vec<TerminalMetadata>, i: usize, m: TerminalMetadata)
    requires
        i <= old(rs)@.len(),
    ensures
        final(rs)@ == old(rs)@.insert(i as int, m),
{
    rs.insert(i, m);
}

/// The records of the terminals the agent runs, no id twice.
pub struct TerminalTable {
    records: Vec<TerminalMetadata>,
}

impl View for TerminalTable {
    type V = Seq<TerminalMetadata>;

    closed spec fn view(&self) -> Seq<TerminalMetadata> {
        self.records@
    }
}

impl TerminalTable {
    #[verifier::type_invariant]
    spec fn ids_unique(&self) -> bool {
        unique_ids(self.records@)
    }

    /// The record of the terminal with id `k`, if any.
    pub open spec fn record(&self, k: Seq<char>) -> Option<TerminalMetadata> {
        record_in(self@, k)
    }

    /// A table with no terminal.
    pub fn new() -> (t: TerminalTable)
        ensures
            t@ == Seq::<TerminalMetadata>::empty(),
            unique_ids(t@),
    {
        TerminalTable { records: Vec::new() }
    }

    /// The position of the record of `id`.
    fn find(&self, id: &TerminalId) -> (r: Option<usize>)
        ensures
            match r {
                Some(i) => last_index(self@, id.0@) == Some(i as int),
                None => last_index(self@, id.0@) is None,
            },
    {
        let ghost rs = self.records@;
        let mut i: usize = self.records.len();
        assert(rs.subrange(0, i as int) =~= rs);
        while i > 0
            invariant
                rs == self.records@,
                i <= rs.len(),
                last_index(rs.subrange(0, i as int), id.0@) == last_index(rs, id.0@),
            decreases i,
        {
            let ghost pre = rs.subrange(0, i as int);
            assert(pre.drop_last() =~= rs.subrange(0, i - 1));
            assert(pre.last() == rs[i - 1]);
            if self.records[i - 1].id.0 == id.0 {
                return Some(i - 1);
            }
            i -= 1;
        }
        None
    }

    /// Takes the records out, leaving the table empty; they hold no id
    /// twice.
    fn take_records(&mut self) -> (rs: Vec<TerminalMetadata>)
        ensures
            rs@ == old(self)@,
            unique_ids(rs@),
    {
        proof {
            use_type_invariant(&*self);
        }
        let mut rs: Vec<TerminalMetadata> = Vec::new();
        std::mem::swap(&mut rs, &mut self.records);
        rs
    }

    /// Puts records that hold no id twice back into the table.
    fn restore(&mut self, rs: Vec<TerminalMetadata>)
        requires
            unique_ids(rs@),
        ensures
            final(self)@ == rs@,
    {
        self.records = rs;
    }

    /// Adds the record of a new terminal: a record with its id is replaced
    /// in place, otherwise the record goes last. No id is held twice.
    pub fn insert(&mut self, meta: TerminalMetadata)
        ensures
            final(self)@ == match last_index(old(self)@, meta.id.0@) {
                Some(i) => old(self)@.update(i, meta),
                None => old(self)@.push(meta),
            },
            unique_ids(final(self)@),
            forall|k: Seq<char>| #[trigger] final(self).record(k) == if k == meta.id.0@ {
                Some(meta)
            } else {
                old(self).record(k)
            },
    {
        let ghost m = meta;
        match self.find(&meta.id) {
            Some(i) => {
                proof {
                    lemma_last_index_shape(self@, meta.id.0@);
                }
                let ghost rs0 = self@;
                let mut rs = self.take_records();
                let _ = take_at(&mut rs, i);
                put_at(&mut rs, i, meta);
                assert(rs@ =~= rs0.update(i as int, m));
                proof {
                    lemma_unique_update(rs0, i as int, m);
                }
                self.restore(rs);
                assert forall|k: Seq<char>| #[trigger] record_in(rs0.update(i as int, m), k) == if k
                    == m.id.0@ {
                    Some(m)
                } else {
                    record_in(rs0, k)
                } by {
                    lemma_with_record(rs0, m.id.0@, m, k);
                }
            },
            None => {
                let ghost rs0 = self@;
                let mut rs = self.take_records();
                rs.push(meta);
                proof {
                    lemma_unique_push(rs0, m);
                }
                self.restore(rs);
                assert forall|k: Seq<char>| #[trigger] record_in(rs0.push(m), k) == if k == m.id.0@ {
                    Some(m)
                } else {
                    record_in(rs0, k)
                } by {
                    lemma_push_record(rs0, m, k);
                }
            },
        }
    }

    /// The record of the terminal `id`.
    pub fn get(&self, id: &TerminalId) -> (r: Option<&TerminalMetadata>)
        ensures
            match r {
                Some(m) => self.record(id.0@) == Some(*m),
                None => self.record(id.0@) is None,
            },
    {
        match self.find(id) {
            Some(i) => {
                proof {
                    lemma_last_index_shape(self@, id.0@);
                }
                Some(&self.records[i])
            },
            None => None,
        }
    }

    /// Records a new status and exit code for the terminal `id`; tells
    /// whether there was such a terminal.
    pub fn record_status(
        &mut self,
        id: &TerminalId,
        status: TerminalStatus,
        exit_code: Option<i32>,
        now: Timestamp,
    ) -> (found: bool)
        ensures
            found == (old(self).record(id.0@) is Some),
            final(self)@ == match old(self).record(id.0@) {
                Some(m) => with_record(old(self)@, id.0@, with_status(m, status, exit_code, now)),
                None => old(self)@,
            },
    {
        match self.find(id) {
            Some(i) => {
                proof {
                    lemma_last_index_shape(self@, id.0@);
                }
                let mut rs = self.take_records();
                let mut m = take_at(&mut rs, i);
                update_status(&mut m, status, exit_code, now);
                put_at(&mut rs, i, m);
                assert(rs@ =~= old(self)@.update(i as int, m));
                proof {
                    lemma_unique_update(old(self)@, i as int, m);
                }
                self.restore(rs);
                true
            },
            None => false,
        }
    }

    /// Records what checking on the process of `id` found.
    pub fn reconcile(&mut self, id: &TerminalId, exited: Option<u32>, now: Timestamp)
        ensures
            final(self)@ == match old(self).record(id.0@) {
                Some(m) => with_record(old(self)@, id.0@, reconciled(m, exited, now)),
                None => old(self)@,
            },
    {
        match self.find(id) {
            Some(i) => {
                proof {
                    lemma_last_index_shape(self@, id.0@);
                }
                let mut rs = self.take_records();
                let mut m = take_at(&mut rs, i);
                reconcile_status(&mut m, exited, now);
                put_at(&mut rs, i, m);
                assert(rs@ =~= old(self)@.update(i as int, m));
                proof {
                    lemma_unique_update(old(self)@, i as int, m);
                }
                self.restore(rs);
            },
            None => {},
        }
    }

    /// An attach to the terminal `id`, after checking on its process: a
    /// missing terminal, or one that exited or failed, is not found;
    /// otherwise the attach is recorded.
    pub fn attach(&mut self, id: &TerminalId, exited: Option<u32>, now: Timestamp) -> (r: Result<
        (),
        ApiError,
    >)
        ensures
            match old(self).record(id.0@) {
                None => r matches Err(ApiError::NotFound) && final(self)@ == old(self)@,
                Some(m) => {
                    let m1 = reconciled(m, exited, now);
                    if attachable(m1.status) {
                        r is Ok && final(self)@ == with_record(
                            old(self)@,
                            id.0@,
                            attached(m1, now, now),
                        )
                    } else {
                        r matches Err(ApiError::NotFound) && final(self)@ == with_record(
                            old(self)@,
                            id.0@,
                            m1,
                        )
                    }
                },
            },
    {
        match self.find(id) {
            Some(i) => {
                proof {
                    lemma_last_index_shape(self@, id.0@);
                }
                let mut rs = self.take_records();
                let mut m = take_at(&mut rs, i);
                reconcile_status(&mut m, exited, now);
                let r = attach_check(Some(m.status));
                if r.is_ok() {
                    mark_attached(&mut m, now, now);
                }
                put_at(&mut rs, i, m);
                assert(rs@ =~= old(self)@.update(i as int, m));
                proof {
                    lemma_unique_update(old(self)@, i as int, m);
                }
                self.restore(rs);
                r
            },
            None => Err(ApiError::NotFound),
        }
    }

    /// Records that the terminal `id` was killed: exited with code 0. A
    /// missing terminal is not found.
    pub fn kill(&mut self, id: &TerminalId, now: Timestamp) -> (r: Result<(), ApiError>)
        ensures
            final(self)@ == killed(old(self)@, id.0@, now),
            old(self).record(id.0@) is Some <==> r is Ok,
            old(self).record(id.0@) is None ==> r matches Err(ApiError::NotFound),
    {
        match self.find(id) {
            Some(i) => {
                proof {
                    lemma_last_index_shape(self@, id.0@);
                }
                let mut rs = self.take_records();
                let mut m = take_at(&mut rs, i);
                mark_killed(&mut m, now);
                put_at(&mut rs, i, m);
                assert(rs@ =~= old(self)@.update(i as int, m));
                proof {
                    lemma_unique_update(old(self)@, i as int, m);
                }
                self.restore(rs);
                Ok(())
            },
            None => Err(ApiError::NotFound),
        }
    }

    /// The summaries of all terminals, in the order they were added.
    pub fn summaries(&self) -> (out: Vec<TerminalSummary>)
        ensures
            out@ == self@.map_values(|m: TerminalMetadata| summary_of(m)),
            unique_ids(self@),
    {
        proof {
            use_type_invariant(self);
        }
        let mut out: Vec<TerminalSummary> = Vec::new();
        let mut i: usize = 0;
        while i < self.records.len()
            invariant
                i <= self@.len(),
                out@ == self@.subrange(0, i as int).map_values(|m: TerminalMetadata| summary_of(m)),
            decreases self@.len() - i,
        {
            let m = &self.records[i];
            let s = TerminalSummary {
                id: TerminalId(m.id.0.clone()),
                name: m.name.clone(),
                kind: m.kind,
                status: m.status,
                command: m.command.clone(),
                cwd: m.cwd.clone(),
                cols: m.cols,
                rows: m.rows,
                exit_code: m.exit_code,
                last_attached_at: m.last_attached_at,
            };
            out.push(s);
            assert(self@.subrange(0, i + 1).map_values(|m: TerminalMetadata| summary_of(m))
                =~= self@.subrange(0, i as int).map_values(|m: TerminalMetadata| summary_of(m)).push(
                summary_of(self@[i as int]),
            ));
            i += 1;
        }
        assert(self@.subrange(0, self@.len() as int) =~= self@);
        out
    }
}

} // verus!
