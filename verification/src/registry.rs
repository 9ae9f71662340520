//! The registry: the single source of truth for instance identity, port and
//! lifecycle state.
//!
//! Records are kept sorted by name so that listings are deterministic, and
//! every mutating operation performs its own existence check in the same call
//! as its write, so a caller never acts on a check that another write has
//! invalidated in between.

use vstd::prelude::*;

use crate::errors::ClientError;
use crate::record::{with_started, Servers};
use crate::text::{
    lemma_lex_antisym, lemma_lex_lt_trans, lemma_lex_total, lex_le, lex_le_exec, lex_lt,
};

verus! {

/// Whether some record of `s` bears the (normalized) name `n`.
pub open spec fn has_name(s: Seq<Servers>, n: Seq<char>) -> bool {
    exists|i: int| 0 <= i < s.len() && #[trigger] s[i].name@ == n
}

/// The index of the record of `s` named `n` (meaningful when `has_name`).
pub open spec fn idx_of(s: Seq<Servers>, n: Seq<char>) -> int {
    choose|i: int| 0 <= i < s.len() && #[trigger] s[i].name@ == n
}

/// The record of `s` named `n` (meaningful when `has_name`).
pub open spec fn record_of(s: Seq<Servers>, n: Seq<char>) -> Servers {
    s[idx_of(s, n)]
}

/// Whether some record of `s` holds the port `p`.
pub open spec fn has_port(s: Seq<Servers>, p: i64) -> bool {
    exists|i: int| 0 <= i < s.len() && #[trigger] s[i].port == p
}

/// Well-formedness of the stored records: sorted strictly by name (hence
/// names are unique), ports unique, ids unique and nonnegative.
pub open spec fn wf_records(s: Seq<Servers>) -> bool {
    &&& forall|i: int, j: int|
        0 <= i < j < s.len() ==> lex_lt(#[trigger] s[i].name@, #[trigger] s[j].name@)
    &&& forall|i: int, j: int|
        0 <= i < j < s.len() ==> #[trigger] s[i].port != #[trigger] s[j].port
    &&& forall|i: int, j: int|
        0 <= i < j < s.len() ==> #[trigger] s[i].id != #[trigger] s[j].id
    &&& forall|i: int| 0 <= i < s.len() ==> 0 <= #[trigger] s[i].id
}

pub struct Registry {
    records: Vec<Servers>,
    next_id: i64,
}

impl View for Registry {
    type V = Seq<Servers>;

    closed spec fn view(&self) -> Seq<Servers> {
        self.records@
    }
}

impl Registry {
    /// Internal id-accounting: every stored id was minted below `next_id`.
    pub closed spec fn ids_ok(&self) -> bool {
        &&& 1 <= self.next_id
        &&& forall|i: int|
            0 <= i < self.records@.len() ==> #[trigger] self.records@[i].id < self.next_id
    }

    /// Whether the id space is used up, so that no further record can be
    /// assigned a fresh id.
    pub closed spec fn id_exhausted(&self) -> bool {
        self.next_id == i64::MAX
    }

    /// The registry invariant.
    pub open spec fn inv(&self) -> bool {
        wf_records(self@) && self.ids_ok()
    }

    /// An empty registry.
    pub fn new() -> (r: Registry)
        ensures
            r.inv(),
            r@ =~= Seq::<Servers>::empty(),
            !r.id_exhausted(),
    {
        Registry { records: Vec::new(), next_id: 1 }
    }

    /// How many records are stored.
    pub fn count(&self) -> (n: usize)
        ensures
            n == self@.len(),
    {
        self.records.len()
    }

    /// The record at position `i` of the name-ordered listing.
    pub fn record_at(&self, i: usize) -> (r: &Servers)
        requires
            i < self@.len(),
        ensures
            *r == self@[i as int],
    {
        &self.records[i]
    }

    /// Whether a record named `name` exists.
    pub fn contains_name(&self, name: &String) -> (r: bool)
        ensures
            r == has_name(self@, name@),
    {
        let n = self.records.len();
        let mut i: usize = 0;
        while i < n
            invariant
                i <= n,
                n == self@.len(),
                forall|k: int| 0 <= k < i ==> #[trigger] self@[k].name@ != name@,
            decreases n - i,
        {
            if self.records[i].name == *name {
                return true;
            }
            i += 1;
        }
        false
    }

    /// The record named `name`, or `None`.
    pub fn get(&self, name: &String) -> (r: Option<&Servers>)
        requires
            self.inv(),
        ensures
            match r {
                Some(rec) => {
                    &&& has_name(self@, name@)
                    &&& *rec == record_of(self@, name@)
                    &&& rec.name@ == name@
                },
                None => !has_name(self@, name@),
            },
    {
        let n = self.records.len();
        let mut i: usize = 0;
        while i < n
            invariant
                i <= n,
                n == self@.len(),
                self.inv(),
                forall|k: int| 0 <= k < i ==> #[trigger] self@[k].name@ != name@,
            decreases n - i,
        {
            if self.records[i].name == *name {
                proof {
                    lemma_record_of_unique(self@, name@, i as int);
                }
                return Some(&self.records[i]);
            }
            i += 1;
        }
        None
    }

    /// Inserts a new record in state `Stopped`, assigning it a fresh id, if
    /// and only if no record bears `name` and an id can still be minted.
    ///
    /// The check and the write are one operation: no caller-side check is
    /// consulted.
    pub fn insert(
        &mut self,
        name: String,
        version: String,
        difficulty: String,
        port: i64,
    ) -> (r: Result<i64, ClientError>)
        requires
            old(self).inv(),
            !has_port(old(self)@, port),
        ensures
            final(self).inv(),
            match r {
                Ok(id) => {
                    &&& !has_name(old(self)@, name@)
                    &&& !old(self).id_exhausted()
                    &&& 0 <= id
                    &&& forall|k: int| 0 <= k < old(self)@.len() ==> #[trigger] old(self)@[k].id != id
                    &&& exists|i: int|
                        0 <= i <= old(self)@.len() && final(self)@ =~= old(self)@.insert(
                            i,
                            (Servers {
                                id,
                                name,
                                version,
                                difficulty,
                                port,
                                started: false,
                            }),
                        )
                },
                Err(e) => {
                    &&& final(self)@ == old(self)@
                    &&& (e matches ClientError::AlreadyExists <==> has_name(old(self)@, name@))
                    &&& (e matches ClientError::StorageError(_) <==> !has_name(old(self)@, name@)
                        && old(self).id_exhausted())
                    &&& (e matches ClientError::AlreadyExists || e matches ClientError::StorageError(
                        _,
                    ))
                },
            },
            r is Ok <==> !has_name(old(self)@, name@) && !old(self).id_exhausted(),
    {
        let n = self.records.len();
        let mut i: usize = 0;
        while i < n && lex_lt_exec(&self.records[i].name, &name)
            invariant
                i <= n,
                n == self@.len(),
                self.inv(),
                forall|k: int| 0 <= k < i ==> lex_lt(#[trigger] self@[k].name@, name@),
            decreases n - i,
        {
            i += 1;
        }
        if i < n && self.records[i].name == name {
            return Err(ClientError::AlreadyExists);
        }
        proof {
            lemma_absent_at_gap(self@, name@, i as int);
        }
        if self.next_id == i64::MAX {
            return Err(ClientError::StorageError("id space exhausted".to_owned()));
        }
        let id = self.next_id;
        self.next_id = self.next_id + 1;
        let rec = Servers { id, name, version, difficulty, port, started: false };
        proof {
            lemma_insert_sorted(self@, rec, i as int);
        }
        self.records.insert(i, rec);
        Ok(id)
    }

    /// Sets the lifecycle state of the record named `name`, if it exists.
    pub fn set_started(&mut self, name: &String, started: bool) -> (r: Result<(), ClientError>)
        requires
            old(self).inv(),
        ensures
            final(self).inv(),
            r is Ok <==> has_name(old(self)@, name@),
            r matches Err(e) ==> e matches ClientError::NotFound && final(self)@ == old(self)@,
            r is Ok ==> final(self)@ =~= old(self)@.update(
                idx_of(old(self)@, name@),
                with_started(record_of(old(self)@, name@), started),
            ),
            final(self).id_exhausted() == old(self).id_exhausted(),
    {
        let n = self.records.len();
        let mut i: usize = 0;
        while i < n
            invariant
                i <= n,
                n == self@.len(),
                self.inv(),
                self@ == old(self)@,
                self.next_id == old(self).next_id,
                forall|k: int| 0 <= k < i ==> #[trigger] self@[k].name@ != name@,
            decreases n - i,
        {
            if self.records[i].name == *name {
                proof {
                    lemma_record_of_unique(self@, name@, i as int);
                }
                let mut rec = self.records.remove(i);
                rec.started = started;
                proof {
                    lemma_update_preserves_wf(old(self)@, i as int, rec);
                    assert(old(self)@.remove(i as int).insert(i as int, rec) =~= old(
                        self,
                    )@.update(i as int, rec));
                }
                self.records.insert(i, rec);
                return Ok(());
            }
            i += 1;
        }
        Err(ClientError::NotFound)
    }

    /// Deletes the record named `name`, if it exists.
    pub fn remove(&mut self, name: &String) -> (r: Result<(), ClientError>)
        requires
            old(self).inv(),
        ensures
            final(self).inv(),
            r is Ok <==> has_name(old(self)@, name@),
            r matches Err(e) ==> e matches ClientError::NotFound && final(self)@ == old(self)@,
            r is Ok ==> final(self)@ =~= old(self)@.remove(idx_of(old(self)@, name@)),
            final(self).id_exhausted() == old(self).id_exhausted(),
    {
        let n = self.records.len();
        let mut i: usize = 0;
        while i < n
            invariant
                i <= n,
                n == self@.len(),
                self.inv(),
                self@ == old(self)@,
                self.next_id == old(self).next_id,
                forall|k: int| 0 <= k < i ==> #[trigger] self@[k].name@ != name@,
            decreases n - i,
        {
            if self.records[i].name == *name {
                proof {
                    lemma_record_of_unique(self@, name@, i as int);
                    lemma_remove_preserves_wf(self@, i as int);
                }
                self.records.remove(i);
                return Ok(());
            }
            i += 1;
        }
        Err(ClientError::NotFound)
    }

    /// Every allocated port, one per record.
    pub fn allocated_ports(&self) -> (r: Vec<i64>)
        ensures
            r@.len() == self@.len(),
            forall|i: int| 0 <= i < r@.len() ==> #[trigger] r@[i] == self@[i].port,
    {
        let n = self.records.len();
        let mut ports: Vec<i64> = Vec::new();
        let mut i: usize = 0;
        while i < n
            invariant
                i <= n,
                n == self@.len(),
                ports@.len() == i,
                forall|k: int| 0 <= k < i ==> #[trigger] ports@[k] == self@[k].port,
            decreases n - i,
        {
            ports.push(self.records[i].port);
            i += 1;
        }
        ports
    }

    /// The slice of records beginning at `offset`, at most `limit` long, in
    /// name order.
    pub fn list_page(&self, offset: usize, limit: usize) -> (r: Vec<Servers>)
        ensures
            offset <= self@.len() ==> r@ =~= self@.subrange(
                offset as int,
                if offset + limit <= self@.len() {
                    offset + limit
                } else {
                    self@.len() as int
                },
            ),
            offset > self@.len() ==> r@ =~= Seq::<Servers>::empty(),
    {
        let n = self.records.len();
        let mut out: Vec<Servers> = Vec::new();
        if offset >= n {
            return out;
        }
        let end = if limit <= n - offset {
            offset + limit
        } else {
            n
        };
        let mut i: usize = offset;
        while i < end
            invariant
                offset <= i <= end <= n,
                n == self@.len(),
                out@.len() == i - offset,
                forall|k: int| 0 <= k < out@.len() ==> #[trigger] out@[k] == self@[offset + k],
            decreases end - i,
        {
            out.push(self.records[i].duplicate());
            i += 1;
        }
        out
    }
}

/// Whether `a` strictly precedes `b` in name order.
fn lex_lt_exec(a: &String, b: &String) -> (r: bool)
    ensures
        r == lex_lt(a@, b@),
{
    proof {
        lemma_lex_total(a@, b@);
        if lex_le(a@, b@) && lex_le(b@, a@) {
            lemma_lex_antisym(a@, b@);
        }
    }
    !lex_le_exec(b.as_str(), a.as_str())
}

/// In a well-formed sequence the name decides the index: a record found to
/// bear `n` at `i` is the record `record_of` denotes.
pub proof fn lemma_record_of_unique(s: Seq<Servers>, n: Seq<char>, i: int)
    requires
        wf_records(s),
        0 <= i < s.len(),
        s[i].name@ == n,
    ensures
        has_name(s, n),
        idx_of(s, n) == i,
        record_of(s, n) == s[i],
{
    let j = idx_of(s, n);
    if j != i {
        if j < i {
            assert(lex_lt(s[j].name@, s[i].name@));
        } else {
            assert(lex_lt(s[i].name@, s[j].name@));
        }
    }
}

/// If every record before `i` sorts strictly below `n` and the record at `i`
/// (if any) does not sort below `n` and differs from it, then `n` is absent.
proof fn lemma_absent_at_gap(s: Seq<Servers>, n: Seq<char>, i: int)
    requires
        wf_records(s),
        0 <= i <= s.len(),
        forall|k: int| 0 <= k < i ==> lex_lt(#[trigger] s[k].name@, n),
        i < s.len() ==> !lex_lt(s[i].name@, n) && s[i].name@ != n,
    ensures
        !has_name(s, n),
        forall|k: int| i <= k < s.len() ==> lex_lt(n, #[trigger] s[k].name@),
{
    assert forall|k: int| i <= k < s.len() implies lex_lt(n, #[trigger] s[k].name@) by {
        lemma_lex_total(s[i].name@, n);
        assert(lex_lt(n, s[i].name@));
        if k > i {
            lemma_lex_lt_trans(n, s[i].name@, s[k].name@);
        }
    }
}

/// Inserting a record that sorts strictly between its neighbours, with a
/// fresh port and a fresh id, preserves well-formedness.
proof fn lemma_insert_sorted(s: Seq<Servers>, rec: Servers, i: int)
    requires
        wf_records(s),
        0 <= i <= s.len(),
        forall|k: int| 0 <= k < i ==> lex_lt(#[trigger] s[k].name@, rec.name@),
        forall|k: int| i <= k < s.len() ==> lex_lt(rec.name@, #[trigger] s[k].name@),
        !has_port(s, rec.port),
        forall|k: int| 0 <= k < s.len() ==> #[trigger] s[k].id != rec.id,
        0 <= rec.id,
    ensures
        wf_records(s.insert(i, rec)),
{
    let t = s.insert(i, rec);
    assert forall|p: int, q: int| 0 <= p < q < t.len() implies lex_lt(
        #[trigger] t[p].name@,
        #[trigger] t[q].name@,
    ) by {
        if p < i && q > i {
            assert(t[p] == s[p] && t[q] == s[q - 1]);
        } else if p == i {
            assert(t[q] == s[q - 1]);
        } else if q == i {
            assert(t[p] == s[p]);
        }
    }
    assert forall|p: int, q: int| 0 <= p < q < t.len() implies #[trigger] t[p].port
        != #[trigger] t[q].port by {
        if p != i && q != i {
            let p0 = if p < i {
                p
            } else {
                p - 1
            };
            let q0 = if q < i {
                q
            } else {
                q - 1
            };
            assert(t[p] == s[p0] && t[q] == s[q0]);
        }
    }
    assert forall|p: int, q: int| 0 <= p < q < t.len() implies #[trigger] t[p].id
        != #[trigger] t[q].id by {
        if p != i && q != i {
            let p0 = if p < i {
                p
            } else {
                p - 1
            };
            let q0 = if q < i {
                q
            } else {
                q - 1
            };
            assert(t[p] == s[p0] && t[q] == s[q0]);
        }
    }
}

/// Replacing the record at `i` with one of the same name, port and id
/// preserves well-formedness.
proof fn lemma_update_preserves_wf(s: Seq<Servers>, i: int, rec: Servers)
    requires
        wf_records(s),
        0 <= i < s.len(),
        rec.name@ == s[i].name@,
        rec.port == s[i].port,
        rec.id == s[i].id,
    ensures
        wf_records(s.update(i, rec)),
{
}

/// Deleting a record preserves well-formedness.
proof fn lemma_remove_preserves_wf(s: Seq<Servers>, i: int)
    requires
        wf_records(s),
        0 <= i < s.len(),
    ensures
        wf_records(s.remove(i)),
{
    let t = s.remove(i);
    assert forall|p: int, q: int| 0 <= p < q < t.len() implies lex_lt(
        #[trigger] t[p].name@,
        #[trigger] t[q].name@,
    ) by {
        lemma_remove_reindex(s, i, p, q);
    }
    assert forall|p: int, q: int| 0 <= p < q < t.len() implies #[trigger] t[p].port
        != #[trigger] t[q].port by {
        lemma_remove_reindex(s, i, p, q);
    }
    assert forall|p: int, q: int| 0 <= p < q < t.len() implies #[trigger] t[p].id
        != #[trigger] t[q].id by {
        lemma_remove_reindex(s, i, p, q);
    }
}

/// After deleting the record at `i`, positions `p < q` come from two
/// distinct positions of the original sequence, in order.
proof fn lemma_remove_reindex(s: Seq<Servers>, i: int, p: int, q: int)
    requires
        0 <= i < s.len(),
        0 <= p < q < s.remove(i).len(),
    ensures
        exists|p0: int, q0: int|
            0 <= p0 < q0 < s.len() && #[trigger] s[p0] == s.remove(i)[p] && #[trigger] s[q0]
                == s.remove(i)[q],
{
    let t = s.remove(i);
    let p0 = if p < i {
        p
    } else {
        p + 1
    };
    let q0 = if q < i {
        q
    } else {
        q + 1
    };
    assert(t[p] == s[p0] && t[q] == s[q0]);
}

} // verus!
