//! The storage contract: what a backend must do when records are stored and
//! read. The contents of a backend are modelled as one sequence per record
//! kind, in backend-native order. A store is an idempotent insert under the
//! natural key `end_time`: if the key is already present the contents stay as
//! they are, otherwise the record is appended. A read hands back everything
//! the backend holds of that kind and changes nothing.
//!
//! The natural-key uniqueness is part of the contract itself, owed by every
//! backend for every kind, not a property of one backend's schema.
//!
//! [`MemoryBackend`] is the reference implementation of the contract, held
//! entirely in memory; the laws at the bottom state the contract's headline
//! guarantees (idempotency, exactly one copy per key, round trip,
//! independence of kinds) once and for all implementations.

use vstd::prelude::*;

use crate::records::DepthInterval;
use crate::records::EarningInterval;
use crate::records::EarningView;
use crate::records::IntervalRecord;
use crate::records::Keyed;
use crate::records::RunePoolInterval;
use crate::records::SwapsInterval;

verus! {

/// A generic storage failure. The contract does not distinguish failure
/// subtypes; the detail is for a human reader.
#[derive(Debug)]
pub struct StorageError {
    pub detail: String,
}

/// Whether `s` already holds a record with natural key `k`.
pub open spec fn has_key<T: Keyed>(s: Seq<T>, k: i64) -> bool {
    exists|i: int| 0 <= i < s.len() && s[i].key_spec() == k
}

/// The idempotent insert: a record whose key is already present leaves the
/// contents untouched; a fresh key appends the record.
pub open spec fn insert_record<T: Keyed>(s: Seq<T>, x: T) -> Seq<T> {
    if has_key(s, x.key_spec()) {
        s
    } else {
        s.push(x)
    }
}

/// No two stored records of one kind share a natural key.
pub open spec fn unique_keys<T: Keyed>(s: Seq<T>) -> bool {
    forall|i: int, j: int| 0 <= i < j < s.len() ==> s[i].key_spec() != s[j].key_spec()
}

/// The abstract contents of one backend: for each record kind, what it holds,
/// in backend-native order.
pub struct BackendContents {
    pub depths: Seq<DepthInterval>,
    pub swaps: Seq<SwapsInterval>,
    pub earnings: Seq<EarningView>,
    pub runepools: Seq<RunePoolInterval>,
}

/// Contents with nothing stored of any kind.
pub open spec fn empty_contents() -> BackendContents {
    BackendContents {
        depths: Seq::empty(),
        swaps: Seq::empty(),
        earnings: Seq::empty(),
        runepools: Seq::empty(),
    }
}

/// What a successful depth store leaves behind: the depth records gain the
/// record if its key is fresh, every other kind is untouched.
pub open spec fn store_depth_spec(c: BackendContents, r: DepthInterval) -> BackendContents {
    BackendContents { depths: insert_record(c.depths, r), ..c }
}

/// What a successful swaps store leaves behind.
pub open spec fn store_swaps_spec(c: BackendContents, r: SwapsInterval) -> BackendContents {
    BackendContents { swaps: insert_record(c.swaps, r), ..c }
}

/// What a successful earnings store leaves behind; the record enters with its
/// pool list as a unit.
pub open spec fn store_earnings_spec(c: BackendContents, r: EarningView) -> BackendContents {
    BackendContents { earnings: insert_record(c.earnings, r), ..c }
}

/// What a successful rune-pool store leaves behind.
pub open spec fn store_runepool_spec(c: BackendContents, r: RunePoolInterval) -> BackendContents {
    BackendContents { runepools: insert_record(c.runepools, r), ..c }
}

/// The storage contract. One store and one read per record kind; every
/// operation reports the elapsed wall-clock time of the backend call in
/// nanoseconds. A store that returns `Ok` has performed the idempotent insert
/// and touched nothing else; a store that returns `Err` has changed nothing.
/// A read never changes the contents and, when it succeeds, returns exactly
/// what the backend holds of that kind, in backend-native order.
pub trait Database: Sized {
    /// The records this backend currently holds.
    spec fn contents(&self) -> BackendContents;

    fn store_depth_intervals(&mut self, interval: DepthInterval) -> (r: Result<u64, StorageError>)
        ensures
            r is Ok ==> final(self).contents() == store_depth_spec(old(self).contents(), interval),
            r is Err ==> final(self).contents() == old(self).contents(),
    ;

    fn store_swaps_intervals(&mut self, interval: SwapsInterval) -> (r: Result<u64, StorageError>)
        ensures
            r is Ok ==> final(self).contents() == store_swaps_spec(old(self).contents(), interval),
            r is Err ==> final(self).contents() == old(self).contents(),
    ;

    fn store_earnings_intervals(&mut self, interval: EarningInterval) -> (r: Result<
        u64,
        StorageError,
    >)
        ensures
            r is Ok ==> final(self).contents() == store_earnings_spec(
                old(self).contents(),
                interval@,
            ),
            r is Err ==> final(self).contents() == old(self).contents(),
    ;

    fn store_runepool_intervals(&mut self, interval: RunePoolInterval) -> (r: Result<
        u64,
        StorageError,
    >)
        ensures
            r is Ok ==> final(self).contents() == store_runepool_spec(
                old(self).contents(),
                interval,
            ),
            r is Err ==> final(self).contents() == old(self).contents(),
    ;

    fn read_depth_intervals(&self) -> (r: Result<(Vec<DepthInterval>, u64), StorageError>)
        ensures
            r matches Ok(out) ==> out.0@ == self.contents().depths,
    ;

    fn read_swaps_intervals(&self) -> (r: Result<(Vec<SwapsInterval>, u64), StorageError>)
        ensures
            r matches Ok(out) ==> out.0@ == self.contents().swaps,
    ;

    fn read_earnings_intervals(&self) -> (r: Result<(Vec<EarningInterval>, u64), StorageError>)
        ensures
            r matches Ok(out) ==> out.0@.map_values(|e: EarningInterval| e@)
                == self.contents().earnings,
    ;

    fn read_runepool_intervals(&self) -> (r: Result<(Vec<RunePoolInterval>, u64), StorageError>)
        ensures
            r matches Ok(out) ==> out.0@ == self.contents().runepools,
    ;
}

/// The idempotent insert on a vector of records: scan for the natural key,
/// append only if it is absent.
fn vec_insert_record<R: IntervalRecord>(rows: &mut Vec<R>, r: R)
    ensures
        final(rows)@ == insert_record(old(rows)@, r),
{
    let k = r.natural_key();
    let mut i: usize = 0;
    while i < rows.len()
        invariant
            i <= rows@.len(),
            rows@ == old(rows)@,
            k == r.key_spec(),
            forall|j: int| 0 <= j < i ==> rows@[j].key_spec() != k,
        decreases rows@.len() - i,
    {
        let found = rows[i].natural_key();
        if found == k {
            proof {
                assert(has_key(rows@, r.key_spec()));
            }
            return ;
        }
        i += 1;
    }
    proof {
        assert(!has_key(rows@, r.key_spec()));
    }
    rows.push(r);
}

/// A copy of a vector of plain records.
fn copy_rows<R: IntervalRecord + Copy>(rows: &Vec<R>) -> (r: Vec<R>)
    ensures
        r@ == rows@,
{
    let mut out: Vec<R> = Vec::new();
    let mut i: usize = 0;
    while i < rows.len()
        invariant
            i <= rows@.len(),
            out@ == rows@.subrange(0, i as int),
        decreases rows@.len() - i,
    {
        out.push(rows[i]);
        i += 1;
    }
    proof {
        assert(out@ =~= rows@);
    }
    out
}

/// Mapping records to their mathematical images commutes with the idempotent
/// insert: the image of the contents after a store is the insert of the
/// record's image into the image of the contents before it.
proof fn lemma_earning_insert_view(s: Seq<EarningInterval>, x: EarningInterval)
    ensures
        insert_record(s, x).map_values(|e: EarningInterval| e@) == insert_record(
            s.map_values(|e: EarningInterval| e@),
            x@,
        ),
{
    let sv = s.map_values(|e: EarningInterval| e@);
    assert(x@.key_spec() == x.key_spec());
    assert(forall|i: int| 0 <= i < s.len() ==> sv[i].key_spec() == s[i].key_spec());
    if has_key(s, x.key_spec()) {
        let i = choose|i: int| 0 <= i < s.len() && s[i].key_spec() == x.key_spec();
        assert(sv[i].key_spec() == x@.key_spec());
        assert(has_key(sv, x@.key_spec()));
    } else {
        if has_key(sv, x@.key_spec()) {
            let i = choose|i: int| 0 <= i < sv.len() && sv[i].key_spec() == x@.key_spec();
            assert(s[i].key_spec() == x.key_spec());
            assert(false);
        }
        assert(s.push(x).map_values(|e: EarningInterval| e@) =~= sv.push(x@));
    }
}

/// The in-memory reference backend: the storage contract implemented directly
/// on vectors, with insertion order as its native order. Its operations
/// complete at once and never fail, so every reported elapsed time is zero.
pub struct MemoryBackend {
    depths: Vec<DepthInterval>,
    swaps: Vec<SwapsInterval>,
    earnings: Vec<EarningInterval>,
    runepools: Vec<RunePoolInterval>,
}

impl MemoryBackend {
    /// No two records of one kind share a natural key.
    pub open spec fn wf(&self) -> bool {
        &&& unique_keys(self.contents().depths)
        &&& unique_keys(self.contents().swaps)
        &&& unique_keys(self.contents().earnings)
        &&& unique_keys(self.contents().runepools)
    }

    /// A backend holding nothing.
    pub fn new() -> (r: MemoryBackend)
        ensures
            r.contents() == empty_contents(),
            r.wf(),
    {
        let r = MemoryBackend {
            depths: Vec::new(),
            swaps: Vec::new(),
            earnings: Vec::new(),
            runepools: Vec::new(),
        };
        proof {
            assert(r.contents().depths =~= empty_contents().depths);
            assert(r.contents().swaps =~= empty_contents().swaps);
            assert(r.contents().earnings =~= empty_contents().earnings);
            assert(r.contents().runepools =~= empty_contents().runepools);
        }
        r
    }
}

impl Database for MemoryBackend {
    closed spec fn contents(&self) -> BackendContents {
        BackendContents {
            depths: self.depths@,
            swaps: self.swaps@,
            earnings: self.earnings@.map_values(|e: EarningInterval| e@),
            runepools: self.runepools@,
        }
    }

    fn store_depth_intervals(&mut self, interval: DepthInterval) -> (r: Result<u64, StorageError>)
        ensures
            r is Ok,
            old(self).wf() ==> final(self).wf(),
    {
        proof {
            lemma_exactly_one_after_store_holds(self.contents().depths, interval);
        }
        vec_insert_record(&mut self.depths, interval);
        Ok(0)
    }

    fn store_swaps_intervals(&mut self, interval: SwapsInterval) -> (r: Result<u64, StorageError>)
        ensures
            r is Ok,
            old(self).wf() ==> final(self).wf(),
    {
        proof {
            lemma_exactly_one_after_store_holds(self.contents().swaps, interval);
        }
        vec_insert_record(&mut self.swaps, interval);
        Ok(0)
    }

    fn store_earnings_intervals(&mut self, interval: EarningInterval) -> (r: Result<
        u64,
        StorageError,
    >)
        ensures
            r is Ok,
            old(self).wf() ==> final(self).wf(),
    {
        proof {
            lemma_earning_insert_view(self.earnings@, interval);
            lemma_exactly_one_after_store_holds(self.contents().earnings, interval@);
        }
        vec_insert_record(&mut self.earnings, interval);
        Ok(0)
    }

    fn store_runepool_intervals(&mut self, interval: RunePoolInterval) -> (r: Result<
        u64,
        StorageError,
    >)
        ensures
            r is Ok,
            old(self).wf() ==> final(self).wf(),
    {
        proof {
            lemma_exactly_one_after_store_holds(self.contents().runepools, interval);
        }
        vec_insert_record(&mut self.runepools, interval);
        Ok(0)
    }

    fn read_depth_intervals(&self) -> (r: Result<(Vec<DepthInterval>, u64), StorageError>)
        ensures
            r is Ok,
    {
        Ok((copy_rows(&self.depths), 0))
    }

    fn read_swaps_intervals(&self) -> (r: Result<(Vec<SwapsInterval>, u64), StorageError>)
        ensures
            r is Ok,
    {
        Ok((copy_rows(&self.swaps), 0))
    }

    fn read_earnings_intervals(&self) -> (r: Result<(Vec<EarningInterval>, u64), StorageError>)
        ensures
            r is Ok,
    {
        let mut out: Vec<EarningInterval> = Vec::new();
        let mut i: usize = 0;
        while i < self.earnings.len()
            invariant
                i <= self.earnings@.len(),
                out@.len() == i,
                forall|j: int| 0 <= j < i ==> out@[j]@ == self.earnings@[j]@,
            decreases self.earnings@.len() - i,
        {
            out.push(self.earnings[i].duplicate());
            i += 1;
        }
        proof {
            assert(out@.map_values(|e: EarningInterval| e@) =~= self.earnings@.map_values(
                |e: EarningInterval| e@,
            ));
        }
        Ok((out, 0))
    }

    fn read_runepool_intervals(&self) -> (r: Result<(Vec<RunePoolInterval>, u64), StorageError>)
        ensures
            r is Ok,
    {
        Ok((copy_rows(&self.runepools), 0))
    }
}

/// The conditional form of [`lemma_exactly_one_after_store`] the memory
/// backend uses to carry its well-formedness through a store.
proof fn lemma_exactly_one_after_store_holds<T: Keyed>(s: Seq<T>, x: T)
    ensures
        unique_keys(s) ==> unique_keys(insert_record(s, x)) && has_key(
            insert_record(s, x),
            x.key_spec(),
        ),
{
    if unique_keys(s) {
        lemma_exactly_one_after_store(s, x);
    }
}

/// Idempotent store: storing a record twice leaves exactly the contents that
/// storing it once leaves.
pub proof fn lemma_store_idempotent<T: Keyed>(s: Seq<T>, x: T)
    ensures
        insert_record(insert_record(s, x), x) == insert_record(s, x),
{
    if !has_key(s, x.key_spec()) {
        let t = s.push(x);
        assert(t[s.len() as int] == x);
        assert(has_key(t, x.key_spec()));
    }
}

/// The records of `s` that carry the natural key `k`.
pub open spec fn with_key<T: Keyed>(s: Seq<T>, k: i64) -> Seq<T> {
    s.filter(|y: T| y.key_spec() == k)
}

/// Where no record carries the key, the filter by it is empty.
proof fn lemma_no_key_filter_empty<T: Keyed>(s: Seq<T>, k: i64)
    requires
        !has_key(s, k),
    ensures
        with_key(s, k).len() == 0,
    decreases s.len(),
{
    reveal(Seq::filter);
    if s.len() > 0 {
        let rest = s.drop_last();
        if has_key(rest, k) {
            let i = choose|i: int| 0 <= i < rest.len() && rest[i].key_spec() == k;
            assert(s[i].key_spec() == k);
            assert(false);
        }
        lemma_no_key_filter_empty(rest, k);
        if s.last().key_spec() == k {
            assert(has_key(s, k));
        }
    }
}

/// Where no two records share a key and one carries `k`, the filter by `k`
/// holds exactly that one.
proof fn lemma_unique_filter_one<T: Keyed>(s: Seq<T>, k: i64)
    requires
        unique_keys(s),
        has_key(s, k),
    ensures
        with_key(s, k).len() == 1,
    decreases s.len(),
{
    reveal(Seq::filter);
    let rest = s.drop_last();
    assert(forall|i: int| 0 <= i < rest.len() ==> rest[i] == s[i]);
    if s.last().key_spec() == k {
        if has_key(rest, k) {
            let i = choose|i: int| 0 <= i < rest.len() && rest[i].key_spec() == k;
            assert(s[i].key_spec() == s[s.len() - 1].key_spec());
            assert(false);
        }
        lemma_no_key_filter_empty(rest, k);
    } else {
        let i = choose|i: int| 0 <= i < s.len() && s[i].key_spec() == k;
        assert(i < rest.len());
        assert(has_key(rest, k));
        lemma_unique_filter_one(rest, k);
    }
}

/// After a store, the contents hold exactly one record with the stored key:
/// still no two records with one key, and the records filtered by that key
/// count one.
pub proof fn lemma_exactly_one_after_store<T: Keyed>(s: Seq<T>, x: T)
    requires
        unique_keys(s),
    ensures
        unique_keys(insert_record(s, x)),
        has_key(insert_record(s, x), x.key_spec()),
        with_key(insert_record(s, x), x.key_spec()).len() == 1,
{
    if !has_key(s, x.key_spec()) {
        let t = s.push(x);
        assert(t[s.len() as int] == x);
        assert(forall|i: int| 0 <= i < s.len() ==> t[i] == s[i]);
    }
    lemma_unique_filter_one(insert_record(s, x), x.key_spec());
}

/// Round trip: as long as nothing already stored under the record's key
/// differs from it, the contents after a store contain the record itself, so
/// a read returns it.
pub proof fn lemma_store_then_read_contains<T: Keyed>(s: Seq<T>, x: T)
    requires
        forall|i: int| 0 <= i < s.len() && s[i].key_spec() == x.key_spec() ==> s[i] == x,
    ensures
        insert_record(s, x).contains(x),
{
    if has_key(s, x.key_spec()) {
        let i = choose|i: int| 0 <= i < s.len() && s[i].key_spec() == x.key_spec();
        assert(insert_record(s, x)[i] == x);
    } else {
        assert(insert_record(s, x)[s.len() as int] == x);
    }
}

/// Independence of kinds: a store of one kind never changes what is stored of
/// any other kind, whether or not it changes its own.
pub proof fn lemma_kinds_independent(c: BackendContents, r: SwapsInterval)
    ensures
        store_swaps_spec(c, r).depths == c.depths,
        store_swaps_spec(c, r).earnings == c.earnings,
        store_swaps_spec(c, r).runepools == c.runepools,
{
}

} // verus!
