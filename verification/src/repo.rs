//! The repository contract and a verified in-memory implementation.
//!
//! The persistence engine is an external collaborator consumed through
//! this narrow contract; the in-memory implementation backs tests and
//! carries the pure logic the contract promises: clamped pagination,
//! half-open time-window listing, ownership checks, and the first-record
//! lookup. Every operation counts toward `op_count`, so a caller can
//! state that a cached read performed no repository call.
use vstd::prelude::*;

use crate::model::{records_view, Sport, SportV};

verus! {

/// Mathematical view of one stored row: its owner and the record.
pub ghost struct StoredV {
    pub uid: int,
    pub sport: SportV,
}

/// The record with its id replaced.
pub open spec fn with_id(s: SportV, id: int) -> SportV {
    SportV { id, ..s }
}

/// The records of one owner, in repository order.
pub open spec fn records_of(repo: Seq<StoredV>, uid: int) -> Seq<SportV>
    decreases repo.len(),
{
    if repo.len() == 0 {
        Seq::empty()
    } else {
        records_of(repo.drop_last(), uid) + (if repo.last().uid == uid {
            seq![repo.last().sport]
        } else {
            Seq::empty()
        })
    }
}

/// The records of one owner with a start time in `[start, end)`, in
/// repository order.
pub open spec fn records_in_window(repo: Seq<StoredV>, uid: int, start: int, end: int) -> Seq<
    SportV,
>
    decreases repo.len(),
{
    if repo.len() == 0 {
        Seq::empty()
    } else {
        records_in_window(repo.drop_last(), uid, start, end) + (if repo.last().uid == uid && start
            <= repo.last().sport.start_time && repo.last().sport.start_time < end {
            seq![repo.last().sport]
        } else {
            Seq::empty()
        })
    }
}

/// Stable newest-first insertion: the record goes after every record
/// that starts no earlier.
pub open spec fn insert_desc(s: Seq<SportV>, r: SportV) -> Seq<SportV>
    decreases s.len(),
{
    if s.len() == 0 {
        seq![r]
    } else if s[0].start_time >= r.start_time {
        seq![s[0]] + insert_desc(s.drop_first(), r)
    } else {
        seq![r] + s
    }
}

/// A record list ordered newest-first by start time, stable on ties:
/// listings leave the repository in this order.
pub open spec fn sort_desc(s: Seq<SportV>) -> Seq<SportV>
    decreases s.len(),
{
    if s.len() == 0 {
        Seq::empty()
    } else {
        insert_desc(sort_desc(s.drop_last()), s.last())
    }
}

proof fn lemma_insert_desc_len(s: Seq<SportV>, r: SportV)
    ensures
        insert_desc(s, r).len() == s.len() + 1,
    decreases s.len(),
{
    if s.len() > 0 && s[0].start_time >= r.start_time {
        lemma_insert_desc_len(s.drop_first(), r);
    }
}

proof fn lemma_sort_desc_len(s: Seq<SportV>)
    ensures
        sort_desc(s).len() == s.len(),
    decreases s.len(),
{
    if s.len() > 0 {
        lemma_sort_desc_len(s.drop_last());
        lemma_insert_desc_len(sort_desc(s.drop_last()), s.last());
    }
}

/// Inserting at the position where the earlier records start no earlier
/// and the later ones start strictly later is the stable insertion.
proof fn lemma_insert_desc_at(s: Seq<SportV>, r: SportV, idx: int)
    requires
        0 <= idx <= s.len(),
        forall|j: int| 0 <= j < idx ==> (#[trigger] s[j]).start_time >= r.start_time,
        idx < s.len() ==> s[idx].start_time < r.start_time,
    ensures
        insert_desc(s, r) == s.subrange(0, idx) + seq![r] + s.subrange(idx, s.len() as int),
    decreases s.len(),
{
    if s.len() == 0 {
        assert(insert_desc(s, r) =~= s.subrange(0, idx) + seq![r] + s.subrange(
            idx,
            s.len() as int,
        ));
    } else if idx == 0 {
        assert(s[0].start_time < r.start_time);
        assert(insert_desc(s, r) == seq![r] + s);
        assert(seq![r] + s =~= s.subrange(0, 0) + seq![r] + s.subrange(0, s.len() as int));
    } else {
        assert(s[0].start_time >= r.start_time);
        let tail = s.drop_first();
        assert(forall|j: int|
            0 <= j < idx - 1 ==> (#[trigger] tail[j]).start_time >= r.start_time) by {
            assert(forall|j: int| 0 <= j < tail.len() ==> #[trigger] tail[j] == s[j + 1]);
        }
        assert(idx - 1 < tail.len() ==> tail[idx - 1].start_time < r.start_time);
        lemma_insert_desc_at(tail, r, idx - 1);
        assert(seq![s[0]] + (tail.subrange(0, idx - 1) + seq![r] + tail.subrange(
            idx - 1,
            tail.len() as int,
        )) =~= s.subrange(0, idx) + seq![r] + s.subrange(idx, s.len() as int));
    }
}

/// Every record of the stable insertion is the inserted one or one of
/// the list's.
proof fn lemma_insert_desc_membership(s: Seq<SportV>, r: SportV)
    ensures
        forall|k: int|
            0 <= k < insert_desc(s, r).len() ==> #[trigger] insert_desc(s, r)[k] == r || exists|
                j: int,
            | 0 <= j < s.len() && insert_desc(s, r)[k] == s[j],
    decreases s.len(),
{
    if s.len() > 0 && s[0].start_time >= r.start_time {
        let tail = s.drop_first();
        lemma_insert_desc_membership(tail, r);
        assert forall|k: int| 0 <= k < insert_desc(s, r).len() implies #[trigger] insert_desc(
            s,
            r,
        )[k] == r || exists|j: int| 0 <= j < s.len() && insert_desc(s, r)[k] == s[j] by {
            if k == 0 {
                assert(insert_desc(s, r)[0] == s[0]);
            } else {
                assert(insert_desc(s, r)[k] == insert_desc(tail, r)[k - 1]);
                if insert_desc(tail, r)[k - 1] != r {
                    let j = choose|j: int|
                        0 <= j < tail.len() && insert_desc(tail, r)[k - 1] == tail[j];
                    assert(tail[j] == s[j + 1]);
                }
            }
        }
    }
}

/// Every record of the sorted list is one of the list's.
pub proof fn lemma_sort_desc_membership(s: Seq<SportV>)
    ensures
        forall|k: int|
            0 <= k < sort_desc(s).len() ==> exists|j: int|
                0 <= j < s.len() && #[trigger] sort_desc(s)[k] == s[j],
    decreases s.len(),
{
    if s.len() > 0 {
        let head = s.drop_last();
        lemma_sort_desc_membership(head);
        lemma_insert_desc_membership(sort_desc(head), s.last());
        assert forall|k: int| 0 <= k < sort_desc(s).len() implies exists|j: int|
            0 <= j < s.len() && #[trigger] sort_desc(s)[k] == s[j] by {
            if sort_desc(s)[k] == s.last() {
                assert(sort_desc(s)[k] == s[s.len() - 1]);
            } else {
                let k2 = choose|k2: int|
                    0 <= k2 < sort_desc(head).len() && sort_desc(s)[k] == sort_desc(head)[k2];
                let j = choose|j: int|
                    0 <= j < head.len() && sort_desc(head)[k2] == head[j];
                assert(head[j] == s[j]);
            }
        }
    }
}

/// Sorts records newest-first, stably on equal start times.
fn sort_records_desc(records: Vec<Sport>) -> (r: Vec<Sport>)
    ensures
        records_view(r@) == sort_desc(records_view(records@)),
{
    let ghost rv = records_view(records@);
    let input = records;
    let mut out: Vec<Sport> = Vec::new();
    let mut i: usize = 0;
    proof {
        assert(records_view(out@) =~= sort_desc(rv.take(0)));
    }
    while i < input.len()
        invariant
            i <= input@.len(),
            rv == records_view(input@),
            rv.len() == input@.len(),
            records_view(out@) == sort_desc(rv.take(i as int)),
        decreases input@.len() - i,
    {
        let cur = input[i].duplicate();
        let ghost before = records_view(out@);
        proof {
            lemma_sort_desc_len(rv.take(i as int));
            assert(rv.take(i + 1).drop_last() =~= rv.take(i as int));
            assert(rv.take(i + 1).last() == rv[i as int]);
            assert(rv[i as int] == input@[i as int]@);
        }
        let mut idx: usize = 0;
        while idx < out.len() && out[idx].start_time >= cur.start_time
            invariant
                idx <= out@.len(),
                records_view(out@) == before,
                before.len() == out@.len(),
                cur@ == rv[i as int],
                i < input@.len(),
                forall|j: int|
                    0 <= j < idx ==> (#[trigger] before[j]).start_time >= cur@.start_time,
            decreases out@.len() - idx,
        {
            proof {
                assert(before[idx as int] == out@[idx as int]@);
            }
            idx += 1;
        }
        proof {
            if (idx as int) < before.len() {
                assert(before[idx as int] == out@[idx as int]@);
                assert(before[idx as int].start_time < cur@.start_time);
            }
            lemma_insert_desc_at(before, cur@, idx as int);
        }
        out.insert(idx, cur);
        proof {
            assert(records_view(out@) =~= before.subrange(0, idx as int) + seq![cur@]
                + before.subrange(idx as int, before.len() as int));
            assert(records_view(out@) == insert_desc(before, cur@));
            assert(sort_desc(rv.take(i + 1)) == insert_desc(sort_desc(rv.take(i as int)), rv[i as int]));
        }
        i += 1;
    }
    proof {
        assert(rv.take(input@.len() as int) =~= rv);
    }
    out
}

/// Page size clamped to `(0, 100]` with default 20.
pub open spec fn clamp_size(size: int) -> int {
    if size <= 0 {
        20
    } else if size > 100 {
        100
    } else {
        size
    }
}

/// Negative pages clamp to 0.
pub open spec fn clamp_page(page: int) -> int {
    if page < 0 {
        0
    } else {
        page
    }
}

/// One page of a record list under the clamped pagination rule.
pub open spec fn page_slice(rs: Seq<SportV>, page: int, size: int) -> Seq<SportV> {
    let s = clamp_size(size);
    let p = clamp_page(page);
    if p * s >= rs.len() {
        Seq::empty()
    } else if p * s + s >= rs.len() {
        rs.subrange(p * s, rs.len() as int)
    } else {
        rs.subrange(p * s, p * s + s)
    }
}

/// Appending an import batch: the old rows are kept, and each new row
/// holds one imported record, owned by `uid`, under some fresh positive
/// id.
pub open spec fn appended_records(
    olds: Seq<StoredV>,
    news: Seq<StoredV>,
    uid: int,
    sports: Seq<SportV>,
) -> bool {
    &&& news.len() == olds.len() + sports.len()
    &&& forall|i: int| 0 <= i < olds.len() ==> news[i] == olds[i]
    &&& forall|i: int|
        0 <= i < sports.len() ==> {
            &&& (#[trigger] news[olds.len() + i]).uid == uid
            &&& news[olds.len() + i].sport == with_id(sports[i], news[olds.len() + i].sport.id)
            &&& 0 < news[olds.len() + i].sport.id <= 0x7FFF_FFFF
        }
}

/// The repository contract: what each operation does to the stored rows,
/// stated over the abstract row list `repo()`. Any operation may fail
/// with an opaque message; a failed operation changes nothing. Every
/// operation advances `op_count` by one.
pub trait SportDao: Sized {
    /// The stored rows, in repository order.
    spec fn repo(&self) -> Seq<StoredV>;

    /// How many repository operations have been performed.
    spec fn op_count(&self) -> int;

    /// Stores a record for `uid` under a fresh positive id.
    fn insert(&mut self, uid: i32, sport: Sport) -> (r: Result<(), String>)
        ensures
            final(self).op_count() == old(self).op_count() + 1,
            match r {
                Ok(_) => exists|id: int|
                    0 < id <= 0x7FFF_FFFF && final(self).repo() == old(self).repo().push(
                        StoredV { uid: uid as int, sport: with_id(sport@, id) },
                    ),
                Err(_) => final(self).repo() == old(self).repo(),
            },
    ;

    /// Stores a batch of records for `uid`; on success all of them, in
    /// order, and the count returned is the batch size.
    fn insert_many(&mut self, uid: i32, sports: Vec<Sport>) -> (r: Result<usize, String>)
        ensures
            final(self).op_count() == old(self).op_count() + 1,
            match r {
                Ok(n) => n == sports@.len() && appended_records(
                    old(self).repo(),
                    final(self).repo(),
                    uid as int,
                    records_view(sports@),
                ),
                Err(_) => final(self).repo() == old(self).repo(),
            },
    ;

    /// One page of `uid`'s records, newest first, under the clamped
    /// pagination rule.
    fn list(&mut self, uid: i32, page: i32, size: i32) -> (r: Result<Vec<Sport>, String>)
        ensures
            final(self).repo() == old(self).repo(),
            final(self).op_count() == old(self).op_count() + 1,
            match r {
                Ok(v) => records_view(v@) == page_slice(
                    sort_desc(records_of(old(self).repo(), uid as int)),
                    page as int,
                    size as int,
                ),
                Err(_) => true,
            },
    ;

    /// The records of `uid` with a start time in `[start, end)`, newest
    /// first.
    fn list_by_time_range(&mut self, uid: i32, start_time: i64, end_time: i64) -> (r: Result<
        Vec<Sport>,
        String,
    >)
        ensures
            final(self).repo() == old(self).repo(),
            final(self).op_count() == old(self).op_count() + 1,
            match r {
                Ok(v) => records_view(v@) == sort_desc(
                    records_in_window(
                        old(self).repo(),
                        uid as int,
                        start_time as int,
                        end_time as int,
                    ),
                ),
                Err(_) => true,
            },
    ;

    /// Replaces the record of `uid` with the given record's id, keeping
    /// the id; fails when no such record is owned by `uid`.
    fn update(&mut self, uid: i32, sport: Sport) -> (r: Result<(), String>)
        ensures
            final(self).op_count() == old(self).op_count() + 1,
            sport@.id <= 0 ==> r is Err,
            match r {
                Ok(_) => exists|j: int|
                    {
                        &&& 0 <= j < old(self).repo().len()
                        &&& (#[trigger] old(self).repo()[j]).uid == uid as int
                        &&& old(self).repo()[j].sport.id == sport@.id
                        &&& final(self).repo() == old(self).repo().update(
                            j,
                            StoredV { uid: uid as int, sport: sport@ },
                        )
                    },
                Err(_) => final(self).repo() == old(self).repo(),
            },
    ;

    /// Deletes the record of `uid` with that id; fails when none exists.
    fn remove(&mut self, uid: i32, id: i32) -> (r: Result<(), String>)
        ensures
            final(self).op_count() == old(self).op_count() + 1,
            id <= 0 ==> r is Err,
            match r {
                Ok(_) => exists|j: int|
                    {
                        &&& 0 <= j < old(self).repo().len()
                        &&& (#[trigger] old(self).repo()[j]).uid == uid as int
                        &&& old(self).repo()[j].sport.id == id as int
                        &&& final(self).repo() == old(self).repo().remove(j)
                    },
                Err(_) => final(self).repo() == old(self).repo(),
            },
    ;

    /// The record of `uid` with that id, `None` when there is none.
    fn get_by_id(&mut self, uid: i32, id: i32) -> (r: Result<Option<Sport>, String>)
        ensures
            final(self).repo() == old(self).repo(),
            final(self).op_count() == old(self).op_count() + 1,
            match r {
                Ok(Some(s)) => exists|j: int|
                    {
                        &&& 0 <= j < old(self).repo().len()
                        &&& (#[trigger] old(self).repo()[j]).uid == uid as int
                        &&& old(self).repo()[j].sport.id == id as int
                        &&& old(self).repo()[j].sport == s@
                    },
                Ok(None) => id <= 0 || forall|j: int|
                    0 <= j < old(self).repo().len() ==> !((#[trigger] old(self).repo()[j]).uid
                        == uid as int && old(self).repo()[j].sport.id == id as int),
                Err(_) => true,
            },
    ;

    /// A record of `uid` with the smallest start time, `None` when the
    /// owner has none.
    fn get_first(&mut self, uid: i32) -> (r: Result<Option<Sport>, String>)
        ensures
            final(self).repo() == old(self).repo(),
            final(self).op_count() == old(self).op_count() + 1,
            match r {
                Ok(Some(s)) => {
                    &&& (exists|j: int|
                        0 <= j < old(self).repo().len() && (#[trigger] old(self).repo()[j]).uid
                            == uid as int && old(self).repo()[j].sport == s@)
                    &&& forall|j: int|
                        0 <= j < old(self).repo().len() && (#[trigger] old(self).repo()[j]).uid
                            == uid as int ==> s@.start_time <= old(self).repo()[j].sport.start_time
                },
                Ok(None) => forall|j: int|
                    0 <= j < old(self).repo().len() ==> (#[trigger] old(self).repo()[j]).uid
                        != uid as int,
                Err(_) => true,
            },
    ;
}

/// The in-memory repository: rows in insertion order, ids from a
/// counter, and an exact operation count. `calls` mirrors the count as a
/// plain wrapping counter that unverified callers can read.
pub struct MemorySportDao {
    entries: Vec<(i32, Sport)>,
    calls: u64,
    ops: Ghost<int>,
}

impl MemorySportDao {
    /// An empty repository.
    pub fn new() -> (r: Self)
        ensures
            r.repo() == Seq::<StoredV>::empty(),
            r.op_count() == 0,
    {
        let r = MemorySportDao { entries: Vec::new(), calls: 0, ops: Ghost(0) };
        proof {
            assert(r.repo() =~= Seq::<StoredV>::empty());
        }
        r
    }

    /// How many operations have run, wrapping at the machine limit; for
    /// observation from tests.
    pub fn calls_made(&self) -> u64 {
        self.calls
    }

    pub closed spec fn entries_view(&self) -> Seq<StoredV> {
        Seq::new(
            self.entries@.len(),
            |i: int| StoredV { uid: self.entries@[i].0 as int, sport: self.entries@[i].1@ },
        )
    }

    fn collect_user_records(&self, uid: i32) -> (r: Vec<Sport>)
        ensures
            records_view(r@) == records_of(self.repo(), uid as int),
    {
        let ghost repo = self.repo();
        let mut out: Vec<Sport> = Vec::new();
        let mut i: usize = 0;
        proof {
            assert(repo.take(0).len() == 0);
            assert(records_view(out@) =~= records_of(repo.take(0), uid as int));
        }
        while i < self.entries.len()
            invariant
                i <= self.entries@.len(),
                repo == self.repo(),
                repo.len() == self.entries@.len(),
                records_view(out@) == records_of(repo.take(i as int), uid as int),
            decreases self.entries@.len() - i,
        {
            let ghost before = out@;
            proof {
                assert(repo.take(i + 1).drop_last() =~= repo.take(i as int));
                assert(repo.take(i + 1).last() == repo[i as int]);
            }
            if self.entries[i].0 == uid {
                out.push(self.entries[i].1.duplicate());
                proof {
                    assert(records_view(out@) =~= records_view(before).push(repo[i as int].sport));
                    assert(records_of(repo.take(i + 1), uid as int) =~= records_of(
                        repo.take(i as int),
                        uid as int,
                    ).push(repo[i as int].sport));
                }
            }
            i += 1;
        }
        proof {
            assert(repo.take(i as int) =~= repo);
        }
        out
    }

    /// The largest stored id, at least zero.
    fn max_id(&self) -> (m: i32)
        ensures
            m >= 0,
    {
        let mut m: i32 = 0;
        let mut i: usize = 0;
        while i < self.entries.len()
            invariant
                m >= 0,
                i <= self.entries@.len(),
            decreases self.entries@.len() - i,
        {
            if self.entries[i].1.id > m {
                m = self.entries[i].1.id;
            }
            i += 1;
        }
        m
    }

    fn bump(&mut self)
        ensures
            final(self).op_count() == old(self).op_count() + 1,
            final(self).entries == old(self).entries,
            final(self).repo() == old(self).repo(),
    {
        self.calls = self.calls.wrapping_add(1);
        proof {
            self.ops@ = self.ops@ + 1;
        }
    }
}

impl SportDao for MemorySportDao {
    closed spec fn repo(&self) -> Seq<StoredV> {
        self.entries_view()
    }

    closed spec fn op_count(&self) -> int {
        self.ops@
    }

    fn insert(&mut self, uid: i32, sport: Sport) -> (r: Result<(), String>)
    {
        self.bump();
        let m = self.max_id();
        if m == i32::MAX {
            return Err("id space exhausted".to_owned());
        }
        let id = m + 1;
        let ghost sv = sport@;
        let mut stored = sport;
        stored.id = id;
        let ghost before = self.repo();
        self.entries.push((uid, stored));
        proof {
            assert(sv == sport@);
            assert(self.repo() =~= before.push(
                StoredV { uid: uid as int, sport: with_id(sport@, id as int) },
            ));
            assert(0 < id as int <= 0x7FFF_FFFF);
        }
        Ok(())
    }

    fn insert_many(&mut self, uid: i32, sports: Vec<Sport>) -> (r: Result<usize, String>)
    {
        self.bump();
        let ghost olds = self.repo();
        let ghost sv = records_view(sports@);
        let n = sports.len();
        let m = self.max_id();
        if n >= 0x7FFF_FFFFusize || m as i64 + 1 + n as i64 > i32::MAX as i64 {
            return Err("id space exhausted".to_owned());
        }
        let base: i32 = m + 1;
        let batch = sports;
        let mut i: usize = 0;
        proof {
            assert(appended_records(olds, self.repo(), uid as int, sv.take(0)));
        }
        while i < n
            invariant
                i <= n,
                n == sv.len(),
                n < 0x7FFF_FFFF,
                0 < base,
                base + n <= i32::MAX + 1,
                batch@.len() == n,
                sv == records_view(batch@),
                self.op_count() == old(self).op_count() + 1,
                olds.len() == old(self).repo().len(),
                appended_records(olds, self.repo(), uid as int, sv.take(i as int)),
            decreases n - i,
        {
            let ghost before = self.repo();
            let id = base + (i as i32);
            let mut stored = batch[i].duplicate();
            stored.id = id;
            proof {
                assert(batch@[i as int]@ == sv[i as int]);
                assert(stored@ == with_id(sv[i as int], id as int));
            }
            self.entries.push((uid, stored));
            proof {
                assert(self.repo() =~= before.push(
                    StoredV { uid: uid as int, sport: with_id(sv[i as int], id as int) },
                ));
                assert(appended_records(olds, self.repo(), uid as int, sv.take(i + 1))) by {
                    assert(sv.take(i + 1)[i as int] == sv[i as int]);
                    assert forall|t: int| 0 <= t < i + 1 implies {
                        &&& (#[trigger] self.repo()[olds.len() + t]).uid == uid as int
                        &&& self.repo()[olds.len() + t].sport == with_id(
                            sv.take(i + 1)[t],
                            self.repo()[olds.len() + t].sport.id,
                        )
                        &&& 0 < self.repo()[olds.len() + t].sport.id <= 0x7FFF_FFFF
                    } by {
                        if t < i {
                            assert(self.repo()[olds.len() + t] == before[olds.len() + t]);
                            assert(sv.take(i + 1)[t] == sv.take(i as int)[t]);
                        }
                    }
                }
            }
            i += 1;
        }
        proof {
            assert(sv.take(n as int) =~= sv);
        }
        Ok(n)
    }

    fn list(&mut self, uid: i32, page: i32, size: i32) -> (r: Result<Vec<Sport>, String>)
    {
        self.bump();
        let ghost mine = sort_desc(records_of(self.repo(), uid as int));
        let all = sort_records_desc(self.collect_user_records(uid));
        let safe_size: i64 = if size <= 0 {
            20
        } else if size > 100 {
            100
        } else {
            size as i64
        };
        let safe_page: i64 = if page < 0 {
            0
        } else {
            page as i64
        };
        proof {
            assert(0 <= safe_page * safe_size <= 0x7FFF_FFFFi64 * 100) by (nonlinear_arith)
                requires
                    0 <= safe_page <= 0x7FFF_FFFF,
                    0 < safe_size <= 100,
            ;
        }
        let start: i64 = safe_page * safe_size;
        proof {
            assert(safe_size as int == clamp_size(size as int));
            assert(safe_page as int == clamp_page(page as int));
            assert(start as int == clamp_page(page as int) * clamp_size(size as int));
        }
        let mut out: Vec<Sport> = Vec::new();
        if (all.len() as u64) <= (start as u64) {
            proof {
                assert(records_view(out@) =~= Seq::<SportV>::empty());
            }
            return Ok(out);
        }
        let from: usize = start as usize;
        let to: usize = if all.len() - from <= safe_size as usize {
            all.len()
        } else {
            from + (safe_size as usize)
        };
        let mut j: usize = from;
        while j < to
            invariant
                from <= j <= to <= all@.len(),
                records_view(all@) == mine,
                out@.len() == j - from,
                forall|t: int| 0 <= t < j - from ==> #[trigger] out@[t]@ == mine[from + t],
            decreases to - j,
        {
            proof {
                assert(all@[j as int]@ == mine[j as int]);
            }
            out.push(all[j].duplicate());
            j += 1;
        }
        proof {
            if from + clamp_size(size as int) >= mine.len() {
                assert(records_view(out@) =~= mine.subrange(from as int, mine.len() as int));
            } else {
                assert(records_view(out@) =~= mine.subrange(
                    from as int,
                    from + clamp_size(size as int),
                ));
            }
        }
        Ok(out)
    }

    fn list_by_time_range(&mut self, uid: i32, start_time: i64, end_time: i64) -> (r: Result<
        Vec<Sport>,
        String,
    >)
    {
        self.bump();
        let ghost repo = self.repo();
        let ghost want = records_in_window(repo, uid as int, start_time as int, end_time as int);
        let mut out: Vec<Sport> = Vec::new();
        let mut i: usize = 0;
        proof {
            assert(repo.take(0).len() == 0);
            assert(records_view(out@) =~= records_in_window(
                repo.take(0),
                uid as int,
                start_time as int,
                end_time as int,
            ));
        }
        while i < self.entries.len()
            invariant
                i <= self.entries@.len(),
                repo == self.repo(),
                repo.len() == self.entries@.len(),
                records_view(out@) == records_in_window(
                    repo.take(i as int),
                    uid as int,
                    start_time as int,
                    end_time as int,
                ),
            decreases self.entries@.len() - i,
        {
            let e = &self.entries[i];
            let ghost before = out@;
            proof {
                assert(repo.take(i + 1).drop_last() =~= repo.take(i as int));
                assert(repo.take(i + 1).last() == repo[i as int]);
            }
            if e.0 == uid && start_time <= e.1.start_time && e.1.start_time < end_time {
                out.push(e.1.duplicate());
                proof {
                    assert(records_view(out@) =~= records_view(before).push(repo[i as int].sport));
                    assert(records_in_window(
                        repo.take(i + 1),
                        uid as int,
                        start_time as int,
                        end_time as int,
                    ) =~= records_in_window(
                        repo.take(i as int),
                        uid as int,
                        start_time as int,
                        end_time as int,
                    ).push(repo[i as int].sport));
                }
            }
            i += 1;
        }
        proof {
            assert(repo.take(i as int) =~= repo);
        }
        Ok(sort_records_desc(out))
    }

    fn update(&mut self, uid: i32, sport: Sport) -> (r: Result<(), String>)
    {
        self.bump();
        if sport.id <= 0 {
            return Err("invalid sport id".to_owned());
        }
        let ghost repo = self.repo();
        let mut i: usize = 0;
        while i < self.entries.len()
            invariant
                i <= self.entries@.len(),
                repo == self.repo(),
                repo == old(self).repo(),
                self.op_count() == old(self).op_count() + 1,
                repo.len() == self.entries@.len(),
                sport@.id > 0,
                forall|j: int|
                    0 <= j < i ==> !((#[trigger] repo[j]).uid == uid as int && repo[j].sport.id
                        == sport@.id),
            decreases self.entries@.len() - i,
        {
            let matched = self.entries[i].0 == uid && self.entries[i].1.id == sport.id;
            if matched {
                let ghost before = self.repo();
                let ghost sv = sport@;
                proof {
                    assert((old(self).repo()[i as int]).uid == uid as int);
                    assert(old(self).repo()[i as int].sport.id == sport@.id);
                }
                self.entries.remove(i);
                self.entries.insert(i, (uid, sport));
                proof {
                    assert(self.repo() =~= before.update(
                        i as int,
                        StoredV { uid: uid as int, sport: sv },
                    ));
                    assert(self.repo() == old(self).repo().update(
                        i as int,
                        StoredV { uid: uid as int, sport: sport@ },
                    ));
                }
                return Ok(());
            }
            i += 1;
        }
        Err("record not found or not owned".to_owned())
    }

    fn remove(&mut self, uid: i32, id: i32) -> (r: Result<(), String>)
    {
        self.bump();
        if id <= 0 {
            return Err("invalid sport id".to_owned());
        }
        let ghost repo = self.repo();
        let mut i: usize = 0;
        while i < self.entries.len()
            invariant
                i <= self.entries@.len(),
                repo == self.repo(),
                repo == old(self).repo(),
                self.op_count() == old(self).op_count() + 1,
                repo.len() == self.entries@.len(),
                id > 0,
                forall|j: int|
                    0 <= j < i ==> !((#[trigger] repo[j]).uid == uid as int && repo[j].sport.id
                        == id as int),
            decreases self.entries@.len() - i,
        {
            let matched = self.entries[i].0 == uid && self.entries[i].1.id == id;
            if matched {
                let ghost before = self.repo();
                proof {
                    assert((old(self).repo()[i as int]).uid == uid as int);
                    assert(old(self).repo()[i as int].sport.id == id as int);
                }
                self.entries.remove(i);
                proof {
                    assert(self.repo() =~= before.remove(i as int));
                    assert(self.repo() == old(self).repo().remove(i as int));
                }
                return Ok(());
            }
            i += 1;
        }
        Err("record not found or not owned".to_owned())
    }

    fn get_by_id(&mut self, uid: i32, id: i32) -> (r: Result<Option<Sport>, String>)
    {
        self.bump();
        if id <= 0 {
            return Ok(None);
        }
        let ghost repo = self.repo();
        let mut i: usize = 0;
        while i < self.entries.len()
            invariant
                i <= self.entries@.len(),
                repo == self.repo(),
                repo == old(self).repo(),
                self.op_count() == old(self).op_count() + 1,
                repo.len() == self.entries@.len(),
                forall|j: int|
                    0 <= j < i ==> !((#[trigger] repo[j]).uid == uid as int && repo[j].sport.id
                        == id as int),
            decreases self.entries@.len() - i,
        {
            let matched = self.entries[i].0 == uid && self.entries[i].1.id == id;
            if matched {
                let found = self.entries[i].1.duplicate();
                proof {
                    assert((old(self).repo()[i as int]).uid == uid as int);
                    assert(old(self).repo()[i as int].sport.id == id as int);
                    assert(old(self).repo()[i as int].sport == found@);
                }
                return Ok(Some(found));
            }
            i += 1;
        }
        Ok(None)
    }

    fn get_first(&mut self, uid: i32) -> (r: Result<Option<Sport>, String>)
    {
        self.bump();
        let ghost repo = self.repo();
        let mut best: Option<usize> = None;
        let mut i: usize = 0;
        while i < self.entries.len()
            invariant
                i <= self.entries@.len(),
                repo == self.repo(),
                repo.len() == self.entries@.len(),
                match best {
                    Some(b) => ({
                        let bt = repo[b as int].sport.start_time;
                        &&& b < i
                        &&& repo[b as int].uid == uid as int
                        &&& forall|j: int|
                            0 <= j < i && (#[trigger] repo[j]).uid == uid as int ==> bt <= repo[
                                j
                            ].sport.start_time
                    }),
                    None => forall|j: int| 0 <= j < i ==> (#[trigger] repo[j]).uid != uid as int,
                },
            decreases self.entries@.len() - i,
        {
            if self.entries[i].0 == uid {
                match best {
                    Some(b) => {
                        if self.entries[i].1.start_time < self.entries[b].1.start_time {
                            best = Some(i);
                        }
                    },
                    None => {
                        best = Some(i);
                    },
                }
            }
            i += 1;
        }
        match best {
            Some(b) => Ok(Some(self.entries[b].1.duplicate())),
            None => Ok(None),
        }
    }
}


} // verus!
