//! The scoped result cache: a small verified association map.
//!
//! Two instances back the statistics service: the all-time cache keyed by
//! owner, and the year cache keyed by owner and calendar year. Entries
//! are created lazily by a statistics read and removed — never updated in
//! place — by the mutations that can affect them.
use vstd::prelude::*;
use vstd::map::*;

verus! {

/// The pair view of a key.
pub open spec fn key_view(k: (i32, i32)) -> (int, int) {
    (k.0 as int, k.1 as int)
}

/// An in-memory map from `(owner, year)` keys to cached values. The
/// all-time scope uses year 0 as its nominal second component.
pub struct MemoryResultCache<T> {
    keys: Vec<(i32, i32)>,
    vals: Vec<T>,
}

impl<T> View for MemoryResultCache<T> {
    type V = Map<(int, int), T>;

    closed spec fn view(&self) -> Map<(int, int), T> {
        Map::new(
            |k: (int, int)|
                exists|i: int| 0 <= i < self.keys@.len() && key_view(#[trigger] self.keys@[i]) == k,
            |k: (int, int)|
                {
                    let i = choose|i: int|
                        0 <= i < self.keys@.len() && key_view(#[trigger] self.keys@[i]) == k;
                    self.vals@[i]
                },
        )
    }
}

impl<T> MemoryResultCache<T> {
    /// Keys are unique and each has a value.
    pub closed spec fn wf(&self) -> bool {
        &&& self.keys@.len() == self.vals@.len()
        &&& forall|i: int, j: int|
            0 <= i < j < self.keys@.len() ==> key_view(#[trigger] self.keys@[i]) != key_view(
                #[trigger] self.keys@[j],
            )
    }

    /// An empty cache.
    pub fn new() -> (r: Self)
        ensures
            r.wf(),
            r@ == Map::<(int, int), T>::empty(),
    {
        let r = MemoryResultCache { keys: Vec::new(), vals: Vec::new() };
        proof {
            assert(r@ =~= Map::<(int, int), T>::empty());
        }
        r
    }

    fn find(&self, uid: i32, year: i32) -> (r: Option<usize>)
        requires
            self.wf(),
        ensures
            match r {
                Some(i) => i < self.keys@.len() && key_view(self.keys@[i as int]) == (
                    uid as int,
                    year as int,
                ),
                None => !self@.dom().contains((uid as int, year as int)),
            },
    {
        let mut i: usize = 0;
        while i < self.keys.len()
            invariant
                i <= self.keys@.len(),
                forall|j: int|
                    0 <= j < i ==> key_view(#[trigger] self.keys@[j]) != (uid as int, year as int),
            decreases self.keys@.len() - i,
        {
            let k = self.keys[i];
            if k.0 == uid && k.1 == year {
                return Some(i);
            }
            i += 1;
        }
        None
    }

    /// The cached value of a key, if any.
    pub fn lookup(&self, uid: i32, year: i32) -> (r: Option<&T>)
        requires
            self.wf(),
        ensures
            match r {
                Some(v) => self@.dom().contains((uid as int, year as int)) && self@[
                    (uid as int, year as int)
                ] == *v,
                None => !self@.dom().contains((uid as int, year as int)),
            },
    {
        match self.find(uid, year) {
            Some(i) => {
                proof {
                    let k = (uid as int, year as int);
                    let w = choose|w: int|
                        0 <= w < self.keys@.len() && key_view(#[trigger] self.keys@[w]) == k;
                    assert(key_view(self.keys@[i as int]) == k);
                    if w != i as int {
                        assert(key_view(self.keys@[w]) != key_view(self.keys@[i as int]));
                    }
                    assert(w == i as int);
                }
                Some(&self.vals[i])
            },
            None => None,
        }
    }

    /// Removes a key's entry, if present.
    pub fn invalidate(&mut self, uid: i32, year: i32)
        requires
            old(self).wf(),
        ensures
            final(self).wf(),
            final(self)@ == old(self)@.remove((uid as int, year as int)),
    {
        let ghost k = (uid as int, year as int);
        let found = self.find(uid, year);
        match found {
            Some(i) => {
                let ghost ok = self.keys@;
                let ghost ov = self.vals@;
                let ghost n = ok.len() as int;
                self.keys.swap_remove(i);
                self.vals.swap_remove(i);
                proof {
                    let nk = self.keys@;
                    let nv = self.vals@;
                    let ii = i as int;
                    assert(nk.len() == n - 1);
                    assert(nv.len() == n - 1);
                    assert(forall|a: int|
                        0 <= a < n - 1 ==> #[trigger] nk[a] == (if a == ii {
                            ok[n - 1]
                        } else {
                            ok[a]
                        }));
                    assert(forall|a: int|
                        0 <= a < n - 1 ==> #[trigger] nv[a] == (if a == ii {
                            ov[n - 1]
                        } else {
                            ov[a]
                        }));
                    // uniqueness carries over: distinct new positions come
                    // from distinct old positions
                    assert forall|a: int, b: int|
                        0 <= a < b < n - 1 implies key_view(#[trigger] nk[a]) != key_view(
                        #[trigger] nk[b],
                    ) by {
                        let oa: int = if a == ii {
                            n - 1
                        } else {
                            a
                        };
                        let ob: int = if b == ii {
                            n - 1
                        } else {
                            b
                        };
                        assert(oa != ob);
                        assert(key_view(ok[oa]) != key_view(ok[ob])) by {
                            lemma_distinct(ok, oa, ob);
                        }
                    }
                    assert(self.wf());
                    assert(key_view(ok[ii]) == k);
                    assert_maps_equal!(self@, old(self)@.remove(k), k2 => {
                        if self@.dom().contains(k2) {
                            let a = choose|a: int|
                                0 <= a < nk.len() && key_view(#[trigger] nk[a]) == k2;
                            let oa: int = if a == ii {
                                n - 1
                            } else {
                                a
                            };
                            assert(key_view(ok[oa]) == k2);
                            assert(oa != ii);
                            lemma_distinct(ok, oa, ii);
                            assert(k2 != k);
                            assert(old(self)@.dom().contains(k2));
                            let j = choose|j: int|
                                0 <= j < ok.len() && key_view(#[trigger] ok[j]) == k2;
                            if j != oa {
                                lemma_distinct(ok, j, oa);
                            }
                            assert(j == oa);
                            assert(self@[k2] == nv[a]);
                            assert(old(self)@[k2] == ov[j]);
                            assert(nv[a] == ov[oa]);
                        } else {
                            if old(self)@.remove(k).dom().contains(k2) {
                                let j = choose|j: int|
                                    0 <= j < ok.len() && key_view(#[trigger] ok[j]) == k2;
                                assert(k2 != k);
                                assert(j != ii);
                                if j == n - 1 {
                                    assert(ii < n - 1);
                                    assert(key_view(nk[ii]) == k2);
                                } else {
                                    assert(key_view(nk[j]) == k2);
                                }
                                assert(self@.dom().contains(k2));
                            }
                        }
                    });
                }
            },
            None => {
                proof {
                    assert(self@ =~= old(self)@.remove(k));
                }
            },
        }
    }

    /// Caches a value under a key, replacing any earlier entry.
    pub fn store(&mut self, uid: i32, year: i32, value: T)
        requires
            old(self).wf(),
        ensures
            final(self).wf(),
            final(self)@ == old(self)@.insert((uid as int, year as int), value),
    {
        let ghost k = (uid as int, year as int);
        self.invalidate(uid, year);
        let ghost mid = self@;
        let ghost mk = self.keys@;
        let ghost mv = self.vals@;
        self.keys.push((uid, year));
        self.vals.push(value);
        proof {
            let nk = self.keys@;
            let nv = self.vals@;
            let n = mk.len() as int;
            assert(!mid.dom().contains(k));
            assert(key_view(nk[n]) == k);
            assert forall|a: int, b: int|
                0 <= a < b < n + 1 implies key_view(#[trigger] nk[a]) != key_view(
                #[trigger] nk[b],
            ) by {
                if b == n {
                    assert(nk[a] == mk[a]);
                    if key_view(mk[a]) == k {
                        assert(mid.dom().contains(k));
                    }
                } else {
                    assert(nk[a] == mk[a]);
                    assert(nk[b] == mk[b]);
                    lemma_distinct(mk, a, b);
                }
            }
            assert(self.wf());
            assert_maps_equal!(self@, mid.insert(k, value), k2 => {
                if k2 == k {
                    assert(key_view(nk[n]) == k2);
                    assert(self@.dom().contains(k2));
                    let a = choose|a: int| 0 <= a < nk.len() && key_view(#[trigger] nk[a]) == k2;
                    if a != n {
                        assert(nk[a] == mk[a]);
                        assert(mid.dom().contains(k));
                    }
                    assert(a == n);
                    assert(self@[k2] == nv[n]);
                } else {
                    if self@.dom().contains(k2) {
                        let a = choose|a: int|
                            0 <= a < nk.len() && key_view(#[trigger] nk[a]) == k2;
                        assert(a != n);
                        assert(nk[a] == mk[a]);
                        assert(mid.dom().contains(k2));
                        let j = choose|j: int|
                            0 <= j < mk.len() && key_view(#[trigger] mk[j]) == k2;
                        if j != a {
                            lemma_distinct(mk, j, a);
                        }
                        assert(self@[k2] == nv[a]);
                        assert(mid[k2] == mv[j]);
                    } else {
                        if mid.dom().contains(k2) {
                            let j = choose|j: int|
                                0 <= j < mk.len() && key_view(#[trigger] mk[j]) == k2;
                            assert(key_view(nk[j]) == k2);
                            assert(self@.dom().contains(k2));
                        }
                    }
                }
            });
            assert(mid.insert(k, value) =~= old(self)@.remove(k).insert(k, value));
            assert(old(self)@.remove(k).insert(k, value) =~= old(self)@.insert(k, value));
        }
    }
}

/// Distinct positions of a unique-keyed list hold distinct keys.
proof fn lemma_distinct(ks: Seq<(i32, i32)>, a: int, b: int)
    requires
        0 <= a < ks.len(),
        0 <= b < ks.len(),
        a != b,
        forall|i: int, j: int|
            0 <= i < j < ks.len() ==> key_view(#[trigger] ks[i]) != key_view(#[trigger] ks[j]),
    ensures
        key_view(ks[a]) != key_view(ks[b]),
{
}


/// The result-cache interface keyed by owner, as the statistics reads
/// consume it: `get` before computing, `set` after, `invalidate` on a
/// mutation.
pub trait ResultCache<T>: Sized {
    /// The cached entries by owner.
    spec fn entries(&self) -> Map<int, T>;

    /// The implementation's well-formedness.
    spec fn cache_inv(&self) -> bool;

    /// The cached value of an owner, if any.
    fn get(&self, uid: i32) -> (r: Option<&T>)
        requires
            self.cache_inv(),
        ensures
            match r {
                Some(v) => self.entries().dom().contains(uid as int) && self.entries()[
                    uid as int
                ] == *v,
                None => !self.entries().dom().contains(uid as int),
            },
    ;

    /// Caches a value for an owner, replacing any earlier entry.
    fn set(&mut self, uid: i32, value: T)
        requires
            old(self).cache_inv(),
        ensures
            final(self).cache_inv(),
            final(self).entries() == old(self).entries().insert(uid as int, value),
    ;

    /// Drops an owner's entry, if present.
    fn invalidate(&mut self, uid: i32)
        requires
            old(self).cache_inv(),
        ensures
            final(self).cache_inv(),
            final(self).entries() == old(self).entries().remove(uid as int),
    ;
}

impl<T> ResultCache<T> for MemoryResultCache<T> {
    closed spec fn entries(&self) -> Map<int, T> {
        Map::new(
            |u: int| self@.dom().contains((u, 0)),
            |u: int| self@[(u, 0)],
        )
    }

    closed spec fn cache_inv(&self) -> bool {
        self.wf()
    }

    fn get(&self, uid: i32) -> (r: Option<&T>) {
        self.lookup(uid, 0)
    }

    fn set(&mut self, uid: i32, value: T) {
        let ghost before = self.entries();
        let ghost v = value;
        self.store(uid, 0, value);
        proof {
            assert_maps_equal!(self.entries(), before.insert(uid as int, v), u => {
                if u == uid as int {
                    assert(self@.dom().contains((u, 0)));
                } else {
                    assert(self@.dom().contains((u, 0)) == old(self)@.dom().contains((u, 0)));
                }
            });
        }
    }

    fn invalidate(&mut self, uid: i32) {
        let ghost before = self.entries();
        self.invalidate(uid, 0);
        proof {
            assert_maps_equal!(self.entries(), before.remove(uid as int), u => {
                if u == uid as int {
                    assert(!self@.dom().contains((u, 0)));
                } else {
                    assert(self@.dom().contains((u, 0)) == old(self)@.dom().contains((u, 0)));
                }
            });
        }
    }
}

} // verus!
