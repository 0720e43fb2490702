//! Bounded-cache eviction: the `Cache` capability, an adaptive-replacement
//! style implementation (`ARC`), and the capacity-mode wrapper (`CacheState`).
//!
//! The cache keeps two recency lists, `recent` and `frequent`, each soft-capped
//! at half the configured capacity. Touching an entry re-ranks it; overflowing
//! a list evicts its back element, which the caller receives as the victim.

use vstd::prelude::*;
use std::collections::VecDeque;

verus! {

/// An index value that a cache can track: copyable, with an executable
/// equality test that decides logical equality.
pub trait CacheIndex: Sized + Copy {
    /// Decides whether two index values are equal.
    fn eq_index(&self, other: &Self) -> (r: bool)
        ensures
            r == (self == other),
    ;
}

impl CacheIndex for usize {
    fn eq_index(&self, other: &Self) -> (r: bool)
        ensures
            r == (self == other),
    {
        *self == *other
    }
}

/// The mathematical state of a two-list cache.
pub ghost struct ArcModel<T> {
    pub recent: Seq<T>,
    pub frequent: Seq<T>,
    pub capacity: usize,
}

impl<T> ArcModel<T> {
    /// Every index the cache currently tracks, in either list.
    pub open spec fn tracks(self, x: T) -> bool {
        self.recent.contains(x) || self.frequent.contains(x)
    }

    /// Well-formedness: no list holds an index twice, the lists share no
    /// index, and `recent` stays within one of the half-capacity threshold.
    pub open spec fn wf(self) -> bool {
        &&& self.recent.no_duplicates()
        &&& self.frequent.no_duplicates()
        &&& self.recent.disjoint(self.frequent)
        &&& self.recent.len() <= self.capacity / 2 + 1
    }
}

/// Pushes `x` to the front of `s` and, if the result exceeds `bound`,
/// drops and reports the back element.
pub open spec fn push_front_bounded<T>(s: Seq<T>, x: T, bound: int) -> (Seq<T>, Option<T>) {
    let grown = seq![x] + s;
    if grown.len() > bound {
        (grown.drop_last(), Some(grown.last()))
    } else {
        (grown, None)
    }
}

/// One `touch` step over the model: re-rank a frequent hit, promote a recent
/// hit into `frequent`, or admit a new entry into `recent`; in each case the
/// overfull list (for a promotion: the list that was left) may evict its back.
pub open spec fn arc_touch<T>(m: ArcModel<T>, idx: T) -> (ArcModel<T>, Option<T>) {
    let half = m.capacity / 2;
    if m.frequent.contains(idx) {
        let (f, victim) = push_front_bounded(m.frequent.remove_value(idx), idx, half as int);
        (ArcModel { frequent: f, ..m }, victim)
    } else if m.recent.contains(idx) {
        let shrunk = m.recent.remove_value(idx);
        let f = seq![idx] + m.frequent;
        if shrunk.len() > half {
            (ArcModel { recent: shrunk.drop_last(), frequent: f, ..m }, Some(shrunk.last()))
        } else {
            (ArcModel { recent: shrunk, frequent: f, ..m }, None)
        }
    } else {
        let (r, victim) = push_front_bounded(m.recent, idx, half as int);
        (ArcModel { recent: r, ..m }, victim)
    }
}

/// One `remove` step over the model: the index leaves whichever list holds it
/// (`frequent` checked first), and is reported back if it was present.
pub open spec fn arc_remove<T>(m: ArcModel<T>, idx: T) -> (ArcModel<T>, Option<T>) {
    if m.frequent.contains(idx) {
        (ArcModel { frequent: m.frequent.remove_value(idx), ..m }, Some(idx))
    } else if m.recent.contains(idx) {
        (ArcModel { recent: m.recent.remove_value(idx), ..m }, Some(idx))
    } else {
        (m, None)
    }
}

/// Trims `s` from the back down to at most `bound` elements.
pub open spec fn trim_back<T>(s: Seq<T>, bound: int) -> Seq<T> {
    if s.len() > bound {
        s.take(bound)
    } else {
        s
    }
}

/// One `resize` step over the model: capacity zero is rejected without any
/// state change; otherwise the capacity is updated and both lists are trimmed
/// from the back down to the new half-capacity plus one.
pub open spec fn arc_resize<T>(m: ArcModel<T>, new_capacity: usize) -> (ArcModel<T>, bool) {
    if new_capacity == 0 {
        (m, false)
    } else {
        let keep = new_capacity / 2 + 1;
        (
            ArcModel {
                recent: trim_back(m.recent, keep as int),
                frequent: trim_back(m.frequent, keep as int),
                capacity: new_capacity,
            },
            true,
        )
    }
}

/// Removing one occurrence keeps every remaining element, shortens the
/// sequence by one, and under no-duplicates removes the value for good.
pub proof fn lemma_remove_value_props<A>(s: Seq<A>, x: A)
    requires
        s.contains(x),
    ensures
        s.remove_value(x).len() == s.len() - 1,
        forall|y: A| s.remove_value(x).contains(y) ==> s.contains(y),
        s.no_duplicates() ==> s.remove_value(x).no_duplicates() && !s.remove_value(x).contains(x),
{
    s.index_of_first_ensures(x);
    let i = s.index_of_first(x)->Some_0;
    s.remove_ensures(i);
    let t = s.remove(i);
    assert forall|y: A| t.contains(y) implies s.contains(y) by {
        let j = choose|j: int| 0 <= j < t.len() && t[j] == y;
        if j < i {
            assert(s[j] == y);
        } else {
            assert(s[j + 1] == y);
        }
    };
    if s.no_duplicates() {
        assert forall|j1: int, j2: int|
            0 <= j1 < t.len() && 0 <= j2 < t.len() && j1 != j2 implies t[j1] != t[j2] by {
            let k1: int = if j1 < i { j1 } else { j1 + 1 };
            let k2: int = if j2 < i { j2 } else { j2 + 1 };
            assert(t[j1] == s[k1]);
            assert(t[j2] == s[k2]);
        };
        assert forall|j: int| 0 <= j < t.len() implies t[j] != x by {
            let k: int = if j < i { j } else { j + 1 };
            assert(t[j] == s[k]);
            assert(k != i);
            assert(s[i] == x);
        };
        assert(!t.contains(x));
    }
}

/// Dropping the back element keeps a subset of the elements and preserves
/// freedom from duplicates.
pub proof fn lemma_drop_last_props<A>(s: Seq<A>)
    requires
        s.len() > 0,
    ensures
        forall|y: A| s.drop_last().contains(y) ==> s.contains(y),
        s.no_duplicates() ==> s.drop_last().no_duplicates(),
        s.contains(s.last()),
{
    assert forall|y: A| s.drop_last().contains(y) implies s.contains(y) by {
        let j = choose|j: int| 0 <= j < s.drop_last().len() && s.drop_last()[j] == y;
        assert(s[j] == y);
    };
}

/// Taking a prefix keeps a subset of the elements and preserves freedom from
/// duplicates.
pub proof fn lemma_take_props<A>(s: Seq<A>, n: int)
    requires
        0 <= n <= s.len(),
    ensures
        forall|y: A| s.take(n).contains(y) ==> s.contains(y),
        s.no_duplicates() ==> s.take(n).no_duplicates(),
{
    assert forall|y: A| s.take(n).contains(y) implies s.contains(y) by {
        let j = choose|j: int| 0 <= j < s.take(n).len() && s.take(n)[j] == y;
        assert(s[j] == y);
    };
}

/// A `touch` step preserves well-formedness, never changes the capacity, only
/// ever tracks old indices and the touched one, and any victim it reports was
/// tracked before the step or is the touched index itself.
pub proof fn lemma_arc_touch_wf<T>(m: ArcModel<T>, idx: T)
    requires
        m.wf(),
    ensures
        arc_touch(m, idx).0.wf(),
        arc_touch(m, idx).0.capacity == m.capacity,
        forall|y: T| #[trigger] arc_touch(m, idx).0.recent.contains(y) ==> m.tracks(y) || y == idx,
        forall|y: T|
            #[trigger] arc_touch(m, idx).0.frequent.contains(y) ==> m.tracks(y) || y == idx,
        match arc_touch(m, idx).1 {
            Some(v) => m.tracks(v) || v == idx,
            None => true,
        },
{
    let half = m.capacity / 2;
    if m.frequent.contains(idx) {
        lemma_remove_value_props(m.frequent, idx);
        let shrunk = m.frequent.remove_value(idx);
        let grown = seq![idx] + shrunk;
        assert forall|j1: int, j2: int|
            0 <= j1 < grown.len() && 0 <= j2 < grown.len() && j1 != j2 implies grown[j1]
            != grown[j2] by {
            if j1 == 0 {
                assert(grown[j2] == shrunk[j2 - 1]);
                assert(shrunk.contains(shrunk[j2 - 1]));
            } else if j2 == 0 {
                assert(grown[j1] == shrunk[j1 - 1]);
                assert(shrunk.contains(shrunk[j1 - 1]));
            } else {
                assert(grown[j1] == shrunk[j1 - 1]);
                assert(grown[j2] == shrunk[j2 - 1]);
            }
        };
        assert forall|y: T| grown.contains(y) implies m.frequent.contains(y) || y == idx by {
            let j = choose|j: int| 0 <= j < grown.len() && grown[j] == y;
            if j > 0 {
                assert(shrunk[j - 1] == y);
                assert(shrunk.contains(y));
            }
        };
        if grown.len() > half {
            lemma_drop_last_props(grown);
        }
        assert forall|i: int, j: int|
            0 <= i < arc_touch(m, idx).0.recent.len() && 0 <= j < arc_touch(
                m,
                idx,
            ).0.frequent.len() implies arc_touch(m, idx).0.recent[i] != arc_touch(
            m,
            idx,
        ).0.frequent[j] by {
            let f = arc_touch(m, idx).0.frequent;
            assert(f.contains(f[j]));
            assert(m.frequent.contains(f[j]) || f[j] == idx);
            assert(m.recent.contains(m.recent[i]));
        };
    } else if m.recent.contains(idx) {
        lemma_remove_value_props(m.recent, idx);
        let shrunk = m.recent.remove_value(idx);
        let f = seq![idx] + m.frequent;
        assert forall|j1: int, j2: int|
            0 <= j1 < f.len() && 0 <= j2 < f.len() && j1 != j2 implies f[j1] != f[j2] by {
            if j1 == 0 {
                assert(f[j2] == m.frequent[j2 - 1]);
                assert(m.frequent.contains(m.frequent[j2 - 1]));
            } else if j2 == 0 {
                assert(f[j1] == m.frequent[j1 - 1]);
                assert(m.frequent.contains(m.frequent[j1 - 1]));
            } else {
                assert(f[j1] == m.frequent[j1 - 1]);
                assert(f[j2] == m.frequent[j2 - 1]);
            }
        };
        if shrunk.len() > half {
            lemma_drop_last_props(shrunk);
        }
        let r2 = arc_touch(m, idx).0.recent;
        assert forall|y: T| r2.contains(y) implies shrunk.contains(y) by {}
        assert forall|i: int, j: int|
            0 <= i < r2.len() && 0 <= j < f.len() implies r2[i] != f[j] by {
            assert(r2.contains(r2[i]));
            assert(shrunk.contains(r2[i]));
            assert(m.recent.contains(r2[i]));
            if j == 0 {
                assert(f[j] == idx);
                assert(!shrunk.contains(idx));
            } else {
                assert(f[j] == m.frequent[j - 1]);
                assert(m.frequent.contains(f[j]));
            }
        };
        if shrunk.len() > half {
            assert(shrunk.contains(shrunk.last()));
        }
    } else {
        let grown = seq![idx] + m.recent;
        assert forall|j1: int, j2: int|
            0 <= j1 < grown.len() && 0 <= j2 < grown.len() && j1 != j2 implies grown[j1]
            != grown[j2] by {
            if j1 == 0 {
                assert(grown[j2] == m.recent[j2 - 1]);
                assert(m.recent.contains(m.recent[j2 - 1]));
            } else if j2 == 0 {
                assert(grown[j1] == m.recent[j1 - 1]);
                assert(m.recent.contains(m.recent[j1 - 1]));
            } else {
                assert(grown[j1] == m.recent[j1 - 1]);
                assert(grown[j2] == m.recent[j2 - 1]);
            }
        };
        if grown.len() > half {
            lemma_drop_last_props(grown);
        }
        let r2 = arc_touch(m, idx).0.recent;
        assert forall|y: T| r2.contains(y) implies m.recent.contains(y) || y == idx by {
            let j = choose|j: int| 0 <= j < r2.len() && r2[j] == y;
            assert(grown.contains(y));
            let j2 = choose|j2: int| 0 <= j2 < grown.len() && grown[j2] == y;
            if j2 > 0 {
                assert(grown[j2] == m.recent[j2 - 1]);
            }
        };
        assert forall|i: int, j: int|
            0 <= i < r2.len() && 0 <= j < m.frequent.len() implies r2[i] != m.frequent[j] by {
            assert(r2.contains(r2[i]));
            assert(m.frequent.contains(m.frequent[j]));
        };
        if grown.len() > half {
            assert(grown.contains(grown.last()));
        }
    }
}

/// A `remove` step preserves well-formedness, never changes the capacity, and
/// afterwards the cache no longer tracks the removed index.
pub proof fn lemma_arc_remove_wf<T>(m: ArcModel<T>, idx: T)
    requires
        m.wf(),
    ensures
        arc_remove(m, idx).0.wf(),
        arc_remove(m, idx).0.capacity == m.capacity,
        !arc_remove(m, idx).0.tracks(idx),
        forall|y: T| #[trigger] arc_remove(m, idx).0.recent.contains(y) ==> m.tracks(y),
        forall|y: T| #[trigger] arc_remove(m, idx).0.frequent.contains(y) ==> m.tracks(y),
        arc_remove(m, idx).1 == (if m.tracks(idx) {
            Some(idx)
        } else {
            Option::<T>::None
        }),
{
    if m.frequent.contains(idx) {
        lemma_remove_value_props(m.frequent, idx);
        let f2 = m.frequent.remove_value(idx);
        assert forall|i: int, j: int|
            0 <= i < m.recent.len() && 0 <= j < f2.len() implies m.recent[i] != f2[j] by {
            assert(f2.contains(f2[j]));
            assert(m.frequent.contains(f2[j]));
        };
        assert(!m.recent.contains(idx));
    } else if m.recent.contains(idx) {
        lemma_remove_value_props(m.recent, idx);
        let r2 = m.recent.remove_value(idx);
        assert forall|i: int, j: int|
            0 <= i < r2.len() && 0 <= j < m.frequent.len() implies r2[i] != m.frequent[j] by {
            assert(r2.contains(r2[i]));
            assert(m.recent.contains(r2[i]));
        };
    }
}

/// A `resize` step preserves well-formedness; a zero capacity is rejected and
/// leaves the state untouched.
pub proof fn lemma_arc_resize_wf<T>(m: ArcModel<T>, new_capacity: usize)
    requires
        m.wf(),
    ensures
        arc_resize(m, new_capacity).0.wf(),
        forall|y: T| #[trigger] arc_resize(m, new_capacity).0.recent.contains(y) ==> m.tracks(y),
        forall|y: T| #[trigger] arc_resize(m, new_capacity).0.frequent.contains(y) ==> m.tracks(y),
        new_capacity == 0 ==> arc_resize(m, new_capacity) == (m, false),
        new_capacity != 0 ==> arc_resize(m, new_capacity).1 == true && arc_resize(
            m,
            new_capacity,
        ).0.capacity == new_capacity,
{
    if new_capacity != 0 {
        let keep = (new_capacity / 2 + 1) as int;
        if m.recent.len() > keep {
            lemma_take_props(m.recent, keep);
        }
        if m.frequent.len() > keep {
            lemma_take_props(m.frequent, keep);
        }
        let m2 = arc_resize(m, new_capacity).0;
        assert forall|i: int, j: int|
            0 <= i < m2.recent.len() && 0 <= j < m2.frequent.len() implies m2.recent[i]
            != m2.frequent[j] by {
            assert(m2.recent.contains(m2.recent[i]));
            assert(m2.frequent.contains(m2.frequent[j]));
            assert(m.recent.contains(m2.recent[i]));
            assert(m.frequent.contains(m2.frequent[j]));
        };
    }
}

/// Finds the first position of `idx` in the deque, scanning from the front.
fn position_of<T: CacheIndex>(dq: &VecDeque<T>, idx: &T) -> (r: Option<usize>)
    ensures
        match r {
            Some(i) => dq@.index_of_first(*idx) == Some(i as int),
            None => !dq@.contains(*idx),
        },
{
    let ghost s = dq@;
    let n: usize = dq.len();
    let mut i: usize = 0;
    while i < n
        invariant
            n == s.len(),
            s == dq@,
            i <= n,
            forall|j: int| 0 <= j < i ==> s[j] != *idx,
        decreases n - i,
    {
        let x = &dq[i];
        if x.eq_index(idx) {
            proof {
                assert(s[i as int] == *idx);
                assert(s.contains(*idx));
                s.index_of_first_ensures(*idx);
                let found = s.index_of_first(*idx)->Some_0;
                assert(s[found] == *idx);
                if found < i {
                    assert(false);
                } else if found > i {
                    assert(s[i as int] != *idx);
                    assert(false);
                }
            }
            return Some(i);
        }
        i += 1;
    }
    proof {
        if s.contains(*idx) {
            let j = choose|j: int| 0 <= j < s.len() && s[j] == *idx;
            assert(false);
        }
    }
    None
}

/// An adaptive-replacement style cache over two recency lists.
///
/// `recent` holds entries seen once lately; `frequent` holds entries touched
/// again. Each list is soft-capped at half of `cache_capacity`; an overfull
/// list sheds its oldest (back) element, which is reported as the eviction
/// victim.
#[derive(Debug)]
pub struct ARC<T> {
    recent: VecDeque<T>,
    frequent: VecDeque<T>,
    pub cache_capacity: usize,
}

impl<T: CacheIndex> View for ARC<T> {
    type V = ArcModel<T>;

    closed spec fn view(&self) -> ArcModel<T> {
        ArcModel { recent: self.recent@, frequent: self.frequent@, capacity: self.cache_capacity }
    }
}

impl<T: CacheIndex> ARC<T> {
    /// Both lists empty, with the given overall capacity.
    pub fn new(cache_capacity: usize) -> (r: Self)
        ensures
            r@ == (ArcModel {
                recent: Seq::<T>::empty(),
                frequent: Seq::<T>::empty(),
                capacity: cache_capacity,
            }),
            r@.wf(),
    {
        Self {
            recent: VecDeque::with_capacity(cache_capacity / 2 + 1),
            frequent: VecDeque::with_capacity(cache_capacity / 2 + 1),
            cache_capacity,
        }
    }

    /// Records an access to `idx` and returns the evicted entry, if the
    /// access pushed a list over its threshold.
    ///
    /// A `frequent` hit moves to the front of `frequent`; a `recent` hit is
    /// promoted to the front of `frequent` (the check after a promotion is on
    /// `recent`, the list that was left); a miss enters at the front of
    /// `recent`.
    pub fn touch(&mut self, idx: T) -> (r: Option<T>)
        requires
            old(self)@.wf(),
        ensures
            final(self)@ == arc_touch(old(self)@, idx).0,
            r == arc_touch(old(self)@, idx).1,
            final(self)@.wf(),
    {
        proof {
            lemma_arc_touch_wf(old(self)@, idx);
        }
        let half = self.cache_capacity / 2;
        match position_of(&self.frequent, &idx) {
            Some(up) => {
                proof {
                    self.frequent@.index_of_first_ensures(idx);
                }
                self.frequent.remove(up);
                self.frequent.push_front(idx);
                if self.frequent.len() > half {
                    self.frequent.pop_back()
                } else {
                    None
                }
            },
            None => {
                match position_of(&self.recent, &idx) {
                    Some(up) => {
                        proof {
                            self.recent@.index_of_first_ensures(idx);
                        }
                        self.recent.remove(up);
                        self.frequent.push_front(idx);
                        if self.recent.len() > half {
                            self.recent.pop_back()
                        } else {
                            None
                        }
                    },
                    None => {
                        self.recent.push_front(idx);
                        if self.recent.len() > half {
                            self.recent.pop_back()
                        } else {
                            None
                        }
                    },
                }
            },
        }
    }

    /// Deletes `idx` from whichever list holds it (`frequent` checked first)
    /// and returns it, or reports absence.
    pub fn remove(&mut self, idx: T) -> (r: Option<T>)
        requires
            old(self)@.wf(),
        ensures
            final(self)@ == arc_remove(old(self)@, idx).0,
            r == arc_remove(old(self)@, idx).1,
            final(self)@.wf(),
    {
        proof {
            lemma_arc_remove_wf(old(self)@, idx);
        }
        match position_of(&self.frequent, &idx) {
            Some(pos) => {
                proof {
                    self.frequent@.index_of_first_ensures(idx);
                }
                self.frequent.remove(pos)
            },
            None => {
                match position_of(&self.recent, &idx) {
                    Some(pos) => {
                        proof {
                            self.recent@.index_of_first_ensures(idx);
                        }
                        self.recent.remove(pos)
                    },
                    None => None,
                }
            },
        }
    }

    /// Copies out the two lists, front first: `(recent, frequent)`.
    pub fn indices(&self) -> (r: (Vec<T>, Vec<T>))
        ensures
            r.0@ == self@.recent,
            r.1@ == self@.frequent,
    {
        let mut rec: Vec<T> = Vec::new();
        let mut i: usize = 0;
        let n: usize = self.recent.len();
        while i < n
            invariant
                n == self@.recent.len(),
                self@.recent == self.recent@,
                i <= n,
                rec@ == self@.recent.take(i as int),
            decreases n - i,
        {
            rec.push(self.recent[i]);
            proof {
                assert(self@.recent.take(i + 1) =~= self@.recent.take(i as int).push(
                    self@.recent[i as int],
                ));
            }
            i += 1;
        }
        let mut fre: Vec<T> = Vec::new();
        let mut j: usize = 0;
        let m: usize = self.frequent.len();
        while j < m
            invariant
                m == self@.frequent.len(),
                self@.frequent == self.frequent@,
                j <= m,
                fre@ == self@.frequent.take(j as int),
            decreases m - j,
        {
            fre.push(self.frequent[j]);
            proof {
                assert(self@.frequent.take(j + 1) =~= self@.frequent.take(j as int).push(
                    self@.frequent[j as int],
                ));
            }
            j += 1;
        }
        proof {
            assert(rec@ =~= self@.recent);
            assert(fre@ =~= self@.frequent);
        }
        (rec, fre)
    }

    /// Copies out the tracked indices in enumeration order: all of `recent`
    /// from the front, then all of `frequent` from the front.
    pub fn indices_iter(&self) -> (r: Vec<T>)
        ensures
            r@ == self@.recent + self@.frequent,
    {
        let (mut rec, mut fre) = self.indices();
        let mut k: usize = 0;
        let m: usize = fre.len();
        while k < m
            invariant
                m == fre.len(),
                fre@ == self@.frequent,
                k <= m,
                rec@ == self@.recent + self@.frequent.take(k as int),
            decreases m - k,
        {
            rec.push(fre[k]);
            proof {
                assert(self@.recent + self@.frequent.take(k + 1) =~= (self@.recent
                    + self@.frequent.take(k as int)).push(self@.frequent[k as int]));
            }
            k += 1;
        }
        proof {
            assert(rec@ =~= self@.recent + self@.frequent);
        }
        rec
    }

    /// How many indices the cache tracks over both lists.
    pub fn len(&self) -> (r: usize)
        requires
            self@.recent.len() + self@.frequent.len() <= usize::MAX,
        ensures
            r == self@.recent.len() + self@.frequent.len(),
    {
        self.recent.len() + self.frequent.len()
    }

    /// Changes the overall capacity. A zero capacity is rejected with no
    /// state change; otherwise both lists are trimmed from the back down to
    /// the new half-capacity plus one.
    pub fn resize(&mut self, new_capacity: usize) -> (r: bool)
        requires
            old(self)@.wf(),
        ensures
            final(self)@ == arc_resize(old(self)@, new_capacity).0,
            r == arc_resize(old(self)@, new_capacity).1,
            final(self)@.wf(),
    {
        proof {
            lemma_arc_resize_wf(old(self)@, new_capacity);
        }
        if new_capacity == 0 {
            return false;
        }
        let ghost orig_recent = self.recent@;
        let ghost orig_frequent = self.frequent@;
        self.cache_capacity = new_capacity;
        let keep = new_capacity / 2 + 1;
        while self.recent.len() > keep
            invariant
                self.cache_capacity == new_capacity,
                keep == new_capacity / 2 + 1,
                self.frequent@ == orig_frequent,
                self.recent@.len() <= orig_recent.len(),
                self.recent@ =~= orig_recent.take(self.recent@.len() as int),
                self.recent@.len() >= keep || self.recent@ == orig_recent,
            decreases self.recent@.len(),
        {
            self.recent.pop_back();
            proof {
                assert(self.recent@ =~= orig_recent.take(self.recent@.len() as int));
            }
        }
        proof {
            assert(orig_recent.take(orig_recent.len() as int) =~= orig_recent);
            assert(self.recent@ =~= trim_back(orig_recent, keep as int));
        }
        let ghost trimmed_recent = self.recent@;
        while self.frequent.len() > keep
            invariant
                self.cache_capacity == new_capacity,
                keep == new_capacity / 2 + 1,
                self.recent@ == trimmed_recent,
                self.frequent@.len() <= orig_frequent.len(),
                self.frequent@ =~= orig_frequent.take(self.frequent@.len() as int),
                self.frequent@.len() >= keep || self.frequent@ == orig_frequent,
            decreases self.frequent@.len(),
        {
            self.frequent.pop_back();
            proof {
                assert(self.frequent@ =~= orig_frequent.take(self.frequent@.len() as int));
            }
        }
        proof {
            assert(orig_frequent.take(orig_frequent.len() as int) =~= orig_frequent);
            assert(self.frequent@ =~= trim_back(orig_frequent, keep as int));
        }
        true
    }
}

/// The cache capability: a recency/frequency bookkeeping structure over a
/// comparable index type.
pub trait Cache<T: CacheIndex>: Sized {
    /// The recent-entries list, front first.
    spec fn recent_view(&self) -> Seq<T>;

    /// The frequent-entries list, front first.
    spec fn frequent_view(&self) -> Seq<T>;

    /// The configured capacity.
    spec fn spec_capacity(&self) -> usize;

    /// The implementation's internal invariant.
    spec fn inv(&self) -> bool;

    /// Debug enumeration: the tracked index at ordinal `id`, counting
    /// through `recent` from the front, then `frequent` from the front.
    fn get(&self, id: usize) -> (r: Option<&T>)
        requires
            self.inv(),
        ensures
            match r {
                Some(x) => id < self.recent_view().len() + self.frequent_view().len() && *x == (
                self.recent_view() + self.frequent_view())[id as int],
                None => id >= self.recent_view().len() + self.frequent_view().len(),
            },
    ;

    /// The configured capacity.
    fn capacity(&self) -> (r: usize)
        ensures
            r == self.spec_capacity(),
    ;

    /// Records an access; the returned index, if any, was evicted. The
    /// cache only ever tracks previously tracked indices and the touched one.
    fn touch(&mut self, id: T) -> (r: Option<T>)
        requires
            old(self).inv(),
        ensures
            final(self).inv(),
            final(self).spec_capacity() == old(self).spec_capacity(),
            forall|y: T|
                final(self).recent_view().contains(y) || final(self).frequent_view().contains(y)
                    ==> old(self).recent_view().contains(y) || old(self).frequent_view().contains(y)
                    || y == id,
            match r {
                Some(v) => old(self).recent_view().contains(v)
                    || old(self).frequent_view().contains(v) || v == id,
                None => true,
            },
    ;

    /// Deletes the index from the cache's bookkeeping; returns it if it was
    /// tracked, or reports absence.
    fn remove(&mut self, id: T) -> (r: Option<T>)
        requires
            old(self).inv(),
        ensures
            final(self).inv(),
            final(self).spec_capacity() == old(self).spec_capacity(),
            !final(self).recent_view().contains(id),
            !final(self).frequent_view().contains(id),
            forall|y: T|
                final(self).recent_view().contains(y) || final(self).frequent_view().contains(y)
                    ==> old(self).recent_view().contains(y) || old(self).frequent_view().contains(
                    y,
                ),
            r == (if old(self).recent_view().contains(id) || old(self).frequent_view().contains(id) {
                Some(id)
            } else {
                Option::<T>::None
            }),
    ;
}

/// A cache whose capacity can change after construction.
pub trait ResizableCache<T: CacheIndex>: Cache<T> {
    /// Changes the capacity; a zero capacity is rejected, and a rejected
    /// resize leaves the state unchanged.
    fn resize(&mut self, new_capacity: usize) -> (r: bool)
        requires
            old(self).inv(),
        ensures
            final(self).inv(),
            new_capacity == 0 ==> r == false,
            !r ==> final(self).recent_view() == old(self).recent_view()
                && final(self).frequent_view() == old(self).frequent_view()
                && final(self).spec_capacity() == old(self).spec_capacity(),
            r ==> final(self).spec_capacity() == new_capacity,
            forall|y: T|
                final(self).recent_view().contains(y) || final(self).frequent_view().contains(y)
                    ==> old(self).recent_view().contains(y) || old(self).frequent_view().contains(
                    y,
                ),
    ;
}

impl<T: CacheIndex> Cache<T> for ARC<T> {
    open spec fn recent_view(&self) -> Seq<T> {
        self@.recent
    }

    open spec fn frequent_view(&self) -> Seq<T> {
        self@.frequent
    }

    open spec fn spec_capacity(&self) -> usize {
        self@.capacity
    }

    open spec fn inv(&self) -> bool {
        self@.wf()
    }

    fn get(&self, id: usize) -> (r: Option<&T>) {
        let rl: usize = self.recent.len();
        if id < rl {
            proof {
                assert((self@.recent + self@.frequent)[id as int] == self@.recent[id as int]);
            }
            Some(&self.recent[id])
        } else if id - rl < self.frequent.len() {
            proof {
                assert((self@.recent + self@.frequent)[id as int] == self@.frequent[id - rl]);
            }
            Some(&self.frequent[id - rl])
        } else {
            None
        }
    }

    fn capacity(&self) -> (r: usize) {
        self.cache_capacity
    }

    fn touch(&mut self, id: T) -> (r: Option<T>) {
        let r = ARC::touch(self, id);
        proof {
            lemma_arc_touch_wf(old(self)@, id);
            assert forall|y: T|
                self@.recent.contains(y) || self@.frequent.contains(y) implies (old(self)@.recent.contains(y)
                || old(self)@.frequent.contains(y) || y == id) by {
                assert(arc_touch(old(self)@, id).0.tracks(y));
            };
        }
        r
    }

    fn remove(&mut self, id: T) -> (r: Option<T>) {
        let r = ARC::remove(self, id);
        proof {
            lemma_arc_remove_wf(old(self)@, id);
            assert(!arc_remove(old(self)@, id).0.tracks(id));
            assert forall|y: T|
                self@.recent.contains(y) || self@.frequent.contains(y) implies (old(self)@.recent.contains(y)
                || old(self)@.frequent.contains(y)) by {
                assert(arc_remove(old(self)@, id).0.tracks(y));
            };
        }
        r
    }
}

impl<T: CacheIndex> ResizableCache<T> for ARC<T> {
    fn resize(&mut self, new_capacity: usize) -> (r: bool) {
        proof {
            lemma_arc_resize_wf(old(self)@, new_capacity);
        }
        ARC::resize(self, new_capacity)
    }
}

/// The capacity mode of a storage engine: `Free` caches nothing and never
/// evicts; `Limited` delegates to an adaptive-replacement cache over slot
/// indices.
#[derive(Debug)]
pub enum CacheState {
    Free,
    Limited(ARC<usize>),
}

impl CacheState {
    /// Whether this is the unbounded mode.
    pub open spec fn is_free(&self) -> bool {
        matches!(self, CacheState::Free)
    }

    /// The cache model: `Free` shows two empty lists and capacity zero.
    pub open spec fn model(&self) -> ArcModel<usize> {
        match self {
            CacheState::Free => ArcModel {
                recent: Seq::<usize>::empty(),
                frequent: Seq::<usize>::empty(),
                capacity: 0,
            },
            CacheState::Limited(arc) => arc@,
        }
    }

    /// Well-formedness of the underlying cache, if any.
    pub open spec fn wf(&self) -> bool {
        match self {
            CacheState::Free => true,
            CacheState::Limited(arc) => arc@.wf(),
        }
    }

    /// `None` selects `Free` mode; `Some(c)` a bounded cache of capacity `c`.
    pub fn new(capacity: Option<usize>) -> (r: Self)
        ensures
            r.wf(),
            match capacity {
                Some(c) => !r.is_free() && r.model() == (ArcModel {
                    recent: Seq::<usize>::empty(),
                    frequent: Seq::<usize>::empty(),
                    capacity: c,
                }),
                None => r.is_free(),
            },
    {
        match capacity {
            Some(c) => CacheState::Limited(ARC::new(c)),
            None => CacheState::Free,
        }
    }

    /// Records an access: a no-op returning no victim in `Free` mode, a
    /// cache `touch` in `Limited` mode.
    pub fn touch(&mut self, idx: usize) -> (r: Option<usize>)
        requires
            old(self).wf(),
        ensures
            final(self).wf(),
            final(self).is_free() == old(self).is_free(),
            old(self).is_free() ==> final(self).model() == old(self).model() && r is None,
            !old(self).is_free() ==> final(self).model() == arc_touch(old(self).model(), idx).0 && r
                == arc_touch(old(self).model(), idx).1,
    {
        match self {
            CacheState::Free => None,
            CacheState::Limited(arc) => arc.touch(idx),
        }
    }

    /// Removes the slot index from the cache bookkeeping; absence is
    /// tolerated (`Free` mode tracks nothing).
    pub fn remove(&mut self, idx: usize) -> (r: Option<usize>)
        requires
            old(self).wf(),
        ensures
            final(self).wf(),
            final(self).is_free() == old(self).is_free(),
            old(self).is_free() ==> final(self).model() == old(self).model() && r is None,
            !old(self).is_free() ==> final(self).model() == arc_remove(old(self).model(), idx).0
                && r == arc_remove(old(self).model(), idx).1,
    {
        match self {
            CacheState::Free => None,
            CacheState::Limited(arc) => arc.remove(idx),
        }
    }

    /// Changes the capacity in `Limited` mode; rejected in `Free` mode, and
    /// rejected (with no state change) for a zero capacity.
    pub fn resize(&mut self, new_capacity: usize) -> (r: bool)
        requires
            old(self).wf(),
        ensures
            final(self).wf(),
            final(self).is_free() == old(self).is_free(),
            old(self).is_free() ==> final(self).model() == old(self).model() && r == false,
            !old(self).is_free() ==> final(self).model() == arc_resize(
                old(self).model(),
                new_capacity,
            ).0 && r == arc_resize(old(self).model(), new_capacity).1,
    {
        match self {
            CacheState::Free => false,
            CacheState::Limited(arc) => arc.resize(new_capacity),
        }
    }
}


impl Cache<usize> for CacheState {
    open spec fn recent_view(&self) -> Seq<usize> {
        self.model().recent
    }

    open spec fn frequent_view(&self) -> Seq<usize> {
        self.model().frequent
    }

    open spec fn spec_capacity(&self) -> usize {
        self.model().capacity
    }

    open spec fn inv(&self) -> bool {
        self.wf()
    }

    fn get(&self, id: usize) -> (r: Option<&usize>) {
        match self {
            CacheState::Free => None,
            CacheState::Limited(arc) => Cache::get(arc, id),
        }
    }

    fn capacity(&self) -> (r: usize) {
        match self {
            CacheState::Free => 0,
            CacheState::Limited(arc) => Cache::capacity(arc),
        }
    }

    fn touch(&mut self, id: usize) -> (r: Option<usize>) {
        let r = CacheState::touch(self, id);
        proof {
            if !old(self).is_free() {
                lemma_arc_touch_wf(old(self).model(), id);
                assert forall|y: usize|
                    self.model().recent.contains(y) || self.model().frequent.contains(y) implies (
                old(self).model().recent.contains(y) || old(self).model().frequent.contains(y) || y
                    == id) by {
                    assert(arc_touch(old(self).model(), id).0.tracks(y));
                };
            }
        }
        r
    }

    fn remove(&mut self, id: usize) -> (r: Option<usize>) {
        let r = CacheState::remove(self, id);
        proof {
            if !old(self).is_free() {
                lemma_arc_remove_wf(old(self).model(), id);
                assert(!arc_remove(old(self).model(), id).0.tracks(id));
                assert forall|y: usize|
                    self.model().recent.contains(y) || self.model().frequent.contains(y) implies (
                old(self).model().recent.contains(y) || old(self).model().frequent.contains(
                    y,
                )) by {
                    assert(arc_remove(old(self).model(), id).0.tracks(y));
                };
            }
        }
        r
    }
}

impl ResizableCache<usize> for CacheState {
    fn resize(&mut self, new_capacity: usize) -> (r: bool) {
        let r = CacheState::resize(self, new_capacity);
        proof {
            if !old(self).is_free() {
                lemma_arc_resize_wf(old(self).model(), new_capacity);
                assert forall|y: usize|
                    self.model().recent.contains(y) || self.model().frequent.contains(y) implies (
                old(self).model().recent.contains(y) || old(self).model().frequent.contains(
                    y,
                )) by {
                    assert(arc_resize(old(self).model(), new_capacity).0.tracks(y));
                };
            }
        }
        r
    }
}

} // verus!
