//! A timestamp map keyed by description text, backed by an
//! association list with unique keys.  The loop keeps two of these:
//! when each deadline was last alerted (the cooldown gate) and when a
//! popup for it was last spawned (the pending gate).

use vstd::prelude::*;

verus! {

/// True when no two entries share a key.
pub open spec fn unique_keys(s: Seq<(String, i64)>) -> bool {
    forall|i: int, j: int| 0 <= i < j < s.len() ==> s[i].0@ != s[j].0@
}

/// The map denoted by an association list; later entries win (the
/// invariant keeps keys unique, so the order never matters).
pub open spec fn stamps_of(s: Seq<(String, i64)>) -> Map<Seq<char>, i64>
    decreases s.len(),
{
    if s.len() == 0 {
        Map::empty()
    } else {
        stamps_of(s.drop_last()).insert(s.last().0@, s.last().1)
    }
}

/// The entries that survive dropping everything `max_age` or more
/// seconds older than `now_ts`.
pub open spec fn surviving(s: Seq<(String, i64)>, now_ts: int, max_age: int) -> Seq<(String, i64)>
    decreases s.len(),
{
    if s.len() == 0 {
        s
    } else if now_ts - s.last().1 < max_age {
        surviving(s.drop_last(), now_ts, max_age).push(s.last())
    } else {
        surviving(s.drop_last(), now_ts, max_age)
    }
}

proof fn lemma_unique_drop_last(s: Seq<(String, i64)>)
    requires
        unique_keys(s),
        s.len() > 0,
    ensures
        unique_keys(s.drop_last()),
{
    assert(forall|p: int|
        0 <= p < s.drop_last().len() ==> #[trigger] s.drop_last()[p] == s[p]);
}

proof fn lemma_stamps_contains(s: Seq<(String, i64)>, k: Seq<char>)
    ensures
        stamps_of(s).contains_key(k) <==> exists|i: int| 0 <= i < s.len() && s[i].0@ == k,
    decreases s.len(),
{
    if s.len() > 0 {
        lemma_stamps_contains(s.drop_last(), k);
        if s.last().0@ == k {
            assert(s[s.len() - 1].0@ == k);
        } else {
            if stamps_of(s).contains_key(k) {
                let i = choose|i: int| 0 <= i < s.drop_last().len() && s.drop_last()[i].0@ == k;
                assert(s[i].0@ == k);
            }
            if exists|i: int| 0 <= i < s.len() && s[i].0@ == k {
                let i = choose|i: int| 0 <= i < s.len() && s[i].0@ == k;
                assert(s.drop_last()[i].0@ == k);
            }
        }
    }
}

proof fn lemma_stamps_value(s: Seq<(String, i64)>, i: int)
    requires
        unique_keys(s),
        0 <= i < s.len(),
    ensures
        stamps_of(s).contains_key(s[i].0@),
        stamps_of(s)[s[i].0@] == s[i].1,
    decreases s.len(),
{
    if i == s.len() - 1 {
    } else {
        lemma_unique_drop_last(s);
        lemma_stamps_value(s.drop_last(), i);
        assert(s.drop_last()[i] == s[i]);
        assert(s.last().0@ != s[i].0@);
    }
}

proof fn lemma_stamps_update(s: Seq<(String, i64)>, i: int, e: (String, i64))
    requires
        unique_keys(s),
        0 <= i < s.len(),
        e.0@ == s[i].0@,
    ensures
        stamps_of(s.update(i, e)) =~= stamps_of(s).insert(e.0@, e.1),
    decreases s.len(),
{
    if i == s.len() - 1 {
        assert(s.update(i, e).drop_last() =~= s.drop_last());
        assert(s.update(i, e).last() == e);
    } else {
        lemma_unique_drop_last(s);
        assert(s.drop_last()[i] == s[i]);
        lemma_stamps_update(s.drop_last(), i, e);
        assert(s.update(i, e).drop_last() =~= s.drop_last().update(i, e));
        assert(s.update(i, e).last() == s.last());
        assert(s.last().0@ != s[i].0@);
    }
}

/// What survives an expiry sweep, at the map level: exactly the keys
/// whose stamps are younger than `max_age`, with unchanged values.
proof fn lemma_surviving_stamps(s: Seq<(String, i64)>, now_ts: int, max_age: int)
    requires
        unique_keys(s),
    ensures
        unique_keys(surviving(s, now_ts, max_age)),
        forall|k: Seq<char>|
            stamps_of(surviving(s, now_ts, max_age)).contains_key(k) <==> (stamps_of(
                s,
            ).contains_key(k) && now_ts - stamps_of(s)[k] < max_age),
        forall|k: Seq<char>|
            stamps_of(surviving(s, now_ts, max_age)).contains_key(k) ==> stamps_of(
                surviving(s, now_ts, max_age),
            )[k] == stamps_of(s)[k],
    decreases s.len(),
{
    if s.len() > 0 {
        lemma_unique_drop_last(s);
        lemma_surviving_stamps(s.drop_last(), now_ts, max_age);
        let dl = s.drop_last();
        let sv = surviving(dl, now_ts, max_age);
        lemma_stamps_contains(dl, s.last().0@);
        assert(forall|i: int| 0 <= i < dl.len() ==> #[trigger] dl[i].0@ != s.last().0@);
        assert(!stamps_of(dl).contains_key(s.last().0@));
        assert(!stamps_of(sv).contains_key(s.last().0@));
        if now_ts - s.last().1 < max_age {
            lemma_stamps_contains(sv, s.last().0@);
            assert(forall|j: int|
                0 <= j < sv.len() ==> #[trigger] sv[j].0@ != s.last().0@);
            assert(unique_keys(sv.push(s.last()))) by {
                assert(forall|j: int|
                    0 <= j < sv.len() ==> #[trigger] sv.push(s.last())[j] == sv[j]);
                assert(sv.push(s.last()).last() == s.last());
            }
            assert(sv.push(s.last()).drop_last() =~= sv);
        }
    }
}

/// Map from a description to a timestamp (seconds).
pub struct StampMap {
    pub entries: Vec<(String, i64)>,
}

impl View for StampMap {
    type V = Map<Seq<char>, i64>;

    open spec fn view(&self) -> Map<Seq<char>, i64> {
        stamps_of(self.entries@)
    }
}

impl StampMap {
    pub open spec fn wf(self) -> bool {
        unique_keys(self.entries@)
    }

    pub fn new() -> (r: StampMap)
        ensures
            r.wf(),
            r@ =~= Map::<Seq<char>, i64>::empty(),
    {
        StampMap { entries: Vec::new() }
    }

    /// Position of `k` among the entries, if present.
    fn find(&self, k: &String) -> (r: Option<usize>)
        requires
            self.wf(),
        ensures
            match r {
                Some(i) => i < self.entries@.len() && self.entries@[i as int].0@ == k@,
                None => !self@.contains_key(k@),
            },
    {
        let mut i: usize = 0;
        while i < self.entries.len()
            invariant
                i <= self.entries@.len(),
                forall|j: int| 0 <= j < i ==> self.entries@[j].0@ != k@,
            decreases self.entries@.len() - i,
        {
            if self.entries[i].0 == *k {
                return Some(i);
            }
            i = i + 1;
        }
        proof {
            lemma_stamps_contains(self.entries@, k@);
        }
        None
    }

    /// The timestamp stored for `k`, if any.
    pub fn get(&self, k: &String) -> (r: Option<i64>)
        requires
            self.wf(),
        ensures
            r == if self@.contains_key(k@) {
                Some(self@[k@])
            } else {
                None::<i64>
            },
    {
        match self.find(k) {
            Some(i) => {
                proof {
                    lemma_stamps_value(self.entries@, i as int);
                }
                Some(self.entries[i].1)
            },
            None => None,
        }
    }

    /// Stores `v` for `k`, inserting or overwriting.
    pub fn set(&mut self, k: &String, v: i64)
        requires
            old(self).wf(),
        ensures
            final(self).wf(),
            final(self)@ =~= old(self)@.insert(k@, v),
    {
        let kc: String = k.clone();
        match self.find(k) {
            Some(i) => {
                proof {
                    lemma_stamps_update(self.entries@, i as int, (kc, v));
                }
                self.entries[i] = (kc, v);
                proof {
                    assert(unique_keys(self.entries@)) by {
                        assert(forall|p: int|
                            0 <= p < self.entries@.len() ==> #[trigger] self.entries@[p].0@ == old(
                                self,
                            ).entries@[p].0@);
                    }
                }
            },
            None => {
                proof {
                    lemma_stamps_contains(self.entries@, k@);
                }
                self.entries.push((kc, v));
                proof {
                    assert(self.entries@.drop_last() =~= old(self).entries@);
                    assert(unique_keys(self.entries@)) by {
                        assert(forall|p: int|
                            0 <= p < old(self).entries@.len() ==> #[trigger] self.entries@[p]
                                == old(self).entries@[p]);
                        assert(self.entries@.last().0@ == k@);
                    }
                }
            },
        }
    }

    /// Drops every entry whose timestamp is `max_age` or more seconds
    /// before `now_ts`; the survivors keep their values.
    pub fn expire(&mut self, now_ts: i64, max_age: i64)
        requires
            old(self).wf(),
        ensures
            final(self).wf(),
            forall|k: Seq<char>|
                final(self)@.contains_key(k) <==> (old(self)@.contains_key(k) && now_ts - old(
                    self,
                )@[k] < max_age),
            forall|k: Seq<char>| final(self)@.contains_key(k) ==> final(self)@[k] == old(self)@[k],
    {
        let mut kept: Vec<(String, i64)> = Vec::new();
        let mut i: usize = 0;
        while i < self.entries.len()
            invariant
                self.entries == old(self).entries,
                i <= self.entries@.len(),
                kept@ =~= surviving(
                    self.entries@.subrange(0, i as int),
                    now_ts as int,
                    max_age as int,
                ),
            decreases self.entries@.len() - i,
        {
            let ghost pre = self.entries@.subrange(0, i as int);
            proof {
                assert(self.entries@.subrange(0, i as int + 1).drop_last() =~= pre);
                assert(self.entries@.subrange(0, i as int + 1).last() == self.entries@[i as int]);
            }
            let ts: i64 = self.entries[i].1;
            if (now_ts as i128) - (ts as i128) < (max_age as i128) {
                let e: (String, i64) = (self.entries[i].0.clone(), ts);
                proof {
                    assert(e == self.entries@[i as int]);
                }
                kept.push(e);
            }
            i = i + 1;
        }
        proof {
            assert(self.entries@.subrange(0, self.entries@.len() as int) =~= self.entries@);
            lemma_surviving_stamps(self.entries@, now_ts as int, max_age as int);
        }
        self.entries = kept;
    }
}

} // verus!
