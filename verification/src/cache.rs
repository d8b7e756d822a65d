//! The incremental aggregation cache: a set of file identifiers already
//! folded in, plus the cumulative aggregate of their contents, so that an
//! immutable (rotated-out) log file is extracted at most once.

use vstd::prelude::*;

use crate::aggregate::NamedAggregate;
use crate::aggregate::merge_into;
use crate::aggregate::merge_maps;
use crate::engines::views_of;
use crate::utils::str_eq;

verus! {

/// The identifiers a list of strings holds.
pub open spec fn id_set(s: Seq<String>) -> Set<Seq<char>> {
    Set::new(|k: Seq<char>| exists|i: int| 0 <= i < s.len() && s[i]@ == k)
}

/// One poll's filtering pass: walks the candidates in order, returns those
/// not yet known, and marks every returned one as known from then on (so a
/// duplicate inside one call is returned once).
pub open spec fn filter_new(cache: Set<Seq<char>>, list: Seq<Seq<char>>) -> (Seq<Seq<char>>, Set<
    Seq<char>,
>)
    decreases list.len(),
{
    if list.len() == 0 {
        (Seq::empty(), cache)
    } else {
        let head = list[0];
        if cache.contains(head) {
            filter_new(cache, list.drop_first())
        } else {
            let rec = filter_new(cache.insert(head), list.drop_first());
            (seq![head] + rec.0, rec.1)
        }
    }
}

/// A per-metric cache cell: the identifiers already folded in, the
/// accumulated aggregate, and the corpus length last consumed.
pub struct Statics {
    pub cache_list: Vec<String>,
    pub statics: NamedAggregate,
    pub last: usize,
}

impl Statics {
    /// Shape invariant: identifiers are pairwise distinct, and the
    /// aggregate is well formed.
    pub open spec fn wf(&self) -> bool {
        &&& forall|i: int, j: int|
            0 <= i < j < self.cache_list@.len() ==> self.cache_list@[i]@ != self.cache_list@[j]@
        &&& self.statics.wf()
    }

    /// The set of identifiers already marked processed.
    pub open spec fn processed(&self) -> Set<Seq<char>> {
        id_set(self.cache_list@)
    }

    pub fn new() -> (r: Statics)
        ensures
            r.wf(),
            r.processed() == Set::<Seq<char>>::empty(),
            r.statics@ == Map::<Seq<char>, int>::empty(),
            r.last == 0,
    {
        let r = Statics { cache_list: Vec::new(), statics: NamedAggregate::new(), last: 0 };
        proof {
            assert(r.processed() =~= Set::<Seq<char>>::empty());
        }
        r
    }

    /// Returns the candidates not yet processed, in input order, marking
    /// each returned one as processed; the accumulated aggregate is
    /// untouched.
    pub fn query_cache(&mut self, list: &[String]) -> (r: Vec<String>)
        requires
            old(self).wf(),
        ensures
            final(self).wf(),
            views_of(r@) == filter_new(old(self).processed(), views_of(list@)).0,
            final(self).processed() == filter_new(old(self).processed(), views_of(list@)).1,
            final(self).statics == old(self).statics,
            final(self).last == old(self).last,
    {
        let ghost full = views_of(list@);
        let mut require: Vec<String> = Vec::new();
        let n = list.len();
        let mut i: usize = 0;
        proof {
            assert(full.skip(0) =~= full);
        }
        while i < n
            invariant
                i <= n,
                n == list@.len(),
                full == views_of(list@),
                self.wf(),
                self.statics == old(self).statics,
                self.last == old(self).last,
                filter_new(old(self).processed(), full) == ({
                    let rec = filter_new(self.processed(), full.skip(i as int));
                    (views_of(require@) + rec.0, rec.1)
                }),
            decreases n - i,
        {
            let ghost rem = full.skip(i as int);
            proof {
                assert(rem[0] == full[i as int]);
                assert(full[i as int] == list@[i as int]@);
                assert(rem.drop_first() =~= full.skip(i as int + 1));
            }
            let entry = &list[i];
            let known = self.contains_id(entry);
            if !known {
                require.push(entry.clone());
                let ghost before = self.cache_list@;
                self.cache_list.push(entry.clone());
                proof {
                    assert forall|p: int, q: int|
                        0 <= p < q < self.cache_list@.len() implies self.cache_list@[p]@
                        != self.cache_list@[q]@ by {
                        if q == before.len() {
                            assert(self.cache_list@[p]@ != entry@);
                        }
                    }
                    assert(self.processed() =~= id_set(before).insert(entry@)) by {
                        assert forall|k: Seq<char>| self.processed().contains(k) implies id_set(
                            before,
                        ).insert(entry@).contains(k) by {
                            let w = choose|w: int|
                                0 <= w < self.cache_list@.len() && self.cache_list@[w]@ == k;
                            if w < before.len() {
                                assert(before[w]@ == k);
                            }
                        }
                        assert forall|k: Seq<char>|
                            id_set(before).insert(entry@).contains(k) implies self.processed()
                            .contains(k) by {
                            if k == entry@ {
                                assert(self.cache_list@[before.len() as int]@ == k);
                            } else {
                                let w = choose|w: int| 0 <= w < before.len() && before[w]@ == k;
                                assert(self.cache_list@[w]@ == k);
                            }
                        }
                    }
                    assert(views_of(require@) =~= views_of(require@.drop_last()) + seq![entry@]);
                    assert(views_of(require@.drop_last()) + (seq![entry@] + filter_new(
                        self.processed(),
                        rem.drop_first(),
                    ).0) =~= views_of(require@) + filter_new(self.processed(), rem.drop_first()).0);
                }
            }
            i += 1;
        }
        proof {
            assert(full.skip(n as int) =~= Seq::<Seq<char>>::empty());
        }
        require
    }

    /// Whether `entry` is already marked processed.
    fn contains_id(&self, entry: &String) -> (r: bool)
        ensures
            r == self.processed().contains(entry@),
    {
        let n = self.cache_list.len();
        let mut i: usize = 0;
        while i < n
            invariant
                i <= n,
                n == self.cache_list@.len(),
                forall|k: int| 0 <= k < i ==> self.cache_list@[k]@ != entry@,
            decreases n - i,
        {
            if str_eq(self.cache_list[i].as_str(), entry.as_str()) {
                return true;
            }
            i += 1;
        }
        false
    }

    /// A copy of the accumulated aggregate.
    pub fn get_statics(&self) -> (r: NamedAggregate)
        requires
            self.wf(),
        ensures
            r.wf(),
            r@ == self.statics@,
            r.entries@ == self.statics.entries@,
    {
        let n = self.statics.entries.len();
        let mut entries: Vec<(String, i64)> = Vec::new();
        let mut i: usize = 0;
        while i < n
            invariant
                i <= n,
                n == self.statics.entries@.len(),
                entries@ == self.statics.entries@.subrange(0, i as int),
            decreases n - i,
        {
            proof {
                assert(self.statics.entries@.subrange(0, i as int + 1) =~= self.statics.entries@
                    .subrange(0, i as int).push(self.statics.entries@[i as int]));
            }
            entries.push((self.statics.entries[i].0.clone(), self.statics.entries[i].1));
            i += 1;
        }
        proof {
            assert(self.statics.entries@.subrange(0, n as int) =~= self.statics.entries@);
        }
        NamedAggregate { entries }
    }

    /// Folds one extracted partial aggregate into the accumulator, by
    /// per-key saturating addition.
    pub fn update_statics(&mut self, data: NamedAggregate)
        requires
            old(self).wf(),
            data.wf(),
        ensures
            final(self).wf(),
            final(self).statics@ == merge_maps(old(self).statics@, data@),
            final(self).processed() == old(self).processed(),
            final(self).cache_list == old(self).cache_list,
            final(self).last == old(self).last,
    {
        merge_into(&mut self.statics, &data);
    }

    /// Replaces the accumulated aggregate outright.
    pub fn rewrite_statics(&mut self, data: NamedAggregate)
        ensures
            final(self).statics == data,
            final(self).cache_list == old(self).cache_list,
            final(self).last == old(self).last,
    {
        self.statics = data;
    }

    /// Records how far the active corpus was consumed.
    pub fn set_last(&mut self, last: usize)
        ensures
            final(self).last == last,
            final(self).cache_list == old(self).cache_list,
            final(self).statics == old(self).statics,
    {
        self.last = last;
    }

    /// The recorded consumption point.
    pub fn get_last(&self) -> (r: usize)
        ensures
            r == self.last,
    {
        self.last
    }

    /// Clears the accumulated aggregate (the per-session floor counters);
    /// the processed set is kept.
    pub fn blank(&mut self)
        requires
            old(self).wf(),
        ensures
            final(self).wf(),
            final(self).statics@ == Map::<Seq<char>, int>::empty(),
            final(self).processed() == old(self).processed(),
            final(self).cache_list == old(self).cache_list,
            final(self).last == old(self).last,
    {
        self.statics.entries.clear();
    }
}

/// Law: filtering the same fresh identifier twice in a row returns it the
/// first time and nothing the second time.
pub proof fn lemma_filter_idempotent(cache: Set<Seq<char>>, id: Seq<char>)
    requires
        !cache.contains(id),
    ensures
        filter_new(cache, seq![id]).0 == seq![id],
        filter_new(filter_new(cache, seq![id]).1, seq![id]).0 == Seq::<Seq<char>>::empty(),
{
    let l = seq![id];
    let empty = Seq::<Seq<char>>::empty();
    assert(l.len() == 1 && l[0] == id);
    assert(l.drop_first() =~= empty);
    assert(filter_new(cache, empty) == (empty, cache));
    assert(filter_new(cache.insert(id), empty) == (empty, cache.insert(id)));
    assert(filter_new(cache, l) == (seq![id] + empty, cache.insert(id)));
    assert(seq![id] + empty =~= seq![id]);
    assert(filter_new(cache.insert(id), l) == filter_new(cache.insert(id), empty));
}

} // verus!
