//! Named-count aggregates: a mapping from item/entity names to signed
//! counters, modelled as a `Map<Seq<char>, int>` and stored as an
//! association list with pairwise-distinct keys.

use vstd::prelude::*;

verus! {

/// Clamps a mathematical integer into the `i64` range; counter updates
/// saturate at the representation bounds.
pub open spec fn clamp_i64(x: int) -> int {
    if x > i64::MAX {
        i64::MAX as int
    } else if x < i64::MIN {
        i64::MIN as int
    } else {
        x
    }
}

/// The count stored for `k`, or zero when `k` is absent.
pub open spec fn get_or_zero(m: Map<Seq<char>, int>, k: Seq<char>) -> int {
    if m.contains_key(k) {
        m[k]
    } else {
        0
    }
}

/// Adds `v` to the counter of `k`, creating the entry when absent; the sum
/// saturates at the `i64` bounds.
pub open spec fn upsert(m: Map<Seq<char>, int>, k: Seq<char>, v: int) -> Map<Seq<char>, int> {
    m.insert(k, clamp_i64(get_or_zero(m, k) + v))
}

/// The map denoted by an association list; a later entry for the same key
/// overrides an earlier one (irrelevant once keys are distinct).
pub open spec fn assoc_map(s: Seq<(String, i64)>) -> Map<Seq<char>, int>
    decreases s.len(),
{
    if s.len() == 0 {
        Map::empty()
    } else {
        assoc_map(s.drop_last()).insert(s.last().0@, s.last().1 as int)
    }
}

/// No two entries share a key.
pub open spec fn keys_distinct(s: Seq<(String, i64)>) -> bool {
    forall|i: int, j: int| 0 <= i < j < s.len() ==> s[i].0@ != s[j].0@
}

/// A name-to-count table (insertion-ordered association list under the
/// hood); the model is the finite map from names to counts.
pub struct NamedAggregate {
    pub entries: Vec<(String, i64)>,
}

impl View for NamedAggregate {
    type V = Map<Seq<char>, int>;

    open spec fn view(&self) -> Map<Seq<char>, int> {
        assoc_map(self.entries@)
    }
}

impl NamedAggregate {
    /// Internal shape invariant: keys are pairwise distinct.
    pub open spec fn wf(&self) -> bool {
        keys_distinct(self.entries@)
    }

    pub fn new() -> (r: NamedAggregate)
        ensures
            r.wf(),
            r@ == Map::<Seq<char>, int>::empty(),
    {
        NamedAggregate { entries: Vec::new() }
    }

    /// The stored count for `key`, if present.
    pub fn get(&self, key: &str) -> (r: Option<i64>)
        requires
            self.wf(),
        ensures
            match r {
                Some(v) => self@.contains_key(key@) && self@[key@] == v as int,
                None => !self@.contains_key(key@),
            },
    {
        let key_s: String = key.to_owned();
        let n = self.entries.len();
        let mut i: usize = 0;
        while i < n
            invariant
                n == self.entries.len(),
                i <= n,
                self.wf(),
                key_s@ == key@,
                forall|j: int| 0 <= j < i ==> self.entries@[j].0@ != key@,
            decreases n - i,
        {
            if self.entries[i].0 == key_s {
                proof {
                    lemma_assoc_at(self.entries@, i as int);
                }
                return Some(self.entries[i].1);
            }
            i += 1;
        }
        proof {
            lemma_assoc_contains(self.entries@, key@);
        }
        None
    }

    /// How many distinct names hold a counter.
    pub fn len(&self) -> (r: usize)
        requires
            self.wf(),
        ensures
            r as nat == self@.dom().len(),
    {
        proof {
            lemma_assoc_dom_len(self.entries@);
        }
        self.entries.len()
    }
}

/// `a + b` saturated at the `i64` bounds.
pub fn sat_add_i64(a: i64, b: i64) -> (r: i64)
    ensures
        r as int == clamp_i64(a as int + b as int),
{
    let s: i128 = a as i128 + b as i128;
    if s > i64::MAX as i128 {
        i64::MAX
    } else if s < i64::MIN as i128 {
        i64::MIN
    } else {
        s as i64
    }
}

/// `a - b` saturated at the `i64` bounds.
pub fn sat_sub_i64(a: i64, b: i64) -> (r: i64)
    ensures
        r as int == clamp_i64(a as int - b as int),
{
    let s: i128 = a as i128 - b as i128;
    if s > i64::MAX as i128 {
        i64::MAX
    } else if s < i64::MIN as i128 {
        i64::MIN
    } else {
        s as i64
    }
}

/// Adds `value` to the counter of `key` (creating it when absent); the sum
/// saturates at the `i64` bounds.
pub fn add_to_table(table: &mut NamedAggregate, key: &str, value: i64)
    requires
        old(table).wf(),
    ensures
        final(table).wf(),
        final(table)@ == upsert(old(table)@, key@, value as int),
{
    let key_s: String = key.to_owned();
    let n = table.entries.len();
    let mut i: usize = 0;
    while i < n
        invariant
            n == table.entries.len(),
            i <= n,
            table.wf(),
            *table == *old(table),
            key_s@ == key@,
            forall|j: int| 0 <= j < i ==> table.entries@[j].0@ != key@,
        decreases n - i,
    {
        if table.entries[i].0 == key_s {
            let ghost s0 = table.entries@;
            let merged = sat_add_i64(table.entries[i].1, value);
            let name = table.entries[i].0.clone();
            table.entries.set(i, (name, merged));
            proof {
                assert(table.entries@ =~= s0.update(i as int, (s0[i as int].0, merged)));
                lemma_assoc_at(s0, i as int);
                lemma_assoc_update(s0, i as int, merged);
                assert(final(table)@ =~= upsert(old(table)@, key@, value as int));
            }
            return ;
        }
        i += 1;
    }
    let ghost s0 = table.entries@;
    table.entries.push((key_s, value));
    proof {
        lemma_assoc_contains(s0, key@);
        lemma_assoc_push(s0, (key_s, value));
        assert(final(table)@ =~= upsert(old(table)@, key@, value as int));
        assert forall|p: int, q: int|
            0 <= p < q < table.entries@.len() implies table.entries@[p].0@
            != table.entries@[q].0@ by {
            if q == s0.len() {
                assert(table.entries@[p].0@ != key@);
            }
        }
    }
}

/// An entry found at index `i` gives the map's value at its key.
pub proof fn lemma_assoc_at(s: Seq<(String, i64)>, i: int)
    requires
        keys_distinct(s),
        0 <= i < s.len(),
    ensures
        assoc_map(s).contains_key(s[i].0@),
        assoc_map(s)[s[i].0@] == s[i].1 as int,
    decreases s.len(),
{
    if i < s.len() - 1 {
        lemma_assoc_at(s.drop_last(), i);
    }
}

/// The map's domain is exactly the set of keys occurring in the list.
pub proof fn lemma_assoc_contains(s: Seq<(String, i64)>, k: Seq<char>)
    ensures
        assoc_map(s).contains_key(k) <==> (exists|i: int| 0 <= i < s.len() && s[i].0@ == k),
    decreases s.len(),
{
    if s.len() > 0 {
        lemma_assoc_contains(s.drop_last(), k);
        if s.last().0@ != k && assoc_map(s).contains_key(k) {
            let i = choose|i: int| 0 <= i < s.drop_last().len() && s.drop_last()[i].0@ == k;
            assert(s[i].0@ == k);
        }
        if exists|i: int| 0 <= i < s.len() && s[i].0@ == k {
            let i = choose|i: int| 0 <= i < s.len() && s[i].0@ == k;
            if i < s.len() - 1 {
                assert(s.drop_last()[i].0@ == k);
            }
        }
    }
}

/// Every stored count lies in the `i64` range.
pub proof fn lemma_assoc_range(s: Seq<(String, i64)>, k: Seq<char>)
    ensures
        assoc_map(s).contains_key(k) ==> i64::MIN <= assoc_map(s)[k] <= i64::MAX,
    decreases s.len(),
{
    if s.len() > 0 {
        lemma_assoc_range(s.drop_last(), k);
    }
}

/// Overwriting the count at position `i` updates the map at that entry's key.
proof fn lemma_assoc_update(s: Seq<(String, i64)>, i: int, v: i64)
    requires
        keys_distinct(s),
        0 <= i < s.len(),
    ensures
        assoc_map(s.update(i, (s[i].0, v))) == assoc_map(s).insert(s[i].0@, v as int),
    decreases s.len(),
{
    let t = s.update(i, (s[i].0, v));
    if i == s.len() - 1 {
        assert(t.drop_last() =~= s.drop_last());
        assert(assoc_map(t) =~= assoc_map(s).insert(s[i].0@, v as int));
    } else {
        lemma_assoc_update(s.drop_last(), i, v);
        assert(t.drop_last() =~= s.drop_last().update(i, (s[i].0, v)));
        assert(t.last() == s.last());
        assert(s[i].0@ != s.last().0@);
        assert(assoc_map(t) =~= assoc_map(s).insert(s[i].0@, v as int));
    }
}

/// Appending an entry with a fresh key inserts it into the map.
proof fn lemma_assoc_push(s: Seq<(String, i64)>, p: (String, i64))
    ensures
        assoc_map(s.push(p)) == assoc_map(s).insert(p.0@, p.1 as int),
{
    assert(s.push(p).drop_last() =~= s);
}

/// The merge of two named aggregates: one entry per key present in either,
/// holding the clamped sum of its counts.
pub open spec fn merge_maps(m1: Map<Seq<char>, int>, m2: Map<Seq<char>, int>) -> Map<
    Seq<char>,
    int,
> {
    Map::new(
        |k: Seq<char>| m1.contains_key(k) || m2.contains_key(k),
        |k: Seq<char>| clamp_i64(get_or_zero(m1, k) + get_or_zero(m2, k)),
    )
}

/// Every value of the map is an `i64`.
pub open spec fn values_in_range(m: Map<Seq<char>, int>) -> bool {
    forall|k: Seq<char>| m.contains_key(k) ==> i64::MIN <= #[trigger] m[k] <= i64::MAX
}

/// An aggregate's model only holds `i64` values.
pub proof fn lemma_view_in_range(a: NamedAggregate)
    ensures
        values_in_range(a@),
{
    assert forall|k: Seq<char>| a@.contains_key(k) implies i64::MIN <= #[trigger] a@[k]
        <= i64::MAX by {
        lemma_assoc_range(a.entries@, k);
    }
}

/// Merging one fresh entry of the right map into the accumulator is one
/// saturating upsert.
proof fn lemma_merge_upsert(m1: Map<Seq<char>, int>, m2: Map<Seq<char>, int>, k: Seq<char>, v: int)
    requires
        !m2.contains_key(k),
        m1.contains_key(k) ==> i64::MIN <= m1[k] <= i64::MAX,
    ensures
        merge_maps(m1, m2.insert(k, v)) == upsert(merge_maps(m1, m2), k, v),
{
    assert(merge_maps(m1, m2.insert(k, v)) =~= upsert(merge_maps(m1, m2), k, v));
}

/// Adds every entry of `src` into `dst` by saturating per-key addition.
pub fn merge_into(dst: &mut NamedAggregate, src: &NamedAggregate)
    requires
        old(dst).wf(),
        src.wf(),
    ensures
        final(dst).wf(),
        final(dst)@ == merge_maps(old(dst)@, src@),
{
    proof {
        lemma_view_in_range(*old(dst));
    }
    let n = src.entries.len();
    let mut i: usize = 0;
    while i < n
        invariant
            n == src.entries@.len(),
            i <= n,
            src.wf(),
            dst.wf(),
            values_in_range(old(dst)@),
            dst@ == merge_maps(old(dst)@, assoc_map(src.entries@.subrange(0, i as int))),
        decreases n - i,
    {
        let ghost prefix = src.entries@.subrange(0, i as int);
        proof {
            assert(src.entries@.subrange(0, i as int + 1) =~= prefix.push(src.entries@[i as int]));
            lemma_assoc_contains(prefix, src.entries@[i as int].0@);
            assert(forall|p: int| 0 <= p < i ==> src.entries@[p].0@ != src.entries@[i as int].0@);
            assert(assoc_map(prefix.push(src.entries@[i as int])) == assoc_map(prefix).insert(
                src.entries@[i as int].0@,
                src.entries@[i as int].1 as int,
            )) by {
                assert(prefix.push(src.entries@[i as int]).drop_last() =~= prefix);
            }
            lemma_merge_upsert(
                old(dst)@,
                assoc_map(prefix),
                src.entries@[i as int].0@,
                src.entries@[i as int].1 as int,
            );
        }
        add_to_table(dst, src.entries[i].0.as_str(), src.entries[i].1);
        i += 1;
    }
    proof {
        assert(src.entries@.subrange(0, n as int) =~= src.entries@);
    }
}

/// Law: merging two aggregates into an empty accumulator is commutative —
/// for any aggregates `a` and `b`, folding in `a` then `b` equals folding
/// in `b` then `a`.
pub proof fn lemma_merge_commutes(a: NamedAggregate, b: NamedAggregate)
    requires
        a.wf(),
        b.wf(),
    ensures
        merge_maps(merge_maps(Map::empty(), a@), b@) == merge_maps(merge_maps(Map::empty(), b@), a@),
{
    lemma_view_in_range(a);
    lemma_view_in_range(b);
    assert(merge_maps(Map::empty(), a@) =~= a@);
    assert(merge_maps(Map::empty(), b@) =~= b@);
    assert(merge_maps(a@, b@) =~= merge_maps(b@, a@));
}

/// Adds `(dr, ds)` to the reward/sell pair of `k`, creating the entry when
/// absent; each side saturates at the `i64` bounds.
pub open spec fn upsert_pair(
    m: Map<Seq<char>, (int, int)>,
    k: Seq<char>,
    dr: int,
    ds: int,
) -> Map<Seq<char>, (int, int)> {
    let cur = if m.contains_key(k) {
        m[k]
    } else {
        (0, 0)
    };
    m.insert(k, (clamp_i64(cur.0 + dr), clamp_i64(cur.1 + ds)))
}

/// The pair map denoted by an association list of (name, reward, sell).
pub open spec fn pair_assoc_map(s: Seq<(String, i64, i64)>) -> Map<Seq<char>, (int, int)>
    decreases s.len(),
{
    if s.len() == 0 {
        Map::empty()
    } else {
        pair_assoc_map(s.drop_last()).insert(
            s.last().0@,
            (s.last().1 as int, s.last().2 as int),
        )
    }
}

/// No two entries share a key.
pub open spec fn pair_keys_distinct(s: Seq<(String, i64, i64)>) -> bool {
    forall|i: int, j: int| 0 <= i < j < s.len() ==> s[i].0@ != s[j].0@
}

/// A name-to-(reward, sell) table for the dungeon reward statistics; the
/// model is the finite map from names to count pairs.
pub struct RewardAggregate {
    pub entries: Vec<(String, i64, i64)>,
}

impl View for RewardAggregate {
    type V = Map<Seq<char>, (int, int)>;

    open spec fn view(&self) -> Map<Seq<char>, (int, int)> {
        pair_assoc_map(self.entries@)
    }
}

impl RewardAggregate {
    /// Internal shape invariant: keys are pairwise distinct.
    pub open spec fn wf(&self) -> bool {
        pair_keys_distinct(self.entries@)
    }

    pub fn new() -> (r: RewardAggregate)
        ensures
            r.wf(),
            r@ == Map::<Seq<char>, (int, int)>::empty(),
    {
        RewardAggregate { entries: Vec::new() }
    }

    /// The stored (reward, sell) pair for `key`, if present.
    pub fn get(&self, key: &str) -> (r: Option<(i64, i64)>)
        requires
            self.wf(),
        ensures
            match r {
                Some(p) => self@.contains_key(key@) && self@[key@] == (p.0 as int, p.1 as int),
                None => !self@.contains_key(key@),
            },
    {
        let key_s: String = key.to_owned();
        let n = self.entries.len();
        let mut i: usize = 0;
        while i < n
            invariant
                n == self.entries.len(),
                i <= n,
                self.wf(),
                key_s@ == key@,
                forall|j: int| 0 <= j < i ==> self.entries@[j].0@ != key@,
            decreases n - i,
        {
            if self.entries[i].0 == key_s {
                proof {
                    lemma_pair_assoc_at(self.entries@, i as int);
                }
                return Some((self.entries[i].1, self.entries[i].2));
            }
            i += 1;
        }
        proof {
            lemma_pair_assoc_contains(self.entries@, key@);
        }
        None
    }

    /// Adds `dr` to the reward side and `ds` to the sell side of `key`
    /// (creating the entry when absent); each side saturates.
    pub fn add_pair(&mut self, key: &str, dr: i64, ds: i64)
        requires
            old(self).wf(),
        ensures
            final(self).wf(),
            final(self)@ == upsert_pair(old(self)@, key@, dr as int, ds as int),
    {
        let key_s: String = key.to_owned();
        let n = self.entries.len();
        let mut i: usize = 0;
        while i < n
            invariant
                n == self.entries.len(),
                i <= n,
                self.wf(),
                *self == *old(self),
                key_s@ == key@,
                forall|j: int| 0 <= j < i ==> self.entries@[j].0@ != key@,
            decreases n - i,
        {
            if self.entries[i].0 == key_s {
                let ghost s0 = self.entries@;
                let new_r = sat_add_i64(self.entries[i].1, dr);
                let new_s = sat_add_i64(self.entries[i].2, ds);
                let name = self.entries[i].0.clone();
                self.entries.set(i, (name, new_r, new_s));
                proof {
                    assert(self.entries@ =~= s0.update(i as int, (s0[i as int].0, new_r, new_s)));
                    lemma_pair_assoc_at(s0, i as int);
                    lemma_pair_assoc_update(s0, i as int, new_r, new_s);
                    assert(final(self)@ =~= upsert_pair(old(self)@, key@, dr as int, ds as int));
                }
                return ;
            }
            i += 1;
        }
        let ghost s0 = self.entries@;
        let new_r = sat_add_i64(0, dr);
        let new_s = sat_add_i64(0, ds);
        self.entries.push((key_s, new_r, new_s));
        proof {
            lemma_pair_assoc_contains(s0, key@);
            lemma_pair_assoc_push(s0, (key_s, new_r, new_s));
            assert(final(self)@ =~= upsert_pair(old(self)@, key@, dr as int, ds as int));
            assert forall|p: int, q: int|
                0 <= p < q < self.entries@.len() implies self.entries@[p].0@
                != self.entries@[q].0@ by {
                if q == s0.len() {
                    assert(self.entries@[p].0@ != key@);
                }
            }
        }
    }
}

/// An entry found at index `i` gives the pair map's value at its key.
pub proof fn lemma_pair_assoc_at(s: Seq<(String, i64, i64)>, i: int)
    requires
        pair_keys_distinct(s),
        0 <= i < s.len(),
    ensures
        pair_assoc_map(s).contains_key(s[i].0@),
        pair_assoc_map(s)[s[i].0@] == (s[i].1 as int, s[i].2 as int),
    decreases s.len(),
{
    if i < s.len() - 1 {
        lemma_pair_assoc_at(s.drop_last(), i);
    }
}

/// The pair map's domain is exactly the set of keys occurring in the list.
pub proof fn lemma_pair_assoc_contains(s: Seq<(String, i64, i64)>, k: Seq<char>)
    ensures
        pair_assoc_map(s).contains_key(k) <==> (exists|i: int| 0 <= i < s.len() && s[i].0@ == k),
    decreases s.len(),
{
    if s.len() > 0 {
        lemma_pair_assoc_contains(s.drop_last(), k);
        if s.last().0@ != k && pair_assoc_map(s).contains_key(k) {
            let i = choose|i: int| 0 <= i < s.drop_last().len() && s.drop_last()[i].0@ == k;
            assert(s[i].0@ == k);
        }
        if exists|i: int| 0 <= i < s.len() && s[i].0@ == k {
            let i = choose|i: int| 0 <= i < s.len() && s[i].0@ == k;
            if i < s.len() - 1 {
                assert(s.drop_last()[i].0@ == k);
            }
        }
    }
}

/// Overwriting the pair at position `i` updates the map at that entry's key.
proof fn lemma_pair_assoc_update(s: Seq<(String, i64, i64)>, i: int, vr: i64, vs: i64)
    requires
        pair_keys_distinct(s),
        0 <= i < s.len(),
    ensures
        pair_assoc_map(s.update(i, (s[i].0, vr, vs))) == pair_assoc_map(s).insert(
            s[i].0@,
            (vr as int, vs as int),
        ),
    decreases s.len(),
{
    let t = s.update(i, (s[i].0, vr, vs));
    if i == s.len() - 1 {
        assert(t.drop_last() =~= s.drop_last());
        assert(pair_assoc_map(t) =~= pair_assoc_map(s).insert(s[i].0@, (vr as int, vs as int)));
    } else {
        lemma_pair_assoc_update(s.drop_last(), i, vr, vs);
        assert(t.drop_last() =~= s.drop_last().update(i, (s[i].0, vr, vs)));
        assert(t.last() == s.last());
        assert(s[i].0@ != s.last().0@);
        assert(pair_assoc_map(t) =~= pair_assoc_map(s).insert(s[i].0@, (vr as int, vs as int)));
    }
}

/// Appending an entry with a fresh key inserts it into the pair map.
proof fn lemma_pair_assoc_push(s: Seq<(String, i64, i64)>, p: (String, i64, i64))
    ensures
        pair_assoc_map(s.push(p)) == pair_assoc_map(s).insert(p.0@, (p.1 as int, p.2 as int)),
{
    assert(s.push(p).drop_last() =~= s);
}

/// With distinct keys the map has exactly one element per list entry.
pub proof fn lemma_assoc_dom_len(s: Seq<(String, i64)>)
    requires
        keys_distinct(s),
    ensures
        assoc_map(s).dom().finite(),
        assoc_map(s).dom().len() == s.len(),
    decreases s.len(),
{
    if s.len() > 0 {
        lemma_assoc_dom_len(s.drop_last());
        lemma_assoc_contains(s.drop_last(), s.last().0@);
    }
}

} // verus!
