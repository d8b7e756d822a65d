//! Supporting utilities: string comparison, the statistics sort, and the
//! merge/flatten helpers over named aggregates.

use vstd::prelude::*;

use crate::aggregate::NamedAggregate;
use crate::aggregate::merge_maps;
use crate::aggregate::merge_into;

verus! {

/// Character-wise string equality.
pub fn str_eq(a: &str, b: &str) -> (r: bool)
    ensures
        r == (a@ == b@),
{
    let al = a.unicode_len();
    let bl = b.unicode_len();
    if al != bl {
        return false;
    }
    let mut i: usize = 0;
    while i < al
        invariant
            al == a@.len(),
            bl == b@.len(),
            al == bl,
            i <= al,
            forall|k: int| 0 <= k < i ==> a@[k] == b@[k],
        decreases al - i,
    {
        if a.get_char(i) != b.get_char(i) {
            return false;
        }
        i += 1;
    }
    proof {
        assert(a@ =~= b@);
    }
    true
}

/// Lexicographic order on character sequences by code point; agrees with
/// the byte order of the UTF-8 encodings.
pub open spec fn lex_le(a: Seq<char>, b: Seq<char>) -> bool
    decreases a.len(),
{
    if a.len() == 0 {
        true
    } else if b.len() == 0 {
        false
    } else if a[0] != b[0] {
        (a[0] as u32) < (b[0] as u32)
    } else {
        lex_le(a.drop_first(), b.drop_first())
    }
}

/// The lexicographic order is total.
pub proof fn lemma_lex_total(a: Seq<char>, b: Seq<char>)
    ensures
        lex_le(a, b) || lex_le(b, a),
    decreases a.len(),
{
    if a.len() > 0 && b.len() > 0 {
        if a[0] == b[0] {
            lemma_lex_total(a.drop_first(), b.drop_first());
        } else {
            vstd::utf8::char_u32_cast(a[0], a[0] as u32);
            vstd::utf8::char_u32_cast(b[0], b[0] as u32);
            assert((a[0] as u32) != (b[0] as u32));
        }
    }
}

/// The lexicographic order is transitive.
pub proof fn lemma_lex_trans(a: Seq<char>, b: Seq<char>, c: Seq<char>)
    requires
        lex_le(a, b),
        lex_le(b, c),
    ensures
        lex_le(a, c),
    decreases a.len(),
{
    if a.len() > 0 && b.len() > 0 && c.len() > 0 {
        if a[0] == b[0] && b[0] == c[0] {
            lemma_lex_trans(a.drop_first(), b.drop_first(), c.drop_first());
        }
    }
}

/// Character-wise "less than or equal" on strings, by code point.
pub fn str_le(a: &str, b: &str) -> (r: bool)
    ensures
        r == lex_le(a@, b@),
{
    let al = a.unicode_len();
    let bl = b.unicode_len();
    proof {
        assert(a@.skip(0) =~= a@);
        assert(b@.skip(0) =~= b@);
    }
    let mut i: usize = 0;
    while i < al && i < bl
        invariant
            al == a@.len(),
            bl == b@.len(),
            i <= al,
            i <= bl,
            forall|k: int| 0 <= k < i ==> a@[k] == b@[k],
            lex_le(a@, b@) == lex_le(a@.skip(i as int), b@.skip(i as int)),
        decreases al - i,
    {
        let ca = a.get_char(i);
        let cb = b.get_char(i);
        proof {
            assert(a@.skip(i as int)[0] == a@[i as int]);
            assert(b@.skip(i as int)[0] == b@[i as int]);
            assert(a@.skip(i as int).drop_first() =~= a@.skip(i as int + 1));
            assert(b@.skip(i as int).drop_first() =~= b@.skip(i as int + 1));
        }
        if ca != cb {
            return (ca as u32) < (cb as u32);
        }
        i += 1;
    }
    proof {
        if i == al {
            assert(a@.skip(i as int).len() == 0);
        } else {
            assert(b@.skip(i as int).len() == 0);
            assert(a@.skip(i as int).len() > 0);
        }
    }
    i == al
}

/// Which column the statistics sort orders by.
#[derive(Clone, Copy, Debug)]
pub enum SortTarget {
    NAME,
    QTY,
}

/// Which side of the reward pair a view sorts or displays.
#[derive(Clone, Copy, Debug)]
pub enum RewardSort {
    Sell,
    Reward,
}

/// The order `sort` arranges two entries in, for a column and a direction.
pub open spec fn entry_le(
    target: SortTarget,
    invert: bool,
    x: (String, i64),
    y: (String, i64),
) -> bool {
    match target {
        SortTarget::NAME => if invert {
            lex_le(y.0@, x.0@)
        } else {
            lex_le(x.0@, y.0@)
        },
        SortTarget::QTY => if invert {
            y.1 <= x.1
        } else {
            x.1 <= y.1
        },
    }
}

/// The entry order is total.
proof fn lemma_entry_total(target: SortTarget, invert: bool, x: (String, i64), y: (String, i64))
    ensures
        entry_le(target, invert, x, y) || entry_le(target, invert, y, x),
{
    match target {
        SortTarget::NAME => lemma_lex_total(x.0@, y.0@),
        SortTarget::QTY => {},
    }
}

/// The entry order is transitive.
proof fn lemma_entry_trans(
    target: SortTarget,
    invert: bool,
    x: (String, i64),
    y: (String, i64),
    z: (String, i64),
)
    requires
        entry_le(target, invert, x, y),
        entry_le(target, invert, y, z),
    ensures
        entry_le(target, invert, x, z),
{
    match target {
        SortTarget::NAME => if invert {
            lemma_lex_trans(z.0@, y.0@, x.0@);
        } else {
            lemma_lex_trans(x.0@, y.0@, z.0@);
        },
        SortTarget::QTY => {},
    }
}

/// Moving the element at `j` one slot to the left keeps the multiset.
proof fn lemma_swap_to_multiset(s: Seq<(String, i64)>, j: int)
    requires
        1 <= j < s.len(),
    ensures
        s.remove(j).insert(j - 1, s[j]).to_multiset() == s.to_multiset(),
{
    broadcast use vstd::seq_lib::group_to_multiset_ensures;
    broadcast use vstd::multiset::group_multiset_axioms;

    let x = s[j];
    let mid = s.remove(j);
    vstd::seq_lib::to_multiset_insert(mid, j - 1, x);
    assert(mid.to_multiset() == s.to_multiset().remove(x));
    assert(s.contains(x));
    assert(s.to_multiset().count(x) > 0);
    assert(s.to_multiset().remove(x).insert(x) =~= s.to_multiset());
}

/// The executable entry comparison.
fn entry_le_exec(target: SortTarget, invert: bool, x: &(String, i64), y: &(String, i64)) -> (r:
    bool)
    ensures
        r == entry_le(target, invert, *x, *y),
{
    match target {
        SortTarget::NAME => if invert {
            str_le(y.0.as_str(), x.0.as_str())
        } else {
            str_le(x.0.as_str(), y.0.as_str())
        },
        SortTarget::QTY => if invert {
            y.1 <= x.1
        } else {
            x.1 <= y.1
        },
    }
}

/// Every pair of positions is ordered.
pub open spec fn sorted_by(s: Seq<(String, i64)>, target: SortTarget, invert: bool) -> bool {
    forall|p: int, q: int| 0 <= p < q < s.len() ==> entry_le(target, invert, s[p], s[q])
}

/// Sorts the name/count entries by the chosen column, ascending, or
/// descending when `invert` is set. The result is a reordering: same
/// entries, same multiplicities.
pub fn sort(vec: &mut Vec<(String, i64)>, target: SortTarget, invert: bool)
    ensures
        final(vec)@.len() == old(vec)@.len(),
        final(vec)@.to_multiset() == old(vec)@.to_multiset(),
        sorted_by(final(vec)@, target, invert),
{
    broadcast use vstd::seq_lib::group_to_multiset_ensures;

    let n = vec.len();
    if n == 0 {
        return ;
    }
    let mut i: usize = 1;
    while i < n
        invariant
            n == vec@.len(),
            1 <= i <= n,
            vec@.to_multiset() == old(vec)@.to_multiset(),
            forall|p: int, q: int| 0 <= p < q < i ==> entry_le(target, invert, vec@[p], vec@[q]),
        decreases n - i,
    {
        let mut j: usize = i;
        while j > 0 && !entry_le_exec(target, invert, &vec[j - 1], &vec[j])
            invariant
                n == vec@.len(),
                j <= i < n,
                vec@.to_multiset() == old(vec)@.to_multiset(),
                forall|p: int, q: int|
                    0 <= p < q <= i && q != j ==> entry_le(target, invert, vec@[p], vec@[q]),
            decreases j,
        {
            proof {
                lemma_entry_total(target, invert, vec@[j - 1], vec@[j as int]);
            }
            let ghost before = vec@;
            let x = vec.remove(j);
            vec.insert(j - 1, x);
            proof {
                assert(vec@ =~= before.update(j - 1, before[j as int]).update(
                    j as int,
                    before[j - 1],
                ));
                assert(vec@ =~= before.remove(j as int).insert(j - 1, before[j as int]));
                lemma_swap_to_multiset(before, j as int);
            }
            j -= 1;
        }
        proof {
            assert forall|p: int, q: int|
                0 <= p < q <= i implies entry_le(target, invert, vec@[p], vec@[q]) by {
                if q == j {
                    if j > 0 {
                        if p < j - 1 {
                            lemma_entry_trans(
                                target,
                                invert,
                                vec@[p],
                                vec@[j - 1],
                                vec@[j as int],
                            );
                        }
                    }
                }
            }
        }
        i += 1;
    }
}

/// Flattens an aggregate into (name, count) entries, in stored order.
pub fn hashmap_to_vec(map: &NamedAggregate) -> (r: Vec<(String, i64)>)
    ensures
        r@ == map.entries@,
{
    let mut vector: Vec<(String, i64)> = Vec::new();
    let n = map.entries.len();
    let mut i: usize = 0;
    while i < n
        invariant
            n == map.entries@.len(),
            i <= n,
            vector@ == map.entries@.subrange(0, i as int),
        decreases n - i,
    {
        proof {
            assert(map.entries@.subrange(0, i as int + 1) =~= map.entries@.subrange(
                0,
                i as int,
            ).push(map.entries@[i as int]));
        }
        vector.push((map.entries[i].0.clone(), map.entries[i].1));
        i += 1;
    }
    proof {
        assert(map.entries@.subrange(0, n as int) =~= map.entries@);
    }
    vector
}

/// Combines two aggregates by per-key saturating addition: the merge of
/// the aggregation cache.
pub fn connect_hashmap(map0: NamedAggregate, map1: NamedAggregate) -> (r: NamedAggregate)
    requires
        map0.wf(),
        map1.wf(),
    ensures
        r.wf(),
        r@ == merge_maps(map0@, map1@),
{
    let mut new = map0;
    merge_into(&mut new, &map1);
    new
}

} // verus!
