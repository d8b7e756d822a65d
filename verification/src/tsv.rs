//! The literal-text dictionary metrics: a tab-separated dictionary mapping
//! raw log records to display names, the parser that loads it from file
//! text, and the extractor that counts corpus lines whose normalized form
//! is a dictionary key.

use vstd::prelude::*;

use crate::aggregate::NamedAggregate;
use crate::aggregate::add_to_table;
use crate::engines::agg_fn;
use crate::engines::lemma_agg_fn_push;
use crate::engines::row_qty_nonneg;
use crate::engines::rows_nonneg;
use crate::engines::views_of;

verus! {

/// The first position at or after `from` holding the character `c`.
pub open spec fn find_char(s: Seq<char>, c: char, from: int) -> Option<int>
    decreases s.len() - from,
{
    if from < 0 || from >= s.len() {
        None
    } else if s[from] == c {
        Some(from)
    } else {
        find_char(s, c, from + 1)
    }
}

/// Where a character search lands: on the first occurrence, or nowhere.
pub proof fn lemma_find_char_bounds(s: Seq<char>, c: char, from: int)
    ensures
        match find_char(s, c, from) {
            Some(i) => from <= i < s.len() && s[i] == c && (forall|k: int|
                from <= k < i ==> s[k] != c),
            None => 0 <= from ==> forall|k: int| from <= k < s.len() ==> s[k] != c,
        },
    decreases s.len() - from,
{
    if from < 0 || from >= s.len() {
    } else if s[from] == c {
    } else {
        lemma_find_char_bounds(s, c, from + 1);
    }
}

/// The key/value a record line yields: the text before its first tab maps
/// to the text between its first and second tabs (or to the line's end
/// when there is no second tab); a line without a tab yields nothing.
pub open spec fn line_kv(s: Seq<char>, a: int, b: int) -> Option<(Seq<char>, Seq<char>)> {
    match find_char(s, '\t', a) {
        Some(t1) => if t1 < b {
            let value = match find_char(s, '\t', t1 + 1) {
                Some(t2) => if t2 < b {
                    s.subrange(t1 + 1, t2)
                } else {
                    s.subrange(t1 + 1, b)
                },
                None => s.subrange(t1 + 1, b),
            };
            Some((s.subrange(a, t1), value))
        } else {
            None
        },
        None => None,
    }
}

/// Folds one line's key/value into the dictionary (a later line with the
/// same key overrides an earlier one).
pub open spec fn apply_kv(
    m: Map<Seq<char>, Seq<char>>,
    s: Seq<char>,
    a: int,
    b: int,
) -> Map<Seq<char>, Seq<char>> {
    match line_kv(s, a, b) {
        Some((k, v)) => m.insert(k, v),
        None => m,
    }
}

/// The dictionary accumulated from the newline-separated records of
/// `s` starting at position `i`.
pub open spec fn tsv_dict_from(m: Map<Seq<char>, Seq<char>>, s: Seq<char>, i: int) -> Map<
    Seq<char>,
    Seq<char>,
>
    decreases s.len() - i via tsv_dict_from_decreases
{
    match find_char(s, '\n', i) {
        None => apply_kv(m, s, i, s.len() as int),
        Some(j) => tsv_dict_from(apply_kv(m, s, i, j), s, j + 1),
    }
}

#[via_fn]
proof fn tsv_dict_from_decreases(m: Map<Seq<char>, Seq<char>>, s: Seq<char>, i: int) {
    lemma_find_char_bounds(s, '\n', i);
}

/// The dictionary a whole tab-separated file text denotes.
pub open spec fn tsv_dict_of(s: Seq<char>) -> Map<Seq<char>, Seq<char>> {
    tsv_dict_from(Map::empty(), s, 0)
}

/// The map denoted by a key/value association list.
pub open spec fn str_assoc_map(s: Seq<(String, String)>) -> Map<Seq<char>, Seq<char>>
    decreases s.len(),
{
    if s.len() == 0 {
        Map::empty()
    } else {
        str_assoc_map(s.drop_last()).insert(s.last().0@, s.last().1@)
    }
}

/// No two entries share a key.
pub open spec fn str_keys_distinct(s: Seq<(String, String)>) -> bool {
    forall|i: int, j: int| 0 <= i < j < s.len() ==> s[i].0@ != s[j].0@
}

/// A literal-text dictionary: raw record text to display name.
pub struct Dictionary {
    pub entries: Vec<(String, String)>,
}

impl View for Dictionary {
    type V = Map<Seq<char>, Seq<char>>;

    open spec fn view(&self) -> Map<Seq<char>, Seq<char>> {
        str_assoc_map(self.entries@)
    }
}

/// An entry found at index `i` gives the map's value at its key.
proof fn lemma_str_assoc_at(s: Seq<(String, String)>, i: int)
    requires
        str_keys_distinct(s),
        0 <= i < s.len(),
    ensures
        str_assoc_map(s).contains_key(s[i].0@),
        str_assoc_map(s)[s[i].0@] == s[i].1@,
    decreases s.len(),
{
    if i < s.len() - 1 {
        lemma_str_assoc_at(s.drop_last(), i);
    }
}

/// The map's domain is exactly the set of keys occurring in the list.
proof fn lemma_str_assoc_contains(s: Seq<(String, String)>, k: Seq<char>)
    ensures
        str_assoc_map(s).contains_key(k) <==> (exists|i: int| 0 <= i < s.len() && s[i].0@ == k),
    decreases s.len(),
{
    if s.len() > 0 {
        lemma_str_assoc_contains(s.drop_last(), k);
        if s.last().0@ != k && str_assoc_map(s).contains_key(k) {
            let i = choose|i: int| 0 <= i < s.drop_last().len() && s.drop_last()[i].0@ == k;
            assert(s[i].0@ == k);
        }
        if exists|i: int| 0 <= i < s.len() && s[i].0@ == k {
            let i = choose|i: int| 0 <= i < s.len() && s[i].0@ == k;
            if i < s.len() - 1 {
                assert(s.drop_last()[i].0@ == k);
            }
        }
    }
}

/// Overwriting the value at position `i` updates the map at that entry's key.
proof fn lemma_str_assoc_update(s: Seq<(String, String)>, i: int, v: String)
    requires
        str_keys_distinct(s),
        0 <= i < s.len(),
    ensures
        str_assoc_map(s.update(i, (s[i].0, v))) == str_assoc_map(s).insert(s[i].0@, v@),
    decreases s.len(),
{
    let t = s.update(i, (s[i].0, v));
    if i == s.len() - 1 {
        assert(t.drop_last() =~= s.drop_last());
        assert(str_assoc_map(t) =~= str_assoc_map(s).insert(s[i].0@, v@));
    } else {
        lemma_str_assoc_update(s.drop_last(), i, v);
        assert(t.drop_last() =~= s.drop_last().update(i, (s[i].0, v)));
        assert(t.last() == s.last());
        assert(s[i].0@ != s.last().0@);
        assert(str_assoc_map(t) =~= str_assoc_map(s).insert(s[i].0@, v@));
    }
}

impl Dictionary {
    /// Shape invariant: keys are pairwise distinct.
    pub open spec fn wf(&self) -> bool {
        str_keys_distinct(self.entries@)
    }

    pub fn new() -> (r: Dictionary)
        ensures
            r.wf(),
            r@ == Map::<Seq<char>, Seq<char>>::empty(),
    {
        Dictionary { entries: Vec::new() }
    }

    /// Binds `key` to `value`, replacing any earlier binding.
    pub fn insert(&mut self, key: String, value: String)
        requires
            old(self).wf(),
        ensures
            final(self).wf(),
            final(self)@ == old(self)@.insert(key@, value@),
    {
        let n = self.entries.len();
        let mut i: usize = 0;
        while i < n
            invariant
                n == self.entries@.len(),
                i <= n,
                self.wf(),
                *self == *old(self),
                forall|j: int| 0 <= j < i ==> self.entries@[j].0@ != key@,
            decreases n - i,
        {
            if crate::utils::str_eq(self.entries[i].0.as_str(), key.as_str()) {
                let ghost s0 = self.entries@;
                let name = self.entries[i].0.clone();
                self.entries.set(i, (name, value));
                proof {
                    assert(self.entries@ =~= s0.update(i as int, (s0[i as int].0, self.entries@[i as int].1)));
                    lemma_str_assoc_update(s0, i as int, self.entries@[i as int].1);
                    assert(final(self)@ =~= old(self)@.insert(key@, self.entries@[i as int].1@));
                }
                return ;
            }
            i += 1;
        }
        let ghost s0 = self.entries@;
        self.entries.push((key, value));
        proof {
            assert(s0.push(self.entries@.last()).drop_last() =~= s0);
            assert(final(self)@ =~= old(self)@.insert(self.entries@.last().0@, self.entries@.last().1@));
            assert forall|p: int, q: int|
                0 <= p < q < self.entries@.len() implies self.entries@[p].0@
                != self.entries@[q].0@ by {
                if q == s0.len() {
                    assert(self.entries@[p].0@ != self.entries@.last().0@);
                }
            }
        }
    }

    /// Looks the suffix `cs[off..]` up among the keys, returning a copy of
    /// its display name when bound.
    fn lookup_suffix(&self, cs: &Vec<char>, off: usize) -> (r: Option<String>)
        requires
            self.wf(),
            off <= cs@.len(),
        ensures
            match r {
                Some(v) => self@.contains_key(cs@.skip(off as int)) && self@[cs@.skip(off as int)]
                    == v@,
                None => !self@.contains_key(cs@.skip(off as int)),
            },
    {
        let n = self.entries.len();
        let mut i: usize = 0;
        while i < n
            invariant
                n == self.entries@.len(),
                i <= n,
                self.wf(),
                off <= cs@.len(),
                forall|j: int| 0 <= j < i ==> self.entries@[j].0@ != cs@.skip(off as int),
            decreases n - i,
        {
            if chars_suffix_eq_str(cs, off, self.entries[i].0.as_str()) {
                proof {
                    lemma_str_assoc_at(self.entries@, i as int);
                }
                return Some(self.entries[i].1.clone());
            }
            i += 1;
        }
        proof {
            lemma_str_assoc_contains(self.entries@, cs@.skip(off as int));
        }
        None
    }
}

/// Whether the characters of `cs` from `off` on spell exactly `s`.
fn chars_suffix_eq_str(cs: &Vec<char>, off: usize, s: &str) -> (r: bool)
    requires
        off <= cs@.len(),
    ensures
        r == (cs@.skip(off as int) == s@),
{
    let sl = s.unicode_len();
    let n = cs.len();
    if n - off != sl {
        proof {
            assert(cs@.skip(off as int).len() != s@.len());
        }
        return false;
    }
    let mut i: usize = 0;
    while i < sl
        invariant
            off <= n,
            n == cs@.len(),
            sl == s@.len(),
            n - off == sl,
            i <= sl,
            forall|k: int| 0 <= k < i ==> cs@[off + k] == s@[k],
        decreases sl - i,
    {
        if cs[off + i] != s.get_char(i) {
            proof {
                assert(cs@.skip(off as int)[i as int] == cs@[off + i]);
            }
            return false;
        }
        i += 1;
    }
    proof {
        assert(cs@.skip(off as int) =~= s@);
    }
    true
}

/// The dictionary lookup form of a corpus line: carriage returns removed,
/// each tab spelled out as a backslash and a `t`.
pub open spec fn tsv_normalize(s: Seq<char>) -> Seq<char>
    decreases s.len(),
{
    if s.len() == 0 {
        Seq::empty()
    } else {
        tsv_normalize(s.drop_last()) + (if s.last() == '\r' {
            Seq::<char>::empty()
        } else if s.last() == '\t' {
            seq!['\\', 't']
        } else {
            seq![s.last()]
        })
    }
}

/// What one line contributes to the dictionary metric: its normalized form
/// less the leading two characters, looked up in the dictionary, counts
/// its display name once.
pub open spec fn tsv_row(dict: Map<Seq<char>, Seq<char>>, line: Seq<char>) -> Option<
    (Seq<char>, int),
> {
    let n = tsv_normalize(line);
    if n.len() >= 2 && dict.contains_key(n.skip(2)) {
        Some((dict[n.skip(2)], 1))
    } else {
        None
    }
}

/// The dictionary metric's per-line scan, as a spec-level function value.
pub open spec fn tsv_rows(dict: Map<Seq<char>, Seq<char>>) -> spec_fn(Seq<char>) -> Option<
    (Seq<char>, int),
> {
    |l: Seq<char>| tsv_row(dict, l)
}

/// The aggregate the dictionary metric derives from a line range.
pub open spec fn tsv_agg_of(lines: Seq<Seq<char>>, dict: Map<Seq<char>, Seq<char>>) -> Map<
    Seq<char>,
    int,
> {
    agg_fn(lines, tsv_rows(dict))
}

/// Law: scanning a line range in reverse order yields the same dictionary
/// metric aggregate.
pub proof fn lemma_tsv_order_independent(lines: Seq<Seq<char>>, dict: Map<Seq<char>, Seq<char>>)
    ensures
        tsv_agg_of(lines.reverse(), dict) == tsv_agg_of(lines, dict),
{
    crate::engines::lemma_agg_fn_reverse(lines, tsv_rows(dict));
}

/// The normalized form of a line, computed characterwise.
fn normalize_line(line: &str) -> (r: Vec<char>)
    ensures
        r@ == tsv_normalize(line@),
{
    let n = line.unicode_len();
    let mut out: Vec<char> = Vec::new();
    let mut i: usize = 0;
    while i < n
        invariant
            i <= n,
            n == line@.len(),
            out@ == tsv_normalize(line@.subrange(0, i as int)),
        decreases n - i,
    {
        let c = line.get_char(i);
        proof {
            assert(line@.subrange(0, i as int + 1).drop_last() =~= line@.subrange(0, i as int));
            assert(line@.subrange(0, i as int + 1).last() == line@[i as int]);
        }
        if c == '\r' {
            proof {
                assert(out@ =~= tsv_normalize(line@.subrange(0, i as int + 1)));
            }
        } else if c == '\t' {
            let ghost before = out@;
            out.push('\\');
            out.push('t');
            proof {
                assert(out@ =~= before + seq!['\\', 't']);
            }
        } else {
            let ghost before = out@;
            out.push(c);
            proof {
                assert(out@ =~= before + seq![c]);
            }
        }
        i += 1;
    }
    proof {
        assert(line@.subrange(0, n as int) =~= line@);
    }
    out
}

/// Counts, for every line at index `from` or later whose normalized form
/// (less its leading two characters) is a dictionary key, one occurrence
/// of the bound display name.
pub fn engine_tsv_match(texts: &[String], dictionary: &Dictionary, from: usize) -> (r:
    NamedAggregate)
    requires
        from <= texts@.len(),
        dictionary.wf(),
    ensures
        r.wf(),
        r@ == tsv_agg_of(views_of(texts@).skip(from as int), dictionary@),
{
    let ghost lines = views_of(texts@);
    let ghost row = tsv_rows(dictionary@);
    let mut r = NamedAggregate::new();
    let n = texts.len();
    let mut i: usize = from;
    while i < n
        invariant
            from <= i <= n,
            n == texts@.len(),
            lines == views_of(texts@),
            row == tsv_rows(dictionary@),
            dictionary.wf(),
            r.wf(),
            rows_nonneg(lines.subrange(from as int, i as int), row),
            r@ == agg_fn(lines.subrange(from as int, i as int), row),
        decreases n - i,
    {
        let ghost prefix = lines.subrange(from as int, i as int);
        let normalized = normalize_line(texts[i].as_str());
        let looked_up: Option<String> = if normalized.len() >= 2 {
            dictionary.lookup_suffix(&normalized, 2)
        } else {
            None
        };
        proof {
            assert(lines[i as int] == texts@[i as int]@);
            assert(lines.subrange(from as int, i as int + 1) =~= prefix.push(lines[i as int]));
            lemma_agg_fn_push(prefix, lines[i as int], row);
        }
        match looked_up {
            Some(name) => {
                add_to_table(&mut r, name.as_str(), 1);
            },
            None => {},
        }
        i += 1;
    }
    proof {
        assert(lines.subrange(from as int, n as int) =~= lines.skip(from as int));
    }
    r
}

/// First occurrence of `c` in `s` at or after `from`, scanning forward.
fn find_char_from(s: &str, from: usize, c: char) -> (r: Option<usize>)
    ensures
        match r {
            Some(u) => find_char(s@, c, from as int) == Some(u as int),
            None => find_char(s@, c, from as int) is None,
        },
{
    let n = s.unicode_len();
    if from >= n {
        return None;
    }
    let mut i: usize = from;
    while i < n
        invariant
            from <= i <= n,
            n == s@.len(),
            find_char(s@, c, from as int) == find_char(s@, c, i as int),
        decreases n - i,
    {
        if s.get_char(i) == c {
            return Some(i);
        }
        i += 1;
    }
    None
}

/// Parses tab-separated file text into a dictionary: one record per line,
/// the text before the first tab naming the text between the first and
/// second tabs (or the line's tail); lines without a tab are skipped, and
/// a later binding of a key replaces an earlier one.
pub fn load_tsv_text(content: &str) -> (r: Dictionary)
    ensures
        r.wf(),
        r@ == tsv_dict_of(content@),
{
    let n = content.unicode_len();
    let mut dict = Dictionary::new();
    let mut i: usize = 0;
    loop
        invariant
            i <= n,
            n == content@.len(),
            dict.wf(),
            tsv_dict_from(dict@, content@, i as int) == tsv_dict_of(content@),
        decreases n - i,
    {
        let line_end = find_char_from(content, i, '\n');
        let b = match line_end {
            Some(j) => j,
            None => n,
        };
        proof {
            lemma_find_char_bounds(content@, '\n', i as int);
            lemma_find_char_bounds(content@, '\t', i as int);
        }
        let ghost before = dict@;
        let t1o = find_char_from(content, i, '\t');
        let mut has_kv = false;
        let mut t1: usize = 0;
        match t1o {
            Some(t) => {
                if t < b {
                    has_kv = true;
                    t1 = t;
                }
            },
            None => {},
        }
        if has_kv {
            proof {
                lemma_find_char_bounds(content@, '\t', t1 as int + 1);
            }
            let key = content.substring_char(i, t1).to_owned();
            let t2o = find_char_from(content, t1 + 1, '\t');
            let vend: usize = match t2o {
                Some(t2) => if t2 < b {
                    t2
                } else {
                    b
                },
                None => b,
            };
            let value = content.substring_char(t1 + 1, vend).to_owned();
            dict.insert(key, value);
        }
        proof {
            assert(dict@ == apply_kv(before, content@, i as int, b as int));
        }
        match line_end {
            Some(j) => {
                i = j + 1;
            },
            None => {
                return dict;
            },
        }
    }
}

} // verus!
