//! Pattern extraction engines: pure scans over a range of log lines that
//! build named-count aggregates, plus first/last-match searches for the
//! session boundary markers.
//!
//! Per-line field extraction is delegated to the regex crate behind one
//! trusted wrapper; everything around it (the scan, the accumulation, the
//! dual-format and reward-pair rules) is verified.

use vstd::prelude::*;

use crate::aggregate::NamedAggregate;
use crate::aggregate::RewardAggregate;
use crate::aggregate::add_to_table;
use crate::aggregate::clamp_i64;
use crate::aggregate::get_or_zero;
use crate::aggregate::upsert;
use crate::aggregate::upsert_pair;

verus! {

/// The texts of a line range, each as its character sequence.
pub open spec fn views_of(texts: Seq<String>) -> Seq<Seq<char>> {
    Seq::new(texts.len(), |i: int| texts[i]@)
}

/// What the regex crate's capture search returns for a pattern and a line:
/// the text of the `name` group and, when the pattern has an `N` group whose
/// digits fit an `i64`, its numeric value. The result is a function of the
/// two strings alone.
pub uninterp spec fn capture_of(pattern: Seq<char>, line: Seq<char>) -> Option<
    (Seq<char>, Option<int>),
>;

/// The mathematical value of an executable capture result.
pub open spec fn capture_view(r: Option<(String, Option<i64>)>) -> Option<
    (Seq<char>, Option<int>),
> {
    match r {
        Some((name, qty)) => Some(
            (
                name@,
                match qty {
                    Some(n) => Some(n as int),
                    None => None,
                },
            ),
        ),
        None => None,
    }
}

/// Relies on regex::Regex::captures (with Regex::new, Captures::name and
/// str::parse): the leftmost match of a fixed pattern in a line, and its
/// named groups, depend on the pattern and the line alone. A malformed
/// pattern, a missing `name` group, or an `N` group that is not a plain
/// `i64`-sized digit run all yield the corresponding absent value.
#[verifier::external_body]
fn regex_capture(pattern: &str, line: &str) -> (r: Option<(String, Option<i64>)>)
    ensures
        capture_view(r) == capture_of(pattern@, line@),
        r matches Some(c) && c.1 matches Some(n) ==> n >= 0,
{
    let re = regex::Regex::new(pattern).ok()?;
    let caps = re.captures(line)?;
    let name = caps.name("name")?.as_str().to_string();
    let qty = caps
        .name("N")
        .and_then(|m| m.as_str().parse::<u64>().ok())
        .and_then(|n| i64::try_from(n).ok());
    Some((name, qty))
}

/// The fixed aggregate extractors (the reward pair is split into its two
/// sub-patterns over the same line range).
#[derive(Clone, Copy, Debug)]
pub enum Extractor {
    ItemGet,
    PartGet,
    ItemUse,
    KillSelf,
    Gacha,
    Rare,
    Labo,
    RewardGranted,
    RewardSold,
}

/// A captured name together with a quantity taken from the `N` group;
/// absent quantity means the line does not count.
pub open spec fn qty_row(c: Option<(Seq<char>, Option<int>)>) -> Option<(Seq<char>, int)> {
    match c {
        Some((name, Some(q))) => Some((name, q)),
        _ => None,
    }
}

/// A captured name counted once per matching line.
pub open spec fn unit_row(c: Option<(Seq<char>, Option<int>)>) -> Option<(Seq<char>, int)> {
    match c {
        Some((name, _)) => Some((name, 1)),
        None => None,
    }
}

/// The crafting-success rule: the outer pattern yields the crafted text;
/// when that text itself carries an `× N` suffix the quantity is `N`
/// (newer log format), otherwise the whole text counts once (legacy
/// format).
pub open spec fn labo_row(line: Seq<char>) -> Option<(Seq<char>, int)> {
    match capture_of(r"(?P<name>.+) の作成に成功しました。"@, line) {
        Some((crafted, _)) => match capture_of(r"(?P<name>.+) × (?P<N>[0-9]+)"@, crafted) {
            Some((name, Some(q))) => Some((name, q)),
            _ => Some((crafted, 1)),
        },
        None => None,
    }
}

/// What one line contributes to an extractor's aggregate: a name and a
/// quantity, or nothing when the line does not match.
pub open spec fn row_of(e: Extractor, line: Seq<char>) -> Option<(Seq<char>, int)> {
    match e {
        Extractor::ItemGet => qty_row(capture_of(r"(?P<name>\[.+]) を (?P<N>\d+)個 取得した！"@, line)),
        Extractor::PartGet => unit_row(capture_of(r"(?P<name>\[.+]) を取得した！"@, line)),
        Extractor::ItemUse => unit_row(capture_of(r"(?P<name>\[.+]) を使用した！"@, line)),
        Extractor::KillSelf => unit_row(capture_of(r"\t(?P<name>[^が]+?)を撃破した"@, line)),
        Extractor::Gacha => unit_row(capture_of(r"\[(?P<name>.+)] が当たりました！"@, line)),
        Extractor::Rare => unit_row(capture_of(r"誰かが \[(?P<name>.+)] をガチャセンターで当てました！"@, line)),
        Extractor::Labo => labo_row(line),
        Extractor::RewardGranted => qty_row(capture_of(r"報酬－ (?P<name>.+) x (?P<N>\d+)"@, line)),
        Extractor::RewardSold => qty_row(capture_of(r"報酬売却－ (?P<name>.+) x (?P<N>\d+)"@, line)),
    }
}

/// The per-line scan of an extractor, as a spec-level function value.
pub open spec fn extractor_rows(e: Extractor) -> spec_fn(Seq<char>) -> Option<(Seq<char>, int)> {
    |l: Seq<char>| row_of(e, l)
}

/// The quantity of a row is nonnegative (true of every row an engine
/// actually derives, since quantities come from digit runs or are one).
pub open spec fn row_qty_nonneg(r: Option<(Seq<char>, int)>) -> bool {
    match r {
        Some((_, q)) => q >= 0,
        None => true,
    }
}

/// Every line's row under `row` has a nonnegative quantity.
pub open spec fn rows_nonneg(
    lines: Seq<Seq<char>>,
    row: spec_fn(Seq<char>) -> Option<(Seq<char>, int)>,
) -> bool {
    forall|j: int| 0 <= j < lines.len() ==> row_qty_nonneg(#[trigger] row(lines[j]))
}

/// What a row contributes to the counter of `name`.
pub open spec fn row_contrib(r: Option<(Seq<char>, int)>, name: Seq<char>) -> int {
    match r {
        Some((n, q)) => if n == name {
            q
        } else {
            0
        },
        None => 0,
    }
}

/// The row matches and names `name`.
pub open spec fn row_names(r: Option<(Seq<char>, int)>, name: Seq<char>) -> bool {
    match r {
        Some((n, _)) => n == name,
        None => false,
    }
}

/// Some line in the range matches and names `name`.
pub open spec fn row_hits(
    lines: Seq<Seq<char>>,
    row: spec_fn(Seq<char>) -> Option<(Seq<char>, int)>,
    name: Seq<char>,
) -> bool {
    exists|j: int| 0 <= j < lines.len() && row_names(#[trigger] row(lines[j]), name)
}

/// The total quantity the range contributes to the counter of `name`.
pub open spec fn row_sum(
    lines: Seq<Seq<char>>,
    row: spec_fn(Seq<char>) -> Option<(Seq<char>, int)>,
    name: Seq<char>,
) -> int
    decreases lines.len(),
{
    if lines.len() == 0 {
        0
    } else {
        row_sum(lines.drop_last(), row, name) + row_contrib(row(lines.last()), name)
    }
}

/// The aggregate of a line range under a per-line scan: one entry per name
/// some line matches, holding the clamped total of its quantities. The
/// definition is per name, so the scan order cannot affect it.
pub open spec fn agg_fn(
    lines: Seq<Seq<char>>,
    row: spec_fn(Seq<char>) -> Option<(Seq<char>, int)>,
) -> Map<Seq<char>, int> {
    Map::new(
        |n: Seq<char>| row_hits(lines, row, n),
        |n: Seq<char>| clamp_i64(row_sum(lines, row, n)),
    )
}

/// The aggregate a fixed extractor derives from a line range.
pub open spec fn agg_of(lines: Seq<Seq<char>>, e: Extractor) -> Map<Seq<char>, int> {
    agg_fn(lines, extractor_rows(e))
}

/// A range whose rows are nonnegative has nonnegative totals.
proof fn lemma_row_sum_nonneg(
    lines: Seq<Seq<char>>,
    row: spec_fn(Seq<char>) -> Option<(Seq<char>, int)>,
    name: Seq<char>,
)
    requires
        rows_nonneg(lines, row),
    ensures
        row_sum(lines, row, name) >= 0,
    decreases lines.len(),
{
    if lines.len() > 0 {
        assert(rows_nonneg(lines.drop_last(), row));
        lemma_row_sum_nonneg(lines.drop_last(), row, name);
        assert(row_qty_nonneg(row(lines[lines.len() - 1])));
    }
}

/// A name no line hits has total zero.
proof fn lemma_row_sum_no_hit(
    lines: Seq<Seq<char>>,
    row: spec_fn(Seq<char>) -> Option<(Seq<char>, int)>,
    name: Seq<char>,
)
    requires
        !row_hits(lines, row, name),
    ensures
        row_sum(lines, row, name) == 0,
    decreases lines.len(),
{
    if lines.len() > 0 {
        assert(!row_hits(lines.drop_last(), row, name)) by {
            if row_hits(lines.drop_last(), row, name) {
                let j = choose|j: int|
                    0 <= j < lines.drop_last().len() && row_names(
                        #[trigger] row(lines.drop_last()[j]),
                        name,
                    );
                assert(lines[j] == lines.drop_last()[j]);
            }
        }
        lemma_row_sum_no_hit(lines.drop_last(), row, name);
        assert(!row_names(row(lines[lines.len() - 1]), name));
    }
}

/// Extending the range by one line turns the aggregate into an upsert of
/// that line's row (or leaves it unchanged when the line does not match).
pub(crate) proof fn lemma_agg_fn_push(
    lines: Seq<Seq<char>>,
    l: Seq<char>,
    row: spec_fn(Seq<char>) -> Option<(Seq<char>, int)>,
)
    requires
        rows_nonneg(lines, row),
        row_qty_nonneg(row(l)),
    ensures
        agg_fn(lines.push(l), row) == (match row(l) {
            Some((n, q)) => upsert(agg_fn(lines, row), n, q),
            None => agg_fn(lines, row),
        }),
{
    let s1 = lines.push(l);
    assert(s1.drop_last() =~= lines);
    assert(s1.last() == l);
    assert forall|n: Seq<char>| #[trigger]
        row_hits(s1, row, n) implies (row_hits(lines, row, n) || row_names(row(l), n)) by {
        let j = choose|j: int| 0 <= j < s1.len() && row_names(#[trigger] row(s1[j]), n);
        if j < lines.len() {
            assert(s1[j] == lines[j]);
        }
    }
    assert forall|n: Seq<char>| row_hits(lines, row, n) implies #[trigger] row_hits(
        s1,
        row,
        n,
    ) by {
        let j = choose|j: int| 0 <= j < lines.len() && row_names(#[trigger] row(lines[j]), n);
        assert(s1[j] == lines[j]);
    }
    match row(l) {
        Some((nm, q)) => {
            assert(row_names(row(s1[s1.len() - 1]), nm));
            assert(row_hits(s1, row, nm));
            let m0 = agg_fn(lines, row);
            let target = upsert(m0, nm, q);
            assert forall|n: Seq<char>| #[trigger]
                agg_fn(s1, row).dom().contains(n) implies target.dom().contains(n)
                && agg_fn(s1, row)[n] == target[n] by {
                if n == nm {
                    let s = row_sum(lines, row, nm);
                    assert(row_sum(s1, row, nm) == s + q);
                    if row_hits(lines, row, nm) {
                        lemma_row_sum_nonneg(lines, row, nm);
                        assert(get_or_zero(m0, nm) == clamp_i64(s));
                        assert(clamp_i64(clamp_i64(s) + q) == clamp_i64(s + q));
                    } else {
                        lemma_row_sum_no_hit(lines, row, nm);
                        assert(get_or_zero(m0, nm) == 0);
                    }
                } else {
                    assert(row_sum(s1, row, n) == row_sum(lines, row, n));
                }
            }
            assert forall|n: Seq<char>| #[trigger]
                target.dom().contains(n) implies agg_fn(s1, row).dom().contains(n) by {}
            assert(agg_fn(s1, row) =~= target);
        },
        None => {
            assert forall|n: Seq<char>| #[trigger]
                agg_fn(s1, row).dom().contains(n) implies agg_fn(lines, row).dom().contains(n)
                && agg_fn(s1, row)[n] == agg_fn(lines, row)[n] by {
                assert(row_sum(s1, row, n) == row_sum(lines, row, n));
            }
            assert(agg_fn(s1, row) =~= agg_fn(lines, row));
        },
    }
}

/// The executable per-line scan of an extractor.
fn row_exec(e: Extractor, line: &str) -> (r: Option<(String, i64)>)
    ensures
        match r {
            Some((name, q)) => row_of(e, line@) == Some((name@, q as int)),
            None => row_of(e, line@) is None,
        },
        row_qty_nonneg(row_of(e, line@)),
{
    match e {
        Extractor::ItemGet => match regex_capture(r"(?P<name>\[.+]) を (?P<N>\d+)個 取得した！", line) {
            Some((name, Some(q))) => Some((name, q)),
            _ => None,
        },
        Extractor::PartGet => match regex_capture(r"(?P<name>\[.+]) を取得した！", line) {
            Some((name, _)) => Some((name, 1)),
            None => None,
        },
        Extractor::ItemUse => match regex_capture(r"(?P<name>\[.+]) を使用した！", line) {
            Some((name, _)) => Some((name, 1)),
            None => None,
        },
        Extractor::KillSelf => match regex_capture(r"\t(?P<name>[^が]+?)を撃破した", line) {
            Some((name, _)) => Some((name, 1)),
            None => None,
        },
        Extractor::Gacha => match regex_capture(r"\[(?P<name>.+)] が当たりました！", line) {
            Some((name, _)) => Some((name, 1)),
            None => None,
        },
        Extractor::Rare => match regex_capture(r"誰かが \[(?P<name>.+)] をガチャセンターで当てました！", line) {
            Some((name, _)) => Some((name, 1)),
            None => None,
        },
        Extractor::Labo => match regex_capture(r"(?P<name>.+) の作成に成功しました。", line) {
            Some((crafted, _)) => match regex_capture(
                r"(?P<name>.+) × (?P<N>[0-9]+)",
                crafted.as_str(),
            ) {
                Some((name, Some(q))) => Some((name, q)),
                _ => Some((crafted, 1)),
            },
            None => None,
        },
        Extractor::RewardGranted => match regex_capture(r"報酬－ (?P<name>.+) x (?P<N>\d+)", line) {
            Some((name, Some(q))) => Some((name, q)),
            _ => None,
        },
        Extractor::RewardSold => match regex_capture(r"報酬売却－ (?P<name>.+) x (?P<N>\d+)", line) {
            Some((name, Some(q))) => Some((name, q)),
            _ => None,
        },
    }
}

/// Scans every line at index `from` or later and accumulates the
/// extractor's rows into a fresh aggregate.
pub(crate) fn run_extractor(texts: &[String], from: usize, e: Extractor) -> (r: NamedAggregate)
    requires
        from <= texts@.len(),
    ensures
        r.wf(),
        r@ == agg_of(views_of(texts@).skip(from as int), e),
{
    let ghost lines = views_of(texts@);
    let ghost row = extractor_rows(e);
    let mut r = NamedAggregate::new();
    let n = texts.len();
    let mut i: usize = from;
    while i < n
        invariant
            from <= i <= n,
            n == texts@.len(),
            lines == views_of(texts@),
            row == extractor_rows(e),
            r.wf(),
            rows_nonneg(lines.subrange(from as int, i as int), row),
            r@ == agg_fn(lines.subrange(from as int, i as int), row),
        decreases n - i,
    {
        let ghost prefix = lines.subrange(from as int, i as int);
        let line_row = row_exec(e, texts[i].as_str());
        proof {
            assert(lines[i as int] == texts@[i as int]@);
            assert(lines.subrange(from as int, i as int + 1) =~= prefix.push(lines[i as int]));
            assert(row(lines[i as int]) == row_of(e, texts@[i as int]@));
            lemma_agg_fn_push(prefix, lines[i as int], row);
        }
        match line_row {
            Some((name, q)) => {
                add_to_table(&mut r, name.as_str(), q);
            },
            None => {},
        }
        i += 1;
    }
    proof {
        assert(lines.subrange(from as int, n as int) =~= lines.skip(from as int));
    }
    r
}

/// Item pickups: `[name] を N個 取得した！` adds `N` to `name`.
pub fn engine_item_get(texts: &[String], from: usize) -> (r: NamedAggregate)
    requires
        from <= texts@.len(),
    ensures
        r.wf(),
        r@ == agg_of(views_of(texts@).skip(from as int), Extractor::ItemGet),
{
    run_extractor(texts, from, Extractor::ItemGet)
}

/// Part pickups: `[name] を取得した！` counts once per line.
pub fn engine_get_part(texts: &[String], from: usize) -> (r: NamedAggregate)
    requires
        from <= texts@.len(),
    ensures
        r.wf(),
        r@ == agg_of(views_of(texts@).skip(from as int), Extractor::PartGet),
{
    run_extractor(texts, from, Extractor::PartGet)
}

/// Item consumption: `[name] を使用した！` counts once per line.
pub fn engine_item_use(texts: &[String], from: usize) -> (r: NamedAggregate)
    requires
        from <= texts@.len(),
    ensures
        r.wf(),
        r@ == agg_of(views_of(texts@).skip(from as int), Extractor::ItemUse),
{
    run_extractor(texts, from, Extractor::ItemUse)
}

/// Own defeats: `name を撃破した` counts once per line.
pub fn engine_kill_self(texts: &[String], from: usize) -> (r: NamedAggregate)
    requires
        from <= texts@.len(),
    ensures
        r.wf(),
        r@ == agg_of(views_of(texts@).skip(from as int), Extractor::KillSelf),
{
    run_extractor(texts, from, Extractor::KillSelf)
}

/// Own lottery wins: `[name] が当たりました！` counts once per line.
pub fn engine_gacha(texts: &[String], from: usize) -> (r: NamedAggregate)
    requires
        from <= texts@.len(),
    ensures
        r.wf(),
        r@ == agg_of(views_of(texts@).skip(from as int), Extractor::Gacha),
{
    run_extractor(texts, from, Extractor::Gacha)
}

/// Rare wins announced for anyone, counted once per line.
pub fn engine_rare(texts: &[String], from: usize) -> (r: NamedAggregate)
    requires
        from <= texts@.len(),
    ensures
        r.wf(),
        r@ == agg_of(views_of(texts@).skip(from as int), Extractor::Rare),
{
    run_extractor(texts, from, Extractor::Rare)
}

/// Crafting successes, with the dual-format quantity rule of
/// [`labo_row`].
pub fn engine_labo(texts: &[String], from: usize) -> (r: NamedAggregate)
    requires
        from <= texts@.len(),
    ensures
        r.wf(),
        r@ == agg_of(views_of(texts@).skip(from as int), Extractor::Labo),
{
    run_extractor(texts, from, Extractor::Labo)
}

/// The reward aggregate of a line range: one entry per name some
/// reward-granted or reward-sold line mentions, pairing the clamped total
/// granted with the clamped total sold.
pub open spec fn reward_agg_of(lines: Seq<Seq<char>>) -> Map<Seq<char>, (int, int)> {
    Map::new(
        |n: Seq<char>|
            row_hits(lines, extractor_rows(Extractor::RewardGranted), n) || row_hits(
                lines,
                extractor_rows(Extractor::RewardSold),
                n,
            ),
        |n: Seq<char>|
            (
                clamp_i64(row_sum(lines, extractor_rows(Extractor::RewardGranted), n)),
                clamp_i64(row_sum(lines, extractor_rows(Extractor::RewardSold), n)),
            ),
    )
}

/// One optional pair update, on the reward side or the sell side.
pub open spec fn apply_pair_row(
    m: Map<Seq<char>, (int, int)>,
    r: Option<(Seq<char>, int)>,
    sell_side: bool,
) -> Map<Seq<char>, (int, int)> {
    match r {
        Some((n, q)) => if sell_side {
            upsert_pair(m, n, 0, q)
        } else {
            upsert_pair(m, n, q, 0)
        },
        None => m,
    }
}

/// Extending the range by one line applies that line's reward row and then
/// its sell row to the pair aggregate.
proof fn lemma_reward_push(lines: Seq<Seq<char>>, l: Seq<char>)
    requires
        rows_nonneg(lines, extractor_rows(Extractor::RewardGranted)),
        rows_nonneg(lines, extractor_rows(Extractor::RewardSold)),
        row_qty_nonneg(row_of(Extractor::RewardGranted, l)),
        row_qty_nonneg(row_of(Extractor::RewardSold, l)),
    ensures
        reward_agg_of(lines.push(l)) == apply_pair_row(
            apply_pair_row(reward_agg_of(lines), row_of(Extractor::RewardGranted, l), false),
            row_of(Extractor::RewardSold, l),
            true,
        ),
{
    let rrow = extractor_rows(Extractor::RewardGranted);
    let srow = extractor_rows(Extractor::RewardSold);
    let s1 = lines.push(l);
    assert(s1.drop_last() =~= lines);
    assert(s1.last() == l);
    let m0 = reward_agg_of(lines);
    let target = apply_pair_row(apply_pair_row(m0, rrow(l), false), srow(l), true);
    assert forall|n: Seq<char>| #[trigger]
        row_hits(s1, rrow, n) implies (row_hits(lines, rrow, n) || row_names(rrow(l), n)) by {
        let j = choose|j: int| 0 <= j < s1.len() && row_names(#[trigger] rrow(s1[j]), n);
        if j < lines.len() {
            assert(s1[j] == lines[j]);
        }
    }
    assert forall|n: Seq<char>| #[trigger]
        row_hits(s1, srow, n) implies (row_hits(lines, srow, n) || row_names(srow(l), n)) by {
        let j = choose|j: int| 0 <= j < s1.len() && row_names(#[trigger] srow(s1[j]), n);
        if j < lines.len() {
            assert(s1[j] == lines[j]);
        }
    }
    assert forall|n: Seq<char>| row_hits(lines, rrow, n) implies #[trigger] row_hits(
        s1,
        rrow,
        n,
    ) by {
        let j = choose|j: int| 0 <= j < lines.len() && row_names(#[trigger] rrow(lines[j]), n);
        assert(s1[j] == lines[j]);
    }
    assert forall|n: Seq<char>| row_hits(lines, srow, n) implies #[trigger] row_hits(
        s1,
        srow,
        n,
    ) by {
        let j = choose|j: int| 0 <= j < lines.len() && row_names(#[trigger] srow(lines[j]), n);
        assert(s1[j] == lines[j]);
    }
    assert forall|n: Seq<char>| #[trigger]
        reward_agg_of(s1).dom().contains(n) implies target.dom().contains(n) && reward_agg_of(
        s1,
    )[n] == target[n] by {
        let sr = row_sum(lines, rrow, n);
        let ss = row_sum(lines, srow, n);
        assert(row_sum(s1, rrow, n) == sr + row_contrib(rrow(l), n));
        assert(row_sum(s1, srow, n) == ss + row_contrib(srow(l), n));
        if row_hits(lines, rrow, n) {
            lemma_row_sum_nonneg(lines, rrow, n);
        } else {
            lemma_row_sum_no_hit(lines, rrow, n);
        }
        if row_hits(lines, srow, n) {
            lemma_row_sum_nonneg(lines, srow, n);
        } else {
            lemma_row_sum_no_hit(lines, srow, n);
        }
        if row_names(rrow(l), n) || row_names(srow(l), n) {
            assert(row_names(rrow(l), n) ==> row_sum(s1, rrow, n) == sr + row_of(
                Extractor::RewardGranted,
                l,
            )->Some_0.1);
        }
    }
    assert forall|n: Seq<char>| #[trigger]
        target.dom().contains(n) implies reward_agg_of(s1).dom().contains(n) by {}
    assert(reward_agg_of(s1) =~= target);
}

/// Dungeon rewards: `報酬－ name x N` adds `N` to the reward side of
/// `name`, and `報酬売却－ name x N` adds `N` to its sell side, over the
/// same line range.
pub fn engine_reward_dungeon(texts: &[String], from: usize) -> (r: RewardAggregate)
    requires
        from <= texts@.len(),
    ensures
        r.wf(),
        r@ == reward_agg_of(views_of(texts@).skip(from as int)),
{
    let ghost lines = views_of(texts@);
    let ghost rrow = extractor_rows(Extractor::RewardGranted);
    let ghost srow = extractor_rows(Extractor::RewardSold);
    let mut r = RewardAggregate::new();
    let n = texts.len();
    let mut i: usize = from;
    while i < n
        invariant
            from <= i <= n,
            n == texts@.len(),
            lines == views_of(texts@),
            rrow == extractor_rows(Extractor::RewardGranted),
            srow == extractor_rows(Extractor::RewardSold),
            r.wf(),
            rows_nonneg(lines.subrange(from as int, i as int), rrow),
            rows_nonneg(lines.subrange(from as int, i as int), srow),
            r@ == reward_agg_of(lines.subrange(from as int, i as int)),
        decreases n - i,
    {
        let ghost prefix = lines.subrange(from as int, i as int);
        let granted = row_exec(Extractor::RewardGranted, texts[i].as_str());
        let sold = row_exec(Extractor::RewardSold, texts[i].as_str());
        proof {
            assert(lines[i as int] == texts@[i as int]@);
            assert(lines.subrange(from as int, i as int + 1) =~= prefix.push(lines[i as int]));
            lemma_reward_push(prefix, lines[i as int]);
        }
        match granted {
            Some((name, q)) => {
                r.add_pair(name.as_str(), q, 0);
            },
            None => {},
        }
        match sold {
            Some((name, q)) => {
                r.add_pair(name.as_str(), 0, q);
            },
            None => {},
        }
        i += 1;
    }
    proof {
        assert(lines.subrange(from as int, n as int) =~= lines.skip(from as int));
    }
    r
}

/// Taking the views of a subrange of texts is taking a subrange of the
/// views.
pub proof fn lemma_views_of_subrange(texts: Seq<String>, a: int, b: int)
    requires
        0 <= a <= b <= texts.len(),
    ensures
        views_of(texts.subrange(a, b)) == views_of(texts).subrange(a, b),
{
    assert(views_of(texts.subrange(a, b)) =~= views_of(texts).subrange(a, b));
}

/// A nonempty range's total splits off its first line's contribution.
proof fn lemma_row_sum_front(
    lines: Seq<Seq<char>>,
    row: spec_fn(Seq<char>) -> Option<(Seq<char>, int)>,
    name: Seq<char>,
)
    requires
        lines.len() > 0,
    ensures
        row_sum(lines, row, name) == row_contrib(row(lines[0]), name) + row_sum(
            lines.drop_first(),
            row,
            name,
        ),
    decreases lines.len(),
{
    if lines.len() == 1 {
        assert(lines.drop_last() =~= Seq::<Seq<char>>::empty());
        assert(lines.drop_first() =~= Seq::<Seq<char>>::empty());
        assert(lines.last() == lines[0]);
    } else {
        lemma_row_sum_front(lines.drop_last(), row, name);
        assert(lines.drop_last().drop_first() =~= lines.drop_first().drop_last());
        assert(lines.drop_first().last() == lines.last());
        assert(lines.drop_last()[0] == lines[0]);
    }
}

/// A range's total is unchanged by reversing the scan order.
proof fn lemma_row_sum_reverse(
    lines: Seq<Seq<char>>,
    row: spec_fn(Seq<char>) -> Option<(Seq<char>, int)>,
    name: Seq<char>,
)
    ensures
        row_sum(lines.reverse(), row, name) == row_sum(lines, row, name),
    decreases lines.len(),
{
    if lines.len() > 0 {
        lemma_row_sum_reverse(lines.drop_first(), row, name);
        assert(lines.reverse().drop_last() =~= lines.drop_first().reverse());
        assert(lines.reverse().last() == lines[0]);
        lemma_row_sum_front(lines, row, name);
    }
}

/// Whether any line names `name` is unchanged by reversing the order.
proof fn lemma_row_hits_reverse(
    lines: Seq<Seq<char>>,
    row: spec_fn(Seq<char>) -> Option<(Seq<char>, int)>,
    name: Seq<char>,
)
    ensures
        row_hits(lines.reverse(), row, name) == row_hits(lines, row, name),
{
    let rev = lines.reverse();
    if row_hits(rev, row, name) {
        let j = choose|j: int| 0 <= j < rev.len() && row_names(#[trigger] row(rev[j]), name);
        assert(rev[j] == lines[lines.len() - 1 - j]);
        assert(row_names(row(lines[lines.len() - 1 - j]), name));
    }
    if row_hits(lines, row, name) {
        let j = choose|j: int| 0 <= j < lines.len() && row_names(#[trigger] row(lines[j]), name);
        assert(rev[lines.len() - 1 - j] == lines[j]);
        assert(row_names(row(rev[lines.len() - 1 - j]), name));
    }
}

/// The aggregate of a range is unchanged by reversing the scan order.
pub(crate) proof fn lemma_agg_fn_reverse(
    lines: Seq<Seq<char>>,
    row: spec_fn(Seq<char>) -> Option<(Seq<char>, int)>,
)
    ensures
        agg_fn(lines.reverse(), row) == agg_fn(lines, row),
{
    assert forall|n: Seq<char>| true implies row_hits(lines.reverse(), row, n) == row_hits(
        lines,
        row,
        n,
    ) && row_sum(lines.reverse(), row, n) == row_sum(lines, row, n) by {
        lemma_row_hits_reverse(lines, row, n);
        lemma_row_sum_reverse(lines, row, n);
    }
    assert(agg_fn(lines.reverse(), row) =~= agg_fn(lines, row));
}

/// Law: scanning a line range in reverse order yields the same aggregate,
/// for every fixed extractor.
pub proof fn lemma_extraction_order_independent(lines: Seq<Seq<char>>, e: Extractor)
    ensures
        agg_of(lines.reverse(), e) == agg_of(lines, e),
{
    lemma_agg_fn_reverse(lines, extractor_rows(e));
}

/// Law: scanning a line range in reverse order yields the same reward
/// pair aggregate.
pub proof fn lemma_reward_order_independent(lines: Seq<Seq<char>>)
    ensures
        reward_agg_of(lines.reverse()) == reward_agg_of(lines),
{
    let rrow = extractor_rows(Extractor::RewardGranted);
    let srow = extractor_rows(Extractor::RewardSold);
    assert forall|n: Seq<char>| true implies row_hits(lines.reverse(), rrow, n) == row_hits(
        lines,
        rrow,
        n,
    ) && row_sum(lines.reverse(), rrow, n) == row_sum(lines, rrow, n) && row_hits(
        lines.reverse(),
        srow,
        n,
    ) == row_hits(lines, srow, n) && row_sum(lines.reverse(), srow, n) == row_sum(
        lines,
        srow,
        n,
    ) by {
        lemma_row_hits_reverse(lines, rrow, n);
        lemma_row_sum_reverse(lines, rrow, n);
        lemma_row_hits_reverse(lines, srow, n);
        lemma_row_sum_reverse(lines, srow, n);
    }
    assert(reward_agg_of(lines.reverse()) =~= reward_agg_of(lines));
}

/// Law: a crafting-success line whose crafted text has no counted suffix
/// contributes that text once (the legacy log format).
pub proof fn lemma_crafting_legacy(line: Seq<char>, crafted: Seq<char>, q: Option<int>)
    requires
        capture_of(r"(?P<name>.+) の作成に成功しました。"@, line) == Some((crafted, q)),
        capture_of(r"(?P<name>.+) × (?P<N>[0-9]+)"@, crafted) is None,
    ensures
        row_of(Extractor::Labo, line) == Some((crafted, 1int)),
{
}

/// Law: a crafting-success line whose crafted text carries an `× N`
/// suffix contributes the bare name with quantity `N` (the newer format).
pub proof fn lemma_crafting_counted(
    line: Seq<char>,
    crafted: Seq<char>,
    q: Option<int>,
    name: Seq<char>,
    n: int,
)
    requires
        capture_of(r"(?P<name>.+) の作成に成功しました。"@, line) == Some((crafted, q)),
        capture_of(r"(?P<name>.+) × (?P<N>[0-9]+)"@, crafted) == Some((name, Some(n))),
    ensures
        row_of(Extractor::Labo, line) == Some((name, n)),
{
}

/// Law: a reward-granted line and a separate reward-sold line for the
/// same name, scanned together, pair the granted quantity with the sold
/// quantity.
pub proof fn lemma_reward_pair_independence(
    l1: Seq<char>,
    l2: Seq<char>,
    y: Seq<char>,
    qr: int,
    qs: int,
)
    requires
        row_of(Extractor::RewardGranted, l1) == Some((y, qr)),
        row_of(Extractor::RewardSold, l1) is None,
        row_of(Extractor::RewardSold, l2) == Some((y, qs)),
        row_of(Extractor::RewardGranted, l2) is None,
        0 <= qr <= i64::MAX,
        0 <= qs <= i64::MAX,
    ensures
        reward_agg_of(seq![l1, l2]) == Map::<Seq<char>, (int, int)>::empty().insert(y, (qr, qs)),
{
    let empty = Seq::<Seq<char>>::empty();
    let rrow = extractor_rows(Extractor::RewardGranted);
    let srow = extractor_rows(Extractor::RewardSold);
    assert(reward_agg_of(empty) =~= Map::<Seq<char>, (int, int)>::empty());
    assert(empty.push(l1) =~= seq![l1]);
    assert(seq![l1].push(l2) =~= seq![l1, l2]);
    lemma_reward_push(empty, l1);
    lemma_reward_push(seq![l1], l2);
    let m1 = reward_agg_of(seq![l1]);
    assert(m1 == upsert_pair(Map::<Seq<char>, (int, int)>::empty(), y, qr, 0));
    assert(m1 == Map::<Seq<char>, (int, int)>::empty().insert(y, (qr, 0)));
    let m2 = reward_agg_of(seq![l1, l2]);
    assert(m2 == upsert_pair(m1, y, 0, qs));
    assert(m2 =~= Map::<Seq<char>, (int, int)>::empty().insert(y, (qr, qs)));
}

/// The marker occurs in `s` starting at character position `i`.
pub open spec fn contains_at(s: Seq<char>, m: Seq<char>, i: int) -> bool {
    0 <= i && i + m.len() <= s.len() && s.subrange(i, i + m.len()) == m
}

/// The marker occurs somewhere in `s`.
pub open spec fn has_marker(s: Seq<char>, m: Seq<char>) -> bool {
    exists|i: int| contains_at(s, m, i)
}

/// Substring search: whether `marker` occurs in `text`.
fn contains_marker(text: &str, marker: &str) -> (r: bool)
    ensures
        r == has_marker(text@, marker@),
{
    let tl = text.unicode_len();
    let ml = marker.unicode_len();
    if ml > tl {
        proof {
            assert(!has_marker(text@, marker@)) by {
                if has_marker(text@, marker@) {
                    let i = choose|i: int| contains_at(text@, marker@, i);
                }
            }
        }
        return false;
    }
    if ml == 0 {
        proof {
            assert(text@.subrange(0, 0) =~= marker@);
            assert(contains_at(text@, marker@, 0));
        }
        return true;
    }
    let mut i: usize = 0;
    while i <= tl - ml
        invariant
            1 <= ml <= tl,
            tl == text@.len(),
            ml == marker@.len(),
            i <= tl - ml + 1,
            forall|k: int| 0 <= k < i ==> !contains_at(text@, marker@, k),
        decreases tl - ml - i + 1,
    {
        let mut j: usize = 0;
        let mut matched = true;
        while matched && j < ml
            invariant
                ml <= tl,
                tl == text@.len(),
                ml == marker@.len(),
                i + ml <= tl,
                j <= ml,
                matched ==> forall|k: int| 0 <= k < j ==> text@[i + k] == marker@[k],
                !matched ==> !contains_at(text@, marker@, i as int),
            decreases ml - j + (if matched { 1int } else { 0int }),
        {
            if text.get_char(i + j) == marker.get_char(j) {
                j += 1;
            } else {
                proof {
                    assert(!contains_at(text@, marker@, i as int)) by {
                        if contains_at(text@, marker@, i as int) {
                            assert(text@.subrange(i as int, i + ml)[j as int] == marker@[j as int]);
                        }
                    }
                }
                matched = false;
            }
        }
        if matched {
            proof {
                assert(text@.subrange(i as int, i + ml) =~= marker@);
                assert(contains_at(text@, marker@, i as int));
            }
            return true;
        }
        i += 1;
    }
    proof {
        assert(!has_marker(text@, marker@)) by {
            if has_marker(text@, marker@) {
                let k = choose|k: int| contains_at(text@, marker@, k);
                assert(0 <= k < i);
            }
        }
    }
    false
}

/// The first line at index `from` or later whose text contains the marker.
pub open spec fn first_match_from(lines: Seq<Seq<char>>, from: int, m: Seq<char>) -> Option<int>
    decreases lines.len() - from,
{
    if from < 0 || from >= lines.len() {
        None
    } else if has_marker(lines[from], m) {
        Some(from)
    } else {
        first_match_from(lines, from + 1, m)
    }
}

/// The last line at index `from` or later whose text contains the marker.
pub open spec fn last_match_from(lines: Seq<Seq<char>>, from: int, m: Seq<char>) -> Option<int>
    decreases lines.len() - from,
{
    if from < 0 || from >= lines.len() {
        None
    } else {
        match last_match_from(lines, from + 1, m) {
            Some(i) => Some(i),
            None => if has_marker(lines[from], m) {
                Some(from)
            } else {
                None
            },
        }
    }
}

/// Forward scan for the first line containing `marker`; an out-of-range
/// start yields "not found".
fn search_first_marker(texts: &[String], from: usize, marker: &str) -> (r: Option<usize>)
    ensures
        match r {
            Some(u) => first_match_from(views_of(texts@), from as int, marker@) == Some(u as int),
            None => first_match_from(views_of(texts@), from as int, marker@) is None,
        },
{
    let ghost lines = views_of(texts@);
    let n = texts.len();
    if from >= n {
        return None;
    }
    let mut i: usize = from;
    while i < n
        invariant
            from <= i <= n,
            n == texts@.len(),
            lines == views_of(texts@),
            first_match_from(lines, from as int, marker@) == first_match_from(
                lines,
                i as int,
                marker@,
            ),
        decreases n - i,
    {
        if contains_marker(texts[i].as_str(), marker) {
            proof {
                assert(lines[i as int] == texts@[i as int]@);
            }
            return Some(i);
        }
        proof {
            assert(lines[i as int] == texts@[i as int]@);
        }
        i += 1;
    }
    None
}

/// Forward scan remembering the last line containing `marker`; an
/// out-of-range start yields "not found".
fn search_last_marker(texts: &[String], from: usize, marker: &str) -> (r: Option<usize>)
    ensures
        match r {
            Some(u) => last_match_from(views_of(texts@), from as int, marker@) == Some(u as int),
            None => last_match_from(views_of(texts@), from as int, marker@) is None,
        },
{
    let ghost lines = views_of(texts@);
    let n = texts.len();
    if from >= n {
        return None;
    }
    let mut best: Option<usize> = None;
    let mut i: usize = from;
    while i < n
        invariant
            from <= i <= n,
            n == texts@.len(),
            lines == views_of(texts@),
            last_match_from(lines, from as int, marker@) == (match last_match_from(
                lines,
                i as int,
                marker@,
            ) {
                Some(k) => Some(k),
                None => (match best {
                    Some(b) => Some(b as int),
                    None => None,
                }),
            }),
        decreases n - i,
    {
        proof {
            assert(lines[i as int] == texts@[i as int]@);
        }
        if contains_marker(texts[i].as_str(), marker) {
            best = Some(i);
        }
        i += 1;
    }
    best
}

/// The floor-gate activation marker: last matching line at or after
/// `search_from` (one-shot external queries; the tracker itself scans
/// forward with [`search_floor_first`]).
pub fn search_floor(texts: &[String], search_from: usize) -> (r: Option<usize>)
    ensures
        match r {
            Some(u) => last_match_from(views_of(texts@), search_from as int, "がフロアゲートを起動した！"@)
                == Some(u as int),
            None => last_match_from(views_of(texts@), search_from as int, "がフロアゲートを起動した！"@) is None,
        },
{
    search_last_marker(texts, search_from, "がフロアゲートを起動した！")
}

/// The floor-gate activation marker: first matching line at or after
/// `search_from`.
pub fn search_floor_first(texts: &[String], search_from: usize) -> (r: Option<usize>)
    ensures
        match r {
            Some(u) => first_match_from(views_of(texts@), search_from as int, "がフロアゲートを起動した！"@)
                == Some(u as int),
            None => first_match_from(views_of(texts@), search_from as int, "がフロアゲートを起動した！"@) is None,
        },
{
    search_first_marker(texts, search_from, "がフロアゲートを起動した！")
}

/// The dungeon-clear marker: first matching line at or after `search_from`.
pub fn search_dungeon_clear(texts: &[String], search_from: usize) -> (r: Option<usize>)
    ensures
        match r {
            Some(u) => first_match_from(views_of(texts@), search_from as int, "ダンジョン成功報酬"@) == Some(
                u as int,
            ),
            None => first_match_from(views_of(texts@), search_from as int, "ダンジョン成功報酬"@) is None,
        },
{
    search_first_marker(texts, search_from, "ダンジョン成功報酬")
}

/// The reward-start marker: first matching line at or after `search_from`.
pub fn search_reward_first(texts: &[String], search_from: usize) -> (r: Option<usize>)
    ensures
        match r {
            Some(u) => first_match_from(views_of(texts@), search_from as int, "報酬－"@) == Some(
                u as int,
            ),
            None => first_match_from(views_of(texts@), search_from as int, "報酬－"@) is None,
        },
{
    search_first_marker(texts, search_from, "報酬－")
}

/// The reward-sell-start marker: first matching line at or after
/// `search_from`.
pub fn search_reward_sell_first(texts: &[String], search_from: usize) -> (r: Option<usize>)
    ensures
        match r {
            Some(u) => first_match_from(views_of(texts@), search_from as int, "報酬売却－"@) == Some(
                u as int,
            ),
            None => first_match_from(views_of(texts@), search_from as int, "報酬売却－"@) is None,
        },
{
    search_first_marker(texts, search_from, "報酬売却－")
}

/// The sell-total marker: first matching line at or after `search_from`.
pub fn search_sell_total_first(texts: &[String], search_from: usize) -> (r: Option<usize>)
    ensures
        match r {
            Some(u) => first_match_from(views_of(texts@), search_from as int, "報酬売却計"@) == Some(
                u as int,
            ),
            None => first_match_from(views_of(texts@), search_from as int, "報酬売却計"@) is None,
        },
{
    search_first_marker(texts, search_from, "報酬売却計")
}

} // verus!
