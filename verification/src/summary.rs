use vstd::prelude::*;

use crate::change::{
    change_view, classification, classify_change, compact_view, format_change,
    format_compact_change, ChangeClassification, ChangeKind, ChangeThresholds,
};
use crate::level::ZERO_POSITION;
use crate::model::BenchEntry;

verus! {

/// A benchmark change shown in the summary.
#[derive(Clone, Debug)]
pub struct SummaryEntry {
    pub id: String,
    pub change: String,
    pub headline_change: String,
}

/// Summary information for the top improvements and regressions.
#[derive(Clone, Debug)]
pub struct SummaryInfo {
    pub gains: Vec<SummaryEntry>,
    pub regressions: Vec<SummaryEntry>,
    pub compared_count: usize,
    pub enabled: bool,
}

/// The entry has a change with a usable ratio.
pub open spec fn is_compared(e: BenchEntry, t: ChangeThresholds) -> bool {
    match e.change {
        Some(c) => classification(c, t) is Valid,
        None => false,
    }
}

/// The entry belongs to the gains (an improvement or a strong improvement) when
/// `gains` holds, to the regressions otherwise.
pub open spec fn in_category(e: BenchEntry, t: ChangeThresholds, gains: bool) -> bool {
    match e.change {
        Some(c) => match classification(c, t) {
            ChangeClassification::Valid { kind, .. } => if gains {
                kind == ChangeKind::Improvement || kind == ChangeKind::StrongImprovement
            } else {
                kind == ChangeKind::Regression
            },
            ChangeClassification::Invalid => false,
        },
        None => false,
    }
}

/// The number of entries among the first `n` with a usable change.
pub open spec fn compared_count(es: Seq<BenchEntry>, t: ChangeThresholds, n: nat) -> nat
    decreases n,
{
    if n == 0 {
        0
    } else {
        compared_count(es, t, (n - 1) as nat) + if is_compared(es[n - 1], t) {
            1nat
        } else {
            0nat
        }
    }
}

/// The quantity an entry is ranked by: its relative change.
pub open spec fn rank_key(e: BenchEntry) -> u64 {
    e.change.unwrap().point_estimate.position
}

/// A key `k` goes ahead of `other`: the smaller change first among gains (the
/// largest improvement), the larger first among regressions.
pub open spec fn ahead(k: u64, other: u64, gains: bool) -> bool {
    if gains {
        k < other
    } else {
        k > other
    }
}

/// Where an entry with key `k` joins `order`: before the first entry it goes ahead of,
/// so that entries with equal keys keep the order in which they were found.
pub open spec fn insertion_point(order: Seq<usize>, es: Seq<BenchEntry>, k: u64, gains: bool) -> nat
    decreases order.len(),
{
    if order.len() == 0 {
        0
    } else if ahead(k, rank_key(es[order[0] as int]), gains) {
        0
    } else {
        1 + insertion_point(order.drop_first(), es, k, gains)
    }
}

/// The indices of the first `n` entries of the category, ranked.
pub open spec fn ranking(es: Seq<BenchEntry>, t: ChangeThresholds, gains: bool, n: nat) -> Seq<
    usize,
>
    decreases n,
{
    if n == 0 {
        Seq::empty()
    } else {
        let prev = ranking(es, t, gains, (n - 1) as nat);
        if in_category(es[n - 1], t, gains) {
            prev.insert(
                insertion_point(prev, es, rank_key(es[n - 1]), gains) as int,
                (n - 1) as usize,
            )
        } else {
            prev
        }
    }
}

/// The first `limit` indices of `order`.
pub open spec fn top(order: Seq<usize>, limit: nat) -> Seq<usize> {
    if order.len() <= limit {
        order
    } else {
        order.take(limit as int)
    }
}

/// What a summary line says: the benchmark id, its change text, and its headline text.
pub struct SummaryLine {
    pub id: Seq<char>,
    pub change: Seq<char>,
    pub headline_change: Seq<char>,
}

/// What a summary says.
pub struct SummaryModel {
    pub gains: Seq<SummaryLine>,
    pub regressions: Seq<SummaryLine>,
    pub compared_count: nat,
    pub enabled: bool,
}

impl View for SummaryEntry {
    type V = SummaryLine;

    open spec fn view(&self) -> SummaryLine {
        SummaryLine { id: self.id@, change: self.change@, headline_change: self.headline_change@ }
    }
}

impl View for SummaryInfo {
    type V = SummaryModel;

    open spec fn view(&self) -> SummaryModel {
        SummaryModel {
            gains: self.gains@.map_values(|e: SummaryEntry| e@),
            regressions: self.regressions@.map_values(|e: SummaryEntry| e@),
            compared_count: self.compared_count as nat,
            enabled: self.enabled,
        }
    }
}

/// The summary line of an entry with a change.
pub open spec fn line_of(e: BenchEntry, t: ChangeThresholds) -> SummaryLine {
    SummaryLine {
        id: e.full_id@,
        change: change_view(e.change, t),
        headline_change: compact_view(e.change.unwrap(), t),
    }
}

/// The summary lines of the entries at `order`, in that order.
pub open spec fn lines_of(es: Seq<BenchEntry>, order: Seq<usize>, t: ChangeThresholds) -> Seq<
    SummaryLine,
> {
    order.map_values(|i: usize| line_of(es[i as int], t))
}

/// The summary of the entries: the number with a usable change, and the first
/// `limit` gains and regressions in rank order; a limit of 0 disables it.
pub open spec fn summary_model(es: Seq<BenchEntry>, t: ChangeThresholds, limit: nat) -> SummaryModel {
    SummaryModel {
        gains: lines_of(es, top(ranking(es, t, true, es.len()), limit), t),
        regressions: lines_of(es, top(ranking(es, t, false, es.len()), limit), t),
        compared_count: compared_count(es, t, es.len()),
        enabled: limit > 0,
    }
}

/// The headline text of a summary, if any.
pub open spec fn headline_view(m: SummaryModel) -> Option<Seq<char>> {
    if !m.enabled {
        None
    } else if m.regressions.len() > 0 && m.gains.len() > 0 {
        Some(m.regressions[0].headline_change + " | "@ + m.gains[0].headline_change)
    } else if m.regressions.len() > 0 {
        Some(m.regressions[0].headline_change)
    } else if m.gains.len() > 0 {
        Some(m.gains[0].headline_change)
    } else if m.compared_count > 0 {
        Some("➖ stable"@)
    } else {
        None
    }
}

/// The summary lines of `list`, one per entry.
pub open spec fn lines_view(list: Seq<SummaryLine>) -> Seq<char>
    decreases list.len(),
{
    if list.len() == 0 {
        Seq::empty()
    } else {
        lines_view(list.drop_last()) + "- `"@ + list.last().id + "` — "@ + list.last().change
            + "\n"@
    }
}

/// A section with its heading, or nothing when `list` is empty.
pub open spec fn section_view(heading: Seq<char>, list: Seq<SummaryLine>) -> Seq<char> {
    if list.len() == 0 {
        Seq::empty()
    } else {
        heading + lines_view(list) + "\n"@
    }
}

/// The summary section of the report.
pub open spec fn summary_view(m: SummaryModel) -> Seq<char> {
    if !m.enabled {
        Seq::empty()
    } else if m.gains.len() == 0 && m.regressions.len() == 0 {
        if m.compared_count > 0 {
            "No benchmark improved or regressed.\n"@ + "\n"@
        } else {
            Seq::empty()
        }
    } else {
        section_view("## Top improvements\n\n"@, m.gains) + section_view(
            "## Top regressions\n\n"@,
            m.regressions,
        )
    }
}

impl SummaryInfo {
    /// The headline shown next to a collapsed report's title.
    pub fn headline(&self) -> (h: Option<String>)
        ensures
            match h {
                Some(s) => headline_view(self@) == Some(s@),
                None => headline_view(self@) is None,
            },
    {
        if !self.enabled {
            return None;
        }
        if self.regressions.len() > 0 && self.gains.len() > 0 {
            let mut s = self.regressions[0].headline_change.clone();
            s.append(" | ");
            s.append(self.gains[0].headline_change.as_str());
            Some(s)
        } else if self.regressions.len() > 0 {
            Some(self.regressions[0].headline_change.clone())
        } else if self.gains.len() > 0 {
            Some(self.gains[0].headline_change.clone())
        } else if self.compared_count > 0 {
            Some(String::from_str("➖ stable"))
        } else {
            None
        }
    }
}

fn write_lines(out: &mut String, list: &Vec<SummaryEntry>)
    ensures
        final(out)@ == old(out)@ + lines_view(list@.map_values(|e: SummaryEntry| e@)),
{
    let n = list.len();
    let ghost start = out@;
    let ghost lv = list@.map_values(|e: SummaryEntry| e@);
    for j in 0..n
        invariant
            n == list@.len(),
            lv == list@.map_values(|e: SummaryEntry| e@),
            out@ == start + lines_view(lv.take(j as int)),
    {
        let ghost before = out@;
        out.append("- `");
        out.append(list[j].id.as_str());
        out.append("` — ");
        out.append(list[j].change.as_str());
        out.append("\n");
        assert(lv.take(j + 1).drop_last() =~= lv.take(j as int));
        assert(out@ =~= start + lines_view(lv.take(j + 1)));
    }
    assert(lv.take(n as int) =~= lv);
}

/// Writes a summary section with the top improvements and regressions.
pub fn write_summary(out: &mut String, info: &SummaryInfo)
    ensures
        final(out)@ == old(out)@ + summary_view(info@),
{
    if !info.enabled {
        assert(final(out)@ =~= old(out)@ + summary_view(info@));
        return;
    }
    if info.gains.len() == 0 && info.regressions.len() == 0 {
        if info.compared_count > 0 {
            out.append("No benchmark improved or regressed.\n");
            out.append("\n");
        }
        assert(out@ =~= old(out)@ + summary_view(info@));
        return;
    }
    let ghost start = out@;
    if info.gains.len() > 0 {
        out.append("## Top improvements\n\n");
        write_lines(out, &info.gains);
        out.append("\n");
    }
    assert(out@ =~= start + section_view("## Top improvements\n\n"@, info@.gains));
    let ghost middle = out@;
    if info.regressions.len() > 0 {
        out.append("## Top regressions\n\n");
        write_lines(out, &info.regressions);
        out.append("\n");
    }
    assert(out@ =~= middle + section_view("## Top regressions\n\n"@, info@.regressions));
    assert(out@ =~= old(out)@ + summary_view(info@));
}

fn in_category_exec(e: &BenchEntry, thresholds: ChangeThresholds, gains: bool) -> (b: bool)
    ensures
        b == in_category(*e, thresholds, gains),
{
    match &e.change {
        None => false,
        Some(c) => match classify_change(c, thresholds) {
            ChangeClassification::Valid { kind, .. } => if gains {
                kind == ChangeKind::Improvement || kind == ChangeKind::StrongImprovement
            } else {
                kind == ChangeKind::Regression
            },
            ChangeClassification::Invalid => false,
        },
    }
}

fn goes_ahead(k: u64, other: u64, gains: bool) -> (b: bool)
    ensures
        b == ahead(k, other, gains),
{
    if gains {
        k < other
    } else {
        k > other
    }
}

fn key_of(e: &BenchEntry) -> (k: u64)
    requires
        e.change is Some,
    ensures
        k == rank_key(*e),
{
    match &e.change {
        Some(c) => c.point_estimate.position,
        None => 0,
    }
}

/// The category's entries ranked: gains by increasing relative change (the largest
/// improvement first), regressions by decreasing relative change (the largest
/// regression first); equal changes in the order the entries come.
fn rank_entries(entries: &Vec<BenchEntry>, thresholds: ChangeThresholds, gains: bool) -> (order:
    Vec<usize>)
    ensures
        order@ == ranking(entries@, thresholds, gains, entries@.len()),
        forall|q: int|
            0 <= q < order@.len() ==> #[trigger] order@[q] < entries@.len() && in_category(
                entries@[order@[q] as int],
                thresholds,
                gains,
            ),
{
    let n = entries.len();
    let mut order: Vec<usize> = Vec::new();
    for i in 0..n
        invariant
            n == entries@.len(),
            order@ == ranking(entries@, thresholds, gains, i as nat),
            forall|q: int|
                0 <= q < order@.len() ==> #[trigger] order@[q] < i && in_category(
                    entries@[order@[q] as int],
                    thresholds,
                    gains,
                ),
    {
        if in_category_exec(&entries[i], thresholds, gains) {
            let k = key_of(&entries[i]);
            let mut p: usize = 0;
            assert(order@.skip(0) =~= order@);
            while p < order.len() && !goes_ahead(k, key_of(&entries[order[p]]), gains)
                invariant
                    n == entries@.len(),
                    i < n,
                    p <= order@.len(),
                    forall|q: int|
                        0 <= q < order@.len() ==> #[trigger] order@[q] < i && in_category(
                            entries@[order@[q] as int],
                            thresholds,
                            gains,
                        ),
                    insertion_point(order@, entries@, k, gains) == p + insertion_point(
                        order@.skip(p as int),
                        entries@,
                        k,
                        gains,
                    ),
                decreases order@.len() - p,
            {
                assert(order@.skip(p as int).drop_first() =~= order@.skip(p + 1));
                p = p + 1;
            }
            let ghost prev = order@;
            order.insert(p, i);
            proof {
                prev.insert_ensures(p as int, i);
                assert forall|q: int| 0 <= q < order@.len() implies #[trigger] order@[q] < i + 1
                    && in_category(entries@[order@[q] as int], thresholds, gains) by {
                    if q > p {
                        assert(order@[q] == prev[q - 1]);
                    }
                }
            }
        }
    }
    order
}

fn describe(e: &BenchEntry, thresholds: ChangeThresholds) -> (s: SummaryEntry)
    requires
        e.change is Some,
    ensures
        s@ == line_of(*e, thresholds),
{
    let headline_change = match &e.change {
        Some(c) => format_compact_change(c, thresholds),
        None => String::new(),
    };
    SummaryEntry {
        id: e.full_id.clone(),
        change: format_change(&e.change, thresholds),
        headline_change,
    }
}

fn describe_top(
    entries: &Vec<BenchEntry>,
    order: &Vec<usize>,
    thresholds: ChangeThresholds,
    gains: bool,
    limit: usize,
) -> (list: Vec<SummaryEntry>)
    requires
        forall|q: int|
            0 <= q < order@.len() ==> #[trigger] order@[q] < entries@.len() && in_category(
                entries@[order@[q] as int],
                thresholds,
                gains,
            ),
    ensures
        list@.map_values(|e: SummaryEntry| e@) == lines_of(entries@, top(order@, limit as nat), thresholds),
{
    let m = if order.len() <= limit {
        order.len()
    } else {
        limit
    };
    let mut list: Vec<SummaryEntry> = Vec::new();
    for j in 0..m
        invariant
            m <= order@.len(),
            m == top(order@, limit as nat).len(),
            forall|q: int|
                0 <= q < order@.len() ==> #[trigger] order@[q] < entries@.len() && in_category(
                    entries@[order@[q] as int],
                    thresholds,
                    gains,
                ),
            list@.len() == j,
            forall|q: int|
                0 <= q < j ==> (#[trigger] list@[q])@ == line_of(entries@[order@[q] as int], thresholds),
    {
        let idx = order[j];
        assert(order@[j as int] < entries@.len());
        let e = &entries[idx];
        proof {
            assert(in_category(entries@[order@[j as int] as int], thresholds, gains));
        }
        list.push(describe(e, thresholds));
    }
    proof {
        let t = top(order@, limit as nat);
        let mapped = list@.map_values(|e: SummaryEntry| e@);
        assert forall|q: int| 0 <= q < t.len() implies #[trigger] mapped[q] == lines_of(
            entries@,
            t,
            thresholds,
        )[q] by {
            assert(t[q] == order@[q]);
        }
        assert(mapped =~= lines_of(entries@, t, thresholds));
    }
    list
}

/// Computes the top improvements and regressions across all entries.
pub fn compute_summary(entries: &Vec<BenchEntry>, thresholds: ChangeThresholds, limit: usize) -> (info:
    SummaryInfo)
    ensures
        info@ == summary_model(entries@, thresholds, limit as nat),
{
    let n = entries.len();
    let mut count: usize = 0;
    for i in 0..n
        invariant
            n == entries@.len(),
            count == compared_count(entries@, thresholds, i as nat),
            count <= i,
    {
        let compared = match &entries[i].change {
            Some(c) => match classify_change(c, thresholds) {
                ChangeClassification::Valid { .. } => true,
                ChangeClassification::Invalid => false,
            },
            None => false,
        };
        if compared {
            count = count + 1;
        }
    }
    let gain_order = rank_entries(entries, thresholds, true);
    let regression_order = rank_entries(entries, thresholds, false);
    let info = SummaryInfo {
        gains: describe_top(entries, &gain_order, thresholds, true, limit),
        regressions: describe_top(entries, &regression_order, thresholds, false, limit),
        compared_count: count,
        enabled: limit > 0,
    };
    assert(info@ =~= summary_model(entries@, thresholds, limit as nat));
    info
}

} // verus!

verus! {

/// Entry `i` is ranked before entry `j`: its key goes ahead, or the keys are equal
/// and `i` comes first.
pub open spec fn ranked_before(es: Seq<BenchEntry>, i: usize, j: usize, gains: bool) -> bool {
    ||| ahead(rank_key(es[i as int]), rank_key(es[j as int]), gains)
    ||| (rank_key(es[i as int]) == rank_key(es[j as int]) && i < j)
}

/// An entry with key `k` goes after every entry before the insertion point, and
/// ahead of the one at it.
proof fn lemma_insertion_point(order: Seq<usize>, es: Seq<BenchEntry>, k: u64, gains: bool)
    ensures
        insertion_point(order, es, k, gains) <= order.len(),
        forall|q: int|
            0 <= q < insertion_point(order, es, k, gains) ==> !ahead(
                k,
                rank_key(es[#[trigger] order[q] as int]),
                gains,
            ),
        insertion_point(order, es, k, gains) < order.len() ==> ahead(
            k,
            rank_key(es[order[insertion_point(order, es, k, gains) as int] as int]),
            gains,
        ),
    decreases order.len(),
{
    if order.len() > 0 && !ahead(k, rank_key(es[order[0] as int]), gains) {
        lemma_insertion_point(order.drop_first(), es, k, gains);
        let p = insertion_point(order, es, k, gains);
        assert forall|q: int| 0 <= q < p implies !ahead(
            k,
            rank_key(es[#[trigger] order[q] as int]),
            gains,
        ) by {
            if q > 0 {
                assert(order[q] == order.drop_first()[q - 1]);
            }
        }
    }
}

/// What inserting `x` at `p` does to membership and distinctness.
proof fn lemma_insert_keeps(prev: Seq<usize>, p: int, x: usize)
    requires
        0 <= p <= prev.len(),
    ensures
        forall|q: int|
            0 <= q < prev.insert(p, x).len() ==> #[trigger] prev.insert(p, x)[q] == x || prev.contains(
                prev.insert(p, x)[q],
            ),
        forall|y: usize| prev.contains(y) ==> #[trigger] prev.insert(p, x).contains(y),
        prev.insert(p, x).contains(x),
        !prev.contains(x) && (forall|a: int, b: int|
            0 <= a < b < prev.len() ==> prev[a] != prev[b]) ==> forall|a: int, b: int|
            0 <= a < b < prev.insert(p, x).len() ==> prev.insert(p, x)[a] != prev.insert(p, x)[b],
{
    let cur = prev.insert(p, x);
    prev.insert_ensures(p, x);
    assert(cur[p] == x);
    assert forall|q: int| 0 <= q < cur.len() implies #[trigger] cur[q] == x || prev.contains(cur[q]) by {
        if q < p {
            assert(prev[q] == cur[q]);
        } else if q > p {
            assert(prev[q - 1] == cur[q]);
        }
    }
    assert forall|y: usize| prev.contains(y) implies #[trigger] cur.contains(y) by {
        let q = choose|q: int| 0 <= q < prev.len() && prev[q] == y;
        if q < p {
            assert(cur[q] == y);
        } else {
            assert(cur[q + 1] == y);
        }
    }
    if !prev.contains(x) && (forall|a: int, b: int| 0 <= a < b < prev.len() ==> prev[a] != prev[b]) {
        assert forall|a: int, b: int| 0 <= a < b < cur.len() implies cur[a] != cur[b] by {
            if a == p {
                assert(prev.contains(cur[b]));
            } else if b == p {
                assert(prev.contains(cur[a]));
            } else {
                let pa = if a < p {
                    a
                } else {
                    a - 1
                };
                let pb = if b < p {
                    b
                } else {
                    b - 1
                };
                assert(cur[a] == prev[pa] && cur[b] == prev[pb]);
            }
        }
    }
}

/// The indices in the ranking are below `n` and belong to the category.
proof fn lemma_ranking_bounds(es: Seq<BenchEntry>, t: ChangeThresholds, gains: bool, n: nat)
    requires
        n <= es.len() <= usize::MAX,
    ensures
        forall|q: int|
            0 <= q < ranking(es, t, gains, n).len() ==> #[trigger] ranking(es, t, gains, n)[q] < n
                && in_category(es[ranking(es, t, gains, n)[q] as int], t, gains),
    decreases n,
{
    if n > 0 {
        let m = (n - 1) as nat;
        lemma_ranking_bounds(es, t, gains, m);
        let prev = ranking(es, t, gains, m);
        if in_category(es[m as int], t, gains) {
            let k = rank_key(es[m as int]);
            lemma_insertion_point(prev, es, k, gains);
            let p = insertion_point(prev, es, k, gains) as int;
            lemma_insert_keeps(prev, p, m as usize);
            let cur = ranking(es, t, gains, n);
            assert(cur == prev.insert(p, m as usize));
            assert forall|q: int| 0 <= q < cur.len() implies #[trigger] cur[q] < n && in_category(
                es[cur[q] as int],
                t,
                gains,
            ) by {
                if cur[q] != m as usize {
                    let r = choose|r: int| 0 <= r < prev.len() && prev[r] == cur[q];
                    assert(prev[r] < m);
                }
            }
        }
    }
}

/// The ranking holds every member of the category among the first `n` entries, each
/// once.
proof fn lemma_ranking_complete(es: Seq<BenchEntry>, t: ChangeThresholds, gains: bool, n: nat)
    requires
        n <= es.len() <= usize::MAX,
    ensures
        forall|i: int|
            0 <= i < n && in_category(#[trigger] es[i], t, gains) ==> ranking(
                es,
                t,
                gains,
                n,
            ).contains(i as usize),
        forall|a: int, b: int|
            0 <= a < b < ranking(es, t, gains, n).len() ==> ranking(es, t, gains, n)[a]
                != ranking(es, t, gains, n)[b],
    decreases n,
{
    if n > 0 {
        let m = (n - 1) as nat;
        lemma_ranking_complete(es, t, gains, m);
        lemma_ranking_bounds(es, t, gains, m);
        let prev = ranking(es, t, gains, m);
        if in_category(es[m as int], t, gains) {
            let k = rank_key(es[m as int]);
            lemma_insertion_point(prev, es, k, gains);
            let p = insertion_point(prev, es, k, gains) as int;
            if prev.contains(m as usize) {
                let r = choose|r: int| 0 <= r < prev.len() && prev[r] == m as usize;
                assert(prev[r] < m);
            }
            lemma_insert_keeps(prev, p, m as usize);
            let cur = ranking(es, t, gains, n);
            assert(cur == prev.insert(p, m as usize));
            assert forall|i: int| 0 <= i < n && in_category(#[trigger] es[i], t, gains) implies cur.contains(
                i as usize,
            ) by {
                if i < m {
                    assert(prev.contains(i as usize));
                }
            }
        }
    }
}

/// The ranking of a category holds exactly its members among the first `n`
/// entries, each once.
pub proof fn lemma_ranking_members(es: Seq<BenchEntry>, t: ChangeThresholds, gains: bool, n: nat)
    requires
        n <= es.len() <= usize::MAX,
    ensures
        forall|q: int|
            0 <= q < ranking(es, t, gains, n).len() ==> #[trigger] ranking(es, t, gains, n)[q] < n
                && in_category(es[ranking(es, t, gains, n)[q] as int], t, gains),
        forall|i: int|
            0 <= i < n && in_category(#[trigger] es[i], t, gains) ==> ranking(
                es,
                t,
                gains,
                n,
            ).contains(i as usize),
        forall|a: int, b: int|
            0 <= a < b < ranking(es, t, gains, n).len() ==> ranking(es, t, gains, n)[a]
                != ranking(es, t, gains, n)[b],
{
    lemma_ranking_bounds(es, t, gains, n);
    lemma_ranking_complete(es, t, gains, n);
}

/// The ranking of a category is in rank order: by key (ascending for gains,
/// descending for regressions), equal keys in the order the entries come.
pub proof fn lemma_ranking_sorted(es: Seq<BenchEntry>, t: ChangeThresholds, gains: bool, n: nat)
    requires
        n <= es.len() <= usize::MAX,
    ensures
        forall|a: int, b: int|
            0 <= a < b < ranking(es, t, gains, n).len() ==> ranked_before(
                es,
                #[trigger] ranking(es, t, gains, n)[a],
                #[trigger] ranking(es, t, gains, n)[b],
                gains,
            ),
    decreases n,
{
    if n > 0 {
        let m = (n - 1) as nat;
        lemma_ranking_sorted(es, t, gains, m);
        lemma_ranking_members(es, t, gains, m);
        let prev = ranking(es, t, gains, m);
        if in_category(es[m as int], t, gains) {
            let k = rank_key(es[m as int]);
            lemma_insertion_point(prev, es, k, gains);
            let p = insertion_point(prev, es, k, gains) as int;
            prev.insert_ensures(p, m as usize);
            let cur = ranking(es, t, gains, n);
            assert(cur == prev.insert(p, m as usize));
            assert forall|a: int, b: int| 0 <= a < b < cur.len() implies ranked_before(
                es,
                #[trigger] cur[a],
                #[trigger] cur[b],
                gains,
            ) by {
                if b < p {
                    assert(cur[a] == prev[a] && cur[b] == prev[b]);
                } else if b == p {
                    assert(cur[a] == prev[a]);
                    assert(!ahead(k, rank_key(es[prev[a] as int]), gains));
                } else if a > p {
                    assert(cur[a] == prev[a - 1] && cur[b] == prev[b - 1]);
                } else if a == p {
                    assert(cur[b] == prev[b - 1]);
                    assert(ahead(k, rank_key(es[prev[p] as int]), gains));
                    if b - 1 > p {
                        assert(ranked_before(es, prev[p], prev[b - 1], gains));
                    }
                } else {
                    assert(cur[a] == prev[a] && cur[b] == prev[b - 1]);
                }
            }
        }
    }
}

/// The summary lists at most `limit` gains and at most `limit` regressions; with a
/// limit of 0 it is omitted, and there is no headline.
pub proof fn lemma_summary_limit(es: Seq<BenchEntry>, t: ChangeThresholds, limit: nat)
    ensures
        summary_model(es, t, limit).gains.len() <= limit,
        summary_model(es, t, limit).regressions.len() <= limit,
        limit == 0 ==> summary_view(summary_model(es, t, limit)) == Seq::<char>::empty(),
        limit == 0 ==> headline_view(summary_model(es, t, limit)) is None,
{
}

/// The gains (or regressions) the summary lists are the top `limit` of their
/// category: each belongs to it, none twice, in rank order, and every member of the
/// category that is not listed ranks after all those listed.
pub proof fn lemma_top_of_category(es: Seq<BenchEntry>, t: ChangeThresholds, gains: bool, limit: nat)
    requires
        es.len() <= usize::MAX,
    ensures
        forall|q: int|
            0 <= q < top(ranking(es, t, gains, es.len()), limit).len() ==> in_category(
                es[#[trigger] top(ranking(es, t, gains, es.len()), limit)[q] as int],
                t,
                gains,
            ),
        forall|a: int, b: int|
            0 <= a < b < top(ranking(es, t, gains, es.len()), limit).len() ==> ranked_before(
                es,
                #[trigger] top(ranking(es, t, gains, es.len()), limit)[a],
                #[trigger] top(ranking(es, t, gains, es.len()), limit)[b],
                gains,
            ),
        forall|i: int, q: int|
            0 <= i < es.len() && in_category(#[trigger] es[i], t, gains) && !top(
                ranking(es, t, gains, es.len()),
                limit,
            ).contains(i as usize) && 0 <= q < top(ranking(es, t, gains, es.len()), limit).len()
                ==> ranked_before(
                es,
                #[trigger] top(ranking(es, t, gains, es.len()), limit)[q],
                i as usize,
                gains,
            ),
{
    let r = ranking(es, t, gains, es.len());
    let o = top(r, limit);
    lemma_ranking_members(es, t, gains, es.len());
    lemma_ranking_sorted(es, t, gains, es.len());
    assert forall|q: int| 0 <= q < o.len() implies #[trigger] o[q] == r[q] by {}
    assert forall|i: int, q: int|
        0 <= i < es.len() && in_category(#[trigger] es[i], t, gains) && !o.contains(i as usize) && 0
            <= q < o.len() implies ranked_before(es, #[trigger] o[q], i as usize, gains) by {
        let w = choose|w: int| 0 <= w < r.len() && r[w] == i as usize;
        if w < o.len() {
            assert(o[w] == i as usize);
        }
        assert(o[q] == r[q]);
        assert(q < w);
    }
}

} // verus!

verus! {

/// The first-ranked entry of a category, if the category has any.
pub open spec fn first_ranked(es: Seq<BenchEntry>, t: ChangeThresholds, gains: bool) -> Option<usize> {
    let r = ranking(es, t, gains, es.len());
    if r.len() > 0 {
        Some(r[0])
    } else {
        None
    }
}

/// The number of compared entries is positive when one of them is compared.
proof fn lemma_compared_positive(es: Seq<BenchEntry>, t: ChangeThresholds, n: nat, i: int)
    requires
        0 <= i < n <= es.len(),
        is_compared(es[i], t),
    ensures
        compared_count(es, t, n) > 0,
    decreases n,
{
    if i < n - 1 {
        lemma_compared_positive(es, t, (n - 1) as nat, i);
    }
}

/// The first-ranked gain is the gain with the smallest relative change (the earliest
/// of those tied), and the first-ranked regression the regression with the largest;
/// a category has none exactly when no entry belongs to it.
pub proof fn lemma_first_ranked(es: Seq<BenchEntry>, t: ChangeThresholds, gains: bool)
    requires
        es.len() <= usize::MAX,
    ensures
        first_ranked(es, t, gains) is None <==> forall|i: int|
            0 <= i < es.len() ==> !in_category(#[trigger] es[i], t, gains),
        first_ranked(es, t, gains) matches Some(x) ==> {
            &&& x < es.len()
            &&& in_category(es[x as int], t, gains)
            &&& forall|i: int|
                0 <= i < es.len() && in_category(#[trigger] es[i], t, gains) && i != x ==> ranked_before(
                    es,
                    x,
                    i as usize,
                    gains,
                )
        },
{
    let r = ranking(es, t, gains, es.len());
    lemma_ranking_members(es, t, gains, es.len());
    lemma_ranking_sorted(es, t, gains, es.len());
    if r.len() > 0 {
        assert(r[0] < es.len() && in_category(es[r[0] as int], t, gains));
        assert forall|i: int|
            0 <= i < es.len() && in_category(#[trigger] es[i], t, gains) && i != r[0] implies ranked_before(
            es,
            r[0],
            i as usize,
            gains,
        ) by {
            let j = choose|j: int| 0 <= j < r.len() && r[j] == i as usize;
            assert(j != 0);
            assert(ranked_before(es, r[0], r[j], gains));
        }
    } else {
        assert forall|i: int| 0 <= i < es.len() implies !in_category(#[trigger] es[i], t, gains) by {
            if in_category(es[i], t, gains) {
                assert(r.contains(i as usize));
            }
        }
    }
}

/// The headline of an enabled summary names the first-ranked regression and gain
/// (the largest of each), as `regression | gain` when both exist; `➖ stable` when
/// changes were compared and neither exists; and there is none exactly when no
/// change could be compared.
pub proof fn lemma_headline_extremes(es: Seq<BenchEntry>, t: ChangeThresholds, limit: nat)
    requires
        limit > 0,
        es.len() <= usize::MAX,
    ensures
        headline_view(summary_model(es, t, limit)) is None <==> compared_count(es, t, es.len()) == 0,
        headline_view(summary_model(es, t, limit)) == match (
            first_ranked(es, t, false),
            first_ranked(es, t, true),
        ) {
            (Some(r), Some(g)) => Some(
                compact_view(es[r as int].change.unwrap(), t) + " | "@ + compact_view(
                    es[g as int].change.unwrap(),
                    t,
                ),
            ),
            (Some(r), None) => Some(compact_view(es[r as int].change.unwrap(), t)),
            (None, Some(g)) => Some(compact_view(es[g as int].change.unwrap(), t)),
            (None, None) => if compared_count(es, t, es.len()) > 0 {
                Some("➖ stable"@)
            } else {
                None
            },
        },
{
    let m = summary_model(es, t, limit);
    lemma_first_ranked(es, t, true);
    lemma_first_ranked(es, t, false);
    let rg = ranking(es, t, true, es.len());
    let rr = ranking(es, t, false, es.len());
    if rg.len() > 0 {
        assert(top(rg, limit)[0] == rg[0]);
        lemma_compared_positive(es, t, es.len(), rg[0] as int);
    }
    if rr.len() > 0 {
        assert(top(rr, limit)[0] == rr[0]);
        lemma_compared_positive(es, t, es.len(), rr[0] as int);
    }
}

/// An entry is among the regressions exactly when it has a change classified as a
/// regression against the thresholds (a finite, positive ratio and a speedup at or
/// below the regression ratio and below the other two), and among the gains exactly
/// when it has one classified as an improvement or a strong improvement (a finite,
/// positive ratio and a speedup that reaches the improvement or the strong
/// improvement ratio).
pub proof fn lemma_category_membership(e: BenchEntry, t: ChangeThresholds)
    ensures
        in_category(e, t, false) <==> e.change is Some && classification(e.change->Some_0, t)
            == (ChangeClassification::Valid {
            ratio: e.change->Some_0.ratio,
            kind: ChangeKind::Regression,
        }),
        in_category(e, t, true) <==> e.change is Some && (classification(e.change->Some_0, t)
            == (ChangeClassification::Valid {
            ratio: e.change->Some_0.ratio,
            kind: ChangeKind::Improvement,
        }) || classification(e.change->Some_0, t) == (ChangeClassification::Valid {
            ratio: e.change->Some_0.ratio,
            kind: ChangeKind::StrongImprovement,
        })),
        in_category(e, t, false) <==> e.change is Some && e.change->Some_0.ratio.spec_is_finite()
            && e.change->Some_0.ratio.position > ZERO_POSITION && e.change->Some_0.compare.position
            <= t.regression_ratio.position && e.change->Some_0.compare.position
            < t.improvement_ratio.position && e.change->Some_0.compare.position
            < t.strong_improvement_ratio.position,
        in_category(e, t, true) <==> e.change is Some && e.change->Some_0.ratio.spec_is_finite()
            && e.change->Some_0.ratio.position > ZERO_POSITION && (e.change->Some_0.compare.position
            >= t.improvement_ratio.position || e.change->Some_0.compare.position
            >= t.strong_improvement_ratio.position),
{
    if e.change is Some {
        crate::change::lemma_classification_follows_thresholds(e.change->Some_0, t);
    }
}

/// Gains are ranked by their relative change, the smallest (the largest improvement)
/// first, and regressions by theirs, the largest first; entries with equal changes
/// keep the order in which they were found.
pub proof fn lemma_ranked_by_relative_change(es: Seq<BenchEntry>, i: usize, j: usize)
    requires
        i < es.len(),
        j < es.len(),
        es[i as int].change is Some,
        es[j as int].change is Some,
    ensures
        ranked_before(es, i, j, true) <==> es[i as int].change->Some_0.point_estimate.position
            < es[j as int].change->Some_0.point_estimate.position || (
        es[i as int].change->Some_0.point_estimate.position
            == es[j as int].change->Some_0.point_estimate.position && i < j),
        ranked_before(es, i, j, false) <==> es[i as int].change->Some_0.point_estimate.position
            > es[j as int].change->Some_0.point_estimate.position || (
        es[i as int].change->Some_0.point_estimate.position
            == es[j as int].change->Some_0.point_estimate.position && i < j),
{
}

} // verus!
