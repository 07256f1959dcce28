use vstd::prelude::*;

use crate::change::{change_view, format_change, ChangeThresholds};
use crate::summary::{summary_view, write_summary, SummaryInfo, SummaryModel};
use crate::model::{BenchEntry, ChangeInfo};
use crate::text::{
    concat, lemma_concat_take_next, lemma_lex_irreflexive, lemma_lex_total, lemma_lex_transitive, lex_less, pad_right, push_padded, same_text, text_less,
};

verus! {

/// The distinct elements of `s`, in the order of their first occurrence.
pub open spec fn dedup<A>(s: Seq<A>) -> Seq<A>
    decreases s.len(),
{
    if s.len() == 0 {
        Seq::empty()
    } else {
        let d = dedup(s.drop_last());
        if d.contains(s.last()) {
            d
        } else {
            d.push(s.last())
        }
    }
}

/// The column label of each entry.
pub open spec fn columns_view(es: Seq<BenchEntry>) -> Seq<Seq<char>> {
    Seq::new(es.len(), |i: int| es[i].column_view())
}

/// The row label of each entry.
pub open spec fn rows_view(es: Seq<BenchEntry>) -> Seq<Option<Seq<char>>> {
    Seq::new(es.len(), |i: int| es[i].row_view())
}

/// Where group `g` joins the ordered groups `gs`: before the first that does not
/// come before it.
pub open spec fn group_insertion_point(gs: Seq<Seq<char>>, g: Seq<char>) -> nat
    decreases gs.len(),
{
    if gs.len() == 0 {
        0
    } else if !lex_less(gs[0], g) {
        0
    } else {
        1 + group_insertion_point(gs.drop_first(), g)
    }
}

/// `gs` with `g` added in its place, unless it is already there.
pub open spec fn insert_group(gs: Seq<Seq<char>>, g: Seq<char>) -> Seq<Seq<char>> {
    let p = group_insertion_point(gs, g);
    if p < gs.len() && gs[p as int] == g {
        gs
    } else {
        gs.insert(p as int, g)
    }
}

/// The group ids of the first `n` entries, each once, in the order of `str`.
pub open spec fn group_order(es: Seq<BenchEntry>, n: nat) -> Seq<Seq<char>>
    decreases n,
{
    if n == 0 {
        Seq::empty()
    } else {
        insert_group(group_order(es, (n - 1) as nat), es[n - 1].group_id@)
    }
}

/// The first `n` entries of group `g`, in the order they come.
pub open spec fn members(es: Seq<BenchEntry>, g: Seq<char>, n: nat) -> Seq<BenchEntry>
    decreases n,
{
    if n == 0 {
        Seq::empty()
    } else {
        let m = members(es, g, (n - 1) as nat);
        if es[n - 1].group_id@ == g {
            m.push(es[n - 1])
        } else {
            m
        }
    }
}

/// A copy of a change.
pub fn copy_change(c: &ChangeInfo) -> (d: ChangeInfo)
    ensures
        d == *c,
{
    ChangeInfo {
        point_estimate: c.point_estimate,
        ratio: c.ratio,
        compare: c.compare,
        ratio_text: c.ratio_text.clone(),
        compare_text: c.compare_text.clone(),
    }
}

/// A copy of an entry.
pub fn copy_entry(e: &BenchEntry) -> (d: BenchEntry)
    ensures
        d == *e,
{
    let value_str = match &e.value_str {
        Some(v) => Some(v.clone()),
        None => None,
    };
    let change = match &e.change {
        Some(c) => Some(copy_change(c)),
        None => None,
    };
    BenchEntry {
        full_id: e.full_id.clone(),
        group_id: e.group_id.clone(),
        function_id: e.function_id.clone(),
        value_str,
        estimate_text: e.estimate_text.clone(),
        throughput: e.throughput,
        baseline_found: e.baseline_found,
        change,
    }
}

/// The group ids of the entries, each once, in the order of `str`.
fn group_ids(entries: &Vec<BenchEntry>) -> (gs: Vec<String>)
    ensures
        gs@.len() == group_order(entries@, entries@.len()).len(),
        forall|k: int| 0 <= k < gs@.len() ==> #[trigger] gs@[k]@ == group_order(entries@, entries@.len())[k],
{
    let n = entries.len();
    let mut gs: Vec<String> = Vec::new();
    for i in 0..n
        invariant
            n == entries@.len(),
            gs@.len() == group_order(entries@, i as nat).len(),
            forall|k: int| 0 <= k < gs@.len() ==> #[trigger] gs@[k]@ == group_order(entries@, i as nat)[k],
    {
        let g = entries[i].group_id.as_str();
        let ghost order = group_order(entries@, i as nat);
        let mut p: usize = 0;
        assert(order.skip(0) =~= order);
        while p < gs.len() && text_less(gs[p].as_str(), g)
            invariant
                p <= gs@.len(),
                gs@.len() == order.len(),
                forall|k: int| 0 <= k < gs@.len() ==> #[trigger] gs@[k]@ == order[k],
                g@ == entries@[i as int].group_id@,
                group_insertion_point(order, g@) == p + group_insertion_point(order.skip(p as int), g@),
            decreases gs@.len() - p,
        {
            assert(order.skip(p as int)[0] == gs@[p as int]@);
            assert(order.skip(p as int).drop_first() =~= order.skip(p + 1));
            p = p + 1;
        }
        proof {
            if p < gs@.len() {
                assert(order.skip(p as int)[0] == gs@[p as int]@);
            }
        }
        if p < gs.len() && same_text(gs[p].as_str(), g) {
        } else {
            let ghost prev = gs@;
            gs.insert(p, entries[i].group_id.clone());
            proof {
                prev.insert_ensures(p as int, entries@[i as int].group_id);
                order.insert_ensures(p as int, g@);
                assert forall|k: int| 0 <= k < gs@.len() implies #[trigger] gs@[k]@ == group_order(
                    entries@,
                    (i + 1) as nat,
                )[k] by {
                    if k > p {
                        assert(gs@[k] == prev[k - 1]);
                    }
                }
            }
        }
    }
    gs
}

/// The entries of group `g`, in the order they come.
fn members_of(entries: &Vec<BenchEntry>, g: &str) -> (m: Vec<BenchEntry>)
    ensures
        m@ == members(entries@, g@, entries@.len()),
{
    let n = entries.len();
    let mut m: Vec<BenchEntry> = Vec::new();
    for i in 0..n
        invariant
            n == entries@.len(),
            m@ == members(entries@, g@, i as nat),
    {
        if same_text(entries[i].group_id.as_str(), g) {
            m.push(copy_entry(&entries[i]));
        }
    }
    m
}

/// The distinct column labels of the entries, in the order they first come.
fn distinct_columns(entries: &Vec<BenchEntry>) -> (fs: Vec<String>)
    ensures
        fs@.len() == dedup(columns_view(entries@)).len(),
        forall|k: int| 0 <= k < fs@.len() ==> #[trigger] fs@[k]@ == dedup(columns_view(entries@))[k],
{
    let n = entries.len();
    let mut fs: Vec<String> = Vec::new();
    for i in 0..n
        invariant
            n == entries@.len(),
            fs@.len() == dedup(columns_view(entries@).take(i as int)).len(),
            forall|k: int| 0 <= k < fs@.len() ==> #[trigger] fs@[k]@ == dedup(columns_view(entries@).take(i as int))[k],
    {
        let col = entries[i].column();
        let ghost d = dedup(columns_view(entries@).take(i as int));
        let mut found = false;
        let mut j: usize = 0;
        while j < fs.len()
            invariant
                j <= fs@.len(),
                fs@.len() == d.len(),
                forall|k: int| 0 <= k < fs@.len() ==> #[trigger] fs@[k]@ == d[k],
                found == exists|k: int| 0 <= k < j && d[k] == col@,
            decreases fs@.len() - j,
        {
            if same_text(fs[j].as_str(), col) {
                found = true;
            }
            j = j + 1;
        }
        proof {
            let s = columns_view(entries@).take(i + 1);
            assert(s.drop_last() =~= columns_view(entries@).take(i as int));
            assert(s.last() == col@);
            if found {
                let k = choose|k: int| 0 <= k < j && d[k] == col@;
                assert(d.contains(col@));
            } else {
                assert(!d.contains(col@));
            }
        }
        if !found {
            fs.push(col.to_owned());
        }
    }
    assert(columns_view(entries@).take(n as int) =~= columns_view(entries@));
    fs
}

/// Whether two row labels are the same.
fn same_label(a: &Option<String>, b: Option<&str>) -> (r: bool)
    ensures
        r == (label_of(*a) == match b {
            Some(y) => Some(y@),
            None => None::<Seq<char>>,
        }),
{
    match (a, b) {
        (Some(x), Some(y)) => same_text(x.as_str(), y),
        (None, None) => true,
        _ => false,
    }
}

/// The view of a row label.
pub open spec fn label_of(a: Option<String>) -> Option<Seq<char>> {
    match a {
        Some(x) => Some(x@),
        None => None,
    }
}

/// The distinct row labels of the entries, in the order they first come.
fn distinct_rows(entries: &Vec<BenchEntry>) -> (vs: Vec<Option<String>>)
    ensures
        vs@.len() == dedup(rows_view(entries@)).len(),
        forall|k: int| 0 <= k < vs@.len() ==> #[trigger] label_of(vs@[k]) == dedup(rows_view(entries@))[k],
{
    let n = entries.len();
    let mut vs: Vec<Option<String>> = Vec::new();
    for i in 0..n
        invariant
            n == entries@.len(),
            vs@.len() == dedup(rows_view(entries@).take(i as int)).len(),
            forall|k: int| 0 <= k < vs@.len() ==> #[trigger] label_of(vs@[k]) == dedup(rows_view(entries@).take(i as int))[k],
    {
        let row = entries[i].row();
        let ghost rv: Option<Seq<char>> = match row {
            Some(t) => Some(t@),
            None => None,
        };
        assert(rv == entries@[i as int].row_view());
        let ghost d = dedup(rows_view(entries@).take(i as int));
        let mut found = false;
        let mut j: usize = 0;
        while j < vs.len()
            invariant
                j <= vs@.len(),
                vs@.len() == d.len(),
                forall|k: int| 0 <= k < vs@.len() ==> #[trigger] label_of(vs@[k]) == d[k],
                rv == (match row {
                    Some(t) => Some(t@),
                    None => None::<Seq<char>>,
                }),
                found == exists|k: int| 0 <= k < j && d[k] == rv,
            decreases vs@.len() - j,
        {
            if same_label(&vs[j], row) {
                found = true;
                assert(d[j as int] == rv);
            } else {
                assert(d[j as int] != rv);
            }
            j = j + 1;
        }
        proof {
            let s = rows_view(entries@).take(i + 1);
            assert(s.drop_last() =~= rows_view(entries@).take(i as int));
            assert(s.last() == rv);
            if found {
                let k = choose|k: int| 0 <= k < j && d[k] == rv;
                assert(d.contains(rv));
            } else {
                assert(!d.contains(rv));
            }
        }
        if !found {
            let owned = match row {
                Some(t) => Some(t.to_owned()),
                None => None,
            };
            vs.push(owned);
        }
    }
    assert(rows_view(entries@).take(n as int) =~= rows_view(entries@));
    vs
}

/// The header cells, one per column.
pub open spec fn header_cells(fs: Seq<Seq<char>>) -> Seq<Seq<char>> {
    Seq::new(fs.len(), |j: int| " | `"@ + fs[j] + "`"@)
}

/// The header row of a group table.
pub open spec fn header_view(fs: Seq<Seq<char>>) -> Seq<char> {
    "|"@ + "            "@ + concat(header_cells(fs)) + " |\n"@
}

/// The alignment cells, one per column.
pub open spec fn alignment_cells(count: nat) -> Seq<Seq<char>> {
    Seq::new(count, |j: int| ":------------------------ |"@)
}

/// The alignment row of a group table.
pub open spec fn alignment_view(fs: Seq<Seq<char>>) -> Seq<char> {
    "|:-----------|"@ + concat(alignment_cells(fs.len())) + "\n"@
}

/// The last of the first `n` entries in column `f` and row `v`, if any.
pub open spec fn last_match(es: Seq<BenchEntry>, f: Seq<char>, v: Option<Seq<char>>, n: nat) -> Option<int>
    decreases n,
{
    if n == 0 {
        None
    } else if es[n - 1].column_view() == f && es[n - 1].row_view() == v {
        Some(n - 1)
    } else {
        last_match(es, f, v, (n - 1) as nat)
    }
}

/// The text of the cell in column `f` and row `v`: the time of the last entry there,
/// with its change when changes are shown, or a blank cell.
pub open spec fn cell_view(
    es: Seq<BenchEntry>,
    f: Seq<char>,
    v: Option<Seq<char>>,
    t: ChangeThresholds,
    show_changes: bool,
) -> Seq<char> {
    match last_match(es, f, v, es.len()) {
        Some(i) => " | `"@ + es[i].estimate_text@ + "`"@ + (if show_changes {
            " ("@ + change_view(es[i].change, t) + ")"@
        } else {
            Seq::empty()
        }) + " "@,
        None => " |                          "@,
    }
}

/// The label of a row: the value in bold code, or nothing.
pub open spec fn label_view(v: Option<Seq<char>>) -> Seq<char> {
    match v {
        Some(x) => "**`"@ + x + "`**"@,
        None => Seq::empty(),
    }
}

/// The cells of row `v`, one per column.
pub open spec fn row_cells(
    es: Seq<BenchEntry>,
    fs: Seq<Seq<char>>,
    v: Option<Seq<char>>,
    t: ChangeThresholds,
    show_changes: bool,
) -> Seq<Seq<char>> {
    Seq::new(fs.len(), |j: int| cell_view(es, fs[j], v, t, show_changes))
}

/// The line of row `v`.
pub open spec fn row_line(
    es: Seq<BenchEntry>,
    fs: Seq<Seq<char>>,
    v: Option<Seq<char>>,
    t: ChangeThresholds,
    show_changes: bool,
) -> Seq<char> {
    "| "@ + pad_right(label_view(v), 10) + " "@ + concat(row_cells(es, fs, v, t, show_changes))
        + " |\n"@
}

/// The lines of the rows, one per distinct row label.
pub open spec fn row_lines(
    es: Seq<BenchEntry>,
    fs: Seq<Seq<char>>,
    vs: Seq<Option<Seq<char>>>,
    t: ChangeThresholds,
    show_changes: bool,
) -> Seq<Seq<char>> {
    Seq::new(vs.len(), |k: int| row_line(es, fs, vs[k], t, show_changes))
}

/// The markdown table of one group: a column per distinct column label and a row
/// per distinct row label, both in the order they first come.
pub open spec fn group_table_view(es: Seq<BenchEntry>, t: ChangeThresholds, show_changes: bool) -> Seq<
    char,
> {
    let fs = dedup(columns_view(es));
    let vs = dedup(rows_view(es));
    header_view(fs) + alignment_view(fs) + concat(row_lines(es, fs, vs, t, show_changes))
}

fn write_header(out: &mut String, fs: &Vec<String>, Ghost(fv): Ghost<Seq<Seq<char>>>)
    requires
        fs@.len() == fv.len(),
        forall|k: int| 0 <= k < fs@.len() ==> #[trigger] fs@[k]@ == fv[k],
    ensures
        final(out)@ == old(out)@ + header_view(fv),
{
    out.append("|");
    out.append("            ");
    let ghost start = out@;
    let n = fs.len();
    assert(header_cells(fv).take(0) =~= Seq::<Seq<char>>::empty());
    for j in 0..n
        invariant
            n == fs@.len(),
            fs@.len() == fv.len(),
            forall|k: int| 0 <= k < fs@.len() ==> #[trigger] fs@[k]@ == fv[k],
            out@ == start + concat(header_cells(fv).take(j as int)),
    {
        out.append(" | `");
        out.append(fs[j].as_str());
        out.append("`");
        proof {
            lemma_concat_take_next(header_cells(fv), j as int);
        }
        assert(out@ =~= start + concat(header_cells(fv).take(j + 1)));
    }
    assert(header_cells(fv).take(n as int) =~= header_cells(fv));
    out.append(" |\n");
    assert(out@ =~= old(out)@ + header_view(fv));
}

fn write_alignment(out: &mut String, count: usize, Ghost(fv): Ghost<Seq<Seq<char>>>)
    requires
        count == fv.len(),
    ensures
        final(out)@ == old(out)@ + alignment_view(fv),
{
    out.append("|:-----------|");
    let ghost start = out@;
    assert(alignment_cells(fv.len()).take(0) =~= Seq::<Seq<char>>::empty());
    for j in 0..count
        invariant
            count == fv.len(),
            out@ == start + concat(alignment_cells(fv.len()).take(j as int)),
    {
        out.append(":------------------------ |");
        proof {
            lemma_concat_take_next(alignment_cells(fv.len()), j as int);
        }
        assert(out@ =~= start + concat(alignment_cells(fv.len()).take(j + 1)));
    }
    assert(alignment_cells(fv.len()).take(count as int) =~= alignment_cells(fv.len()));
    out.append("\n");
    assert(out@ =~= old(out)@ + alignment_view(fv));
}

/// The index of the last entry in column `f` and row `v`.
fn find_cell(entries: &Vec<BenchEntry>, f: &str, v: &Option<String>) -> (r: Option<usize>)
    ensures
        match r {
            Some(i) => i < entries@.len() && last_match(entries@, f@, label_of(*v), entries@.len())
                == Some(i as int),
            None => last_match(entries@, f@, label_of(*v), entries@.len()) is None,
        },
{
    let mut i: usize = entries.len();
    while i > 0
        invariant
            i <= entries@.len(),
            last_match(entries@, f@, label_of(*v), entries@.len()) == last_match(
                entries@,
                f@,
                label_of(*v),
                i as nat,
            ),
        decreases i,
    {
        let e = &entries[i - 1];
        let col = e.column();
        let row = e.row();
        if same_text(col, f) && same_label(v, row) {
            return Some(i - 1);
        }
        i = i - 1;
    }
    None
}

fn write_row(
    out: &mut String,
    entries: &Vec<BenchEntry>,
    fs: &Vec<String>,
    v: &Option<String>,
    thresholds: ChangeThresholds,
    show_changes: bool,
    Ghost(fv): Ghost<Seq<Seq<char>>>,
)
    requires
        fs@.len() == fv.len(),
        forall|k: int| 0 <= k < fs@.len() ==> #[trigger] fs@[k]@ == fv[k],
    ensures
        final(out)@ == old(out)@ + row_line(entries@, fv, label_of(*v), thresholds, show_changes),
{
    let ghost lv = label_of(*v);
    let mut label = String::new();
    match v {
        Some(x) => {
            label.append("**`");
            label.append(x.as_str());
            label.append("`**");
        },
        None => {},
    }
    assert(label@ =~= label_view(lv));
    out.append("| ");
    push_padded(out, label.as_str(), 10);
    out.append(" ");
    let ghost start = out@;
    let n = fs.len();
    let ghost cells = row_cells(entries@, fv, lv, thresholds, show_changes);
    assert(cells.take(0) =~= Seq::<Seq<char>>::empty());
    for j in 0..n
        invariant
            n == fs@.len(),
            fs@.len() == fv.len(),
            forall|k: int| 0 <= k < fs@.len() ==> #[trigger] fs@[k]@ == fv[k],
            cells == row_cells(entries@, fv, lv, thresholds, show_changes),
            lv == label_of(*v),
            out@ == start + concat(cells.take(j as int)),
    {
        let ghost before = out@;
        match find_cell(entries, fs[j].as_str(), v) {
            Some(i) => {
                out.append(" | `");
                out.append(entries[i].estimate_text.as_str());
                out.append("`");
                if show_changes {
                    out.append(" (");
                    let change = format_change(&entries[i].change, thresholds);
                    out.append(change.as_str());
                    out.append(")");
                }
                out.append(" ");
            },
            None => {
                out.append(" |                          ");
            },
        }
        assert(out@ =~= before + cells[j as int]);
        proof {
            lemma_concat_take_next(cells, j as int);
        }
    }
    assert(cells.take(n as int) =~= cells);
    out.append(" |\n");
    assert(out@ =~= old(out)@ + row_line(entries@, fv, lv, thresholds, show_changes));
}

/// Writes a markdown table for a single benchmark group.
pub fn write_group_table(
    out: &mut String,
    entries: &Vec<BenchEntry>,
    thresholds: ChangeThresholds,
    show_changes: bool,
)
    ensures
        final(out)@ == old(out)@ + group_table_view(entries@, thresholds, show_changes),
{
    let functions = distinct_columns(entries);
    let values = distinct_rows(entries);
    let ghost fv = dedup(columns_view(entries@));
    let ghost vv = dedup(rows_view(entries@));
    write_header(out, &functions, Ghost(fv));
    write_alignment(out, functions.len(), Ghost(fv));
    let ghost start = out@;
    let ghost lines = row_lines(entries@, fv, vv, thresholds, show_changes);
    let n = values.len();
    assert(lines.take(0) =~= Seq::<Seq<char>>::empty());
    for k in 0..n
        invariant
            n == values@.len(),
            values@.len() == vv.len(),
            forall|q: int| 0 <= q < values@.len() ==> #[trigger] label_of(values@[q]) == vv[q],
            functions@.len() == fv.len(),
            forall|q: int| 0 <= q < functions@.len() ==> #[trigger] functions@[q]@ == fv[q],
            lines == row_lines(entries@, fv, vv, thresholds, show_changes),
            out@ == start + concat(lines.take(k as int)),
    {
        write_row(out, entries, &functions, &values[k], thresholds, show_changes, Ghost(fv));
        proof {
            lemma_concat_take_next(lines, k as int);
        }
        assert(out@ =~= start + concat(lines.take(k + 1)));
    }
    assert(lines.take(n as int) =~= lines);
    assert(out@ =~= old(out)@ + group_table_view(entries@, thresholds, show_changes));
}

/// The baseline has estimates for some entry.
pub open spec fn any_baseline(es: Seq<BenchEntry>) -> bool {
    exists|i: int| 0 <= i < es.len() && (#[trigger] es[i]).baseline_found
}

/// The section of group `g`: its heading and its table.
pub open spec fn group_section(
    es: Seq<BenchEntry>,
    g: Seq<char>,
    t: ChangeThresholds,
    show_changes: bool,
) -> Seq<char> {
    "### "@ + g + "\n\n"@ + group_table_view(members(es, g, es.len()), t, show_changes) + "\n"@
}

/// The sections of the groups `gs`, in order.
pub open spec fn group_sections(
    es: Seq<BenchEntry>,
    gs: Seq<Seq<char>>,
    t: ChangeThresholds,
    show_changes: bool,
) -> Seq<Seq<char>> {
    Seq::new(gs.len(), |k: int| group_section(es, gs[k], t, show_changes))
}

/// The report body: the title unless skipped, the summary, and a section per group
/// in the order of the group ids. Changes are shown when the baseline has estimates
/// for some entry.
pub open spec fn table_view(
    es: Seq<BenchEntry>,
    title: Seq<char>,
    skip_title: bool,
    t: ChangeThresholds,
    summary: SummaryModel,
) -> Seq<char> {
    (if skip_title {
        Seq::empty()
    } else {
        "# "@ + title + "\n\n"@
    }) + summary_view(summary) + "## Benchmark Results\n\n"@ + concat(
        group_sections(es, group_order(es, es.len()), t, any_baseline(es)),
    )
}

/// Whether the baseline has estimates for some entry.
pub fn has_baseline(entries: &Vec<BenchEntry>) -> (b: bool)
    ensures
        b == any_baseline(entries@),
{
    let n = entries.len();
    for i in 0..n
        invariant
            n == entries@.len(),
            forall|q: int| 0 <= q < i ==> !(#[trigger] entries@[q]).baseline_found,
    {
        if entries[i].baseline_found {
            assert(entries@[i as int].baseline_found);
            return true;
        }
    }
    false
}

/// Formats all benchmark entries into a markdown string.
///
/// When `skip_title` is true, the top-level report heading is omitted
/// because the output is wrapped in a `<details><summary>` tag.
pub fn format_table(
    entries: &Vec<BenchEntry>,
    title: &str,
    skip_title: bool,
    thresholds: ChangeThresholds,
    summary: &SummaryInfo,
) -> (out: String)
    ensures
        out@ == table_view(entries@, title@, skip_title, thresholds, summary@),
{
    let show_changes = has_baseline(entries);
    let groups = group_ids(entries);
    let ghost gv = group_order(entries@, entries@.len());
    let mut out = String::new();
    if !skip_title {
        out.append("# ");
        out.append(title);
        out.append("\n\n");
    }
    write_summary(&mut out, summary);
    out.append("## Benchmark Results\n\n");
    let ghost start = out@;
    let ghost sections = group_sections(entries@, gv, thresholds, show_changes);
    let n = groups.len();
    assert(sections.take(0) =~= Seq::<Seq<char>>::empty());
    for k in 0..n
        invariant
            n == groups@.len(),
            groups@.len() == gv.len(),
            forall|q: int| 0 <= q < groups@.len() ==> #[trigger] groups@[q]@ == gv[q],
            sections == group_sections(entries@, gv, thresholds, show_changes),
            out@ == start + concat(sections.take(k as int)),
    {
        let ghost before = out@;
        let group = groups[k].as_str();
        out.append("### ");
        out.append(group);
        out.append("\n\n");
        let group_entries = members_of(entries, group);
        write_group_table(&mut out, &group_entries, thresholds, show_changes);
        out.append("\n");
        assert(out@ =~= before + sections[k as int]);
        proof {
            lemma_concat_take_next(sections, k as int);
        }
    }
    assert(sections.take(n as int) =~= sections);
    assert(out@ =~= table_view(entries@, title@, skip_title, thresholds, summary@));
    out
}

} // verus!

verus! {

/// Every group before the insertion point comes before `g`; the one at it does not.
proof fn lemma_group_insertion_point(gs: Seq<Seq<char>>, g: Seq<char>)
    ensures
        group_insertion_point(gs, g) <= gs.len(),
        forall|q: int| 0 <= q < group_insertion_point(gs, g) ==> lex_less(#[trigger] gs[q], g),
        group_insertion_point(gs, g) < gs.len() ==> !lex_less(gs[group_insertion_point(gs, g) as int], g),
    decreases gs.len(),
{
    if gs.len() > 0 && lex_less(gs[0], g) {
        lemma_group_insertion_point(gs.drop_first(), g);
        let p = group_insertion_point(gs, g);
        assert forall|q: int| 0 <= q < p implies lex_less(#[trigger] gs[q], g) by {
            if q > 0 {
                assert(gs[q] == gs.drop_first()[q - 1]);
            }
        }
    }
}

/// Whether `x` is in `s` after `a` is pushed.
proof fn lemma_contains_push<A>(s: Seq<A>, a: A)
    ensures
        forall|x: A| #[trigger] s.push(a).contains(x) <==> (s.contains(x) || x == a),
{
    assert forall|x: A| #[trigger] s.push(a).contains(x) <==> (s.contains(x) || x == a) by {
        if s.contains(x) {
            let i = choose|i: int| 0 <= i < s.len() && s[i] == x;
            assert(s.push(a)[i] == x);
        }
        if x == a {
            assert(s.push(a)[s.len() as int] == x);
        }
        if s.push(a).contains(x) {
            let i = choose|i: int| 0 <= i < s.push(a).len() && s.push(a)[i] == x;
            if i < s.len() {
                assert(s[i] == x);
            }
        }
    }
}

/// Whether `x` is in `s`, told by its last element and the rest.
proof fn lemma_contains_drop_last<A>(s: Seq<A>)
    requires
        s.len() > 0,
    ensures
        forall|x: A| #[trigger] s.contains(x) <==> (s.drop_last().contains(x) || x == s.last()),
{
    assert(s =~= s.drop_last().push(s.last()));
    lemma_contains_push(s.drop_last(), s.last());
}

/// Adding a group keeps the groups strictly ordered, and adds just that group.
proof fn lemma_insert_group(gs: Seq<Seq<char>>, g: Seq<char>)
    requires
        forall|a: int, b: int| 0 <= a < b < gs.len() ==> lex_less(#[trigger] gs[a], #[trigger] gs[b]),
    ensures
        forall|a: int, b: int|
            0 <= a < b < insert_group(gs, g).len() ==> lex_less(
                #[trigger] insert_group(gs, g)[a],
                #[trigger] insert_group(gs, g)[b],
            ),
        forall|x: Seq<char>| #[trigger] insert_group(gs, g).contains(x) <==> (gs.contains(x) || x == g),
{
    lemma_group_insertion_point(gs, g);
    let p = group_insertion_point(gs, g) as int;
    let cur = insert_group(gs, g);
    if p < gs.len() && gs[p] == g {
    } else {
        gs.insert_ensures(p, g);
        if p < gs.len() {
            lemma_lex_total(gs[p], g);
        }
        assert forall|a: int, b: int| 0 <= a < b < cur.len() implies lex_less(
            #[trigger] cur[a],
            #[trigger] cur[b],
        ) by {
            if b < p {
                assert(cur[a] == gs[a] && cur[b] == gs[b]);
            } else if b == p {
                assert(cur[a] == gs[a]);
            } else if a > p {
                assert(cur[a] == gs[a - 1] && cur[b] == gs[b - 1]);
            } else if a == p {
                assert(cur[b] == gs[b - 1]);
                if b - 1 > p {
                    lemma_lex_transitive(g, gs[p], gs[b - 1]);
                }
            } else {
                assert(cur[a] == gs[a] && cur[b] == gs[b - 1]);
            }
        }
        assert forall|x: Seq<char>| #[trigger] cur.contains(x) <==> (gs.contains(x) || x == g) by {
            if x == g {
                assert(cur[p] == g);
            }
            if gs.contains(x) {
                let q = choose|q: int| 0 <= q < gs.len() && gs[q] == x;
                if q < p {
                    assert(cur[q] == x);
                } else {
                    assert(cur[q + 1] == x);
                }
            }
            if cur.contains(x) {
                let q = choose|q: int| 0 <= q < cur.len() && cur[q] == x;
                if q < p {
                    assert(gs[q] == x);
                } else if q > p {
                    assert(gs[q - 1] == x);
                }
            }
        }
    }
}

/// The groups of a report come in strictly increasing order of their ids, and they
/// are exactly the group ids of the entries.
pub proof fn lemma_group_order(es: Seq<BenchEntry>, n: nat)
    requires
        n <= es.len(),
    ensures
        forall|a: int, b: int|
            0 <= a < b < group_order(es, n).len() ==> lex_less(
                #[trigger] group_order(es, n)[a],
                #[trigger] group_order(es, n)[b],
            ),
        forall|x: Seq<char>|
            #[trigger] group_order(es, n).contains(x) <==> exists|i: int|
                0 <= i < n && (#[trigger] es[i]).group_id@ == x,
    decreases n,
{
    if n > 0 {
        let m = (n - 1) as nat;
        lemma_group_order(es, m);
        let prev = group_order(es, m);
        let g = es[m as int].group_id@;
        lemma_insert_group(prev, g);
        let cur = group_order(es, n);
        assert(cur == insert_group(prev, g));
        assert forall|x: Seq<char>|
            #[trigger] cur.contains(x) <==> exists|i: int| 0 <= i < n && (#[trigger] es[i]).group_id@ == x by {
            if exists|i: int| 0 <= i < n && (#[trigger] es[i]).group_id@ == x {
                let i = choose|i: int| 0 <= i < n && (#[trigger] es[i]).group_id@ == x;
                if i < m {
                    assert(prev.contains(x));
                }
            }
            if prev.contains(x) {
                let i = choose|i: int| 0 <= i < m && (#[trigger] es[i]).group_id@ == x;
                assert(0 <= i < n && es[i].group_id@ == x);
            }
        }
    }
}

/// The distinct elements hold each element of `s` exactly once.
pub proof fn lemma_dedup<A>(s: Seq<A>)
    ensures
        forall|a: int, b: int| 0 <= a < b < dedup(s).len() ==> dedup(s)[a] != dedup(s)[b],
        forall|x: A| #[trigger] dedup(s).contains(x) <==> s.contains(x),
    decreases s.len(),
{
    if s.len() > 0 {
        lemma_dedup(s.drop_last());
        lemma_contains_drop_last(s);
        let d = dedup(s.drop_last());
        if !d.contains(s.last()) {
            lemma_contains_push(d, s.last());
            assert forall|a: int, b: int| 0 <= a < b < dedup(s).len() implies dedup(s)[a] != dedup(s)[b] by {
                if b == d.len() {
                    assert(d[a] == dedup(s)[a]);
                }
            }
        }
    }
}

/// A report's group sections come in strictly increasing order of group ids, one per
/// group that some entry belongs to.
pub proof fn lemma_report_groups(es: Seq<BenchEntry>)
    ensures
        forall|a: int, b: int|
            0 <= a < b < group_order(es, es.len()).len() ==> lex_less(
                #[trigger] group_order(es, es.len())[a],
                #[trigger] group_order(es, es.len())[b],
            ),
        forall|i: int| 0 <= i < es.len() ==> group_order(es, es.len()).contains((#[trigger] es[i]).group_id@),
{
    lemma_group_order(es, es.len());
    assert forall|i: int| 0 <= i < es.len() implies group_order(es, es.len()).contains(
        (#[trigger] es[i]).group_id@,
    ) by {
        assert(0 <= i < es.len() && es[i].group_id@ == es[i].group_id@);
    }
}

} // verus!

verus! {

/// The texts are in strictly increasing order.
pub open spec fn strictly_ordered(p: Seq<Seq<char>>) -> bool {
    forall|a: int, b: int| 0 <= a < b < p.len() ==> lex_less(#[trigger] p[a], #[trigger] p[b])
}

/// Two strictly ordered sequences of the same texts are equal.
proof fn lemma_ordered_unique(p: Seq<Seq<char>>, q: Seq<Seq<char>>)
    requires
        strictly_ordered(p),
        strictly_ordered(q),
        forall|x: Seq<char>| #[trigger] p.contains(x) <==> q.contains(x),
    ensures
        p == q,
    decreases p.len(),
{
    if p.len() == 0 {
        if q.len() > 0 {
            assert(q.contains(q[0]));
            assert(p.contains(q[0]));
        }
        assert(p =~= q);
    } else {
        assert(p.contains(p[0]));
        assert(q.contains(p[0]));
        assert(q.contains(q[0]));
        assert(p.contains(q[0]));
        if p[0] != q[0] {
            let j = choose|j: int| 0 <= j < q.len() && q[j] == p[0];
            let k = choose|k: int| 0 <= k < p.len() && p[k] == q[0];
            assert(lex_less(q[0], q[j]));
            assert(lex_less(p[0], p[k]));
            lemma_lex_transitive(p[0], q[0], p[0]);
            lemma_lex_irreflexive(p[0]);
        }
        let p1 = p.drop_first();
        let q1 = q.drop_first();
        assert forall|x: Seq<char>| #[trigger] p1.contains(x) <==> q1.contains(x) by {
            if p1.contains(x) {
                let i = choose|i: int| 0 <= i < p1.len() && p1[i] == x;
                assert(p[i + 1] == x);
                assert(lex_less(p[0], x));
                lemma_lex_irreflexive(x);
                assert(p.contains(x));
                assert(q.contains(x));
                let j = choose|j: int| 0 <= j < q.len() && q[j] == x;
                assert(j != 0);
                assert(q1[j - 1] == x);
            }
            if q1.contains(x) {
                let i = choose|i: int| 0 <= i < q1.len() && q1[i] == x;
                assert(q[i + 1] == x);
                assert(lex_less(q[0], x));
                lemma_lex_irreflexive(x);
                assert(q.contains(x));
                assert(p.contains(x));
                let j = choose|j: int| 0 <= j < p.len() && p[j] == x;
                assert(j != 0);
                assert(p1[j - 1] == x);
            }
        }
        assert forall|a: int, b: int| 0 <= a < b < p1.len() implies lex_less(#[trigger] p1[a], #[trigger] p1[b]) by {
            assert(p1[a] == p[a + 1] && p1[b] == p[b + 1]);
        }
        assert forall|a: int, b: int| 0 <= a < b < q1.len() implies lex_less(#[trigger] q1[a], #[trigger] q1[b]) by {
            assert(q1[a] == q[a + 1] && q1[b] == q[b + 1]);
        }
        lemma_ordered_unique(p1, q1);
        assert(p =~= seq![p[0]] + p1);
        assert(q =~= seq![q[0]] + q1);
    }
}

/// The members of group `g` are the entries of that group.
proof fn lemma_members_contains(es: Seq<BenchEntry>, g: Seq<char>, n: nat)
    requires
        n <= es.len(),
    ensures
        forall|e: BenchEntry|
            #[trigger] members(es, g, n).contains(e) <==> exists|i: int|
                0 <= i < n && es[i] == e && e.group_id@ == g,
    decreases n,
{
    if n > 0 {
        let m = (n - 1) as nat;
        lemma_members_contains(es, g, m);
        let prev = members(es, g, m);
        if es[m as int].group_id@ == g {
            lemma_contains_push(prev, es[m as int]);
        }
        assert forall|e: BenchEntry|
            #[trigger] members(es, g, n).contains(e) <==> exists|i: int|
                0 <= i < n && es[i] == e && e.group_id@ == g by {
            if exists|i: int| 0 <= i < n && es[i] == e && e.group_id@ == g {
                let i = choose|i: int| 0 <= i < n && es[i] == e && e.group_id@ == g;
                if i < m {
                    assert(prev.contains(e));
                }
            }
            if prev.contains(e) {
                let i = choose|i: int| 0 <= i < m && es[i] == e && e.group_id@ == g;
                assert(0 <= i < n);
            }
        }
    }
}

/// Two lists of entries in which every group holds the same entries in the same
/// order: one is a permutation of the other that keeps the order within each group.
pub open spec fn same_groups(a: Seq<BenchEntry>, b: Seq<BenchEntry>) -> bool {
    forall|g: Seq<char>| #[trigger] members(a, g, a.len()) == members(b, g, b.len())
}

/// A group id occurs among the entries exactly when its group has members.
proof fn lemma_group_present(es: Seq<BenchEntry>, g: Seq<char>)
    ensures
        group_order(es, es.len()).contains(g) <==> members(es, g, es.len()).len() > 0,
{
    lemma_group_order(es, es.len());
    lemma_members_contains(es, g, es.len());
    let ms = members(es, g, es.len());
    if ms.len() > 0 {
        assert(ms.contains(ms[0]));
    }
    if group_order(es, es.len()).contains(g) {
        let i = choose|i: int| 0 <= i < es.len() && (#[trigger] es[i]).group_id@ == g;
        assert(ms.contains(es[i]));
    }
}

/// The report body is the same for two lists of entries whose groups hold the same
/// entries in the same order: groups are laid out by their ids, not by the order in
/// which they were found.
pub proof fn lemma_table_keeps_group_order(
    a: Seq<BenchEntry>,
    b: Seq<BenchEntry>,
    title: Seq<char>,
    skip_title: bool,
    t: ChangeThresholds,
    m: SummaryModel,
)
    requires
        same_groups(a, b),
    ensures
        table_view(a, title, skip_title, t, m) == table_view(b, title, skip_title, t, m),
{
    let ga = group_order(a, a.len());
    let gb = group_order(b, b.len());
    lemma_group_order(a, a.len());
    lemma_group_order(b, b.len());
    assert forall|x: Seq<char>| #[trigger] ga.contains(x) <==> gb.contains(x) by {
        lemma_group_present(a, x);
        lemma_group_present(b, x);
        assert(members(a, x, a.len()) == members(b, x, b.len()));
    }
    lemma_ordered_unique(ga, gb);
    assert(any_baseline(a) == any_baseline(b)) by {
        if any_baseline(a) {
            let i = choose|i: int| 0 <= i < a.len() && (#[trigger] a[i]).baseline_found;
            let g = a[i].group_id@;
            lemma_members_contains(a, g, a.len());
            lemma_members_contains(b, g, b.len());
            assert(members(a, g, a.len()) == members(b, g, b.len()));
            assert(members(a, g, a.len()).contains(a[i]));
            let j = choose|j: int| 0 <= j < b.len() && b[j] == a[i] && a[i].group_id@ == g;
            assert(b[j].baseline_found);
        }
        if any_baseline(b) {
            let i = choose|i: int| 0 <= i < b.len() && (#[trigger] b[i]).baseline_found;
            let g = b[i].group_id@;
            lemma_members_contains(a, g, a.len());
            lemma_members_contains(b, g, b.len());
            assert(members(a, g, a.len()) == members(b, g, b.len()));
            assert(members(b, g, b.len()).contains(b[i]));
            let j = choose|j: int| 0 <= j < a.len() && a[j] == b[i] && b[i].group_id@ == g;
            assert(a[j].baseline_found);
        }
    }
    let show = any_baseline(a);
    assert forall|k: int| 0 <= k < ga.len() implies #[trigger] group_sections(a, ga, t, show)[k]
        == group_sections(b, gb, t, show)[k] by {
        assert(members(a, ga[k], a.len()) == members(b, ga[k], b.len()));
    }
    assert(group_sections(a, ga, t, show) =~= group_sections(b, gb, t, show));
}

} // verus!
