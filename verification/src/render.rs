use vstd::prelude::*;

use crate::change::{default_thresholds, threshold_check, ChangeThresholds};
use crate::error::{Failure, RenderError};
use crate::model::BenchEntry;
use crate::summary::{compute_summary, headline_view, summary_model, SummaryModel};
use crate::table::{any_baseline, copy_entry, has_baseline, format_table, label_of, table_view};
use crate::text::same_text;

verus! {

/// The texts of a sequence of strings.
pub open spec fn texts(v: Seq<String>) -> Seq<Seq<char>> {
    v.map_values(|s: String| s@)
}

/// Options for controlling the rendered markdown output.
#[derive(Clone, Debug)]
pub struct RenderOptions {
    /// The report title. Defaults to `Benchmarks`.
    pub title: String,
    /// Whether to wrap the output in a `<details>` element.
    pub collapsible: bool,
    /// The Criterion baseline directory to compare against. When unset, the
    /// `base` baseline is used where it exists.
    ///
    /// Changes are computed at render time from this baseline's mean estimate.
    pub baseline: Option<String>,
}

/// What render options are set to.
pub struct OptionsView {
    pub title: Seq<char>,
    pub collapsible: bool,
    pub baseline: Option<Seq<char>>,
}

impl View for RenderOptions {
    type V = OptionsView;

    open spec fn view(&self) -> OptionsView {
        OptionsView {
            title: self.title@,
            collapsible: self.collapsible,
            baseline: label_of(self.baseline),
        }
    }
}

/// The default options: titled `Benchmarks`, not collapsible, no baseline chosen.
pub open spec fn default_options() -> OptionsView {
    OptionsView { title: "Benchmarks"@, collapsible: false, baseline: None }
}

impl Default for RenderOptions {
    fn default() -> (o: Self)
        ensures
            o@ == default_options(),
    {
        RenderOptions { title: String::from_str("Benchmarks"), collapsible: false, baseline: None }
    }
}

/// Builder for rendering Criterion results as markdown.
///
/// The directories and dataset names say where the results are read from; the
/// remaining settings shape the report.
#[derive(Clone, Debug)]
pub struct Renderer {
    /// The Criterion output directory holding the candidate results.
    pub criterion_dir: String,
    /// The Criterion output directory holding the baseline results.
    pub baseline_root: String,
    /// The dataset rendered. Defaults to `new`.
    pub candidate: String,
    /// The baseline chosen explicitly, if any; otherwise `base` is used where it exists.
    pub baseline: Option<String>,
    /// The benchmarks selected by full id; none selected means all.
    pub included_entries: Vec<String>,
    /// The report title.
    pub title: String,
    /// Whether the output is wrapped in a `<details>` element.
    pub collapsible: bool,
    /// The ratios used to select change indicators.
    pub change_thresholds: ChangeThresholds,
    /// The maximum number of improvements and regressions shown in the summary.
    pub summary_limit: usize,
}

/// What a renderer is set to.
#[verifier::ext_equal]
pub struct Settings {
    pub criterion_dir: Seq<char>,
    pub baseline_root: Seq<char>,
    pub candidate: Seq<char>,
    pub baseline: Option<Seq<char>>,
    pub included_entries: Seq<Seq<char>>,
    pub title: Seq<char>,
    pub collapsible: bool,
    pub change_thresholds: ChangeThresholds,
    pub summary_limit: nat,
}

impl View for Renderer {
    type V = Settings;

    open spec fn view(&self) -> Settings {
        Settings {
            criterion_dir: self.criterion_dir@,
            baseline_root: self.baseline_root@,
            candidate: self.candidate@,
            baseline: label_of(self.baseline),
            included_entries: texts(self.included_entries@),
            title: self.title@,
            collapsible: self.collapsible,
            change_thresholds: self.change_thresholds,
            summary_limit: self.summary_limit as nat,
        }
    }
}

/// The settings of a new renderer for directory `dir`: candidate `new`, the default
/// baseline, no selection, titled `Benchmarks`, not collapsible, the default
/// thresholds, and a summary limit of 3.
pub open spec fn default_settings(dir: Seq<char>) -> Settings {
    Settings {
        criterion_dir: dir,
        baseline_root: dir,
        candidate: "new"@,
        baseline: None,
        included_entries: Seq::empty(),
        title: "Benchmarks"@,
        collapsible: false,
        change_thresholds: default_thresholds(),
        summary_limit: 3,
    }
}

/// The settings `render` uses: the defaults with the allowlist selected.
pub open spec fn render_settings(dir: Seq<char>, allow: Seq<Seq<char>>) -> Settings {
    Settings { included_entries: allow, ..default_settings(dir) }
}

/// The settings `render_with_options` uses: those of `render`, with the options'
/// title and collapsibility, and their baseline when one is chosen.
pub open spec fn options_settings(dir: Seq<char>, allow: Seq<Seq<char>>, o: OptionsView) -> Settings {
    Settings {
        baseline: o.baseline,
        title: o.title,
        collapsible: o.collapsible,
        ..render_settings(dir, allow)
    }
}

/// The entry's full id is one of `allow`.
pub open spec fn is_allowed(e: BenchEntry, allow: Seq<Seq<char>>) -> bool {
    allow.contains(e.full_id@)
}

/// The allowed entries among the first `n`, in order.
pub open spec fn retained(es: Seq<BenchEntry>, allow: Seq<Seq<char>>, n: nat) -> Seq<BenchEntry>
    decreases n,
{
    if n == 0 {
        Seq::empty()
    } else {
        let kept = retained(es, allow, (n - 1) as nat);
        if is_allowed(es[n - 1], allow) {
            kept.push(es[n - 1])
        } else {
            kept
        }
    }
}

/// The entries to render: all of them when none is selected, else the selected ones.
pub open spec fn selected(es: Seq<BenchEntry>, allow: Seq<Seq<char>>) -> Seq<BenchEntry> {
    if allow.len() == 0 {
        es
    } else {
        retained(es, allow, es.len())
    }
}

/// The headline in brackets after a collapsed report's title, if there is one.
pub open spec fn headline_suffix(m: SummaryModel) -> Seq<char> {
    match headline_view(m) {
        Some(h) => " ("@ + h + ")"@,
        None => Seq::empty(),
    }
}

/// The report of a renderer on the entries found for it, or why there is none.
///
/// The thresholds are checked first; then the selected entries must not be empty,
/// and a baseline chosen explicitly must have estimates for one of the benchmarks
/// found, selected or not. The
/// report is the body (the title heading unless collapsible, the summary, and the
/// group tables), wrapped in a `<details>` element when collapsible, whose summary
/// line is the title followed by the headline, if any.
pub open spec fn report(s: Settings, es: Seq<BenchEntry>) -> Result<Seq<char>, Failure> {
    let t = s.change_thresholds;
    let kept = selected(es, s.included_entries);
    if threshold_check(t) is Err {
        Err(threshold_check(t)->Err_0@)
    } else if kept.len() == 0 {
        Err(Failure::NoResults { criterion_dir: s.criterion_dir })
    } else if s.baseline is Some && !any_baseline(es) {
        Err(
            Failure::BaselineNotFound {
                baseline: s.baseline->Some_0,
                baseline_root: s.baseline_root,
            },
        )
    } else {
        let m = summary_model(kept, t, s.summary_limit);
        let body = table_view(kept, s.title, s.collapsible, t, m);
        if !s.collapsible {
            Ok(body)
        } else {
            Ok(
                "<details>\n<summary>"@ + s.title + headline_suffix(m) + "</summary>\n\n"@ + body
                    + "\n</details>\n"@,
            )
        }
    }
}

/// The outcome `res` is the report `expected`: the same text, or the same failure.
pub open spec fn renders_as(res: Result<String, RenderError>, expected: Result<Seq<char>, Failure>) -> bool {
    match (res, expected) {
        (Ok(s), Ok(v)) => s@ == v,
        (Err(e), Err(f)) => e@ == f,
        _ => false,
    }
}

fn is_allowed_exec(e: &BenchEntry, allow: &Vec<String>) -> (b: bool)
    ensures
        b == is_allowed(*e, texts(allow@)),
{
    let n = allow.len();
    for j in 0..n
        invariant
            n == allow@.len(),
            forall|q: int| 0 <= q < j ==> allow@[q]@ != e.full_id@,
    {
        if same_text(allow[j].as_str(), e.full_id.as_str()) {
            assert(texts(allow@)[j as int] == e.full_id@);
            return true;
        }
    }
    proof {
        if texts(allow@).contains(e.full_id@) {
            let q = choose|q: int| 0 <= q < texts(allow@).len() && texts(allow@)[q] == e.full_id@;
            assert(allow@[q]@ == e.full_id@);
        }
    }
    false
}

fn select_entries(entries: Vec<BenchEntry>, allow: &Vec<String>) -> (kept: Vec<BenchEntry>)
    ensures
        kept@ == selected(entries@, texts(allow@)),
{
    if allow.len() == 0 {
        return entries;
    }
    let n = entries.len();
    let mut kept: Vec<BenchEntry> = Vec::new();
    for i in 0..n
        invariant
            n == entries@.len(),
            kept@ == retained(entries@, texts(allow@), i as nat),
    {
        if is_allowed_exec(&entries[i], allow) {
            kept.push(copy_entry(&entries[i]));
        }
    }
    kept
}

impl Renderer {
    /// Creates a renderer for a Criterion output directory.
    pub fn new(criterion_dir: &str) -> (r: Self)
        ensures
            r@ == default_settings(criterion_dir@),
    {
        let r = Renderer {
            criterion_dir: String::from_str(criterion_dir),
            baseline_root: String::from_str(criterion_dir),
            candidate: String::from_str("new"),
            baseline: None,
            included_entries: Vec::new(),
            title: String::from_str("Benchmarks"),
            collapsible: false,
            change_thresholds: ChangeThresholds::default(),
            summary_limit: 3,
        };
        assert(texts(r.included_entries@) =~= Seq::<Seq<char>>::empty());
        assert(r@ =~= default_settings(criterion_dir@));
        r
    }

    /// Selects the dataset to render. Defaults to `new`.
    pub fn candidate(self, candidate: &str) -> (r: Self)
        ensures
            r@ == (Settings { candidate: candidate@, ..self@ }),
    {
        let r = Renderer { candidate: String::from_str(candidate), ..self };
        assert(r@ =~= (Settings { candidate: candidate@, ..self@ }));
        r
    }

    /// Selects the baseline used to compute changes. Defaults to `base`.
    ///
    /// A baseline chosen this way must exist for some rendered benchmark.
    pub fn baseline(self, baseline: &str) -> (r: Self)
        ensures
            r@ == (Settings { baseline: Some(baseline@), ..self@ }),
    {
        Renderer { baseline: Some(String::from_str(baseline)), ..self }
    }

    /// Selects the Criterion output root containing the baseline.
    ///
    /// Defaults to the candidate's Criterion output directory.
    pub fn baseline_root(self, baseline_root: &str) -> (r: Self)
        ensures
            r@ == (Settings { baseline_root: baseline_root@, ..self@ }),
    {
        Renderer { baseline_root: String::from_str(baseline_root), ..self }
    }

    /// Selects a benchmark by its full id.
    ///
    /// If no benchmarks are selected explicitly, all benchmarks are rendered.
    pub fn benchmark(self, entry: &str) -> (r: Self)
        ensures
            r@ == (Settings { included_entries: self@.included_entries.push(entry@), ..self@ }),
    {
        let mut included = self.included_entries;
        let ghost before = included@;
        included.push(String::from_str(entry));
        assert(texts(included@) =~= texts(before).push(entry@));
        let r = Renderer { included_entries: included, ..self };
        assert(r@ =~= (Settings { included_entries: self@.included_entries.push(entry@), ..self@ }));
        r
    }

    /// Selects benchmarks by their full ids.
    ///
    /// Repeated calls are additive. If no benchmarks are selected explicitly,
    /// all benchmarks are rendered.
    pub fn benchmarks(self, entries: Vec<String>) -> (r: Self)
        ensures
            r@ == (Settings {
                included_entries: self@.included_entries + texts(entries@),
                ..self@
            }),
    {
        let mut included = self.included_entries;
        let mut more = entries;
        let ghost before = included@;
        let ghost added = more@;
        included.append(&mut more);
        assert(texts(included@) =~= texts(before) + texts(added));
        let r = Renderer { included_entries: included, ..self };
        assert(r@ =~= (Settings {
            included_entries: self@.included_entries + texts(entries@),
            ..self@
        }));
        r
    }

    /// Sets the report title. Defaults to `Benchmarks`.
    pub fn title(self, title: &str) -> (r: Self)
        ensures
            r@ == (Settings { title: title@, ..self@ }),
    {
        Renderer { title: String::from_str(title), ..self }
    }

    /// Controls whether the output is wrapped in a `<details>` element.
    pub fn collapsible(self, collapsible: bool) -> (r: Self)
        ensures
            r@ == (Settings { collapsible, ..self@ }),
    {
        Renderer { collapsible, ..self }
    }

    /// Configures the ratios used to select change indicators.
    pub fn change_thresholds(self, thresholds: ChangeThresholds) -> (r: Self)
        ensures
            r@ == (Settings { change_thresholds: thresholds, ..self@ }),
    {
        Renderer { change_thresholds: thresholds, ..self }
    }

    /// Sets the maximum number of improvements and regressions shown in the summary.
    /// Defaults to `3`. A limit of `0` omits the summary.
    pub fn summary_limit(self, limit: usize) -> (r: Self)
        ensures
            r@ == (Settings { summary_limit: limit as nat, ..self@ }),
    {
        Renderer { summary_limit: limit, ..self }
    }

    /// The baseline whose results are read: the one chosen, else `base`.
    pub fn baseline_name(&self) -> (b: &str)
        ensures
            b@ == match self@.baseline {
                Some(name) => name,
                None => "base"@,
            },
    {
        match &self.baseline {
            Some(name) => name.as_str(),
            None => "base",
        }
    }

    /// Renders the entries found for this renderer's settings as markdown.
    ///
    /// The thresholds are checked first; then the selected benchmarks are kept, and
    /// there must be some. A baseline chosen explicitly must have estimates for at
    /// least one of the benchmarks found.
    pub fn render(&self, entries: Vec<BenchEntry>) -> (res: Result<String, RenderError>)
        ensures
            renders_as(res, report(self@, entries@)),
    {
        let thresholds = self.change_thresholds;
        match thresholds.validate() {
            Err(e) => return Err(e),
            Ok(()) => {},
        }
        let baseline_found = has_baseline(&entries);
        let entries = select_entries(entries, &self.included_entries);
        if entries.len() == 0 {
            return Err(RenderError::NoResults { criterion_dir: self.criterion_dir.clone() });
        }
        if let Some(baseline) = &self.baseline {
            if !baseline_found {
                return Err(
                    RenderError::BaselineNotFound {
                        baseline: baseline.clone(),
                        baseline_root: self.baseline_root.clone(),
                    },
                );
            }
        }
        let summary = compute_summary(&entries, thresholds, self.summary_limit);
        let body = format_table(
            &entries,
            self.title.as_str(),
            self.collapsible,
            thresholds,
            &summary,
        );
        if !self.collapsible {
            return Ok(body);
        }
        let mut out = String::from_str("<details>\n<summary>");
        out.append(self.title.as_str());
        match summary.headline() {
            Some(headline) => {
                out.append(" (");
                out.append(headline.as_str());
                out.append(")");
            },
            None => {},
        }
        out.append("</summary>\n\n");
        out.append(body.as_str());
        out.append("\n</details>\n");
        assert(out@ =~= "<details>\n<summary>"@ + self@.title + headline_suffix(summary@)
            + "</summary>\n\n"@ + body@ + "\n</details>\n"@);
        Ok(out)
    }
}

/// Renders the entries found in a Criterion output directory with the default
/// settings.
///
/// `allowlist` filters benchmarks by `full_id`. If it is empty, no filtering is
/// applied.
pub fn render(criterion_dir: &str, entries: Vec<BenchEntry>, allowlist: Vec<String>) -> (res:
    Result<String, RenderError>)
    ensures
        renders_as(res, report(render_settings(criterion_dir@, texts(allowlist@)), entries@)),
{
    let renderer = Renderer::new(criterion_dir).benchmarks(allowlist);
    assert(renderer@ =~= render_settings(criterion_dir@, texts(allowlist@)));
    renderer.render(entries)
}

/// Like [`render`], but accepts additional [`RenderOptions`] to control output.
pub fn render_with_options(
    criterion_dir: &str,
    entries: Vec<BenchEntry>,
    allowlist: Vec<String>,
    options: &RenderOptions,
) -> (res: Result<String, RenderError>)
    ensures
        renders_as(
            res,
            report(options_settings(criterion_dir@, texts(allowlist@), options@), entries@),
        ),
{
    let mut renderer = Renderer::new(criterion_dir)
        .benchmarks(allowlist)
        .title(options.title.as_str())
        .collapsible(options.collapsible);
    match &options.baseline {
        Some(b) => {
            renderer = renderer.baseline(b.as_str());
        },
        None => {},
    }
    assert(renderer@ =~= options_settings(criterion_dir@, texts(allowlist@), options@));
    renderer.render(entries)
}

/// With no benchmark selected all entries are rendered; otherwise exactly the selected
/// ones, in the order they come.
pub proof fn lemma_selection(es: Seq<BenchEntry>, allow: Seq<Seq<char>>)
    ensures
        allow.len() == 0 ==> selected(es, allow) == es,
        allow.len() > 0 ==> forall|j: int|
            0 <= j < selected(es, allow).len() ==> is_allowed(#[trigger] selected(es, allow)[j], allow)
                && es.contains(selected(es, allow)[j]),
        allow.len() > 0 ==> forall|i: int|
            0 <= i < es.len() && is_allowed(#[trigger] es[i], allow) ==> selected(es, allow).contains(
                es[i],
            ),
{
    if allow.len() > 0 {
        lemma_retained(es, allow, es.len());
    }
}

proof fn lemma_retained(es: Seq<BenchEntry>, allow: Seq<Seq<char>>, n: nat)
    requires
        n <= es.len(),
    ensures
        forall|j: int|
            0 <= j < retained(es, allow, n).len() ==> is_allowed(#[trigger] retained(es, allow, n)[j], allow)
                && es.take(n as int).contains(retained(es, allow, n)[j]),
        forall|i: int|
            0 <= i < n && is_allowed(#[trigger] es[i], allow) ==> retained(es, allow, n).contains(es[i]),
    decreases n,
{
    if n > 0 {
        let m = (n - 1) as nat;
        lemma_retained(es, allow, m);
        let prev = retained(es, allow, m);
        let cur = retained(es, allow, n);
        assert forall|j: int| 0 <= j < cur.len() implies is_allowed(#[trigger] cur[j], allow)
            && es.take(n as int).contains(cur[j]) by {
            if j < prev.len() {
                assert(cur[j] == prev[j]);
                let i = choose|i: int| 0 <= i < m && es.take(m as int)[i] == prev[j];
                assert(es.take(n as int)[i] == prev[j]);
            } else {
                assert(es.take(n as int)[m as int] == cur[j]);
            }
        }
        assert forall|i: int| 0 <= i < n && is_allowed(#[trigger] es[i], allow) implies cur.contains(es[i]) by {
            if i < m {
                let j = choose|j: int| 0 <= j < prev.len() && prev[j] == es[i];
                if is_allowed(es[m as int], allow) {
                    assert(cur[j] == es[i]);
                }
            } else {
                assert(cur[prev.len() as int] == es[i]);
            }
        }
    }
}

/// Only a baseline chosen explicitly can be missing: with the default baseline a
/// report never fails for it. A chosen baseline that has estimates for none of the
/// benchmarks found is an error, once the thresholds are valid and some benchmark is
/// selected; one that has estimates for any of them is not.
pub proof fn lemma_baseline_requirement(s: Settings, es: Seq<BenchEntry>)
    ensures
        s.baseline is None ==> !(report(s, es) matches Err(Failure::BaselineNotFound { .. })),
        s.baseline is Some && threshold_check(s.change_thresholds) is Ok && selected(
            es,
            s.included_entries,
        ).len() > 0 && !any_baseline(es) ==> report(s, es) matches Err(
            Failure::BaselineNotFound { .. },
        ),
        any_baseline(es) ==> !(report(s, es) matches Err(Failure::BaselineNotFound { .. })),
{
}

/// The report body that follows the title heading: the summary and the group tables.
pub open spec fn report_rest(s: Settings, es: Seq<BenchEntry>) -> Seq<char> {
    let kept = selected(es, s.included_entries);
    let m = summary_model(kept, s.change_thresholds, s.summary_limit);
    table_view(kept, s.title, true, s.change_thresholds, m)
}

/// The headline suffix of a collapsed report.
pub open spec fn report_headline(s: Settings, es: Seq<BenchEntry>) -> Seq<char> {
    let kept = selected(es, s.included_entries);
    headline_suffix(summary_model(kept, s.change_thresholds, s.summary_limit))
}

/// A plain report is its title heading and the rest; the collapsed report with the
/// same settings is that same rest wrapped in a `<details>` element whose summary
/// line is the title and the headline, and it fails exactly as the plain one does.
#[verifier::spinoff_prover]
pub proof fn lemma_collapsed_rewraps(s: Settings, es: Seq<BenchEntry>)
    requires
        !s.collapsible,
    ensures
        report(s, es) is Ok ==> report(s, es)->Ok_0 == "# "@ + s.title + "\n\n"@ + report_rest(s, es),
        report(s, es) is Ok ==> report(Settings { collapsible: true, ..s }, es) == Ok::<Seq<char>, Failure>(
            "<details>\n<summary>"@ + s.title + report_headline(s, es) + "</summary>\n\n"@
                + report_rest(s, es) + "\n</details>\n"@,
        ),
        report(s, es) is Err ==> report(Settings { collapsible: true, ..s }, es) == report(s, es),
{
    let c = Settings { collapsible: true, ..s };
    assert(selected(es, c.included_entries) == selected(es, s.included_entries));
    if report(s, es) is Ok {
        let kept = selected(es, s.included_entries);
        let m = summary_model(kept, s.change_thresholds, s.summary_limit);
        assert(table_view(kept, s.title, false, s.change_thresholds, m) =~= "# "@ + s.title + "\n\n"@
            + report_rest(s, es));
    }
}

/// The default options render as `render` does.
pub proof fn lemma_default_options(dir: Seq<char>, allow: Seq<Seq<char>>, es: Seq<BenchEntry>)
    ensures
        report(options_settings(dir, allow, default_options()), es) == report(
            render_settings(dir, allow),
            es,
        ),
{
    assert(options_settings(dir, allow, default_options()) == render_settings(dir, allow));
}

/// Selections by lists with the same ids keep the same entries.
proof fn lemma_selected_by_ids(es: Seq<BenchEntry>, a: Seq<Seq<char>>, b: Seq<Seq<char>>, n: nat)
    requires
        n <= es.len(),
        forall|x: Seq<char>| a.contains(x) <==> b.contains(x),
    ensures
        retained(es, a, n) == retained(es, b, n),
        a.len() == 0 <==> b.len() == 0,
    decreases n,
{
    if a.len() > 0 {
        assert(a.contains(a[0]));
    }
    if b.len() > 0 {
        assert(b.contains(b[0]));
    }
    if n > 0 {
        lemma_selected_by_ids(es, a, b, (n - 1) as nat);
    }
}

/// A report depends on the selection only through its set of ids (order and
/// repetitions do not matter), and on the entries only through those it keeps and,
/// for a baseline chosen explicitly, whether the baseline has estimates for any of
/// them all.
pub proof fn lemma_report_depends_on_selected(s: Settings, t: Settings, es: Seq<BenchEntry>)
    requires
        t == (Settings { included_entries: t.included_entries, ..s }),
        forall|x: Seq<char>| s.included_entries.contains(x) <==> t.included_entries.contains(x),
    ensures
        report(s, es) == report(t, es),
        s.baseline is None || any_baseline(es) == any_baseline(selected(es, s.included_entries))
            ==> report(s, es) == report(
            Settings { included_entries: Seq::empty(), ..s },
            selected(es, s.included_entries),
        ),
{
    lemma_selected_by_ids(es, s.included_entries, t.included_entries, es.len());
    assert(selected(es, s.included_entries) == selected(es, t.included_entries));
    let u = Settings { included_entries: Seq::empty(), ..s };
    assert(selected(selected(es, s.included_entries), u.included_entries) == selected(
        es,
        s.included_entries,
    ));
}

/// A report opens with its title heading; a collapsible one is instead wrapped in a
/// `<details>` element whose summary starts with the title.
pub proof fn lemma_report_frame(s: Settings, es: Seq<BenchEntry>)
    ensures
        report(s, es) is Ok && !s.collapsible ==> ("# "@ + s.title + "\n\n"@).is_prefix_of(
            report(s, es)->Ok_0,
        ),
        report(s, es) is Ok && s.collapsible ==> ("<details>\n<summary>"@ + s.title).is_prefix_of(
            report(s, es)->Ok_0,
        ),
        report(s, es) is Ok && s.collapsible ==> ("\n</details>\n"@).is_suffix_of(
            report(s, es)->Ok_0,
        ),
{
    if report(s, es) is Ok {
        if !s.collapsible {
            lemma_collapsed_rewraps(s, es);
            let head = "# "@ + s.title + "\n\n"@;
            lemma_prefix(head, report_rest(s, es));
        } else {
            let plain = Settings { collapsible: false, ..s };
            lemma_collapsed_rewraps(plain, es);
            assert(Settings { collapsible: true, ..plain } =~= s);
            let out = report(s, es)->Ok_0;
            let head = "<details>\n<summary>"@ + s.title;
            let middle = report_headline(plain, es) + "</summary>\n\n"@ + report_rest(plain, es);
            let tail = "\n</details>\n"@;
            assert(out =~= head + (middle + tail));
            lemma_prefix(head, middle + tail);
            assert(out =~= (head + middle) + tail);
            lemma_suffix(head + middle, tail);
        }
    }
}

/// A text is a prefix of itself followed by anything.
proof fn lemma_prefix(head: Seq<char>, rest: Seq<char>)
    ensures
        head.is_prefix_of(head + rest),
{
    assert((head + rest).subrange(0, head.len() as int) =~= head);
}

/// A text is a suffix of anything followed by it.
proof fn lemma_suffix(front: Seq<char>, tail: Seq<char>)
    ensures
        tail.is_suffix_of(front + tail),
{
    assert((front + tail).subrange(front.len() as int, (front + tail).len() as int) =~= tail);
}

/// Once the thresholds are valid and some benchmark is selected, a report with a
/// baseline chosen explicitly fails for it exactly when no benchmark found, selected
/// or not, has estimates in that baseline.
pub proof fn lemma_baseline_found_anywhere(s: Settings, es: Seq<BenchEntry>)
    requires
        s.baseline is Some,
        threshold_check(s.change_thresholds) is Ok,
        selected(es, s.included_entries).len() > 0,
    ensures
        report(s, es) matches Err(Failure::BaselineNotFound { .. }) <==> forall|i: int|
            0 <= i < es.len() ==> !(#[trigger] es[i]).baseline_found,
{
}

} // verus!
