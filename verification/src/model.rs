use vstd::prelude::*;

use crate::level::{Level, ONE_POSITION, ZERO_POSITION};
use crate::text::{find_last, last_index_of};

verus! {

/// Throughput specification of a benchmark.
#[derive(Clone, Copy, PartialEq, Eq, Structural, Debug)]
pub enum Throughput {
    Bytes(u64),
    Elements(u64),
}

/// The change of a benchmark against its baseline.
///
/// The arithmetic on the measured times happens where the times are read; the
/// report works from the quantities below.
#[derive(Clone, Debug)]
pub struct ChangeInfo {
    /// Relative change as a fraction (candidate over baseline, minus one),
    /// e.g. `0.05` for 5% slower.
    pub point_estimate: Level,
    /// `1 + point_estimate`: candidate time over baseline time.
    pub ratio: Level,
    /// `1 / ratio`: baseline time over candidate time.
    pub compare: Level,
    /// `ratio` written with two decimals.
    pub ratio_text: String,
    /// `compare` written with two decimals.
    pub compare_text: String,
}

impl ChangeInfo {
    /// The ratio can be compared: it is finite and positive.
    pub open spec fn has_usable_ratio(self) -> bool {
        self.ratio.spec_is_finite() && self.ratio.position > ZERO_POSITION
    }

    /// The quantities of a change agree, as `ratio = 1 + point_estimate` and
    /// `compare = 1 / ratio` make them: when the ratio is usable, it is below 1
    /// exactly when `compare` is above 1 and above 1 exactly when `compare` is below;
    /// and a negative relative change has a ratio of at most 1, a positive one a
    /// ratio of at least 1, and no change a ratio of 1.
    pub open spec fn is_consistent(self) -> bool {
        self.has_usable_ratio() ==> {
            &&& (self.ratio.position < ONE_POSITION <==> self.compare.position > ONE_POSITION)
            &&& (self.ratio.position > ONE_POSITION <==> self.compare.position < ONE_POSITION)
            &&& (self.point_estimate.position < ZERO_POSITION ==> self.ratio.position
                <= ONE_POSITION)
            &&& (self.point_estimate.position > ZERO_POSITION ==> self.ratio.position
                >= ONE_POSITION)
            &&& (self.point_estimate.position == ZERO_POSITION ==> self.ratio.position
                == ONE_POSITION)
        }
    }

    /// The change made of these quantities, when they are consistent.
    pub fn new(
        point_estimate: Level,
        ratio: Level,
        compare: Level,
        ratio_text: String,
        compare_text: String,
    ) -> (c: Option<ChangeInfo>)
        ensures
            match c {
                Some(c) => c.is_consistent() && c == (ChangeInfo {
                    point_estimate,
                    ratio,
                    compare,
                    ratio_text,
                    compare_text,
                }),
                None => !(ChangeInfo { point_estimate, ratio, compare, ratio_text, compare_text }).is_consistent(),
            },
    {
        let one = ONE_POSITION;
        let zero = ZERO_POSITION;
        let usable = ratio.is_finite() && ratio.position > zero;
        let consistent = !usable || (((ratio.position < one) == (compare.position > one))
            && ((ratio.position > one) == (compare.position < one)) && (!(point_estimate.position
            < zero) || ratio.position <= one) && (!(point_estimate.position > zero)
            || ratio.position >= one) && (!(point_estimate.position == zero) || ratio.position
            == one));
        if consistent {
            Some(ChangeInfo { point_estimate, ratio, compare, ratio_text, compare_text })
        } else {
            None
        }
    }
}

/// A single benchmark entry with its metadata and timing.
#[derive(Clone, Debug)]
pub struct BenchEntry {
    pub full_id: String,
    pub group_id: String,
    pub function_id: String,
    pub value_str: Option<String>,
    /// The typical time, written with its unit (e.g. `12.00 µs`).
    pub estimate_text: String,
    pub throughput: Option<Throughput>,
    /// The selected baseline has estimates for this benchmark (whether or not they
    /// could be read).
    pub baseline_found: bool,
    /// Change vs the selected baseline, if its estimates could be read.
    pub change: Option<ChangeInfo>,
}

impl BenchEntry {
    /// The column label: the whole `function_id` when `value_str` is set, else the
    /// part of `function_id` before its last `/` (all of it when there is none).
    pub open spec fn column_view(self) -> Seq<char> {
        if self.value_str is Some {
            self.function_id@
        } else {
            match last_index_of(self.function_id@, '/') {
                Some(i) => self.function_id@.subrange(0, i),
                None => self.function_id@,
            }
        }
    }

    /// The row label: `value_str` when set, else the part of `function_id` after its
    /// last `/`; no label when there is neither.
    pub open spec fn row_view(self) -> Option<Seq<char>> {
        match self.value_str {
            Some(v) => Some(v@),
            None => match last_index_of(self.function_id@, '/') {
                Some(i) => Some(self.function_id@.subrange(i + 1, self.function_id@.len() as int)),
                None => None,
            },
        }
    }

    /// Returns the column label for this benchmark (the function name).
    ///
    /// If `value_str` is set, the full `function_id` is the column.
    /// Otherwise, if `function_id` contains "/", the part before the last "/" is the column.
    pub fn column(&self) -> (c: &str)
        ensures
            c@ == self.column_view(),
    {
        if self.value_str.is_some() {
            return self.function_id.as_str();
        }
        let id = self.function_id.as_str();
        proof {
            crate::text::lemma_last_index_of(id@, '/');
        }
        match find_last(id, '/') {
            Some(idx) => id.substring_char(0, idx),
            None => id,
        }
    }

    /// Returns the row label for this benchmark (the parameter/value).
    ///
    /// Uses `value_str` if set, otherwise the part after the last "/" in `function_id`.
    pub fn row(&self) -> (r: Option<&str>)
        ensures
            match r {
                Some(t) => self.row_view() == Some(t@),
                None => self.row_view() is None,
            },
    {
        if let Some(v) = &self.value_str {
            return Some(v.as_str());
        }
        let id = self.function_id.as_str();
        proof {
            crate::text::lemma_last_index_of(id@, '/');
        }
        match find_last(id, '/') {
            Some(idx) => {
                let n = id.unicode_len();
                Some(id.substring_char(idx + 1, n))
            },
            None => None,
        }
    }
}

/// The labels of a benchmark: with a value, the whole function id is the column and
/// the value the row; without one, an id without `/` is the column alone, with no
/// row, and otherwise the column, a `/` and the row make up the id, the row holding
/// no `/`.
pub proof fn lemma_labels(e: BenchEntry)
    ensures
        e.value_str is Some ==> e.column_view() == e.function_id@ && e.row_view() == Some(
            e.value_str->Some_0@,
        ),
        e.value_str is None && !e.function_id@.contains('/') ==> e.column_view() == e.function_id@
            && e.row_view() is None,
        e.value_str is None && e.row_view() is Some ==> e.column_view() + "/"@
            + e.row_view()->Some_0 == e.function_id@ && !e.row_view()->Some_0.contains('/'),
        e.value_str is None && e.function_id@.contains('/') ==> e.row_view() is Some,
{
    let id = e.function_id@;
    crate::text::lemma_last_index_of(id, '/');
    reveal_strlit("/");
    if e.value_str is None {
        match last_index_of(id, '/') {
            Some(i) => {
                let r = id.subrange(i + 1, id.len() as int);
                assert(id.subrange(0, i) + "/"@ + r =~= id);
                if r.contains('/') {
                    let j = choose|j: int| 0 <= j < r.len() && r[j] == '/';
                    assert(id[i + 1 + j] == '/');
                }
            },
            None => {
                if id.contains('/') {
                    let j = choose|j: int| 0 <= j < id.len() && id[j] == '/';
                    assert(id[j] == '/');
                }
            },
        }
    }
}

} // verus!
