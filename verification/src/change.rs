use vstd::prelude::*;

use crate::error::RenderError;
use crate::level::{Level, ONE_POSITION, ZERO_POSITION};
use crate::model::ChangeInfo;

verus! {

/// Ratio thresholds controlling change indicators.
///
/// Ratios are calculated as `baseline time / candidate time` and classified as
/// regression, neutral, improvement, or strong improvement.
#[derive(Clone, Copy, Debug)]
pub struct ChangeThresholds {
    pub improvement_ratio: Level,
    pub strong_improvement_ratio: Level,
    pub regression_ratio: Level,
}

/// Position of `1.1`, the default improvement ratio.
pub const DEFAULT_IMPROVEMENT: u64 = 0xBFF1_9999_9999_999A;

/// Position of `1.8`, the default strong improvement ratio.
pub const DEFAULT_STRONG_IMPROVEMENT: u64 = 0xBFFC_CCCC_CCCC_CCCD;

/// Position of `0.9`, the default regression ratio.
pub const DEFAULT_REGRESSION: u64 = 0xBFEC_CCCC_CCCC_CCCD;

/// The default thresholds: 1.1 for an improvement, 1.8 for a strong improvement,
/// and 0.9 for a regression.
pub open spec fn default_thresholds() -> ChangeThresholds {
    ChangeThresholds {
        improvement_ratio: Level { position: DEFAULT_IMPROVEMENT },
        strong_improvement_ratio: Level { position: DEFAULT_STRONG_IMPROVEMENT },
        regression_ratio: Level { position: DEFAULT_REGRESSION },
    }
}

impl Default for ChangeThresholds {
    fn default() -> (t: Self)
        ensures
            t == default_thresholds(),
    {
        ChangeThresholds {
            improvement_ratio: Level { position: DEFAULT_IMPROVEMENT },
            strong_improvement_ratio: Level { position: DEFAULT_STRONG_IMPROVEMENT },
            regression_ratio: Level { position: DEFAULT_REGRESSION },
        }
    }
}

/// Whether the thresholds are usable, and which one is not.
pub open spec fn threshold_check(t: ChangeThresholds) -> Result<(), RenderError> {
    if !t.improvement_ratio.spec_is_finite() || t.improvement_ratio.position < ONE_POSITION {
        Err(RenderError::InvalidImprovementRatio)
    } else if !t.strong_improvement_ratio.spec_is_finite()
        || t.strong_improvement_ratio.position < t.improvement_ratio.position {
        Err(RenderError::InvalidStrongImprovementRatio)
    } else if !t.regression_ratio.spec_is_finite() || t.regression_ratio.position
        <= ZERO_POSITION || t.regression_ratio.position > ONE_POSITION {
        Err(RenderError::InvalidRegressionRatio)
    } else {
        Ok(())
    }
}

impl ChangeThresholds {
    /// Sets the minimum ratio rendered as an improvement. Defaults to `1.1`.
    pub fn improvement_ratio(self, ratio: Level) -> (t: Self)
        ensures
            t == (ChangeThresholds { improvement_ratio: ratio, ..self }),
    {
        ChangeThresholds { improvement_ratio: ratio, ..self }
    }

    /// Sets the minimum ratio rendered as a strong improvement. Defaults to `1.8`.
    pub fn strong_improvement_ratio(self, ratio: Level) -> (t: Self)
        ensures
            t == (ChangeThresholds { strong_improvement_ratio: ratio, ..self }),
    {
        ChangeThresholds { strong_improvement_ratio: ratio, ..self }
    }

    /// Sets the maximum ratio rendered as a regression. Defaults to `0.9`.
    pub fn regression_ratio(self, ratio: Level) -> (t: Self)
        ensures
            t == (ChangeThresholds { regression_ratio: ratio, ..self }),
    {
        ChangeThresholds { regression_ratio: ratio, ..self }
    }

    /// Checks that the improvement ratio is finite and at least 1.0, the strong
    /// improvement ratio finite and at least the improvement ratio, and the
    /// regression ratio finite, positive and at most 1.0.
    pub fn validate(self) -> (r: Result<(), RenderError>)
        ensures
            r == threshold_check(self),
    {
        if !self.improvement_ratio.is_finite() || self.improvement_ratio.position < ONE_POSITION {
            return Err(RenderError::InvalidImprovementRatio);
        }
        if !self.strong_improvement_ratio.is_finite()
            || self.strong_improvement_ratio.position < self.improvement_ratio.position {
            return Err(RenderError::InvalidStrongImprovementRatio);
        }
        if !self.regression_ratio.is_finite() || self.regression_ratio.position <= ZERO_POSITION
            || self.regression_ratio.position > ONE_POSITION {
            return Err(RenderError::InvalidRegressionRatio);
        }
        Ok(())
    }
}

/// The tier of a change.
#[derive(Clone, Copy, PartialEq, Eq, Structural, Debug)]
pub enum ChangeKind {
    StrongImprovement,
    Improvement,
    Neutral,
    Regression,
}

/// A change with a usable ratio and its tier, or one without.
#[derive(Clone, Copy, PartialEq, Eq, Structural, Debug)]
pub enum ChangeClassification {
    Valid { ratio: Level, kind: ChangeKind },
    Invalid,
}

/// The tier of a change whose `baseline / candidate` quantity is `compare`.
pub open spec fn kind_of(compare: Level, t: ChangeThresholds) -> ChangeKind {
    if compare.position >= t.strong_improvement_ratio.position {
        ChangeKind::StrongImprovement
    } else if compare.position >= t.improvement_ratio.position {
        ChangeKind::Improvement
    } else if compare.position > t.regression_ratio.position {
        ChangeKind::Neutral
    } else {
        ChangeKind::Regression
    }
}

/// A change is usable when its ratio is finite and positive.
pub open spec fn classification(c: ChangeInfo, t: ChangeThresholds) -> ChangeClassification {
    if !c.ratio.spec_is_finite() || c.ratio.position <= ZERO_POSITION {
        ChangeClassification::Invalid
    } else {
        ChangeClassification::Valid { ratio: c.ratio, kind: kind_of(c.compare, t) }
    }
}

/// Classifies a change against the thresholds.
pub fn classify_change(change: &ChangeInfo, thresholds: ChangeThresholds) -> (c:
    ChangeClassification)
    ensures
        c == classification(*change, thresholds),
{
    if !change.ratio.is_finite() || change.ratio.position <= ZERO_POSITION {
        return ChangeClassification::Invalid;
    }
    let compare = change.compare.position;
    let kind = if compare >= thresholds.strong_improvement_ratio.position {
        ChangeKind::StrongImprovement
    } else if compare >= thresholds.improvement_ratio.position {
        ChangeKind::Improvement
    } else if compare > thresholds.regression_ratio.position {
        ChangeKind::Neutral
    } else {
        ChangeKind::Regression
    };
    ChangeClassification::Valid { ratio: change.ratio, kind }
}

/// How much faster or slower: `1/ratio` when faster, `ratio` otherwise.
pub open spec fn magnitude_view(c: ChangeInfo) -> Seq<char> {
    if c.ratio.position < ONE_POSITION {
        c.compare_text@
    } else {
        c.ratio_text@
    }
}

/// The speedup phrase, e.g. `2.00x faster`, `1.50x slower` or `1.00x`.
pub open spec fn speedup_view(c: ChangeInfo) -> Seq<char> {
    if c.ratio.position < ONE_POSITION {
        c.compare_text@ + "x faster"@
    } else if c.ratio.position > ONE_POSITION {
        c.ratio_text@ + "x slower"@
    } else {
        c.ratio_text@ + "x"@
    }
}

/// The change column text of a benchmark.
pub open spec fn change_view(change: Option<ChangeInfo>, t: ChangeThresholds) -> Seq<char> {
    match change {
        None => "---"@,
        Some(c) => match classification(c, t) {
            ChangeClassification::Invalid => "⚠ n/a"@,
            ChangeClassification::Valid { kind, .. } => match kind {
                ChangeKind::StrongImprovement => "🚀 **"@ + speedup_view(c) + "**"@,
                ChangeKind::Improvement => "↗️ **"@ + speedup_view(c) + "**"@,
                ChangeKind::Neutral => "➖ **"@ + speedup_view(c) + "**"@,
                ChangeKind::Regression => "❌ *"@ + speedup_view(c) + "*"@,
            },
        },
    }
}

/// The icon of a tier.
pub open spec fn icon_view(kind: ChangeKind) -> Seq<char> {
    match kind {
        ChangeKind::StrongImprovement => "🚀"@,
        ChangeKind::Improvement => "↗️"@,
        ChangeKind::Neutral => "➖"@,
        ChangeKind::Regression => "❌"@,
    }
}

/// The short change text used in headlines, e.g. `🚀 2.00x`.
pub open spec fn compact_view(c: ChangeInfo, t: ChangeThresholds) -> Seq<char> {
    match classification(c, t) {
        ChangeClassification::Invalid => "⚠ n/a"@,
        ChangeClassification::Valid { kind, .. } => icon_view(kind) + " "@ + magnitude_view(c)
            + "x"@,
    }
}

fn push_speedup(out: &mut String, change: &ChangeInfo)
    ensures
        final(out)@ == old(out)@ + speedup_view(*change),
{
    let one = Level::one();
    if change.ratio.position < one.position {
        out.append(change.compare_text.as_str());
        out.append("x faster");
    } else if change.ratio.position > one.position {
        out.append(change.ratio_text.as_str());
        out.append("x slower");
    } else {
        out.append(change.ratio_text.as_str());
        out.append("x");
    }
    assert(final(out)@ =~= old(out)@ + speedup_view(*change));
}

/// Formats change vs baseline with tiered emojis (matching criterion-table style).
///
/// Uses `compare = baseline / candidate` and the configured thresholds to
/// determine the indicator tier.
pub fn format_change(change: &Option<ChangeInfo>, thresholds: ChangeThresholds) -> (s: String)
    ensures
        s@ == change_view(*change, thresholds),
{
    let c = match change {
        None => return String::from_str("---"),
        Some(c) => c,
    };
    let kind = match classify_change(c, thresholds) {
        ChangeClassification::Invalid => return String::from_str("⚠ n/a"),
        ChangeClassification::Valid { kind, .. } => kind,
    };
    let mut s = match kind {
        ChangeKind::StrongImprovement => String::from_str("🚀 **"),
        ChangeKind::Improvement => String::from_str("↗️ **"),
        ChangeKind::Neutral => String::from_str("➖ **"),
        ChangeKind::Regression => String::from_str("❌ *"),
    };
    push_speedup(&mut s, c);
    match kind {
        ChangeKind::Regression => s.append("*"),
        _ => s.append("**"),
    }
    s
}

/// Formats a change as an icon and a magnitude, as headlines show it.
pub fn format_compact_change(change: &ChangeInfo, thresholds: ChangeThresholds) -> (s: String)
    ensures
        s@ == compact_view(*change, thresholds),
{
    let kind = match classify_change(change, thresholds) {
        ChangeClassification::Invalid => return String::from_str("⚠ n/a"),
        ChangeClassification::Valid { kind, .. } => kind,
    };
    let mut s = match kind {
        ChangeKind::StrongImprovement => String::from_str("🚀"),
        ChangeKind::Improvement => String::from_str("↗️"),
        ChangeKind::Neutral => String::from_str("➖"),
        ChangeKind::Regression => String::from_str("❌"),
    };
    s.append(" ");
    let one = Level::one();
    if change.ratio.position < one.position {
        s.append(change.compare_text.as_str());
    } else {
        s.append(change.ratio_text.as_str());
    }
    s.append("x");
    s
}

/// The rank of a tier, from regression up to strong improvement.
pub open spec fn tier(kind: ChangeKind) -> int {
    match kind {
        ChangeKind::Regression => 0,
        ChangeKind::Neutral => 1,
        ChangeKind::Improvement => 2,
        ChangeKind::StrongImprovement => 3,
    }
}

/// The default thresholds are valid.
pub proof fn lemma_default_thresholds_valid()
    ensures
        threshold_check(default_thresholds()) is Ok,
{
}

/// The tier of a change never drops as its speedup (`baseline / candidate`) grows.
pub proof fn lemma_tier_monotone(slower: Level, faster: Level, t: ChangeThresholds)
    requires
        slower.position <= faster.position,
    ensures
        tier(kind_of(slower, t)) <= tier(kind_of(faster, t)),
{
}

/// With valid thresholds the tiers are nested: a speedup that reaches the strong
/// improvement ratio reaches the improvement ratio, one that reaches the improvement
/// ratio reaches the regression ratio; and a speedup of exactly 1 is neutral when
/// the improvement ratio is above 1 and the regression ratio below it.
pub proof fn lemma_tiers_nested(compare: Level, t: ChangeThresholds)
    requires
        threshold_check(t) is Ok,
    ensures
        compare.position >= t.strong_improvement_ratio.position ==> compare.position
            >= t.improvement_ratio.position,
        compare.position >= t.improvement_ratio.position ==> compare.position
            >= t.regression_ratio.position,
        compare.position == ONE_POSITION && t.improvement_ratio.position > ONE_POSITION
            && t.regression_ratio.position < ONE_POSITION ==> kind_of(compare, t)
            == ChangeKind::Neutral,
{
}

/// A benchmark without a baseline shows `---`; one whose ratio is not finite and
/// positive shows `⚠ n/a`.
pub proof fn lemma_unavailable_changes(c: ChangeInfo, t: ChangeThresholds)
    ensures
        change_view(None, t) == "---"@,
        !c.ratio.spec_is_finite() || c.ratio.position <= ZERO_POSITION ==> change_view(Some(c), t)
            == "⚠ n/a"@,
{
}

/// With valid thresholds, a consistent change is worded as its tier says: an
/// improvement is never called slower, a regression never faster.
pub proof fn lemma_wording_agrees_with_tier(c: ChangeInfo, t: ChangeThresholds)
    requires
        threshold_check(t) is Ok,
        c.is_consistent(),
    ensures
        classification(c, t) matches ChangeClassification::Valid { kind, .. } && (kind
            == ChangeKind::Improvement || kind == ChangeKind::StrongImprovement) ==> (speedup_view(c)
            == c.compare_text@ + "x faster"@ || speedup_view(c) == c.ratio_text@ + "x"@),
        classification(c, t) matches ChangeClassification::Valid { kind, .. } && kind
            == ChangeKind::Regression ==> (speedup_view(c) == c.ratio_text@ + "x slower"@
            || speedup_view(c) == c.ratio_text@ + "x"@),
{
}

/// With valid thresholds, the tier of a consistent change follows the sign of its
/// relative change: a benchmark that got faster is no regression when the regression
/// ratio is below 1, and one that got slower is no improvement when the improvement
/// ratio is above 1.
pub proof fn lemma_tier_follows_sign(c: ChangeInfo, t: ChangeThresholds)
    requires
        threshold_check(t) is Ok,
        c.is_consistent(),
    ensures
        classification(c, t) is Valid && c.point_estimate.position < ZERO_POSITION
            && t.regression_ratio.position < ONE_POSITION ==> kind_of(c.compare, t)
            != ChangeKind::Regression,
        classification(c, t) is Valid && c.point_estimate.position > ZERO_POSITION
            && t.improvement_ratio.position > ONE_POSITION ==> kind_of(c.compare, t)
            == ChangeKind::Neutral || kind_of(c.compare, t) == ChangeKind::Regression,
{
}

/// A change whose ratio is finite and positive is classified by its speedup
/// (`baseline / candidate`) against the thresholds passed in, and keeps its ratio:
/// a strong improvement exactly from the strong improvement ratio up; an improvement
/// exactly from the improvement ratio up to below the strong one; a regression exactly
/// at or below the regression ratio and below the other two; neutral otherwise. A
/// change whose ratio is not finite and positive is not classified.
pub proof fn lemma_classification_follows_thresholds(c: ChangeInfo, t: ChangeThresholds)
    ensures
        !(c.ratio.spec_is_finite() && c.ratio.position > ZERO_POSITION) ==> classification(c, t)
            == ChangeClassification::Invalid,
        c.ratio.spec_is_finite() && c.ratio.position > ZERO_POSITION ==> {
            &&& (classification(c, t) == (ChangeClassification::Valid {
                ratio: c.ratio,
                kind: ChangeKind::StrongImprovement,
            }) <==> c.compare.position >= t.strong_improvement_ratio.position)
            &&& (classification(c, t) == (ChangeClassification::Valid {
                ratio: c.ratio,
                kind: ChangeKind::Improvement,
            }) <==> t.improvement_ratio.position <= c.compare.position
                < t.strong_improvement_ratio.position)
            &&& (classification(c, t) == (ChangeClassification::Valid {
                ratio: c.ratio,
                kind: ChangeKind::Neutral,
            }) <==> t.regression_ratio.position < c.compare.position
                < t.improvement_ratio.position && c.compare.position
                < t.strong_improvement_ratio.position)
            &&& (classification(c, t) == (ChangeClassification::Valid {
                ratio: c.ratio,
                kind: ChangeKind::Regression,
            }) <==> c.compare.position <= t.regression_ratio.position && c.compare.position
                < t.improvement_ratio.position && c.compare.position
                < t.strong_improvement_ratio.position)
        },
{
}

/// The speedup phrase names the speedup when the benchmark got faster, the
/// slowdown when it got slower, and the ratio alone when it did neither.
pub proof fn lemma_speedup_phrase(c: ChangeInfo)
    ensures
        c.ratio.position < ONE_POSITION ==> speedup_view(c) == c.compare_text@ + "x faster"@,
        c.ratio.position > ONE_POSITION ==> speedup_view(c) == c.ratio_text@ + "x slower"@,
        c.ratio.position == ONE_POSITION ==> speedup_view(c) == c.ratio_text@ + "x"@,
{
}

/// A change whose ratio is finite and positive is never shown as unavailable: its
/// column holds the icon of the region of the thresholds its speedup falls in, then
/// the speedup phrase, in bold but for a regression, which is in italics.
pub proof fn lemma_change_column(c: ChangeInfo, t: ChangeThresholds)
    requires
        c.ratio.spec_is_finite(),
        c.ratio.position > ZERO_POSITION,
    ensures
        change_view(Some(c), t) != "⚠ n/a"@,
        c.compare.position >= t.strong_improvement_ratio.position ==> change_view(Some(c), t)
            == "🚀 **"@ + speedup_view(c) + "**"@,
        t.improvement_ratio.position <= c.compare.position < t.strong_improvement_ratio.position
            ==> change_view(Some(c), t) == "↗️ **"@ + speedup_view(c) + "**"@,
        t.regression_ratio.position < c.compare.position < t.improvement_ratio.position
            && c.compare.position < t.strong_improvement_ratio.position ==> change_view(Some(c), t)
            == "➖ **"@ + speedup_view(c) + "**"@,
        c.compare.position <= t.regression_ratio.position && c.compare.position
            < t.improvement_ratio.position && c.compare.position
            < t.strong_improvement_ratio.position ==> change_view(Some(c), t) == "❌ *"@
            + speedup_view(c) + "*"@,
{
    reveal_strlit("⚠ n/a");
    reveal_strlit("🚀 **");
    reveal_strlit("↗️ **");
    reveal_strlit("➖ **");
    reveal_strlit("❌ *");
    let v = change_view(Some(c), t);
    let p = if c.compare.position >= t.strong_improvement_ratio.position {
        "🚀 **"@
    } else if c.compare.position >= t.improvement_ratio.position {
        "↗️ **"@
    } else if c.compare.position > t.regression_ratio.position {
        "➖ **"@
    } else {
        "❌ *"@
    };
    let q = if c.compare.position >= t.strong_improvement_ratio.position || c.compare.position
        >= t.improvement_ratio.position || c.compare.position > t.regression_ratio.position {
        "**"@
    } else {
        "*"@
    };
    assert(v == p + speedup_view(c) + q);
    assert(v[0] == p[0]);
    assert(v[0] != "⚠ n/a"@[0]);
}

/// The short text of a change with a finite, positive ratio is the icon of its
/// region of the thresholds, a space, and the speedup when the benchmark got faster
/// or the ratio otherwise, followed by `x`.
pub proof fn lemma_compact_text(c: ChangeInfo, t: ChangeThresholds)
    requires
        c.ratio.spec_is_finite(),
        c.ratio.position > ZERO_POSITION,
    ensures
        c.ratio.position < ONE_POSITION ==> magnitude_view(c) == c.compare_text@,
        c.ratio.position >= ONE_POSITION ==> magnitude_view(c) == c.ratio_text@,
        c.compare.position >= t.strong_improvement_ratio.position ==> compact_view(c, t) == "🚀 "@
            + magnitude_view(c) + "x"@,
        t.improvement_ratio.position <= c.compare.position < t.strong_improvement_ratio.position
            ==> compact_view(c, t) == "↗️ "@ + magnitude_view(c) + "x"@,
        t.regression_ratio.position < c.compare.position < t.improvement_ratio.position
            && c.compare.position < t.strong_improvement_ratio.position ==> compact_view(c, t)
            == "➖ "@ + magnitude_view(c) + "x"@,
        c.compare.position <= t.regression_ratio.position && c.compare.position
            < t.improvement_ratio.position && c.compare.position
            < t.strong_improvement_ratio.position ==> compact_view(c, t) == "❌ "@
            + magnitude_view(c) + "x"@,
{
    reveal_strlit("🚀");
    reveal_strlit("↗️");
    reveal_strlit("➖");
    reveal_strlit("❌");
    reveal_strlit(" ");
    reveal_strlit("🚀 ");
    reveal_strlit("↗️ ");
    reveal_strlit("➖ ");
    reveal_strlit("❌ ");
    assert("🚀"@ + " "@ =~= "🚀 "@);
    assert("↗️"@ + " "@ =~= "↗️ "@);
    assert("➖"@ + " "@ =~= "➖ "@);
    assert("❌"@ + " "@ =~= "❌ "@);
}

/// The thresholds are accepted exactly when the improvement ratio is finite and at
/// least 1, the strong improvement ratio finite and at least the improvement ratio,
/// and the regression ratio finite, above 0 and at most 1; otherwise the first of
/// these that fails, in that order, names the error.
pub proof fn lemma_threshold_rules(t: ChangeThresholds)
    ensures
        threshold_check(t) is Ok <==> {
            &&& t.improvement_ratio.spec_is_finite()
            &&& ONE_POSITION <= t.improvement_ratio.position
            &&& t.strong_improvement_ratio.spec_is_finite()
            &&& t.improvement_ratio.position <= t.strong_improvement_ratio.position
            &&& t.regression_ratio.spec_is_finite()
            &&& ZERO_POSITION < t.regression_ratio.position <= ONE_POSITION
        },
        !t.improvement_ratio.spec_is_finite() || t.improvement_ratio.position < ONE_POSITION
            ==> threshold_check(t) == Err::<(), RenderError>(RenderError::InvalidImprovementRatio),
        t.improvement_ratio.spec_is_finite() && ONE_POSITION <= t.improvement_ratio.position && (
        !t.strong_improvement_ratio.spec_is_finite() || t.strong_improvement_ratio.position
            < t.improvement_ratio.position) ==> threshold_check(t) == Err::<(), RenderError>(
            RenderError::InvalidStrongImprovementRatio,
        ),
        t.improvement_ratio.spec_is_finite() && ONE_POSITION <= t.improvement_ratio.position
            && t.strong_improvement_ratio.spec_is_finite() && t.improvement_ratio.position
            <= t.strong_improvement_ratio.position && (!t.regression_ratio.spec_is_finite()
            || t.regression_ratio.position <= ZERO_POSITION || ONE_POSITION
            < t.regression_ratio.position) ==> threshold_check(t) == Err::<(), RenderError>(
            RenderError::InvalidRegressionRatio,
        ),
{
}

} // verus!
