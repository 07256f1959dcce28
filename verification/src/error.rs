use vstd::prelude::*;

verus! {

/// Why a report could not be rendered.
#[derive(Clone, Debug)]
pub enum RenderError {
    /// The improvement ratio is not finite or is below 1.0.
    InvalidImprovementRatio,
    /// The strong improvement ratio is not finite or is below the improvement ratio.
    InvalidStrongImprovementRatio,
    /// The regression ratio is not finite, not positive, or above 1.0.
    InvalidRegressionRatio,
    /// No benchmark remained to be rendered.
    NoResults { criterion_dir: String },
    /// A baseline was chosen explicitly and none of the benchmarks has it.
    BaselineNotFound { baseline: String, baseline_root: String },
}

/// What a render error says: its kind, and the names it carries.
pub enum Failure {
    InvalidImprovementRatio,
    InvalidStrongImprovementRatio,
    InvalidRegressionRatio,
    NoResults { criterion_dir: Seq<char> },
    BaselineNotFound { baseline: Seq<char>, baseline_root: Seq<char> },
}

impl View for RenderError {
    type V = Failure;

    open spec fn view(&self) -> Failure {
        match self {
            RenderError::InvalidImprovementRatio => Failure::InvalidImprovementRatio,
            RenderError::InvalidStrongImprovementRatio => Failure::InvalidStrongImprovementRatio,
            RenderError::InvalidRegressionRatio => Failure::InvalidRegressionRatio,
            RenderError::NoResults { criterion_dir } => Failure::NoResults {
                criterion_dir: criterion_dir@,
            },
            RenderError::BaselineNotFound { baseline, baseline_root } => Failure::BaselineNotFound {
                baseline: baseline@,
                baseline_root: baseline_root@,
            },
        }
    }
}

impl RenderError {
    /// The text that describes the error.
    pub open spec fn message_view(self) -> Seq<char> {
        match self {
            RenderError::InvalidImprovementRatio =>
                "improvement ratio must be finite and at least 1.0"@,
            RenderError::InvalidStrongImprovementRatio =>
                "strong improvement ratio must be finite and at least the improvement ratio"@,
            RenderError::InvalidRegressionRatio =>
                "regression ratio must be finite, positive, and at most 1.0"@,
            RenderError::NoResults { criterion_dir } =>
                "No benchmark results found in "@ + criterion_dir@,
            RenderError::BaselineNotFound { baseline, baseline_root } =>
                "Baseline dataset '"@ + baseline@ + "' not found in "@ + baseline_root@,
        }
    }

    /// Describes the error.
    pub fn message(&self) -> (m: String)
        ensures
            m@ == self.message_view(),
    {
        match self {
            RenderError::InvalidImprovementRatio => String::from_str(
                "improvement ratio must be finite and at least 1.0",
            ),
            RenderError::InvalidStrongImprovementRatio => String::from_str(
                "strong improvement ratio must be finite and at least the improvement ratio",
            ),
            RenderError::InvalidRegressionRatio => String::from_str(
                "regression ratio must be finite, positive, and at most 1.0",
            ),
            RenderError::NoResults { criterion_dir } => {
                let mut m = String::from_str("No benchmark results found in ");
                m.append(criterion_dir.as_str());
                m
            },
            RenderError::BaselineNotFound { baseline, baseline_root } => {
                let mut m = String::from_str("Baseline dataset '");
                m.append(baseline.as_str());
                m.append("' not found in ");
                m.append(baseline_root.as_str());
                m
            },
        }
    }
}

} // verus!
