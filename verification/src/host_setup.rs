use vstd::prelude::*;

verus! {

/// One step in preparing the host directories of a job, in the order they are taken.
#[derive(Debug)]
pub enum SetupStep {
    /// Create the directory (and its parents) if it is missing; a failure ends the
    /// preparation with that error.
    CreateDir(String),
    /// Create the directory (and its parents) if it is missing; a failure is ignored.
    TryCreateDir(String),
    /// Write the Sniper arguments of the job's configuration with the given index, as
    /// pretty-printed JSON, to the file; a failure ends the preparation with that error.
    WriteArguments(String, usize),
}

/// A setup step as the model sees it.
pub enum StepView {
    CreateDir(Seq<char>),
    TryCreateDir(Seq<char>),
    WriteArguments(Seq<char>, nat),
}

impl View for SetupStep {
    type V = StepView;

    open spec fn view(&self) -> StepView {
        match self {
            SetupStep::CreateDir(p) => StepView::CreateDir(p@),
            SetupStep::TryCreateDir(p) => StepView::TryCreateDir(p@),
            SetupStep::WriteArguments(p, i) => StepView::WriteArguments(p@, *i as nat),
        }
    }
}

/// The views of a list of steps.
pub open spec fn step_views(v: Seq<SetupStep>) -> Seq<StepView> {
    v.map_values(|s: SetupStep| s@)
}

/// Appends `s` to `steps`.
pub fn push_step(steps: &mut Vec<SetupStep>, s: SetupStep)
    ensures
        step_views(final(steps)@) == step_views(old(steps)@).push(s@),
{
    let ghost s0 = steps@;
    let ghost sv = s@;
    steps.push(s);
    assert(step_views(steps@) =~= step_views(s0).push(sv));
}

} // verus!
