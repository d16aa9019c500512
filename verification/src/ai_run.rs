//! The AI mode on one video, window by window: the caller extracts frames,
//! asks the model and reports how each window went; the shots kept and the
//! error to report are decided here.
use vstd::prelude::*;
use crate::text::{chars_of, push_str, push_decimal, decimal, string_of};
use crate::vision::{CutShot, ShotView, shot_views};

verus! {

/// The error when `ffmpeg` cannot be started for window `chunk` (from 0).
pub open spec fn spawn_failed_text(chunk: int) -> Seq<char> {
    "分片 "@ + decimal((chunk + 1) as nat) + " 无法启动 ffmpeg"@
}

/// The error when extracting the frames of window `chunk` (from 0) fails.
pub open spec fn extract_failed_text(chunk: int) -> Seq<char> {
    "分片 "@ + decimal((chunk + 1) as nat) + " 抽帧失败"@
}

/// The error when the model fails on window `chunk` (from 0) with `error`.
pub open spec fn model_failed_text(chunk: int, error: Seq<char>) -> Seq<char> {
    "分片 "@ + decimal((chunk + 1) as nat) + " AI 失败: "@ + error
}

/// The error of a video for which no shot was picked, when no window failed.
pub open spec fn nothing_picked_text() -> Seq<char> {
    "AI 未挑选出任何镜头"@
}

fn window_message(chunk: usize, middle: &str, tail: &str) -> (r: String)
    ensures
        r@ == "分片 "@ + decimal(chunk as nat + 1) + middle@ + tail@,
{
    let mut out = chars_of("分片 ");
    push_decimal(&mut out, chunk as u128 + 1);
    push_str(&mut out, middle);
    push_str(&mut out, tail);
    string_of(out.as_slice())
}

/// The error when `ffmpeg` cannot be started for window `chunk` (see `spawn_failed_text`).
pub fn chunk_spawn_failed(chunk: usize) -> (r: String)
    ensures
        r@ == spawn_failed_text(chunk as int),
{
    proof {
        reveal_strlit("");
    }
    let r = window_message(chunk, " 无法启动 ffmpeg", "");
    assert(r@ =~= spawn_failed_text(chunk as int));
    r
}

/// The error when extracting the frames of window `chunk` fails (see `extract_failed_text`).
pub fn chunk_extract_failed(chunk: usize) -> (r: String)
    ensures
        r@ == extract_failed_text(chunk as int),
{
    proof {
        reveal_strlit("");
    }
    let r = window_message(chunk, " 抽帧失败", "");
    assert(r@ =~= extract_failed_text(chunk as int));
    r
}

/// The error when the model fails on window `chunk` (see `model_failed_text`).
pub fn chunk_ai_failed(chunk: usize, error: &str) -> (r: String)
    ensures
        r@ == model_failed_text(chunk as int, error@),
{
    let r = window_message(chunk, " AI 失败: ", error);
    assert(r@ =~= model_failed_text(chunk as int, error@));
    r
}

/// How the work on one analysis window went.
#[derive(Debug)]
pub enum WindowOutcome {
    /// `ffmpeg` could not be started to extract its frames.
    SpawnFailed,
    /// Extracting its frames failed.
    ExtractFailed,
    /// No frame came out of it.
    NoFrames,
    /// The model proposed these shots.
    Proposed(Vec<CutShot>),
    /// The model failed with this error.
    ModelFailed(String),
}

/// What a `WindowOutcome` holds.
pub enum OutcomeView {
    SpawnFailed,
    ExtractFailed,
    NoFrames,
    Proposed(Seq<ShotView>),
    ModelFailed(Seq<char>),
}

impl View for WindowOutcome {
    type V = OutcomeView;

    open spec fn view(&self) -> OutcomeView {
        match self {
            WindowOutcome::SpawnFailed => OutcomeView::SpawnFailed,
            WindowOutcome::ExtractFailed => OutcomeView::ExtractFailed,
            WindowOutcome::NoFrames => OutcomeView::NoFrames,
            WindowOutcome::Proposed(v) => OutcomeView::Proposed(shot_views(v@)),
            WindowOutcome::ModelFailed(e) => OutcomeView::ModelFailed(e@),
        }
    }
}

/// The shots kept so far and the last error met.
pub struct ProgressView {
    pub shots: Seq<ShotView>,
    pub last_error: Option<Seq<char>>,
}

/// What the outcome of window `chunk` does to the progress: a failure
/// becomes the last error; proposed shots are added after those kept; a
/// window with no frames changes nothing.
pub open spec fn progress_step(p: ProgressView, chunk: int, o: OutcomeView) -> ProgressView {
    match o {
        OutcomeView::SpawnFailed => ProgressView { last_error: Some(spawn_failed_text(chunk)), ..p },
        OutcomeView::ExtractFailed => ProgressView { last_error: Some(extract_failed_text(chunk)), ..p },
        OutcomeView::NoFrames => p,
        OutcomeView::Proposed(v) => ProgressView { shots: p.shots + v, ..p },
        OutcomeView::ModelFailed(e) => ProgressView { last_error: Some(model_failed_text(chunk, e)), ..p },
    }
}

/// The progress after windows `0 .. outcomes.len()` went as `outcomes` says.
pub open spec fn progress_after(outcomes: Seq<OutcomeView>) -> ProgressView
    decreases outcomes.len(),
{
    if outcomes.len() == 0 {
        ProgressView { shots: seq![], last_error: None }
    } else {
        progress_step(progress_after(outcomes.drop_last()), outcomes.len() - 1, outcomes.last())
    }
}

/// What a video's AI run comes to: the shots kept, or, when there are none,
/// the last error met (a note that nothing was picked when none was).
pub open spec fn run_outcome(p: ProgressView) -> Result<Seq<ShotView>, Seq<char>> {
    if p.shots.len() > 0 {
        Ok(p.shots)
    } else {
        Err(match p.last_error {
            Some(e) => e,
            None => nothing_picked_text(),
        })
    }
}

/// The shots kept so far in a video's AI run and the last error met.
#[derive(Debug)]
pub struct AiProgress {
    pub shots: Vec<CutShot>,
    pub last_error: Option<String>,
}

impl View for AiProgress {
    type V = ProgressView;

    open spec fn view(&self) -> ProgressView {
        ProgressView {
            shots: shot_views(self.shots@),
            last_error: match self.last_error {
                Some(e) => Some(e@),
                None => None,
            },
        }
    }
}

impl AiProgress {
    /// Nothing kept, no error met.
    pub fn new() -> (r: AiProgress)
        ensures
            r@ == progress_after(seq![]),
    {
        let r = AiProgress { shots: Vec::new(), last_error: None };
        assert(r@.shots =~= Seq::<ShotView>::empty());
        r
    }

    /// Takes in how window `chunk` went (see `progress_step`).
    pub fn record(&mut self, chunk: usize, outcome: WindowOutcome)
        ensures
            final(self)@ == progress_step(old(self)@, chunk as int, outcome@),
    {
        match outcome {
            WindowOutcome::SpawnFailed => {
                self.last_error = Some(chunk_spawn_failed(chunk));
            },
            WindowOutcome::ExtractFailed => {
                self.last_error = Some(chunk_extract_failed(chunk));
            },
            WindowOutcome::NoFrames => {},
            WindowOutcome::Proposed(v) => {
                let ghost before = shot_views(self.shots@);
                let ghost added = shot_views(v@);
                let mut v = v;
                self.shots.append(&mut v);
                assert(shot_views(self.shots@) =~= before + added);
            },
            WindowOutcome::ModelFailed(e) => {
                self.last_error = Some(chunk_ai_failed(chunk, e.as_str()));
            },
        }
    }

    /// What the run comes to (see `run_outcome`).
    pub fn finish(self) -> (r: Result<Vec<CutShot>, String>)
        ensures
            match r {
                Ok(v) => run_outcome(self@) == Ok::<Seq<ShotView>, Seq<char>>(shot_views(v@)),
                Err(e) => run_outcome(self@) == Err::<Seq<ShotView>, Seq<char>>(e@),
            },
    {
        if self.shots.len() > 0 {
            Ok(self.shots)
        } else {
            match self.last_error {
                Some(e) => Err(e),
                None => Err(String::from_str("AI 未挑选出任何镜头")),
            }
        }
    }
}

/// The proposals of a run are those of its windows, in window order.
pub open spec fn proposals_of(outcomes: Seq<OutcomeView>) -> Seq<ShotView>
    decreases outcomes.len(),
{
    if outcomes.len() == 0 {
        seq![]
    } else {
        proposals_of(outcomes.drop_last()) + match outcomes.last() {
            OutcomeView::Proposed(v) => v,
            _ => seq![],
        }
    }
}

/// Whether a window's outcome is a failure.
pub open spec fn is_failure(o: OutcomeView) -> bool {
    o is SpawnFailed || o is ExtractFailed || o is ModelFailed
}

/// The error a failed window reports.
pub open spec fn failure_text(chunk: int, o: OutcomeView) -> Seq<char> {
    match o {
        OutcomeView::SpawnFailed => spawn_failed_text(chunk),
        OutcomeView::ExtractFailed => extract_failed_text(chunk),
        OutcomeView::ModelFailed(e) => model_failed_text(chunk, e),
        _ => seq![],
    }
}

/// After any windows, the shots kept are all the proposals of all windows
/// in window order, and the last error is that of the last window that
/// failed (none when none failed).
pub proof fn lemma_progress_keeps_all(outcomes: Seq<OutcomeView>)
    ensures
        progress_after(outcomes).shots == proposals_of(outcomes),
        (forall|i: int| 0 <= i < outcomes.len() ==> !is_failure(#[trigger] outcomes[i]))
            ==> progress_after(outcomes).last_error is None,
        forall|i: int| 0 <= i < outcomes.len() && is_failure(#[trigger] outcomes[i])
            && (forall|j: int| i < j < outcomes.len() ==> !is_failure(#[trigger] outcomes[j]))
            ==> progress_after(outcomes).last_error == Some(failure_text(i, outcomes[i])),
    decreases outcomes.len(),
{
    if outcomes.len() > 0 {
        let init = outcomes.drop_last();
        lemma_progress_keeps_all(init);
        let n = outcomes.len() - 1;
        assert forall|i: int| 0 <= i < outcomes.len() && is_failure(#[trigger] outcomes[i])
            && (forall|j: int| i < j < outcomes.len() ==> !is_failure(#[trigger] outcomes[j]))
            implies progress_after(outcomes).last_error == Some(failure_text(i, outcomes[i])) by {
            if i < n {
                assert(!is_failure(outcomes[n]));
                assert(init[i] == outcomes[i]);
                assert forall|j: int| i < j < init.len() implies !is_failure(#[trigger] init[j]) by {
                    assert(init[j] == outcomes[j]);
                }
            }
        }
        assert((forall|i: int| 0 <= i < outcomes.len() ==> !is_failure(#[trigger] outcomes[i]))
            ==> progress_after(outcomes).last_error is None) by {
            if forall|i: int| 0 <= i < outcomes.len() ==> !is_failure(#[trigger] outcomes[i]) {
                assert forall|i: int| 0 <= i < init.len() implies !is_failure(#[trigger] init[i]) by {
                    assert(init[i] == outcomes[i]);
                }
                assert(!is_failure(outcomes[n]));
            }
        }
    }
}

} // verus!
