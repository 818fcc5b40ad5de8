//! The running total of watch time, and the fold that builds it.
//!
//! Each video gives a duration or a failure. Durations are added up;
//! a failure adds nothing, is put into words, and never stops the fold.

use crate::duration::{Duration, NANOS_PER_SECOND};
use crate::filter::{is_video_name, video_files};
use crate::format::{fmt_seconds, watch_time_text};
use crate::probe::{error_text, outcome_view, Outcome, ProbeError, ProbeErrorView};
use vstd::prelude::*;
use vstd::string::*;

verus! {

/// A total of watch time in whole nanoseconds.
#[derive(Clone, Copy, Debug, PartialEq, Eq, Structural)]
pub struct WatchTime {
    pub nanos: u128,
}

impl View for WatchTime {
    type V = nat;

    open spec fn view(&self) -> nat {
        self.nanos as nat
    }
}

/// One video and what probing it came to.
#[derive(Debug, PartialEq, Eq)]
pub struct Probed {
    pub path: String,
    pub outcome: Result<Duration, ProbeError>,
}

/// A `Probed` with its path as a sequence of characters.
pub struct ProbedView {
    pub path: Seq<char>,
    pub outcome: Outcome,
}

impl View for Probed {
    type V = ProbedView;

    open spec fn view(&self) -> ProbedView {
        ProbedView { path: self.path@, outcome: outcome_view(self.outcome) }
    }
}

/// What the fold gives: the total, and a line for each failure, in the order
/// of the videos.
#[derive(Clone, Debug, PartialEq, Eq)]
pub struct Report {
    pub total: WatchTime,
    pub diagnostics: Vec<String>,
}

/// The views of a list of probed videos.
pub open spec fn probed_views(probed: Seq<Probed>) -> Seq<ProbedView> {
    probed.map_values(|p: Probed| p@)
}

/// What one outcome adds to the total: its duration, and nothing for a failure.
pub open spec fn gain(outcome: Outcome) -> nat {
    match outcome {
        Ok(nanos) => nanos,
        Err(_) => 0,
    }
}

/// The sum of the durations of the videos whose probe succeeded.
pub open spec fn total_of(probed: Seq<ProbedView>) -> nat
    decreases probed.len(),
{
    if probed.len() == 0 {
        0
    } else {
        total_of(probed.drop_last()) + gain(probed.last().outcome)
    }
}

/// The line that reports a failure on `path`.
pub open spec fn diagnostic_text(path: Seq<char>, e: ProbeErrorView) -> Seq<char> {
    "Error processing video "@ + path + ": "@ + error_text(e)
}

/// The lines for the videos whose probe failed, in the order of the videos.
pub open spec fn diagnostics_of(probed: Seq<ProbedView>) -> Seq<Seq<char>>
    decreases probed.len(),
{
    if probed.len() == 0 {
        Seq::empty()
    } else {
        match probed.last().outcome {
            Ok(_) => diagnostics_of(probed.drop_last()),
            Err(e) => diagnostics_of(probed.drop_last()).push(
                diagnostic_text(probed.last().path, e),
            ),
        }
    }
}

/// The line that ends a run.
pub open spec fn summary_text(total: nat) -> Seq<char> {
    "You have "@ + watch_time_text(total / 1_000_000_000) + " worth of contents"@
}

/// A total of `n` durations is at most `n` times the longest duration.
proof fn lemma_total_bound(probed: Seq<Probed>)
    ensures
        total_of(probed_views(probed)) <= probed.len() * u64::MAX,
    decreases probed.len(),
{
    let views = probed_views(probed);
    if probed.len() > 0 {
        lemma_total_bound(probed.drop_last());
        assert(views.drop_last() =~= probed_views(probed.drop_last()));
        assert(gain(views.last().outcome) <= u64::MAX);
        assert((probed.len() - 1) * u64::MAX + u64::MAX == probed.len() * u64::MAX)
            by (nonlinear_arith);
    }
}

/// The total never goes down: what has been added up for the first videos
/// is at most the total over all of them.
pub proof fn lemma_total_monotonic(probed: Seq<ProbedView>, n: int)
    requires
        0 <= n <= probed.len(),
    ensures
        total_of(probed.take(n)) <= total_of(probed),
    decreases probed.len(),
{
    if n == probed.len() {
        assert(probed.take(n) =~= probed);
    } else {
        lemma_total_monotonic(probed.drop_last(), n);
        assert(probed.drop_last().take(n) =~= probed.take(n));
    }
}

/// Failures add nothing: the total is the sum over the successes alone.
pub proof fn lemma_total_skips_failures(probed: Seq<ProbedView>)
    ensures
        total_of(probed) == total_of(probed.filter(|p: ProbedView| p.outcome is Ok)),
    decreases probed.len(),
{
    reveal(Seq::filter);
    if probed.len() > 0 {
        lemma_total_skips_failures(probed.drop_last());
        let kept = probed.drop_last().filter(|p: ProbedView| p.outcome is Ok);
        if probed.last().outcome is Ok {
            assert(kept.push(probed.last()).drop_last() =~= kept);
        }
    }
}

/// The videos of a listing, each with what probing it comes to when
/// `outcome_for` says so for every path.
pub open spec fn probed_listing(
    files: Seq<Seq<char>>,
    outcome_for: spec_fn(Seq<char>) -> Outcome,
) -> Seq<ProbedView> {
    video_files(files).map_values(|path: Seq<char>| ProbedView { path, outcome: outcome_for(path) })
}

/// The watch time of a listing: the sum, over its files, of the durations of
/// those that are video names and whose probe succeeds.
pub open spec fn watch_time_of(
    files: Seq<Seq<char>>,
    outcome_for: spec_fn(Seq<char>) -> Outcome,
) -> nat
    decreases files.len(),
{
    if files.len() == 0 {
        0
    } else if is_video_name(files.last()) {
        watch_time_of(files.drop_last(), outcome_for) + gain(outcome_for(files.last()))
    } else {
        watch_time_of(files.drop_last(), outcome_for)
    }
}

/// Filtering a listing and tallying what its videos come to gives the watch
/// time of the listing: every file that is a video name and whose probe
/// succeeds counts with its full duration, and no other file counts. Only
/// the display of this sum drops what is left of a second.
pub proof fn lemma_total_of_listing(
    files: Seq<Seq<char>>,
    outcome_for: spec_fn(Seq<char>) -> Outcome,
)
    ensures
        total_of(probed_listing(files, outcome_for)) == watch_time_of(files, outcome_for),
    decreases files.len(),
{
    reveal(Seq::filter);
    if files.len() > 0 {
        let front = files.drop_last();
        lemma_total_of_listing(front, outcome_for);
        let all = probed_listing(files, outcome_for);
        if is_video_name(files.last()) {
            assert(video_files(files) == video_files(front).push(files.last()));
            assert(all.drop_last() =~= probed_listing(front, outcome_for));
            assert(all.last().outcome == outcome_for(files.last()));
        } else {
            assert(video_files(files) == video_files(front));
        }
    }
}

/// The line that reports a failure on `path`.
pub fn diagnostic_line(path: &str, error: &ProbeError) -> (line: String)
    ensures
        line@ == diagnostic_text(path@, error@),
{
    let mut line = "Error processing video ".to_owned();
    line.append(path);
    line.append(": ");
    let reason = error.message();
    line.append(reason.as_str());
    assert(line@ =~= diagnostic_text(path@, error@));
    line
}

/// Adds up the durations of the videos whose probe succeeded, and puts each
/// failure into a line.
pub fn tally(probed: &Vec<Probed>) -> (report: Report)
    ensures
        report.total@ == total_of(probed_views(probed@)),
        report.diagnostics.deep_view() == diagnostics_of(probed_views(probed@)),
{
    let mut total: u128 = 0;
    let mut diagnostics: Vec<String> = Vec::new();
    let mut i: usize = 0;
    let ghost views = probed_views(probed@);
    assert(views.take(0) =~= Seq::<ProbedView>::empty());
    assert(diagnostics.deep_view() =~= Seq::<Seq<char>>::empty());
    while i < probed.len()
        invariant
            i <= probed.len(),
            views == probed_views(probed@),
            total == total_of(views.take(i as int)),
            diagnostics.deep_view() == diagnostics_of(views.take(i as int)),
        decreases probed.len() - i,
    {
        let item = &probed[i];
        proof {
            assert(views.take(i + 1).drop_last() =~= views.take(i as int));
            assert(views.take(i + 1).last() == item@);
            lemma_total_bound(probed@.take(i + 1));
            assert(probed_views(probed@.take(i + 1)) =~= views.take(i + 1));
            assert((i + 1) * u64::MAX <= usize::MAX * u64::MAX) by (nonlinear_arith)
                requires
                    i + 1 <= usize::MAX,
            ;
            assert(usize::MAX * u64::MAX <= u64::MAX * u64::MAX) by (nonlinear_arith)
                requires
                    usize::MAX <= u64::MAX,
            ;
            assert(u64::MAX * u64::MAX < u128::MAX) by (nonlinear_arith);
        }
        match &item.outcome {
            Ok(d) => {
                total = total + d.nanos as u128;
            },
            Err(e) => {
                let ghost before = diagnostics.deep_view();
                let line = diagnostic_line(item.path.as_str(), e);
                diagnostics.push(line);
                assert(diagnostics.deep_view() =~= before.push(line@));
            },
        }
        i += 1;
    }
    assert(views.take(i as int) =~= views);
    Report { total: WatchTime { nanos: total }, diagnostics }
}

/// `probed` is what asking `probe` about each of `paths`, in order, can give.
pub open spec fn answers<F: Fn(&String) -> Result<Duration, ProbeError>>(
    probe: F,
    paths: Seq<String>,
    probed: Seq<Probed>,
) -> bool {
    &&& probed.len() == paths.len()
    &&& forall|i: int|
        0 <= i < paths.len() ==> (#[trigger] probed[i]).path == paths[i] && call_ensures(
            probe,
            (&paths[i],),
            probed[i].outcome,
        )
}

/// Probes each of `paths` once, in order, and adds up what comes back.
///
/// Whatever `probe` answers, the report is the tally of its answers: a
/// failure on one path costs only that path's duration.
pub fn aggregate<F: Fn(&String) -> Result<Duration, ProbeError>>(paths: &Vec<String>, probe: F) -> (report: Report)
    requires
        forall|i: int| 0 <= i < paths.len() ==> call_requires(probe, (&#[trigger] paths[i],)),
    ensures
        exists|probed: Seq<Probed>|
            {
                &&& answers(probe, paths@, probed)
                &&& report.total@ == total_of(probed_views(probed))
                &&& report.diagnostics.deep_view() == diagnostics_of(probed_views(probed))
            },
{
    let mut probed: Vec<Probed> = Vec::new();
    let mut i: usize = 0;
    while i < paths.len()
        invariant
            i <= paths.len(),
            forall|i: int| 0 <= i < paths.len() ==> call_requires(probe, (&#[trigger] paths[i],)),
            answers(probe, paths@.take(i as int), probed@),
        decreases paths.len() - i,
    {
        let path = &paths[i];
        let outcome = probe(path);
        probed.push(Probed { path: path.clone(), outcome });
        i += 1;
    }
    assert(paths@.take(i as int) =~= paths@);
    tally(&probed)
}

/// A total in words: `HH Hours, MM Minutes, SS Seconds`. What is left of a
/// second at the end is dropped, not rounded up.
pub fn fmt_watch_time(total: WatchTime) -> (text: String)
    ensures
        text@ == watch_time_text(total@ / 1_000_000_000),
{
    fmt_seconds(total.nanos / (NANOS_PER_SECOND as u128))
}

/// The line that ends a run.
pub fn summary_line(total: WatchTime) -> (line: String)
    ensures
        line@ == summary_text(total@),
{
    let mut line = "You have ".to_owned();
    let words = fmt_watch_time(total);
    line.append(words.as_str());
    line.append(" worth of contents");
    assert(line@ =~= summary_text(total@));
    line
}

} // verus!
