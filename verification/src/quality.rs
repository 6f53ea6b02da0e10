//! The background quality phase: its progress, and what the status says of it.

use vstd::prelude::*;
use vstd::string::*;

use crate::decimal;
use crate::kb;
use crate::text;

verus! {

/// The name of the progress file.
pub const PROGRESS_FILE: &'static str = "quality-progress.json";

/// The name of the log file.
pub const LOG_FILE: &'static str = "quality.log";

/// The variable that tells a process that it is the background phase.
pub const PROGRESS_ENV: &'static str = "HELIOS_QUALITY_PROGRESS_FILE";

/// The progress of the background phase.
#[derive(Debug)]
pub struct QualityProgress {
    pub pid: u32,
    pub started_at_secs: u64,
    pub completed_at_secs: Option<u64>,
    pub log_path: String,
    pub source_root: String,
}

/// The path of the progress file.
pub fn progress_path(kb_dir: &str) -> (r: String)
    ensures
        r@ == kb::path_in(kb_dir@, PROGRESS_FILE@),
{
    kb::join_path(kb_dir, PROGRESS_FILE)
}

/// The path of the log file.
pub fn log_path(kb_dir: &str) -> (r: String)
    ensures
        r@ == kb::path_in(kb_dir@, LOG_FILE@),
{
    kb::join_path(kb_dir, LOG_FILE)
}

/// The progress of a background phase that process `pid` begins at `now`.
pub fn started(pid: u32, now: u64, log_path: &str, source_root: &str) -> (r: QualityProgress)
    ensures
        r.pid == pid,
        r.started_at_secs == now,
        r.completed_at_secs is None,
        r.log_path@ == log_path@,
        r.source_root@ == source_root@,
{
    QualityProgress {
        pid,
        started_at_secs: now,
        completed_at_secs: None,
        log_path: log_path.to_string(),
        source_root: source_root.to_string(),
    }
}

/// The progress once the background phase is complete at `now`.
pub open spec fn finalised(p: QualityProgress, now: u64) -> QualityProgress {
    QualityProgress { completed_at_secs: Some(now), ..p }
}

/// The progress once the background phase is complete at `now`.
pub fn finalize(p: QualityProgress, now: u64) -> (r: QualityProgress)
    ensures
        r == finalised(p, now),
{
    QualityProgress {
        pid: p.pid,
        started_at_secs: p.started_at_secs,
        completed_at_secs: Some(now),
        log_path: p.log_path,
        source_root: p.source_root,
    }
}

/// Where the background phase stands.
pub enum Phase {
    NotStarted,
    Running { p: QualityProgress, alive: bool },
    Complete { p: QualityProgress },
}

/// Where the background phase stands: without progress it has not started,
/// with a completion it is complete, else it runs.
pub open spec fn phase_of(progress: Option<QualityProgress>, alive: bool) -> Phase {
    match progress {
        None => Phase::NotStarted,
        Some(p) => if p.completed_at_secs is Some {
            Phase::Complete { p }
        } else {
            Phase::Running { p, alive }
        },
    }
}

/// Where the background phase stands. `alive` says whether the process of
/// the progress is running.
pub fn classify(progress: Option<QualityProgress>, alive: bool) -> (r: Phase)
    ensures
        r == phase_of(progress, alive),
{
    match progress {
        None => Phase::NotStarted,
        Some(p) => if p.completed_at_secs.is_some() {
            Phase::Complete { p }
        } else {
            Phase::Running { p, alive }
        },
    }
}

/// A phase whose progress was finalised is complete, whether its process is
/// running or not.
pub proof fn finalised_phase_is_complete(p: QualityProgress, now: u64, alive: bool)
    ensures
        phase_of(Some(finalised(p, now)), alive) == (Phase::Complete { p: finalised(p, now) }),
{
}

/// A number of seconds in words: seconds alone below a minute, minutes and
/// seconds below an hour, hours and minutes from an hour on.
pub open spec fn duration_text(s: int) -> Seq<char> {
    if s < 60 {
        decimal::digits(s as nat) + " s"@
    } else if s < 3600 {
        decimal::digits((s / 60) as nat) + " m "@ + decimal::digits((s % 60) as nat) + " s"@
    } else {
        decimal::digits((s / 3600) as nat) + " h "@ + decimal::digits((s / 60 % 60) as nat)
            + " m"@
    }
}

/// A number of seconds in words.
pub fn fmt_duration_secs(s: u64) -> (r: String)
    ensures
        r@ == duration_text(s as int),
{
    let minutes = s / 60;
    let seconds = s % 60;
    if minutes == 0 {
        text::cat2(decimal::unsigned_text(seconds).as_str(), " s")
    } else if minutes < 60 {
        let mut out = text::cat3(
            decimal::unsigned_text(minutes).as_str(),
            " m ",
            decimal::unsigned_text(seconds).as_str(),
        );
        out.append(" s");
        out
    } else {
        let hours = minutes / 60;
        let rest = minutes % 60;
        assert(hours == s / 3600);
        let mut out = text::cat3(
            decimal::unsigned_text(hours).as_str(),
            " h ",
            decimal::unsigned_text(rest).as_str(),
        );
        out.append(" m");
        out
    }
}

/// `a - b`, or zero where `b` is greater.
pub open spec fn since(a: u64, b: u64) -> int {
    if a >= b {
        a - b
    } else {
        0
    }
}

/// What the status says at `now` of the background phase.
pub open spec fn phase_lines(phase: Phase, now: u64) -> Seq<Seq<char>> {
    match phase {
        Phase::NotStarted => Seq::empty(),
        Phase::Running { p, alive } => if alive {
            seq![
                "quality phase : running — pid "@ + decimal::digits(p.pid as nat) + " ("@
                    + duration_text(since(now, p.started_at_secs)) + " elapsed)"@,
                "              : log → "@ + p.log_path@,
            ]
        } else {
            seq![
                "quality phase : stale — pid "@ + decimal::digits(p.pid as nat)
                    + " not running and no completion recorded"@,
                "              : tail "@ + p.log_path@
                    + " or re-run `ingest --background-quality`"@,
                "              : log → "@ + p.log_path@,
            ]
        },
        Phase::Complete { p } => {
            let done = match p.completed_at_secs {
                Some(t) => t,
                None => p.started_at_secs,
            };
            let ago = match p.completed_at_secs {
                Some(t) => since(now, t),
                None => 0,
            };
            seq![
                "quality phase : complete — took "@ + duration_text(
                    since(done, p.started_at_secs),
                ) + ", finished "@ + duration_text(ago) + " ago"@,
            ]
        },
    }
}

/// What the status says at `now` of the background phase, line by line;
/// nothing where it has not started.
pub fn status_lines(phase: &Phase, now: u64) -> (r: Vec<String>)
    ensures
        text::views(r@) == phase_lines(*phase, now),
{
    let mut out: Vec<String> = Vec::new();
    match phase {
        Phase::NotStarted => {},
        Phase::Running { p, alive } => {
            let pid = decimal::unsigned_text(p.pid as u64);
            if *alive {
                let elapsed = fmt_duration_secs(now.saturating_sub(p.started_at_secs));
                out.push(
                    text::cat5(
                        "quality phase : running — pid ",
                        pid.as_str(),
                        " (",
                        elapsed.as_str(),
                        " elapsed)",
                    ),
                );
            } else {
                out.push(
                    text::cat3(
                        "quality phase : stale — pid ",
                        pid.as_str(),
                        " not running and no completion recorded",
                    ),
                );
                out.push(
                    text::cat3(
                        "              : tail ",
                        p.log_path.as_str(),
                        " or re-run `ingest --background-quality`",
                    ),
                );
            }
            out.push(text::cat2("              : log → ", p.log_path.as_str()));
        },
        Phase::Complete { p } => {
            let done = match p.completed_at_secs {
                Some(t) => t,
                None => p.started_at_secs,
            };
            let ago = match p.completed_at_secs {
                Some(t) => now.saturating_sub(t),
                None => 0,
            };
            out.push(
                text::cat5(
                    "quality phase : complete — took ",
                    fmt_duration_secs(done.saturating_sub(p.started_at_secs)).as_str(),
                    ", finished ",
                    fmt_duration_secs(ago).as_str(),
                    " ago",
                ),
            );
        },
    }
    assert(text::views(out@) =~= phase_lines(*phase, now));
    out
}

} // verus!
