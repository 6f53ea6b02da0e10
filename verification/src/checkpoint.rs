//! The checkpoint of an ingest run: the phase that was reached.

use vstd::prelude::*;
use vstd::string::*;

use crate::kb;
use crate::quality;
use crate::text;

verus! {

/// The name of the checkpoint file.
pub const CHECKPOINT_FILE: &'static str = ".ingest-state.json";

/// The phases of an ingest run, in the order in which they run.
#[derive(Debug, Clone, Copy, PartialEq, Eq, Structural, PartialOrd, Ord)]
pub enum Phase {
    /// Files are walked and upserted.
    Walk,
    /// Code is parsed and indexed.
    CodeIndex,
    /// Documents are projected into the graph.
    GraphRag,
}

/// The place of a phase in the run.
pub open spec fn phase_place(p: Phase) -> int {
    match p {
        Phase::Walk => 0,
        Phase::CodeIndex => 1,
        Phase::GraphRag => 2,
    }
}

fn place(p: Phase) -> (r: u8)
    ensures
        r == phase_place(p),
{
    match p {
        Phase::Walk => 0,
        Phase::CodeIndex => 1,
        Phase::GraphRag => 2,
    }
}

impl Phase {
    /// Whether the run is at this phase or past it, once it reached `self`.
    pub fn at_or_past(self, other: Phase) -> (r: bool)
        ensures
            r == (phase_place(self) >= phase_place(other)),
    {
        place(self) >= place(other)
    }

    /// The name of the phase.
    pub fn name(self) -> (r: &'static str)
        ensures
            r@ == phase_name(self),
    {
        match self {
            Phase::Walk => "Walk",
            Phase::CodeIndex => "CodeIndex",
            Phase::GraphRag => "GraphRag",
        }
    }
}

/// The name of a phase.
pub open spec fn phase_name(p: Phase) -> Seq<char> {
    match p {
        Phase::Walk => "Walk"@,
        Phase::CodeIndex => "CodeIndex"@,
        Phase::GraphRag => "GraphRag"@,
    }
}

/// The state of an ingest run.
#[derive(Debug)]
pub struct IngestCheckpoint {
    pub source_root: String,
    pub started_at_secs: u64,
    pub phase: Phase,
}

/// The path of the checkpoint file.
pub fn checkpoint_path(kb_dir: &str) -> (r: String)
    ensures
        r@ == kb::path_in(kb_dir@, CHECKPOINT_FILE@),
{
    kb::join_path(kb_dir, CHECKPOINT_FILE)
}

/// The checkpoint of a run that begins at `now` with `phase`.
pub fn begin(source_root: &str, phase: Phase, now: u64) -> (r: IngestCheckpoint)
    ensures
        r.source_root@ == source_root@,
        r.started_at_secs == now,
        r.phase == phase,
{
    IngestCheckpoint { source_root: source_root.to_string(), started_at_secs: now, phase }
}

/// The checkpoint of a run that moves on to `phase`. It keeps the start of
/// the run; a run without a checkpoint starts at `now`.
pub fn advance(
    prior: &Option<IngestCheckpoint>,
    source_root: &str,
    phase: Phase,
    now: u64,
) -> (r: IngestCheckpoint)
    ensures
        r.source_root@ == source_root@,
        r.started_at_secs == match *prior {
            Some(cp) => cp.started_at_secs,
            None => now,
        },
        r.phase == phase,
{
    let started = match prior {
        Some(cp) => cp.started_at_secs,
        None => now,
    };
    IngestCheckpoint { source_root: source_root.to_string(), started_at_secs: started, phase }
}

/// What the status of a run says that was interrupted.
pub open spec fn resume_text(phase: Phase, elapsed: int) -> Seq<char> {
    "ingest resume : interrupted at phase = "@ + phase_name(phase) + " ("@
        + quality::duration_text(elapsed) + " ago) — re-run `ingest` to continue"@
}

/// What the status says at `now` of a run that was interrupted.
pub fn resume_line(cp: &IngestCheckpoint, now: u64) -> (r: String)
    ensures
        r@ == resume_text(
            cp.phase,
            if now >= cp.started_at_secs {
                now - cp.started_at_secs
            } else {
                0
            },
        ),
{
    let elapsed = now.saturating_sub(cp.started_at_secs);
    text::cat5(
        "ingest resume : interrupted at phase = ",
        cp.phase.name(),
        " (",
        quality::fmt_duration_secs(elapsed).as_str(),
        " ago) — re-run `ingest` to continue",
    )
}

} // verus!
