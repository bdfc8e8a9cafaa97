//! The daemon's decisions: what follows each step of start-up and of the reseed loop,
//! what is logged, and what is released before giving up.

use vstd::prelude::*;
use crate::entropy::RESEED_INTERVAL_SECS;

verus! {

/// The steps the daemon performs, in order; `Reseed` repeats forever.
#[derive(Debug, Clone, Copy, PartialEq, Eq, Structural)]
pub enum Stage {
    /// jitterentropy self-test (`jent_entropy_init`).
    SelfTest,
    /// Allocation of the entropy collector in FIPS mode.
    Allocate,
    /// Opening /dev/random for writing.
    OpenRandom,
    /// Dropping every capability but CAP_SYS_ADMIN.
    DropCaps,
    /// The first injection, before the daemon starts sleeping.
    InitialSeed,
    /// A periodic injection.
    Reseed,
}

/// Syslog severity of the line logged after a step.
#[derive(Debug, Clone, Copy, PartialEq, Eq, Structural)]
pub enum LogLevel {
    Info,
    Warning,
    Error,
}

/// What the daemon does once a step has succeeded or failed.
#[derive(Debug, Clone, Copy, PartialEq, Eq, Structural)]
pub struct Decision {
    /// The next step, or `None` to exit with status 1.
    pub next: Option<Stage>,
    /// Seconds to sleep before the next step.
    pub pause_secs: u64,
    /// Severity of the line to log about the step, if one is logged.
    pub log: Option<LogLevel>,
    /// Close /dev/random before exiting.
    pub close_random: bool,
    /// Free the entropy collector before exiting.
    pub free_collector: bool,
}

/// The entropy collector has been allocated before `stage` runs.
pub open spec fn holds_collector(stage: Stage) -> bool {
    !(stage is SelfTest || stage is Allocate)
}

/// /dev/random is open before `stage` runs.
pub open spec fn holds_random(stage: Stage) -> bool {
    stage is DropCaps || stage is InitialSeed || stage is Reseed
}

/// The step that follows `stage` when it succeeds.
pub open spec fn successor(stage: Stage) -> Stage {
    match stage {
        Stage::SelfTest => Stage::Allocate,
        Stage::Allocate => Stage::OpenRandom,
        Stage::OpenRandom => Stage::DropCaps,
        Stage::DropCaps => Stage::InitialSeed,
        Stage::InitialSeed => Stage::Reseed,
        Stage::Reseed => Stage::Reseed,
    }
}

/// The decision after `stage` succeeded (`ok`) or failed.
pub open spec fn spec_next_step(stage: Stage, ok: bool) -> Decision {
    if ok {
        Decision {
            next: Some(successor(stage)),
            pause_secs: if successor(stage) is Reseed {
                RESEED_INTERVAL_SECS
            } else {
                0
            },
            log: if stage is DropCaps || stage is InitialSeed || stage is Reseed {
                Some(LogLevel::Info)
            } else {
                None
            },
            close_random: false,
            free_collector: false,
        }
    } else if stage is Reseed {
        // a failed periodic reseed is logged and retried at the next interval
        Decision {
            next: Some(Stage::Reseed),
            pause_secs: RESEED_INTERVAL_SECS,
            log: Some(LogLevel::Warning),
            close_random: false,
            free_collector: false,
        }
    } else {
        Decision {
            next: None,
            pause_secs: 0,
            log: Some(LogLevel::Error),
            close_random: holds_random(stage),
            free_collector: holds_collector(stage),
        }
    }
}

/// Decides what follows `stage`, given whether it succeeded.
pub fn next_step(stage: Stage, ok: bool) -> (d: Decision)
    ensures
        d == spec_next_step(stage, ok),
        d.pause_secs == 0 || d.pause_secs == RESEED_INTERVAL_SECS,
        d.pause_secs == RESEED_INTERVAL_SECS <==> d.next == Some(Stage::Reseed),
{
    if ok {
        let next = match stage {
            Stage::SelfTest => Stage::Allocate,
            Stage::Allocate => Stage::OpenRandom,
            Stage::OpenRandom => Stage::DropCaps,
            Stage::DropCaps => Stage::InitialSeed,
            Stage::InitialSeed => Stage::Reseed,
            Stage::Reseed => Stage::Reseed,
        };
        let log = match stage {
            Stage::DropCaps | Stage::InitialSeed | Stage::Reseed => Some(LogLevel::Info),
            _ => None,
        };
        let pause_secs = match next {
            Stage::Reseed => RESEED_INTERVAL_SECS,
            _ => 0,
        };
        Decision { next: Some(next), pause_secs, log, close_random: false, free_collector: false }
    } else {
        match stage {
            Stage::Reseed => Decision {
                next: Some(Stage::Reseed),
                pause_secs: RESEED_INTERVAL_SECS,
                log: Some(LogLevel::Warning),
                close_random: false,
                free_collector: false,
            },
            _ => {
                let close_random = match stage {
                    Stage::DropCaps | Stage::InitialSeed => true,
                    _ => false,
                };
                let free_collector = match stage {
                    Stage::SelfTest | Stage::Allocate => false,
                    _ => true,
                };
                Decision { next: None, pause_secs: 0, log: Some(LogLevel::Error), close_random, free_collector }
            },
        }
    }
}

/// Once the reseed loop runs, it runs forever: no outcome of a reseed stops the daemon,
/// and the next attempt comes after the reseed interval.
pub proof fn lemma_reseed_never_stops(ok: bool)
    ensures
        spec_next_step(Stage::Reseed, ok).next == Some(Stage::Reseed),
        spec_next_step(Stage::Reseed, ok).pause_secs == RESEED_INTERVAL_SECS,
{
}

/// Giving up releases exactly what has been acquired so far, and only a failure before
/// the reseed loop makes the daemon give up.
pub proof fn lemma_abort_releases_held(stage: Stage, ok: bool)
    ensures
        spec_next_step(stage, ok).next is None <==> (!ok && !(stage is Reseed)),
        spec_next_step(stage, ok).next is None ==> spec_next_step(stage, ok).close_random
            == holds_random(stage) && spec_next_step(stage, ok).free_collector == holds_collector(
            stage,
        ),
        spec_next_step(stage, ok).next is Some ==> !spec_next_step(stage, ok).close_random
            && !spec_next_step(stage, ok).free_collector,
{
}

/// Periodic reseeding starts only after the initial seed succeeded.
pub proof fn lemma_reseed_follows_initial_seed(stage: Stage, ok: bool)
    ensures
        spec_next_step(stage, ok).next == Some(Stage::Reseed) ==> (stage is Reseed || (
        stage is InitialSeed && ok)),
{
}

/// A resource acquired by one step stays held by every later step.
pub proof fn lemma_successor_holds_resources(stage: Stage)
    ensures
        holds_collector(stage) ==> holds_collector(successor(stage)),
        holds_random(stage) ==> holds_random(successor(stage)),
{
}

/// The daemon sleeps only inside the reseed loop: every start-up step, and the initial
/// seed, is followed at once by the next one, so /dev/random is seeded as early as
/// possible; only the wait before a reseed lasts the reseed interval.
pub proof fn lemma_pause_only_before_reseed(stage: Stage, ok: bool)
    ensures
        spec_next_step(stage, ok).next == Some(Stage::Reseed) ==> spec_next_step(stage, ok).pause_secs
            == RESEED_INTERVAL_SECS,
        spec_next_step(stage, ok).next != Some(Stage::Reseed) ==> spec_next_step(stage, ok).pause_secs
            == 0,
        ok && !(stage is InitialSeed || stage is Reseed) ==> spec_next_step(stage, ok).pause_secs == 0,
{
}

/// What is logged: an error exactly when the daemon gives up, a warning exactly when a
/// periodic reseed fails, and an informational line after each successful capability
/// drop, initial seed and reseed; the other start-up steps succeed silently.
pub proof fn lemma_log_levels(stage: Stage, ok: bool)
    ensures
        spec_next_step(stage, ok).log == Some(LogLevel::Error) <==> spec_next_step(stage, ok).next is None,
        spec_next_step(stage, ok).log == Some(LogLevel::Warning) <==> (!ok && stage is Reseed),
        spec_next_step(stage, ok).log == Some(LogLevel::Info) <==> (ok && (stage is DropCaps
            || stage is InitialSeed || stage is Reseed)),
        spec_next_step(stage, ok).log is None <==> (ok && (stage is SelfTest || stage is Allocate
            || stage is OpenRandom)),
{
}

} // verus!
