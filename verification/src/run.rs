//! The order of a whole backup run: every source is mirrored, then the
//! staging tree is archived once, then the archive is encrypted once.

use vstd::prelude::*;

verus! {

/// Where a run stands: the stage that the caller is to perform next, or how
/// the run ended.
#[derive(Clone, Copy, Debug, PartialEq, Eq, Structural)]
pub enum RunStage {
    /// Mirror the source with this index.
    Mirror { index: usize },
    /// Archive the staging tree.
    Archive,
    /// Encrypt the archive.
    Encrypt,
    /// The run is over. It succeeded if the encrypted archive was written.
    Finished { success: bool },
}

/// The first stage of a run over `sources` sources.
pub open spec fn first_stage(sources: usize) -> RunStage {
    if sources > 0 {
        RunStage::Mirror { index: 0 }
    } else {
        RunStage::Archive
    }
}

/// The stage that follows `stage` once the caller reports whether the stage
/// went well.
///
/// A source that could not be mirrored does not hold the run up: the next
/// source follows, and the archive after the last. A failure to archive or
/// to encrypt ends the run without success.
pub open spec fn run_step(stage: RunStage, sources: usize, ok: bool) -> RunStage {
    match stage {
        RunStage::Mirror { index } => if index + 1 < sources {
            RunStage::Mirror { index: (index + 1) as usize }
        } else {
            RunStage::Archive
        },
        RunStage::Archive => if ok {
            RunStage::Encrypt
        } else {
            RunStage::Finished { success: false }
        },
        RunStage::Encrypt => RunStage::Finished { success: ok },
        RunStage::Finished { .. } => stage,
    }
}

/// The stage reached from `stage` after the next `count` stages all ended
/// with `ok`.
pub open spec fn run_steps(stage: RunStage, sources: usize, ok: bool, count: nat) -> RunStage
    decreases count,
{
    if count == 0 {
        stage
    } else {
        run_steps(run_step(stage, sources, ok), sources, ok, (count - 1) as nat)
    }
}

/// Whether a source could be mirrored makes no difference to what comes
/// next.
pub proof fn lemma_mirror_failure_is_not_fatal(index: usize, sources: usize)
    ensures
        run_step(RunStage::Mirror { index }, sources, false) == run_step(
            RunStage::Mirror { index },
            sources,
            true,
        ),
        !(run_step(RunStage::Mirror { index }, sources, false) is Finished),
{
}

/// The stages come in order: a source follows the source before it, the
/// archive follows a source, the encryption follows an archive that was
/// written, and success follows an encryption that went well. So the tree
/// is archived once and the archive encrypted once.
pub proof fn lemma_stages_come_in_order(stage: RunStage, sources: usize, ok: bool)
    ensures
        match run_step(stage, sources, ok) {
            RunStage::Mirror { index } => stage is Mirror && index == stage->index + 1 && index
                < sources,
            RunStage::Archive => stage is Mirror && stage->index + 1 >= sources,
            RunStage::Encrypt => stage is Archive && ok,
            RunStage::Finished { success } => {
                ||| stage == (RunStage::Finished { success })
                ||| stage is Archive && !ok && !success
                ||| stage is Encrypt && success == ok
            },
        },
{
}

/// Whatever became of the sources, the archive is due once each of them had
/// its turn.
pub proof fn lemma_archive_follows_the_sources(sources: usize, done: usize, ok: bool)
    requires
        done < sources,
    ensures
        run_steps(RunStage::Mirror { index: done }, sources, ok, (sources - done) as nat)
            == RunStage::Archive,
    decreases sources - done,
{
    let here = RunStage::Mirror { index: done };
    if done + 1 < sources {
        lemma_archive_follows_the_sources(sources, (done + 1) as usize, ok);
        assert(run_step(here, sources, ok) == RunStage::Mirror { index: (done + 1) as usize });
    } else {
        assert(run_step(here, sources, ok) == RunStage::Archive);
        assert(run_steps(RunStage::Archive, sources, ok, 0) == RunStage::Archive);
    }
}

/// The stage with which a run over `sources` sources begins.
pub fn start_run(sources: usize) -> (stage: RunStage)
    ensures
        stage == first_stage(sources),
{
    if sources > 0 {
        RunStage::Mirror { index: 0 }
    } else {
        RunStage::Archive
    }
}

/// The stage that follows `stage` in a run over `sources` sources.
pub fn next_run_stage(stage: RunStage, sources: usize, ok: bool) -> (next: RunStage)
    ensures
        next == run_step(stage, sources, ok),
{
    match stage {
        RunStage::Mirror { index } => if sources > 0 && index < sources - 1 {
            RunStage::Mirror { index: index + 1 }
        } else {
            RunStage::Archive
        },
        RunStage::Archive => if ok {
            RunStage::Encrypt
        } else {
            RunStage::Finished { success: false }
        },
        RunStage::Encrypt => RunStage::Finished { success: ok },
        RunStage::Finished { success } => RunStage::Finished { success },
    }
}

} // verus!
