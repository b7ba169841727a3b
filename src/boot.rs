//! The loader's boot sequence as a state machine: each stage names the
//! firmware work to do next, and the outcome of that work decides the next
//! stage. Any failure aborts; the kernel is entered only after boot services
//! are gone.
use vstd::prelude::*;

verus! {

#[derive(Debug, Clone, Copy, PartialEq, Eq, Structural)]
pub enum BootStage {
    Start,
    RootOpened,
    MemoryMapSaved,
    KernelLoaded,
    DisplayOpened,
    BootServicesExited,
    KernelEntered,
    Aborted,
}

#[derive(Debug, Clone, Copy, PartialEq, Eq, Structural)]
pub enum BootAction {
    /// Open the root directory of the boot volume.
    OpenRootDir,
    /// Write the firmware memory map to a file.
    SaveMemoryMap,
    /// Read the kernel image, reserve its pages and place its segments.
    LoadKernel,
    /// Open the graphics output and describe its frame buffer.
    OpenDisplay,
    /// Tear down the firmware's boot services.
    ExitBootServices,
    /// Call the kernel's entry point with the frame buffer description.
    EnterKernel,
    /// Stop booting with a failure status.
    Abort,
    /// Nothing is left to do.
    Done,
}

pub open spec fn action_of(stage: BootStage) -> BootAction {
    match stage {
        BootStage::Start => BootAction::OpenRootDir,
        BootStage::RootOpened => BootAction::SaveMemoryMap,
        BootStage::MemoryMapSaved => BootAction::LoadKernel,
        BootStage::KernelLoaded => BootAction::OpenDisplay,
        BootStage::DisplayOpened => BootAction::ExitBootServices,
        BootStage::BootServicesExited => BootAction::EnterKernel,
        BootStage::KernelEntered => BootAction::Done,
        BootStage::Aborted => BootAction::Abort,
    }
}

/// The stage after the work of `stage` succeeded or failed.
pub open spec fn stage_after(stage: BootStage, succeeded: bool) -> BootStage {
    match stage {
        BootStage::KernelEntered => BootStage::KernelEntered,
        BootStage::Aborted => BootStage::Aborted,
        _ => if !succeeded {
            BootStage::Aborted
        } else {
            match stage {
                BootStage::Start => BootStage::RootOpened,
                BootStage::RootOpened => BootStage::MemoryMapSaved,
                BootStage::MemoryMapSaved => BootStage::KernelLoaded,
                BootStage::KernelLoaded => BootStage::DisplayOpened,
                BootStage::DisplayOpened => BootStage::BootServicesExited,
                _ => BootStage::KernelEntered,
            }
        },
    }
}

/// The work to do in `stage`.
pub fn next_action(stage: BootStage) -> (r: BootAction)
    ensures
        r == action_of(stage),
{
    match stage {
        BootStage::Start => BootAction::OpenRootDir,
        BootStage::RootOpened => BootAction::SaveMemoryMap,
        BootStage::MemoryMapSaved => BootAction::LoadKernel,
        BootStage::KernelLoaded => BootAction::OpenDisplay,
        BootStage::DisplayOpened => BootAction::ExitBootServices,
        BootStage::BootServicesExited => BootAction::EnterKernel,
        BootStage::KernelEntered => BootAction::Done,
        BootStage::Aborted => BootAction::Abort,
    }
}

/// The stage after the work of `stage` succeeded or failed.
pub fn advance(stage: BootStage, succeeded: bool) -> (r: BootStage)
    ensures
        r == stage_after(stage, succeeded),
{
    match stage {
        BootStage::KernelEntered => BootStage::KernelEntered,
        BootStage::Aborted => BootStage::Aborted,
        _ => if !succeeded {
            BootStage::Aborted
        } else {
            match stage {
                BootStage::Start => BootStage::RootOpened,
                BootStage::RootOpened => BootStage::MemoryMapSaved,
                BootStage::MemoryMapSaved => BootStage::KernelLoaded,
                BootStage::KernelLoaded => BootStage::DisplayOpened,
                BootStage::DisplayOpened => BootStage::BootServicesExited,
                _ => BootStage::KernelEntered,
            }
        },
    }
}

/// The stage reached from `Start` through the outcomes `outcomes`.
pub open spec fn run(outcomes: Seq<bool>) -> BootStage
    decreases outcomes.len(),
{
    if outcomes.len() == 0 {
        BootStage::Start
    } else {
        stage_after(run(outcomes.drop_last()), outcomes.last())
    }
}

/// The stage reached after `n` successful steps.
pub open spec fn stage_at(n: int) -> BootStage {
    if n <= 0 {
        BootStage::Start
    } else if n == 1 {
        BootStage::RootOpened
    } else if n == 2 {
        BootStage::MemoryMapSaved
    } else if n == 3 {
        BootStage::KernelLoaded
    } else if n == 4 {
        BootStage::DisplayOpened
    } else if n == 5 {
        BootStage::BootServicesExited
    } else {
        BootStage::KernelEntered
    }
}

proof fn lemma_run_forward(outcomes: Seq<bool>)
    requires
        forall|i: int| 0 <= i < outcomes.len() ==> #[trigger] outcomes[i],
    ensures
        run(outcomes) == stage_at(outcomes.len() as int),
    decreases outcomes.len(),
{
    if outcomes.len() > 0 {
        let init = outcomes.drop_last();
        assert forall|i: int| 0 <= i < init.len() implies #[trigger] init[i] by {
            assert(init[i] == outcomes[i]);
        }
        lemma_run_forward(init);
        assert(outcomes.last() == outcomes[outcomes.len() - 1]);
    }
}

proof fn lemma_run_back(outcomes: Seq<bool>, k: int)
    requires
        0 <= k <= 5,
        run(outcomes) == stage_at(k),
    ensures
        outcomes.len() == k,
        forall|i: int| 0 <= i < outcomes.len() ==> #[trigger] outcomes[i],
    decreases outcomes.len(),
{
    if outcomes.len() > 0 {
        let init = outcomes.drop_last();
        assert(run(outcomes) == stage_after(run(init), outcomes.last()));
        assert(k >= 1 && run(init) == stage_at(k - 1) && outcomes.last());
        lemma_run_back(init, k - 1);
        assert forall|i: int| 0 <= i < outcomes.len() implies #[trigger] outcomes[i] by {
            if i < init.len() {
                assert(init[i] == outcomes[i]);
            }
        }
    }
}

/// The kernel is entered only after opening the boot volume, saving the
/// memory map, loading the kernel, opening the display and exiting boot
/// services have all succeeded, in that order, and nothing else happened.
pub proof fn lemma_handoff_order(outcomes: Seq<bool>)
    ensures
        action_of(run(outcomes)) == BootAction::EnterKernel <==> (outcomes.len() == 5 && forall|i: int|
            0 <= i < 5 ==> #[trigger] outcomes[i]),
{
    if outcomes.len() == 5 && forall|i: int| 0 <= i < 5 ==> #[trigger] outcomes[i] {
        lemma_run_forward(outcomes);
    }
    if action_of(run(outcomes)) == BootAction::EnterKernel {
        lemma_run_back(outcomes, 5);
    }
}

} // verus!
