//! Runtime init as a state machine: `Booting -> BssCleared -> Greeted ->
//! Idle`, where `Idle` re-enters itself forever. The caller performs each
//! returned action and then asks for the next step.

use vstd::prelude::*;

verus! {

/// The addresses that the linked memory layout supplies at boot.
#[derive(Clone, Copy, PartialEq, Eq, Structural)]
pub struct MemoryLayout {
    pub bss_start: usize,
    pub bss_end: usize,
    pub stack_top: usize,
}

#[derive(Clone, Copy, PartialEq, Eq, Structural)]
pub enum Stage {
    Booting,
    BssCleared,
    Greeted,
    Idle,
}

#[derive(Clone, Copy, PartialEq, Eq, Structural)]
pub enum Action {
    /// Zero `len` bytes starting at address `start`.
    ZeroBss { start: usize, len: usize },
    /// Emit the greeting through the formatter.
    Greet,
    /// Issue one wait-for-interrupt instruction.
    WaitForInterrupt,
}

/// One step of runtime init: the next stage and the action that leads to it.
pub fn init_step(layout: &MemoryLayout, stage: Stage) -> (r: (Stage, Action))
    requires
        layout.bss_start <= layout.bss_end,
    ensures
        stage == Stage::Booting ==> r == (
            Stage::BssCleared,
            (Action::ZeroBss {
                start: layout.bss_start,
                len: (layout.bss_end - layout.bss_start) as usize,
            }),
        ),
        stage == Stage::BssCleared ==> r == (Stage::Greeted, Action::Greet),
        stage == Stage::Greeted ==> r == (Stage::Idle, Action::WaitForInterrupt),
        stage == Stage::Idle ==> r == (Stage::Idle, Action::WaitForInterrupt),
{
    match stage {
        Stage::Booting => (
            Stage::BssCleared,
            Action::ZeroBss { start: layout.bss_start, len: layout.bss_end - layout.bss_start },
        ),
        Stage::BssCleared => (Stage::Greeted, Action::Greet),
        Stage::Greeted => (Stage::Idle, Action::WaitForInterrupt),
        Stage::Idle => (Stage::Idle, Action::WaitForInterrupt),
    }
}

} // verus!
