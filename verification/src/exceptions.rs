//! CPU exception handling decisions.
//!
//! Handlers never return a value to the interrupted context; they decide
//! one of three outcomes — resume, halt, reset — and produce the report a
//! fatal path must render before the machine stops. Only the real trap
//! entry turns a halting or resetting outcome into a non-returning machine
//! operation, so the decisions themselves are stated and checked.

use vstd::prelude::*;

verus! {

/// Saved state the CPU pushes when a trap is taken.
#[derive(Debug, Clone, Copy, PartialEq, Eq, Structural)]
pub struct TrapFrame {
    pub instruction_pointer: u64,
    pub code_segment: u64,
    pub cpu_flags: u64,
    pub stack_pointer: u64,
    pub stack_segment: u64,
}

/// How a trap leaves the machine: resume the interrupted instruction
/// stream, halt for good, or reset (the double-fault path, which can never
/// safely return).
#[derive(Debug, Clone, Copy, PartialEq, Eq, Structural)]
pub enum TrapOutcome {
    Resume,
    Halt,
    Reset,
}

/// Page-fault error bits as the CPU reports them.
#[derive(Debug, Clone, Copy, PartialEq, Eq, Structural)]
pub struct PageFaultErrorCode {
    pub bits: u64,
}

impl PageFaultErrorCode {
    /// The fault was a protection violation (the page was present).
    pub open spec fn spec_protection_violation(self) -> bool {
        self.bits & 1 != 0
    }

    /// The faulting access was a write.
    pub open spec fn spec_caused_by_write(self) -> bool {
        self.bits & 2 != 0
    }

    /// The fault came from user mode.
    pub open spec fn spec_user_mode(self) -> bool {
        self.bits & 4 != 0
    }

    pub fn protection_violation(self) -> (b: bool)
        ensures
            b == self.spec_protection_violation(),
    {
        self.bits & 1 != 0
    }

    pub fn caused_by_write(self) -> (b: bool)
        ensures
            b == self.spec_caused_by_write(),
    {
        self.bits & 2 != 0
    }

    pub fn user_mode(self) -> (b: bool)
        ensures
            b == self.spec_user_mode(),
    {
        self.bits & 4 != 0
    }
}

/// The human-readable report a handler renders: the trapped frame, and for
/// a page fault the accessed address and the access-violation bits.
#[derive(Debug, Clone, Copy)]
pub struct TrapReport {
    pub frame: TrapFrame,
    pub accessed_address: Option<u64>,
    pub error_code: Option<u64>,
}

/// Breakpoint: diagnostic only. The trapped frame is reported and the
/// interrupted instruction stream resumes; no state changes besides the
/// diagnostic output.
pub fn breakpoint_handler(stack_frame: &TrapFrame) -> (r: (TrapOutcome, TrapReport))
    ensures
        r.0 == TrapOutcome::Resume,
        r.1.frame == *stack_frame,
        r.1.accessed_address is None,
        r.1.error_code is None,
{
    (
        TrapOutcome::Resume,
        TrapReport { frame: *stack_frame, accessed_address: None, error_code: None },
    )
}

/// Page fault: fatal by policy — this kernel has no demand paging or
/// recovery — so the outcome is unconditionally a halt, with the faulting
/// address and error bits in the report.
pub fn page_fault_handler(
    stack_frame: &TrapFrame,
    accessed_address: u64,
    error_code: PageFaultErrorCode,
) -> (r: (TrapOutcome, TrapReport))
    ensures
        r.0 == TrapOutcome::Halt,
        r.1.frame == *stack_frame,
        r.1.accessed_address == Some(accessed_address),
        r.1.error_code == Some(error_code.bits),
{
    (
        TrapOutcome::Halt,
        TrapReport {
            frame: *stack_frame,
            accessed_address: Some(accessed_address),
            error_code: Some(error_code.bits),
        },
    )
}

/// Double fault: always fatal, and the machine cannot safely return — the
/// outcome is a reset. The real handler runs on the reserved alternate
/// stack so this report survives a corrupted primary stack.
pub fn double_fault_handler(stack_frame: &TrapFrame, error_code: u64) -> (r: (
    TrapOutcome,
    TrapReport,
))
    ensures
        r.0 == TrapOutcome::Reset,
        r.1.frame == *stack_frame,
        r.1.accessed_address is None,
        r.1.error_code == Some(error_code),
{
    (
        TrapOutcome::Reset,
        TrapReport { frame: *stack_frame, accessed_address: None, error_code: Some(error_code) },
    )
}

/// A synchronous exception, as delivered by the CPU.
#[derive(Debug, Clone, Copy)]
pub enum TrapEvent {
    Breakpoint { frame: TrapFrame },
    PageFault { frame: TrapFrame, accessed_address: u64, error_code: PageFaultErrorCode },
    DoubleFault { frame: TrapFrame, error_code: u64 },
}

/// Resolve a synchronous exception where it was raised: a breakpoint
/// resumes with no state change, a page fault halts, a double fault
/// resets; every fatal path carries its report.
pub fn handle_exception(event: &TrapEvent) -> (r: (TrapOutcome, TrapReport))
    ensures
        match *event {
            TrapEvent::Breakpoint { frame } => r.0 == TrapOutcome::Resume && r.1.frame == frame
                && r.1.accessed_address is None && r.1.error_code is None,
            TrapEvent::PageFault { frame, accessed_address, error_code } => r.0
                == TrapOutcome::Halt && r.1.frame == frame && r.1.accessed_address == Some(
                accessed_address,
            ) && r.1.error_code == Some(error_code.bits),
            TrapEvent::DoubleFault { frame, error_code } => r.0 == TrapOutcome::Reset && r.1.frame
                == frame && r.1.accessed_address is None && r.1.error_code == Some(error_code),
        },
{
    match event {
        TrapEvent::Breakpoint { frame } => breakpoint_handler(frame),
        TrapEvent::PageFault { frame, accessed_address, error_code } => page_fault_handler(
            frame,
            *accessed_address,
            *error_code,
        ),
        TrapEvent::DoubleFault { frame, error_code } => double_fault_handler(frame, *error_code),
    }
}

} // verus!
