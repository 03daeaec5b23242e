//! The trap table: 256 vectors, each optionally bound to a handler.
//!
//! Vectors 0 to 31 are CPU exceptions; 32 and up are the remapped hardware
//! interrupts. The table is a registration table populated once at boot:
//! binding, populating and loading are explicit steps, and enabling
//! interrupts (in `architecture`) demands a loaded, fully wired table —
//! an unbound vector that fires would reset the machine.

use vstd::prelude::*;
use crate::gdt::{DescriptorTables, DOUBLE_FAULT_IST_INDEX};

verus! {

/// Vector of the breakpoint exception.
pub const BREAKPOINT_VECTOR: u8 = 3;

/// Vector of the double-fault exception.
pub const DOUBLE_FAULT_VECTOR: u8 = 8;

/// Vector of the page-fault exception.
pub const PAGE_FAULT_VECTOR: u8 = 14;

/// Number of entries in the trap table.
pub const IDT_ENTRIES: usize = 256;

/// The handlers this kernel knows.
#[derive(Debug, Clone, Copy, PartialEq, Eq, Structural)]
pub enum HandlerKind {
    Breakpoint,
    DoubleFault,
    PageFault,
    Timer,
    Keyboard,
}

/// One binding: the handler a vector dispatches to, and the alternate
/// stack it runs on, if any.
#[derive(Debug, Clone, Copy)]
pub struct IdtEntry {
    pub handler: HandlerKind,
    pub stack_index: Option<u16>,
}

/// The trap table and whether it has been handed to the CPU.
pub struct Idt {
    pub entries: Vec<Option<IdtEntry>>,
    pub loaded: bool,
}

impl Idt {
    pub open spec fn wf(self) -> bool {
        self.entries@.len() == IDT_ENTRIES
    }

    /// The binding of vector `v`.
    pub open spec fn binding(self, v: int) -> Option<IdtEntry> {
        self.entries@[v]
    }

    /// Every vector this kernel must answer is bound as designed: the three
    /// exceptions — the double fault on the reserved alternate stack — and
    /// the two hardware lines.
    pub open spec fn fully_wired(self) -> bool {
        &&& self.binding(BREAKPOINT_VECTOR as int) == Some(
            IdtEntry { handler: HandlerKind::Breakpoint, stack_index: None },
        )
        &&& self.binding(DOUBLE_FAULT_VECTOR as int) == Some(
            IdtEntry { handler: HandlerKind::DoubleFault, stack_index: Some(DOUBLE_FAULT_IST_INDEX) },
        )
        &&& self.binding(PAGE_FAULT_VECTOR as int) == Some(
            IdtEntry { handler: HandlerKind::PageFault, stack_index: None },
        )
        &&& self.binding(crate::hardware::PIC_1_OFFSET as int) == Some(
            IdtEntry { handler: HandlerKind::Timer, stack_index: None },
        )
        &&& self.binding(crate::hardware::PIC_1_OFFSET as int + 1) == Some(
            IdtEntry { handler: HandlerKind::Keyboard, stack_index: None },
        )
    }

    /// Hand the populated table to the CPU. The real table load is the
    /// boundary's one instruction; what matters here is the order: loading
    /// is a precondition to enabling interrupts.
    pub fn load(&mut self)
        ensures
            final(self).entries@ == old(self).entries@,
            final(self).loaded,
    {
        self.loaded = true;
    }
}

/// Build and load the trap table: bind the exception handlers — the double
/// fault onto the reserved alternate stack of the descriptor tables — and
/// the two hardware-interrupt handlers, then load. Runs exactly once at
/// boot, after the descriptor tables, before interrupts are enabled.
pub fn init(dt: &DescriptorTables) -> (idt: Idt)
    requires
        dt.wf(),
    ensures
        idt.wf(),
        idt.fully_wired(),
        idt.loaded,
        // nothing else is bound: an unknown vector stays recognisably unbound
        forall|v: int|
            0 <= v < IDT_ENTRIES && v != BREAKPOINT_VECTOR as int && v != DOUBLE_FAULT_VECTOR as int
                && v != PAGE_FAULT_VECTOR as int && v != crate::hardware::PIC_1_OFFSET as int && v
                != crate::hardware::PIC_1_OFFSET as int + 1 ==> idt.binding(v) is None,
{
    let mut entries: Vec<Option<IdtEntry>> = vec![None; IDT_ENTRIES];
    entries[BREAKPOINT_VECTOR as usize] = Some(
        IdtEntry { handler: HandlerKind::Breakpoint, stack_index: None },
    );
    entries[DOUBLE_FAULT_VECTOR as usize] = Some(
        IdtEntry { handler: HandlerKind::DoubleFault, stack_index: Some(DOUBLE_FAULT_IST_INDEX) },
    );
    entries[PAGE_FAULT_VECTOR as usize] = Some(
        IdtEntry { handler: HandlerKind::PageFault, stack_index: None },
    );
    entries[crate::hardware::PIC_1_OFFSET as usize] = Some(
        IdtEntry { handler: HandlerKind::Timer, stack_index: None },
    );
    entries[crate::hardware::PIC_1_OFFSET as usize + 1] = Some(
        IdtEntry { handler: HandlerKind::Keyboard, stack_index: None },
    );
    let mut idt = Idt { entries, loaded: false };
    idt.load();
    idt
}

/// Look up the handler a vector dispatches to: the registration table that
/// the real trap entry consults.
pub fn dispatch(idt: &Idt, vector: u8) -> (r: Option<IdtEntry>)
    requires
        idt.wf(),
        idt.loaded,
    ensures
        r == idt.binding(vector as int),
{
    idt.entries[vector as usize]
}

} // verus!
