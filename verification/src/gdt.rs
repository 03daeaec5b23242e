//! Descriptor-table setup: CPU segmentation and the reserved alternate
//! stack for fault recovery.
//!
//! A double fault must be reportable even when the kernel stack is
//! corrupted or exhausted, so one entry of the task state segment's
//! interrupt stack table names a dedicated stack, distinct from the normal
//! kernel stack and sized to survive a fault. Loading the real tables into
//! the CPU is the boundary's one instruction; everything decided here —
//! which index, which stack, how large — is stated and checked.

use vstd::prelude::*;

verus! {

/// The fixed interrupt-stack-table index reserved for the double-fault
/// handler; trap-table setup binds the double-fault vector to it.
pub const DOUBLE_FAULT_IST_INDEX: u16 = 0;

/// Entries in the interrupt stack table.
pub const IST_ENTRIES: usize = 7;

/// Size of the reserved double-fault stack: five pages, enough to take the
/// fault and print a report even with the primary stack gone.
pub const DOUBLE_FAULT_STACK_SIZE: usize = 4096 * 5;

/// A contiguous stack region: `bottom` up to, not including, `top`.
#[derive(Debug, Clone, Copy, PartialEq, Eq, Structural)]
pub struct StackRegion {
    pub bottom: usize,
    pub top: usize,
}

impl StackRegion {
    /// A stack region lies above the null page and is non-empty.
    pub open spec fn wf(self) -> bool {
        0 < self.bottom < self.top
    }

    /// Number of bytes the region holds.
    pub open spec fn size(self) -> int {
        self.top - self.bottom
    }

    /// Two stack regions share no byte.
    pub open spec fn disjoint_from(self, other: StackRegion) -> bool {
        self.top <= other.bottom || other.top <= self.bottom
    }
}

/// The descriptor tables, as this kernel configures them: the interrupt
/// stack table (one stack-top address per entry, zero meaning unused) and
/// the two stacks it is built from.
pub struct DescriptorTables {
    pub interrupt_stack_table: Vec<usize>,
    pub double_fault_stack: StackRegion,
    pub kernel_stack: StackRegion,
}

impl DescriptorTables {
    /// The invariant the boot path must establish: the reserved entry names
    /// the top of the double-fault stack, which is full-sized and distinct
    /// from the normal kernel stack; every other entry is unused.
    pub open spec fn wf(self) -> bool {
        &&& self.interrupt_stack_table@.len() == IST_ENTRIES
        &&& self.double_fault_stack.wf()
        &&& self.kernel_stack.wf()
        &&& self.double_fault_stack.size() == DOUBLE_FAULT_STACK_SIZE
        &&& self.double_fault_stack.disjoint_from(self.kernel_stack)
        &&& self.interrupt_stack_table@[DOUBLE_FAULT_IST_INDEX as int]
            == self.double_fault_stack.top
        &&& forall|i: int|
            0 <= i < IST_ENTRIES && i != DOUBLE_FAULT_IST_INDEX ==> self.interrupt_stack_table@[i]
                == 0
    }
}

/// Configure segmentation state: reserve the alternate stack for the
/// double-fault handler at the fixed index. There is no runtime error
/// path — omitting this step is a silent fatal hazard, so the whole
/// outcome is pinned by the contract.
pub fn init(kernel_stack: StackRegion, double_fault_stack: StackRegion) -> (dt: DescriptorTables)
    requires
        kernel_stack.wf(),
        double_fault_stack.wf(),
        double_fault_stack.size() == DOUBLE_FAULT_STACK_SIZE,
        double_fault_stack.disjoint_from(kernel_stack),
    ensures
        dt.wf(),
        dt.double_fault_stack == double_fault_stack,
        dt.kernel_stack == kernel_stack,
{
    let mut interrupt_stack_table = vec![0usize; IST_ENTRIES];
    interrupt_stack_table[DOUBLE_FAULT_IST_INDEX as usize] = double_fault_stack.top;
    DescriptorTables { interrupt_stack_table, double_fault_stack, kernel_stack }
}

} // verus!
