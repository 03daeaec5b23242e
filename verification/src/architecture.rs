//! Boot-time wiring of the architecture-specific machinery, in order:
//! descriptor tables, trap table, controller remap, then — and only then —
//! interrupts.
//!
//! Everything initialised lives in one owned context, constructed once by
//! `init` and passed by reference from then on; a second initialisation is
//! ruled out by ownership rather than by a runtime flag.

use vstd::prelude::*;
use crate::gdt::{self, DescriptorTables, StackRegion, DOUBLE_FAULT_STACK_SIZE};
use crate::hardware::{ChainedPics, PIC_1_OFFSET, PIC_2_OFFSET};
use crate::idt::{self, Idt};
use crate::keyboard::ScancodeDecoder;

verus! {

/// Everything the boot path wires up, owned in one place: the descriptor
/// tables, the trap table, the remapped controller pair, the scancode
/// decoder, and whether interrupts have been enabled.
pub struct KernelContext {
    pub descriptors: DescriptorTables,
    pub idt: Idt,
    pub pics: ChainedPics,
    pub keyboard: ScancodeDecoder,
    pub interrupts_enabled: bool,
}

impl KernelContext {
    /// The boot invariant: tables well formed, controllers remapped clear
    /// of the CPU exceptions, and — the ordering that matters — interrupts
    /// enabled only with the trap table fully populated and loaded.
    pub open spec fn wf(self) -> bool {
        &&& self.descriptors.wf()
        &&& self.idt.wf()
        &&& self.pics.wf()
        &&& self.interrupts_enabled ==> self.idt.loaded && self.idt.fully_wired()
    }
}

/// Unmask interrupts. Legal only once the trap table is fully populated
/// and loaded: an unbound vector that fired would reset the machine, so
/// the ordering is a precondition, not a convention.
pub fn enable_interrupts(ctx: &mut KernelContext)
    requires
        old(ctx).wf(),
        old(ctx).idt.loaded,
        old(ctx).idt.fully_wired(),
    ensures
        final(ctx).wf(),
        final(ctx).interrupts_enabled,
        final(ctx).descriptors == old(ctx).descriptors,
        final(ctx).idt == old(ctx).idt,
        final(ctx).pics == old(ctx).pics,
{
    ctx.interrupts_enabled = true;
}

/// Initialize the architecture-specific parts of the kernel, in the boot
/// order the invariants demand: descriptor tables first (the trap table
/// needs the reserved stack index), then the trap table, then the
/// controller remap, and interrupts only after the table is loaded.
/// Runs exactly once; the context it returns is the only one there is.
pub fn init(kernel_stack: StackRegion, double_fault_stack: StackRegion) -> (ctx: KernelContext)
    requires
        kernel_stack.wf(),
        double_fault_stack.wf(),
        double_fault_stack.size() == DOUBLE_FAULT_STACK_SIZE,
        double_fault_stack.disjoint_from(kernel_stack),
    ensures
        ctx.wf(),
        ctx.interrupts_enabled,
        ctx.idt.fully_wired(),
        ctx.pics.primary.offset == PIC_1_OFFSET,
        ctx.pics.secondary.offset == PIC_2_OFFSET,
        ctx.pics.primary.irr == 0 && ctx.pics.primary.isr == 0,
        ctx.pics.secondary.irr == 0 && ctx.pics.secondary.isr == 0,
{
    let descriptors = gdt::init(kernel_stack, double_fault_stack);
    let idt = idt::init(&descriptors);
    let pics = ChainedPics::new(PIC_1_OFFSET, PIC_2_OFFSET);
    let keyboard = ScancodeDecoder::new();
    let mut ctx = KernelContext { descriptors, idt, pics, keyboard, interrupts_enabled: false };
    enable_interrupts(&mut ctx);
    ctx
}

} // verus!
