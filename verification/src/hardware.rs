//! Hardware-interrupt dispatch: the chained controller pair and the two
//! device handlers.
//!
//! The two cascaded 8-bit controllers are remapped so the primary owns
//! vectors 32 to 39 and the secondary 40 to 47, clear of the 32 CPU
//! exceptions. Each controller is modelled by its request register (lines
//! raised, not yet serviced) and in-service register (lines being
//! serviced): a line whose in-service bit is never cleared receives no
//! further interrupts, which is why every serviced interrupt must get
//! exactly one end-of-interrupt, addressed to the controller that raised
//! it.

use vstd::prelude::*;
use crate::keyboard::{console_action, ConsoleAction, KeyOutput, ScancodeDecoder};

verus! {

/// First vector of the primary controller.
pub const PIC_1_OFFSET: u8 = 32;

/// First vector of the secondary controller.
pub const PIC_2_OFFSET: u8 = PIC_1_OFFSET + 8;

/// Lines per controller.
pub const PIC_LINES: u8 = 8;

/// Primary-controller line on which the secondary is cascaded.
pub const CASCADE_LINE: u8 = 2;

/// One 8-bit interrupt controller: its vector base, the lines raised but
/// not yet serviced (request register) and the lines being serviced
/// (in-service register), low bit for line zero.
#[derive(Debug, Clone, Copy, PartialEq, Eq, Structural)]
pub struct PicController {
    pub offset: u8,
    pub irr: u8,
    pub isr: u8,
}

/// The bit of line `line`.
pub open spec fn line_bit(line: u8) -> u8
    recommends
        line < PIC_LINES,
{
    1u8 << line
}

/// A non-specific end-of-interrupt clears the highest-priority line in
/// service: the lowest set bit.
pub open spec fn clear_highest_priority(isr: u8) -> u8 {
    if isr == 0 {
        0u8
    } else {
        isr & ((isr - 1) as u8)
    }
}

/// Law: an acknowledgment addressed to a vector the secondary controller
/// does not own leaves the secondary's in-service lines untouched — so a
/// secondary interrupt whose acknowledgment names the wrong controller
/// stays in service, and its line is starved permanently. The
/// acknowledgment must name the controller that actually raised the
/// interrupt.
pub proof fn lemma_wrong_controller_ack_starves(c: ChainedPics, vector: u8)
    requires
        !c.secondary.handles_vector(vector),
    ensures
        spec_eoi(c, vector).secondary == c.secondary,
{
}

/// Acknowledging the only line in service leaves the controller idle: its
/// line is not left masked.
pub proof fn lemma_eoi_clears_single_line(line: u8)
    requires
        line < PIC_LINES,
    ensures
        clear_highest_priority(line_bit(line)) == 0,
{
    assert((1u8 << line) & (((1u8 << line) - 1) as u8) == 0 && (1u8 << line) != 0) by (bit_vector)
        requires
            line < 8,
    ;
}

impl PicController {
    /// Whether this controller owns the vector.
    pub open spec fn handles_vector(self, vector: u8) -> bool {
        self.offset <= vector < self.offset + PIC_LINES
    }

    /// Whether the line is raised and not in service: ready for delivery.
    pub open spec fn line_pending(self, line: u8) -> bool {
        &&& self.irr & line_bit(line) != 0
        &&& self.isr & line_bit(line) == 0
    }
}

/// The chained controller pair.
#[derive(Debug, Clone, Copy, PartialEq, Eq, Structural)]
pub struct ChainedPics {
    pub primary: PicController,
    pub secondary: PicController,
}

/// What one end-of-interrupt, addressed by the vector that was serviced,
/// does to the pair: a secondary vector acknowledges the secondary and,
/// because the secondary is cascaded through the primary, the primary too;
/// a primary vector acknowledges the primary alone; a vector neither owns
/// changes nothing. Exactly one acknowledgment reaches the controller that
/// raised the interrupt.
pub open spec fn spec_eoi(c: ChainedPics, vector: u8) -> ChainedPics {
    if c.secondary.handles_vector(vector) {
        ChainedPics {
            primary: PicController { isr: clear_highest_priority(c.primary.isr), ..c.primary },
            secondary: PicController {
                isr: clear_highest_priority(c.secondary.isr),
                ..c.secondary
            },
        }
    } else if c.primary.handles_vector(vector) {
        ChainedPics {
            primary: PicController { isr: clear_highest_priority(c.primary.isr), ..c.primary },
            secondary: c.secondary,
        }
    } else {
        c
    }
}

impl ChainedPics {
    /// The pair as this kernel remaps it, all lines quiet.
    pub open spec fn wf(self) -> bool {
        &&& self.primary.offset == PIC_1_OFFSET
        &&& self.secondary.offset == PIC_2_OFFSET
    }

    /// Remap the pair to the given vector bases, no line raised or in
    /// service.
    pub fn new(offset1: u8, offset2: u8) -> (c: ChainedPics)
        ensures
            c.primary.offset == offset1,
            c.secondary.offset == offset2,
            c.primary.irr == 0 && c.primary.isr == 0,
            c.secondary.irr == 0 && c.secondary.isr == 0,
    {
        ChainedPics {
            primary: PicController { offset: offset1, irr: 0, isr: 0 },
            secondary: PicController { offset: offset2, irr: 0, isr: 0 },
        }
    }

    /// Whether either controller owns the vector.
    pub open spec fn spec_handles_interrupt(self, vector: u8) -> bool {
        self.primary.handles_vector(vector) || self.secondary.handles_vector(vector)
    }

    pub fn handles_interrupt(&self, vector: u8) -> (b: bool)
        ensures
            b == self.spec_handles_interrupt(vector),
    {
        (self.primary.offset <= vector && (vector as u16) < self.primary.offset as u16
            + PIC_LINES as u16) || (self.secondary.offset <= vector && (vector as u16)
            < self.secondary.offset as u16 + PIC_LINES as u16)
    }

    /// A device raises its line: the owning controller's request bit is
    /// set. Raising an already-raised or in-service line is absorbed, as
    /// the edge-triggered hardware absorbs it.
    pub fn raise(&mut self, vector: u8)
        requires
            old(self).spec_handles_interrupt(vector),
            old(self).primary.offset + PIC_LINES <= old(self).secondary.offset
                || old(self).secondary.offset + PIC_LINES <= old(self).primary.offset,
        ensures
            old(self).primary.handles_vector(vector) ==> *final(self) == (ChainedPics {
                primary: PicController {
                    irr: old(self).primary.irr | line_bit((vector - old(self).primary.offset) as u8),
                    ..old(self).primary
                },
                secondary: old(self).secondary,
            }),
            old(self).secondary.handles_vector(vector) ==> *final(self) == (ChainedPics {
                primary: old(self).primary,
                secondary: PicController {
                    irr: old(self).secondary.irr | line_bit(
                        (vector - old(self).secondary.offset) as u8,
                    ),
                    ..old(self).secondary
                },
            }),
    {
        if self.primary.offset <= vector && (vector as u16) < self.primary.offset as u16
            + PIC_LINES as u16 {
            let line = vector - self.primary.offset;
            self.primary.irr = self.primary.irr | (1u8 << line);
        } else {
            let line = vector - self.secondary.offset;
            self.secondary.irr = self.secondary.irr | (1u8 << line);
        }
    }

    /// Deliver the highest-priority pending interrupt, if any: primary
    /// lines before secondary lines, lower lines before higher — this
    /// layer neither reorders nor coalesces. The delivered line moves from
    /// raised to in-service; a serviced secondary line also marks the
    /// cascade in service on the primary. Returns the vector to dispatch.
    pub fn acknowledge(&mut self) -> (r: Option<u8>)
        requires
            old(self).primary.offset + PIC_LINES <= 256,
            old(self).secondary.offset + PIC_LINES <= 256,
            old(self).primary.offset + PIC_LINES <= old(self).secondary.offset
                || old(self).secondary.offset + PIC_LINES <= old(self).primary.offset,
        ensures
            match r {
                Some(vector) => {
                    &&& old(self).spec_handles_interrupt(vector)
                    &&& (old(self).primary.handles_vector(vector)
                        ==> old(self).primary.line_pending((vector - old(self).primary.offset) as u8)
                        && *final(self) == (ChainedPics {
                        primary: PicController {
                            irr: old(self).primary.irr & !line_bit(
                                (vector - old(self).primary.offset) as u8,
                            ),
                            isr: old(self).primary.isr | line_bit(
                                (vector - old(self).primary.offset) as u8,
                            ),
                            ..old(self).primary
                        },
                        secondary: old(self).secondary,
                    }))
                    &&& (old(self).secondary.handles_vector(vector)
                        ==> old(self).secondary.line_pending(
                        (vector - old(self).secondary.offset) as u8,
                    ) && *final(self) == (ChainedPics {
                        primary: PicController {
                            isr: old(self).primary.isr | line_bit(CASCADE_LINE),
                            ..old(self).primary
                        },
                        secondary: PicController {
                            irr: old(self).secondary.irr & !line_bit(
                                (vector - old(self).secondary.offset) as u8,
                            ),
                            isr: old(self).secondary.isr | line_bit(
                                (vector - old(self).secondary.offset) as u8,
                            ),
                            ..old(self).secondary
                        },
                    }))
                    // priority: nothing pending earlier in the service order
                    &&& (forall|w: u8|
                        w < PIC_LINES && (old(self).primary.handles_vector(vector) ==> w < vector
                            - old(self).primary.offset) ==> !old(self).primary.line_pending(w))
                    &&& (old(self).secondary.handles_vector(vector) ==> forall|w: u8|
                        w < vector - old(self).secondary.offset ==> !old(self).secondary.line_pending(
                            w,
                        ))
                },
                None => {
                    &&& *final(self) == *old(self)
                    &&& forall|w: u8|
                        w < PIC_LINES ==> !old(self).primary.line_pending(w) && !old(self).secondary.line_pending(
                            w,
                        )
                },
            },
    {
        let mut line: u8 = 0;
        while line < PIC_LINES
            invariant
                line <= PIC_LINES,
                self == old(self),
                old(self).primary.offset + PIC_LINES <= 256,
                old(self).secondary.offset + PIC_LINES <= 256,
                old(self).primary.offset + PIC_LINES <= old(self).secondary.offset || old(
                    self,
                ).secondary.offset + PIC_LINES <= old(self).primary.offset,
                forall|w: u8| w < line ==> !old(self).primary.line_pending(w),
            decreases PIC_LINES - line,
        {
            if (self.primary.irr & (1u8 << line)) != 0 && (self.primary.isr & (1u8 << line)) == 0 {
                let vector = self.primary.offset + line;
                proof {
                    assert(self.primary.offset + line < self.primary.offset + PIC_LINES);
                }
                self.primary.irr = self.primary.irr & !(1u8 << line);
                self.primary.isr = self.primary.isr | (1u8 << line);
                proof {
                    assert(vector - old(self).primary.offset == line);
                }
                return Some(vector);
            }
            line += 1;
        }
        let mut line: u8 = 0;
        while line < PIC_LINES
            invariant
                line <= PIC_LINES,
                self == old(self),
                old(self).primary.offset + PIC_LINES <= 256,
                old(self).secondary.offset + PIC_LINES <= 256,
                old(self).primary.offset + PIC_LINES <= old(self).secondary.offset || old(
                    self,
                ).secondary.offset + PIC_LINES <= old(self).primary.offset,
                forall|w: u8| w < PIC_LINES ==> !old(self).primary.line_pending(w),
                forall|w: u8| w < line ==> !old(self).secondary.line_pending(w),
            decreases PIC_LINES - line,
        {
            if (self.secondary.irr & (1u8 << line)) != 0 && (self.secondary.isr & (1u8 << line))
                == 0 {
                let vector = self.secondary.offset + line;
                self.secondary.irr = self.secondary.irr & !(1u8 << line);
                self.secondary.isr = self.secondary.isr | (1u8 << line);
                self.primary.isr = self.primary.isr | (1u8 << CASCADE_LINE);
                proof {
                    assert(vector - old(self).secondary.offset == line);
                }
                return Some(vector);
            }
            line += 1;
        }
        None
    }

    /// Issue the end-of-interrupt for a serviced vector, addressed to the
    /// controller that raised it: the secondary (and its cascade on the
    /// primary) for a secondary vector, the primary alone for a primary
    /// vector. Acknowledging the wrong controller would leave the raising
    /// controller's line in service — masked — forever.
    pub fn notify_end_of_interrupt(&mut self, vector: u8)
        ensures
            *final(self) == spec_eoi(*old(self), vector),
    {
        if self.secondary.offset <= vector && (vector as u16) < self.secondary.offset as u16
            + PIC_LINES as u16 {
            self.secondary.isr = if self.secondary.isr == 0 {
                0
            } else {
                self.secondary.isr & (self.secondary.isr - 1)
            };
            self.primary.isr = if self.primary.isr == 0 {
                0
            } else {
                self.primary.isr & (self.primary.isr - 1)
            };
        } else if self.primary.offset <= vector && (vector as u16) < self.primary.offset as u16
            + PIC_LINES as u16 {
            self.primary.isr = if self.primary.isr == 0 {
                0
            } else {
                self.primary.isr & (self.primary.isr - 1)
            };
        }
    }
}

/// Position of each device interrupt in the vector space: controller base
/// plus line.
#[derive(Debug, Clone, Copy)]
pub enum InterruptIndex {
    Timer,
    Keyboard,
}

impl InterruptIndex {
    /// The absolute vector of this device's interrupt.
    pub open spec fn spec_vector(self) -> u8 {
        match self {
            InterruptIndex::Timer => PIC_1_OFFSET,
            InterruptIndex::Keyboard => (PIC_1_OFFSET + 1) as u8,
        }
    }

    /// Convert the interrupt position to `u8`.
    pub fn as_u8(self) -> (v: u8)
        ensures
            v == self.spec_vector(),
    {
        match self {
            InterruptIndex::Timer => PIC_1_OFFSET,
            InterruptIndex::Keyboard => PIC_1_OFFSET + 1,
        }
    }

    /// Convert the interrupt position to `usize`.
    pub fn as_usize(self) -> (v: usize)
        ensures
            v == self.spec_vector() as usize,
    {
        self.as_u8() as usize
    }
}

/// Hardware timer interrupt: no work is performed in this kernel core, but
/// exactly one end-of-interrupt is issued to the primary controller's
/// timer vector on every invocation, regardless of other work.
pub fn timer_interrupt_handler(pics: &mut ChainedPics)
    ensures
        *final(pics) == spec_eoi(*old(pics), InterruptIndex::Timer.spec_vector()),
{
    pics.notify_end_of_interrupt(InterruptIndex::Timer.as_u8());
}

/// Hardware keyboard interrupt: the byte read from the keyboard data port
/// is fed to the stateful scancode decoder, and a fully decoded key yields
/// exactly one console action. Exactly one end-of-interrupt is issued on
/// every invocation — also when no key was fully decoded yet — addressed
/// by the vector that actually fired, so the acknowledgment reaches the
/// controller that raised the interrupt.
pub fn keyboard_interrupt_handler(
    decoder: &mut ScancodeDecoder,
    pics: &mut ChainedPics,
    scancode: u8,
) -> (action: Option<ConsoleAction>)
    ensures
        *final(pics) == spec_eoi(*old(pics), InterruptIndex::Keyboard.spec_vector()),
{
    let action = match decoder.decode(scancode) {
        Some(key) => Some(console_action(key)),
        None => None,
    };
    pics.notify_end_of_interrupt(InterruptIndex::Keyboard.as_u8());
    action
}

} // verus!
