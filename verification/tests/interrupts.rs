use nit_os::architecture::{self, KernelContext};
use nit_os::exceptions::{
    breakpoint_handler, double_fault_handler, handle_exception, page_fault_handler,
    PageFaultErrorCode, TrapEvent, TrapFrame, TrapOutcome,
};
use nit_os::gdt::{self, StackRegion, DOUBLE_FAULT_IST_INDEX, DOUBLE_FAULT_STACK_SIZE};
use nit_os::hardware::{
    keyboard_interrupt_handler, timer_interrupt_handler, ChainedPics, InterruptIndex,
    PIC_1_OFFSET, PIC_2_OFFSET,
};
use nit_os::idt::{dispatch, HandlerKind};
use nit_os::keyboard::{ConsoleAction, ScancodeDecoder};

fn frame() -> TrapFrame {
    TrapFrame {
        instruction_pointer: 0x1000,
        code_segment: 8,
        cpu_flags: 0x202,
        stack_pointer: 0x9000,
        stack_segment: 0,
    }
}

fn boot() -> KernelContext {
    let kernel_stack = StackRegion { bottom: 0x20000, top: 0x30000 };
    let double_fault_stack = StackRegion { bottom: 0x40000, top: 0x40000 + DOUBLE_FAULT_STACK_SIZE };
    architecture::init(kernel_stack, double_fault_stack)
}

// Scenario: a software breakpoint trap resumes the interrupted instruction
// stream; the only product is the diagnostic report of the trapped frame.
#[test]
fn breakpoint_resumes_with_frame_reported() {
    let f = frame();
    let (outcome, report) = breakpoint_handler(&f);
    assert_eq!(outcome, TrapOutcome::Resume);
    assert_eq!(report.frame, f);
    assert!(report.accessed_address.is_none());
    assert!(report.error_code.is_none());
}

#[test]
fn page_fault_halts_with_address_and_flags() {
    let f = frame();
    let code = PageFaultErrorCode { bits: 0b11 };
    assert!(code.protection_violation());
    assert!(code.caused_by_write());
    assert!(!code.user_mode());
    let (outcome, report) = page_fault_handler(&f, 0xdead_b000, code);
    assert_eq!(outcome, TrapOutcome::Halt);
    assert_eq!(report.accessed_address, Some(0xdead_b000));
    assert_eq!(report.error_code, Some(0b11));
    assert_eq!(report.frame, f);
}

#[test]
fn double_fault_resets() {
    let f = frame();
    let (outcome, report) = double_fault_handler(&f, 0);
    assert_eq!(outcome, TrapOutcome::Reset);
    assert_eq!(report.error_code, Some(0));
}

#[test]
fn exception_dispatch_matches_each_handler() {
    let f = frame();
    let (o1, _) = handle_exception(&TrapEvent::Breakpoint { frame: f });
    assert_eq!(o1, TrapOutcome::Resume);
    let (o2, r2) = handle_exception(
        &TrapEvent::PageFault {
            frame: f,
            accessed_address: 0x42,
            error_code: PageFaultErrorCode { bits: 4 },
        },
    );
    assert_eq!(o2, TrapOutcome::Halt);
    assert_eq!(r2.accessed_address, Some(0x42));
    let (o3, _) = handle_exception(&TrapEvent::DoubleFault { frame: f, error_code: 1 });
    assert_eq!(o3, TrapOutcome::Reset);
}

#[test]
fn descriptor_tables_reserve_the_alternate_stack() {
    let kernel_stack = StackRegion { bottom: 0x20000, top: 0x30000 };
    let df_stack = StackRegion { bottom: 0x40000, top: 0x40000 + DOUBLE_FAULT_STACK_SIZE };
    let dt = gdt::init(kernel_stack, df_stack);
    assert_eq!(dt.interrupt_stack_table[DOUBLE_FAULT_IST_INDEX as usize], df_stack.top);
    for i in 0..dt.interrupt_stack_table.len() {
        if i != DOUBLE_FAULT_IST_INDEX as usize {
            assert_eq!(dt.interrupt_stack_table[i], 0);
        }
    }
}

#[test]
fn boot_wires_every_vector_before_enabling_interrupts() {
    let ctx = boot();
    assert!(ctx.interrupts_enabled);
    assert!(ctx.idt.loaded);
    let bp = dispatch(&ctx.idt, 3).unwrap();
    assert_eq!(bp.handler, HandlerKind::Breakpoint);
    assert_eq!(bp.stack_index, None);
    let df = dispatch(&ctx.idt, 8).unwrap();
    assert_eq!(df.handler, HandlerKind::DoubleFault);
    assert_eq!(df.stack_index, Some(DOUBLE_FAULT_IST_INDEX));
    let pf = dispatch(&ctx.idt, 14).unwrap();
    assert_eq!(pf.handler, HandlerKind::PageFault);
    assert_eq!(dispatch(&ctx.idt, 32).unwrap().handler, HandlerKind::Timer);
    assert_eq!(dispatch(&ctx.idt, 33).unwrap().handler, HandlerKind::Keyboard);
    // an unbound vector is recognisably unbound
    assert!(dispatch(&ctx.idt, 100).is_none());
}

#[test]
fn device_vector_map() {
    assert_eq!(InterruptIndex::Timer.as_u8(), PIC_1_OFFSET);
    assert_eq!(InterruptIndex::Keyboard.as_u8(), PIC_1_OFFSET + 1);
    assert_eq!(InterruptIndex::Timer.as_usize(), 32);
    assert_eq!(InterruptIndex::Keyboard.as_usize(), 33);
    assert_eq!(PIC_1_OFFSET, 32);
    assert_eq!(PIC_2_OFFSET, 40);
    let pics = ChainedPics::new(PIC_1_OFFSET, PIC_2_OFFSET);
    assert!(pics.handles_interrupt(32));
    assert!(pics.handles_interrupt(47));
    assert!(!pics.handles_interrupt(31));
    assert!(!pics.handles_interrupt(48));
}

#[test]
fn timer_acknowledges_primary_exactly_once() {
    let mut pics = ChainedPics::new(PIC_1_OFFSET, PIC_2_OFFSET);
    pics.raise(32);
    assert_eq!(pics.acknowledge(), Some(32));
    assert_eq!(pics.primary.isr, 0b0000_0001);
    timer_interrupt_handler(&mut pics);
    assert_eq!(pics.primary.isr, 0);
    assert_eq!(pics.secondary.isr, 0);
}

#[test]
fn priority_is_primary_first_lower_line_first() {
    let mut pics = ChainedPics::new(PIC_1_OFFSET, PIC_2_OFFSET);
    pics.raise(44);
    pics.raise(35);
    pics.raise(33);
    assert_eq!(pics.acknowledge(), Some(33));
    pics.notify_end_of_interrupt(33);
    assert_eq!(pics.acknowledge(), Some(35));
    pics.notify_end_of_interrupt(35);
    assert_eq!(pics.acknowledge(), Some(44));
    pics.notify_end_of_interrupt(44);
    assert_eq!(pics.acknowledge(), None);
}

// Scenario: two interrupts fire back to back on a secondary-controller
// line; each is acknowledged exactly once, addressed to the secondary
// controller, and a third interrupt on the line is still delivered.
#[test]
fn secondary_line_never_left_masked() {
    let mut pics = ChainedPics::new(PIC_1_OFFSET, PIC_2_OFFSET);
    pics.raise(44);
    assert_eq!(pics.acknowledge(), Some(44));
    // the second interrupt arrives while the first is in service
    pics.raise(44);
    assert_eq!(pics.acknowledge(), None);
    // line 4 of the secondary in service, cascade line 2 on the primary
    assert_eq!(pics.secondary.isr, 0b0001_0000);
    assert_eq!(pics.primary.isr, 0b0000_0100);
    pics.notify_end_of_interrupt(44);
    // exactly one acknowledgment reached the secondary: its line is clear
    assert_eq!(pics.secondary.isr, 0);
    assert_eq!(pics.primary.isr, 0);
    // the pending second interrupt is delivered and acknowledged in turn
    assert_eq!(pics.acknowledge(), Some(44));
    pics.notify_end_of_interrupt(44);
    // a third interrupt on the line is still delivered
    pics.raise(44);
    assert_eq!(pics.acknowledge(), Some(44));
    pics.notify_end_of_interrupt(44);
    assert_eq!(pics.secondary.isr, 0);
}

#[test]
fn ack_naming_the_wrong_controller_starves_the_line() {
    let mut pics = ChainedPics::new(PIC_1_OFFSET, PIC_2_OFFSET);
    pics.raise(44);
    assert_eq!(pics.acknowledge(), Some(44));
    let in_service = pics.secondary.isr;
    assert_ne!(in_service, 0);
    // an acknowledgment addressed by a primary vector never reaches the
    // secondary: its line stays in service, and the next interrupt on it
    // is not delivered
    pics.notify_end_of_interrupt(32);
    assert_eq!(pics.secondary.isr, in_service);
    pics.raise(44);
    assert_eq!(pics.acknowledge(), None);
}

#[test]
fn eoi_for_unowned_vector_changes_nothing() {
    let mut pics = ChainedPics::new(PIC_1_OFFSET, PIC_2_OFFSET);
    pics.raise(33);
    assert_eq!(pics.acknowledge(), Some(33));
    let before = pics;
    pics.notify_end_of_interrupt(7);
    assert_eq!(pics, before);
}

#[test]
fn keyboard_interrupt_decodes_and_acknowledges() {
    let mut decoder = ScancodeDecoder::new();
    let mut pics = ChainedPics::new(PIC_1_OFFSET, PIC_2_OFFSET);
    pics.raise(33);
    assert_eq!(pics.acknowledge(), Some(33));
    // scancode 0x1E: the letter key that prints 'a'
    let action = keyboard_interrupt_handler(&mut decoder, &mut pics, 0x1E);
    assert_eq!(action, Some(ConsoleAction::PrintChar('a')));
    // the end-of-interrupt named the keyboard's own vector: primary clear
    assert_eq!(pics.primary.isr, 0);
}

#[test]
fn keyboard_interrupt_acknowledges_even_without_a_key() {
    let mut decoder = ScancodeDecoder::new();
    let mut pics = ChainedPics::new(PIC_1_OFFSET, PIC_2_OFFSET);
    pics.raise(33);
    assert_eq!(pics.acknowledge(), Some(33));
    // 0xE0 is only the prefix of a multi-byte sequence: no key yet, but
    // the end-of-interrupt is still issued
    let action = keyboard_interrupt_handler(&mut decoder, &mut pics, 0xE0);
    assert_eq!(action, None);
    assert_eq!(pics.primary.isr, 0);
    // the sequence completes on the next interrupt
    pics.raise(33);
    assert_eq!(pics.acknowledge(), Some(33));
    let action = keyboard_interrupt_handler(&mut decoder, &mut pics, 0x48);
    assert_eq!(action, Some(ConsoleAction::PrintRaw(String::from("ArrowUp"))));
    assert_eq!(pics.primary.isr, 0);
}
