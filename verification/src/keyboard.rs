//! Scancode decoding and the console decision it drives.
//!
//! Bytes from the keyboard data port arrive one per interrupt; some keys
//! span several bytes, so decoding is stateful (idle, accumulating a
//! prefix, decoded key or reset). The decoder itself is the `pc_keyboard`
//! crate, trusted at the narrow seam below; what the kernel does with a
//! decoded key — clear the console, print the character, print the raw key
//! name — is this library's own, verified decision.

use vstd::prelude::*;
use pc_keyboard::{DecodedKey, HandleControl, KeyEvent, PS2Keyboard, ScancodeSet1};
use pc_keyboard::layouts::Us104Key;

verus! {

#[verifier::external_type_specification]
#[verifier::external_body]
pub struct ExKeyEvent(KeyEvent);

#[verifier::external_type_specification]
#[verifier::external_body]
pub struct ExDecodedKey(DecodedKey);

/// What one byte did to the decoder: completed a key event, extended a
/// multi-byte sequence, or failed to decode (the decoder resets itself).
pub enum DecodeStep {
    Key(KeyEvent),
    Incomplete,
    DecodeError,
}

/// A fully decoded key: a Unicode character, or the printable name of a
/// key with no character (an arrow key, a modifier).
pub enum KeyOutput {
    Unicode(char),
    RawKey(String),
}

/// What the keyboard handler does on the console for one decoded key:
/// exactly one of clearing the screen, printing the character, or printing
/// the raw key representation.
#[derive(Debug, Clone, PartialEq, Eq)]
pub enum ConsoleAction {
    ClearScreen,
    PrintChar(char),
    PrintRaw(String),
}

/// Relies on pc_keyboard::DecodedKey: its two variants are told apart, the
/// character moved out, and a raw key rendered by its debug name.
#[verifier::external_body]
fn key_output(key: DecodedKey) -> KeyOutput {
    match key {
        DecodedKey::Unicode(c) => KeyOutput::Unicode(c),
        DecodedKey::RawKey(raw) => KeyOutput::RawKey(format!("{:?}", raw)),
    }
}

/// The stateful scancode decoder, owned by the boot-time kernel context.
/// It holds the `pc_keyboard` decoder, whose type Verus cannot declare
/// (its generic parameters carry that crate's trait bounds), so the holder
/// is opaque and its two forwarding methods below are the trusted seam.
#[verifier::external_body]
pub struct ScancodeDecoder {
    inner: PS2Keyboard<Us104Key, ScancodeSet1>,
}

impl ScancodeDecoder {
    /// Relies on pc_keyboard::PS2Keyboard::new with the US-104 layout,
    /// scancode set 1 and control characters passed through unchanged, as
    /// the keyboard controller delivers them: a decoder in its idle state.
    #[verifier::external_body]
    pub fn new() -> ScancodeDecoder {
        ScancodeDecoder {
            inner: PS2Keyboard::new(ScancodeSet1::new(), Us104Key, HandleControl::Ignore),
        }
    }

    /// Relies on pc_keyboard::PS2Keyboard::add_byte: advances the decoder
    /// by one scancode byte; a completed key event, an incomplete
    /// multi-byte sequence, and an unrecognised byte are told apart,
    /// nothing else.
    #[verifier::external_body]
    fn add_byte_step(&mut self, byte: u8) -> DecodeStep {
        match self.inner.add_byte(byte) {
            Ok(Some(event)) => DecodeStep::Key(event),
            Ok(None) => DecodeStep::Incomplete,
            Err(_) => DecodeStep::DecodeError,
        }
    }

    /// Relies on pc_keyboard::PS2Keyboard::process_keyevent: applies the
    /// layout and the modifier state to a key event; key-up events and
    /// bare modifier updates produce nothing.
    #[verifier::external_body]
    fn process_event(&mut self, event: KeyEvent) -> Option<DecodedKey> {
        self.inner.process_keyevent(event)
    }

    /// Feed one scancode byte. A byte that completes a key yields it; a
    /// prefix byte of a multi-byte sequence yields nothing and is carried
    /// to the next invocation; an undecodable byte resets the decoder and
    /// is swallowed, as the interrupt handler has nobody to report it to.
    pub fn decode(&mut self, scancode: u8) -> Option<KeyOutput> {
        match self.add_byte_step(scancode) {
            DecodeStep::Key(event) => {
                match self.process_event(event) {
                    Some(key) => Some(key_output(key)),
                    None => None,
                }
            },
            DecodeStep::Incomplete => None,
            DecodeStep::DecodeError => None,
        }
    }
}

/// The console decision for one decoded key, exactly as the kernel owes
/// it: the backspace character clears the console, any other character is
/// printed, and a key with no character is printed by its raw name.
pub fn console_action(key: KeyOutput) -> (a: ConsoleAction)
    ensures
        match key {
            KeyOutput::Unicode(c) => if c == '\u{8}' {
                a == ConsoleAction::ClearScreen
            } else {
                a == ConsoleAction::PrintChar(c)
            },
            KeyOutput::RawKey(s) => a == ConsoleAction::PrintRaw(s),
        },
{
    match key {
        KeyOutput::Unicode(c) => {
            if c == '\u{8}' {
                ConsoleAction::ClearScreen
            } else {
                ConsoleAction::PrintChar(c)
            }
        },
        KeyOutput::RawKey(s) => ConsoleAction::PrintRaw(s),
    }
}

} // verus!
