use vstd::prelude::*;

verus! {

/// A decoded key event: the discrete editing commands the editor reacts to.
#[derive(Debug, Clone, Copy, PartialEq, Eq, Structural)]
pub enum EditorKey {
    ArrowUp,
    ArrowDown,
    ArrowRight,
    ArrowLeft,
    HomeKey,
    EndKey,
    Delete,
    PageUp,
    PageDown,
    CtrlQ,
    Escape,
    EnterKey,
    Backspace,
    CtrlF,
    CtrlH,
    CtrlL,
    CtrlS,
    Other(u8),
}

/// Outcome of decoding the two bytes after an escape byte: either a finished
/// key, or a request for one more byte, since an escape, bracket and digit
/// are completed by a tilde.
#[derive(Debug, Clone, Copy, PartialEq, Eq, Structural)]
pub enum EscapeStep {
    Key(EditorKey),
    NeedThirdByte,
}

/// The control-key code for a printable key: its low five bits.
pub fn ctrl_key(k: u8) -> (r: u8)
    ensures
        r == (k & 0x1f),
{
    k & 0x1f
}

/// What a single input byte decodes to; `None` marks the start of an
/// escape sequence, which needs further bytes.
pub open spec fn spec_decode_byte(b: u8) -> Option<EditorKey> {
    if b == 13 || b == 10 {
        Some(EditorKey::EnterKey)
    } else if b == 127 || b == 8 {
        Some(EditorKey::Backspace)
    } else if b == 17 {
        Some(EditorKey::CtrlQ)
    } else if b == 19 {
        Some(EditorKey::CtrlS)
    } else if b == 6 {
        Some(EditorKey::CtrlF)
    } else if b == 12 {
        Some(EditorKey::CtrlL)
    } else if b == 0x1b {
        None
    } else {
        Some(EditorKey::Other(b))
    }
}

/// Decodes one input byte. `None` means the byte opens an escape sequence
/// and the caller should gather up to two more bytes for `decode_escape`.
pub fn decode_byte(b: u8) -> (r: Option<EditorKey>)
    ensures
        r == spec_decode_byte(b),
{
    proof {
        assert((113u8 & 0x1f) == 17u8) by (bit_vector);
        assert((115u8 & 0x1f) == 19u8) by (bit_vector);
        assert((102u8 & 0x1f) == 6u8) by (bit_vector);
        assert((108u8 & 0x1f) == 12u8) by (bit_vector);
    }
    if b == 13 || b == 10 {
        Some(EditorKey::EnterKey)
    } else if b == 127 || b == 8 {
        Some(EditorKey::Backspace)
    } else if b == ctrl_key(113) {
        Some(EditorKey::CtrlQ)
    } else if b == ctrl_key(115) {
        Some(EditorKey::CtrlS)
    } else if b == ctrl_key(102) {
        Some(EditorKey::CtrlF)
    } else if b == ctrl_key(108) {
        Some(EditorKey::CtrlL)
    } else if b == 0x1b {
        None
    } else {
        Some(EditorKey::Other(b))
    }
}

/// What the bytes after an escape byte decode to, given that `n` of the two
/// lookahead bytes could be read. An incomplete or unrecognized sequence
/// degrades to a bare Escape.
pub open spec fn spec_decode_escape(n: usize, s0: u8, s1: u8) -> EscapeStep {
    if n < 2 {
        EscapeStep::Key(EditorKey::Escape)
    } else if s0 == 91 {
        if 48 <= s1 && s1 <= 57 {
            EscapeStep::NeedThirdByte
        } else if s1 == 65 {
            EscapeStep::Key(EditorKey::ArrowUp)
        } else if s1 == 66 {
            EscapeStep::Key(EditorKey::ArrowDown)
        } else if s1 == 67 {
            EscapeStep::Key(EditorKey::ArrowRight)
        } else if s1 == 68 {
            EscapeStep::Key(EditorKey::ArrowLeft)
        } else if s1 == 72 {
            EscapeStep::Key(EditorKey::HomeKey)
        } else if s1 == 70 {
            EscapeStep::Key(EditorKey::EndKey)
        } else {
            EscapeStep::Key(EditorKey::Escape)
        }
    } else if s0 == 79 {
        if s1 == 72 {
            EscapeStep::Key(EditorKey::HomeKey)
        } else if s1 == 70 {
            EscapeStep::Key(EditorKey::EndKey)
        } else {
            EscapeStep::Key(EditorKey::Escape)
        }
    } else {
        EscapeStep::Key(EditorKey::Escape)
    }
}

/// Decodes the first two bytes read after an escape byte; `n` is how many of
/// them were actually available before the read timed out.
pub fn decode_escape(n: usize, s0: u8, s1: u8) -> (r: EscapeStep)
    ensures
        r == spec_decode_escape(n, s0, s1),
{
    if n < 2 {
        EscapeStep::Key(EditorKey::Escape)
    } else if s0 == 91 {
        if 48 <= s1 && s1 <= 57 {
            EscapeStep::NeedThirdByte
        } else if s1 == 65 {
            EscapeStep::Key(EditorKey::ArrowUp)
        } else if s1 == 66 {
            EscapeStep::Key(EditorKey::ArrowDown)
        } else if s1 == 67 {
            EscapeStep::Key(EditorKey::ArrowRight)
        } else if s1 == 68 {
            EscapeStep::Key(EditorKey::ArrowLeft)
        } else if s1 == 72 {
            EscapeStep::Key(EditorKey::HomeKey)
        } else if s1 == 70 {
            EscapeStep::Key(EditorKey::EndKey)
        } else {
            EscapeStep::Key(EditorKey::Escape)
        }
    } else if s0 == 79 {
        if s1 == 72 {
            EscapeStep::Key(EditorKey::HomeKey)
        } else if s1 == 70 {
            EscapeStep::Key(EditorKey::EndKey)
        } else {
            EscapeStep::Key(EditorKey::Escape)
        }
    } else {
        EscapeStep::Key(EditorKey::Escape)
    }
}

/// What an escape, bracket and digit decode to once the byte after the digit
/// is known (or known to be missing).
pub open spec fn spec_decode_escape_tilde(digit: u8, got_third: bool, third: u8) -> EditorKey {
    if got_third && third == 126 {
        if digit == 49 || digit == 55 {
            EditorKey::HomeKey
        } else if digit == 51 {
            EditorKey::Delete
        } else if digit == 52 || digit == 56 {
            EditorKey::EndKey
        } else if digit == 53 {
            EditorKey::PageUp
        } else if digit == 54 {
            EditorKey::PageDown
        } else {
            EditorKey::Escape
        }
    } else {
        EditorKey::Escape
    }
}

/// Decodes an escape, bracket and digit; `got_third` says whether a byte
/// after the digit could be read before the read timed out.
pub fn decode_escape_tilde(digit: u8, got_third: bool, third: u8) -> (r: EditorKey)
    ensures
        r == spec_decode_escape_tilde(digit, got_third, third),
{
    if got_third && third == 126 {
        if digit == 49 || digit == 55 {
            EditorKey::HomeKey
        } else if digit == 51 {
            EditorKey::Delete
        } else if digit == 52 || digit == 56 {
            EditorKey::EndKey
        } else if digit == 53 {
            EditorKey::PageUp
        } else if digit == 54 {
            EditorKey::PageDown
        } else {
            EditorKey::Escape
        }
    } else {
        EditorKey::Escape
    }
}

} // verus!
