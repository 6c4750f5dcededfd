//! OSC escape sequences that hand rendered output to the terminal's
//! clipboard.

use vstd::prelude::*;

use vstd::string::StringSliceAdditionalSpecFns;

use crate::chars::{chars_to_string, push_all, push_str_chars, str_eq, to_chars};

verus! {

/// What the standard (padded) base64 encoding of a byte string looks
/// like; a function of the bytes alone.
pub uninterp spec fn base64_std(bytes: Seq<u8>) -> Seq<char>;

/// Relies on base64's `STANDARD` engine: the padded standard encoding
/// of the bytes, four output characters for every started group of
/// three input bytes. No slice is long enough to overflow the output
/// size it computes, so the call returns for every argument.
#[verifier::external_body]
fn base64_encode(s: &str) -> (r: String)
    ensures
        r@ == base64_std(s.spec_bytes()),
        r@.len() == 4 * ((s.spec_bytes().len() + 2) / 3),
{
    base64::Engine::encode(&base64::engine::general_purpose::STANDARD, s.as_bytes())
}

/// The terminal escape-sequence dialects that can carry a clipboard
/// payload.
#[derive(Copy, Clone, Debug, PartialEq, Eq, Structural)]
pub enum ClipboardProvider {
    Osc52,
    Osc5522,
}

/// The whole escape sequence a provider emits for a payload: the OSC
/// prefix, the base64 of the payload's bytes, the BEL terminator.
pub open spec fn spec_clipboard_sequence(p: ClipboardProvider, payload_bytes: Seq<u8>) -> Seq<
    char,
> {
    match p {
        ClipboardProvider::Osc52 => "\x1b]52;c;"@ + base64_std(payload_bytes) + "\x07"@,
        ClipboardProvider::Osc5522 => "\x1b]5522;"@ + base64_std(payload_bytes) + "\x07"@,
    }
}

/// Which provider a test-override name selects.
pub open spec fn spec_provider_of(name: Seq<char>) -> Option<ClipboardProvider> {
    if name == "osc52"@ {
        Some(ClipboardProvider::Osc52)
    } else if name == "osc5522"@ {
        Some(ClipboardProvider::Osc5522)
    } else {
        None
    }
}

impl ClipboardProvider {
    /// The provider a test-override name selects, if any.
    pub fn from_name(name: &str) -> (r: Option<ClipboardProvider>)
        ensures
            r == spec_provider_of(name@),
    {
        if str_eq(name, "osc52") {
            Some(ClipboardProvider::Osc52)
        } else if str_eq(name, "osc5522") {
            Some(ClipboardProvider::Osc5522)
        } else {
            None
        }
    }

    /// The escape sequence that copies `content` to the clipboard
    /// through this provider.
    pub fn copy_to_clipboard(&self, content: &str) -> (r: String)
        ensures
            r@ == spec_clipboard_sequence(*self, content.spec_bytes()),
    {
        let encoded = base64_encode(content);
        let mut out: Vec<char> = Vec::new();
        match self {
            ClipboardProvider::Osc52 => {
                push_str_chars(&mut out, "\x1b]52;c;");
            },
            ClipboardProvider::Osc5522 => {
                push_str_chars(&mut out, "\x1b]5522;");
            },
        }
        let ec = to_chars(encoded.as_str());
        push_all(&mut out, &ec);
        push_str_chars(&mut out, "\x07");
        proof {
            assert(out@ =~= spec_clipboard_sequence(*self, content.spec_bytes()));
        }
        chars_to_string(&out)
    }
}

} // verus!
