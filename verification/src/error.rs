//! The error every fallible operation of the library reports.

use vstd::prelude::*;

verus! {

/// Text that stands in for a message a C string cannot hold.
pub open spec fn nul_text() -> Seq<char> {
    "image sequence error contained a NUL byte"@
}

/// Text an error built from `message` carries: the message itself, unless it
/// holds a NUL, which a C string cannot.
pub open spec fn error_text(message: Seq<char>) -> Seq<char> {
    if message.contains('\0') {
        nul_text()
    } else {
        message
    }
}

/// Whether `result` is the error built from `message`.
pub open spec fn fails_with<T>(result: Result<T, ImgSeqError>, message: Seq<char>) -> bool {
    result matches Err(error) && error@ == error_text(message)
}

/// Error type passed back to VapourSynth.
///
/// Its view is the text it carries, which never holds a NUL.
#[derive(Debug)]
pub struct ImgSeqError {
    message: String,
}

impl View for ImgSeqError {
    type V = Seq<char>;

    closed spec fn view(&self) -> Seq<char> {
        self.message@
    }
}

fn holds_nul(message: &str) -> (found: bool)
    ensures
        found == message@.contains('\0'),
{
    let len: usize = message.unicode_len();
    let mut at: usize = 0;
    while at < len
        invariant
            at <= len,
            len == message@.len(),
            forall|i: int| 0 <= i < at ==> message@[i] != '\0',
        decreases len - at,
    {
        if message.get_char(at) == '\0' {
            return true;
        }
        at += 1;
    }
    false
}

impl ImgSeqError {
    pub fn new(message: String) -> (error: Self)
        ensures
            error@ == error_text(message@),
    {
        if holds_nul(message.as_str()) {
            return ImgSeqError {
                message: String::from_str("image sequence error contained a NUL byte"),
            };
        }
        ImgSeqError { message }
    }

    /// Error that carries the text another error displays.
    pub fn from_display(error: &str) -> (result: Self)
        ensures
            result@ == error_text(error@),
    {
        Self::new(String::from_str(error))
    }

    /// The text this error carries.
    pub fn message(&self) -> (text: String)
        ensures
            text@ == self@,
    {
        String::from_str(self.message.as_str())
    }
}

/// No error carries a NUL, whatever message it was built from.
pub proof fn an_error_never_carries_a_nul(message: Seq<char>)
    ensures
        !error_text(message).contains('\0'),
{
    reveal_strlit("image sequence error contained a NUL byte");
    let text = nul_text();
    assert forall|i: int| 0 <= i < text.len() implies text[i] != '\0' by {}
}

} // verus!
