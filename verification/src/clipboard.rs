//! What can go wrong with the clipboard.

use vstd::prelude::*;
use crate::text::{chars_of, extend_str, string_of};

verus! {

/// Why the clipboard could not be used.
#[derive(Debug)]
pub enum ClipboardError {
    /// The clipboard refused; the text says why.
    Clip(String),
}

/// The mathematical content of a clipboard error.
pub enum ClipboardErrorView {
    Clip(Seq<char>),
}

impl View for ClipboardError {
    type V = ClipboardErrorView;

    open spec fn view(&self) -> ClipboardErrorView {
        match self {
            ClipboardError::Clip(m) => ClipboardErrorView::Clip(m@),
        }
    }
}

/// The text of a clipboard error.
pub open spec fn clipboard_message(e: ClipboardErrorView) -> Seq<char> {
    match e {
        ClipboardErrorView::Clip(m) => "clipboard error: "@ + m,
    }
}

impl ClipboardError {
    /// The text of the error.
    pub fn message(&self) -> (r: String)
        ensures
            r@ == clipboard_message(self@),
    {
        match self {
            ClipboardError::Clip(m) => {
                let mut chars = chars_of("clipboard error: ");
                extend_str(&mut chars, m.as_str());
                string_of(&chars)
            },
        }
    }
}

} // verus!
