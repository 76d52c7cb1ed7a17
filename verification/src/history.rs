//! Entries that the UI adds to a thread's history.
use vstd::prelude::*;
use crate::text::opt_view;

verus! {

/// An entry of a thread's history: an informational event with an optional
/// hint, or an error event.
#[derive(Debug, PartialEq, Eq)]
pub enum HistoryNotice {
    Info { message: String, hint: Option<String> },
    Error { message: String },
}

/// A history entry as its contents read.
pub enum NoticeView {
    Info { message: Seq<char>, hint: Option<Seq<char>> },
    Error { message: Seq<char> },
}

impl View for HistoryNotice {
    type V = NoticeView;

    open spec fn view(&self) -> NoticeView {
        match self {
            HistoryNotice::Info { message, hint } => NoticeView::Info { message: message@, hint: opt_view(*hint) },
            HistoryNotice::Error { message } => NoticeView::Error { message: message@ },
        }
    }
}

/// `n` is an informational entry with this message and hint.
pub open spec fn is_info(n: HistoryNotice, message: Seq<char>, hint: Option<Seq<char>>) -> bool {
    match n {
        HistoryNotice::Info { message: m, hint: h } => m@ == message && opt_view(h) == hint,
        _ => false,
    }
}

/// `n` is an error entry with this message.
pub open spec fn is_error(n: HistoryNotice, message: Seq<char>) -> bool {
    match n {
        HistoryNotice::Error { message: m } => m@ == message,
        _ => false,
    }
}

} // verus!
