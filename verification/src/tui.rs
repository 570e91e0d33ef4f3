//! The quiz screen: the diff on the left, the question and your answer on the right.
//!
//! The questions are open book by design: the code is days old by the time a pull
//! request is ready, and an open-book quiz without the book is a memory test.

pub mod comment;
pub mod dash;
pub mod diff;
pub mod event;
pub mod header;
pub mod keys;
pub mod laws;
pub mod quiz;
pub mod view_laws;
pub mod app;

pub use crate::tui::app::{is_settled, App, Mode, Pending, Slot};
pub use crate::tui::comment::{strip_comments, wrap_comment};
pub use crate::tui::event::AppEvent;
pub use crate::tui::header::{dispute_header, editor_header};
pub use crate::tui::diff::{build_diff_view, build_diff_view_for_test, DiffLine};
