//! Progress reporting: a line shortened for display, and the reporter interface.

use vstd::prelude::*;
use crate::human::{shrunk, str_shrink};
use crate::text::{append_str, chars_of, string_of};

verus! {

/// The mark that closes a progress line.
pub open spec fn bullet() -> Seq<char> {
    seq!['\u{1f539}']
}

/// A progress line: `s` shortened to about 72 characters, then the bullet.
pub fn shrink_pretty_text(s: &str) -> (r: String)
    ensures
        r@ == shrunk(s@, 72) + bullet(),
{
    let short = str_shrink(s, 72);
    let mut v = chars_of(short.as_str());
    v.push('\u{1f539}');
    string_of(&v)
}

/// Shortens a line for a progress display.
pub trait Shrinker {
    fn shrink_pretty(&self) -> String;
}

impl Shrinker for String {
    fn shrink_pretty(&self) -> String {
        shrink_pretty_text(self.as_str())
    }
}

/// Receives progress lines while the tree is counted, and is told when it is done.
pub trait Spinner {
    fn message(&self, line: String);

    fn stop(&mut self);

    /// The complaint of a reporter that was used after it stopped.
    fn adieu(&self, owner: &str) -> String {
        let mut v: Vec<char> = Vec::new();
        v.push('\u{1f539}');
        append_str(&mut v, owner);
        append_str(&mut v, "::spinner is already None.");
        v.push('\u{1f539}');
        string_of(&v)
    }
}

/// A reporter that shows nothing.
pub struct DummySpinner {}

impl DummySpinner {
    pub fn new() -> (r: Self) {
        DummySpinner {  }
    }
}

impl Spinner for DummySpinner {
    fn message(&self, _line: String) {
    }

    fn stop(&mut self) {
    }
}

} // verus!
