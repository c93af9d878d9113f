//! The size of the terminal, asked for now and then.
use crate::numeral::{next_word, unsigned, unsigned_in, word};
use vstd::prelude::*;

verus! {

/// Frames between two questions.
pub const ASK_EVERY: u32 = 20;

/// What is known of the terminal. Asking it is slow, so it is asked once in
/// [`ASK_EVERY`] frames; that is enough to notice a change of size.
#[derive(Clone, Copy, Debug)]
pub struct Term {
    /// Rows and columns, as it last gave them.
    pub size: Option<(usize, usize)>,
    /// Frames so far.
    pub stale: u32,
}

/// Rows and columns in an answer: its first two words, both numbers.
pub open spec fn dimensions(s: Seq<char>) -> Option<(usize, usize)> {
    match word(s, 0) {
        None => None,
        Some((a, b)) => match (unsigned_in(s.subrange(a, b)), word(s, b)) {
            (Some(rows), Some((c, d))) => match unsigned_in(s.subrange(c, d)) {
                Some(cols) => Some((rows, cols)),
                None => None,
            },
            _ => None,
        },
    }
}

/// Read an answer.
pub fn read_dimensions(s: &str) -> (r: Option<(usize, usize)>)
    ensures
        r == dimensions(s@),
{
    match next_word(s, 0) {
        None => None,
        Some((first, end)) => match unsigned(first) {
            None => None,
            Some(rows) => match next_word(s, end) {
                None => None,
                Some((second, _)) => match unsigned(second) {
                    None => None,
                    Some(cols) => Some((rows, cols)),
                },
            },
        },
    }
}

impl Term {
    pub fn new() -> (r: Term)
        ensures
            r == (Term { size: None, stale: 0 }),
    {
        Term { size: None, stale: 0 }
    }

    /// Whether the terminal is to be asked in this frame.
    pub open spec fn asks(self) -> bool {
        self.stale % ASK_EVERY == 0 || self.size is None
    }

    /// Whether the next call of [`Term::size`] needs an answer.
    pub fn is_due(&self) -> (r: bool)
        ensures
            r == self.asks(),
    {
        self.stale % ASK_EVERY == 0 || self.size.is_none()
    }

    /// Rows and columns in this frame. `answer` is what the terminal said if
    /// it was asked; a failed question leaves the frame without a size, and
    /// what was known is kept for the next one.
    pub fn size(&mut self, answer: Option<&str>) -> (r: Option<(usize, usize)>)
        ensures
            final(self).stale == old(self).stale.wrapping_add(1),
            !old(self).asks() ==> r == old(self).size,
            old(self).asks() ==> r == (match answer {
                Some(s) => dimensions(s@),
                None => None,
            }),
            final(self).size == (if r is Some {
                r
            } else {
                old(self).size
            }),
    {
        let due: bool = self.is_due();
        self.stale = self.stale.wrapping_add(1);
        if !due {
            return self.size;
        }
        let r: Option<(usize, usize)> = match answer {
            Some(s) => read_dimensions(s),
            None => None,
        };
        if r.is_some() {
            self.size = r;
        }
        r
    }
}

} // verus!
