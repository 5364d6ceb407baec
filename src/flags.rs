use vstd::prelude::*;

verus! {

/// Which counts are asked for.
#[derive(Debug, Clone, Copy, PartialEq, Eq, Structural)]
pub struct Flags {
    pub lines: bool,
    pub words: bool,
    pub chars: bool,
    pub bytes: bool,
}

impl Flags {
    /// Whether no count at all was asked for.
    pub open spec fn none_set(self) -> bool {
        !self.lines && !self.words && !self.chars && !self.bytes
    }

    /// The counts that are computed: those asked for, or lines, words and
    /// bytes when none was asked for.
    pub open spec fn effective_spec(self) -> Flags {
        if self.none_set() {
            Flags { lines: true, words: true, chars: false, bytes: true }
        } else {
            self
        }
    }

    /// Whether the counts asked for need the content decoded as text.
    pub open spec fn needs_text(self) -> bool {
        self.words || self.chars
    }

    /// The counts that are computed (see `effective_spec`).
    pub fn effective(self) -> (r: Flags)
        ensures
            r == self.effective_spec(),
    {
        if !self.lines && !self.words && !self.chars && !self.bytes {
            Flags { lines: true, words: true, chars: false, bytes: true }
        } else {
            self
        }
    }
}

} // verus!
