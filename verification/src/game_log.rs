//! The in-fiction message log. The simulation reports events by pushing
//! lines; the presentation layer renders them.

use vstd::prelude::*;

verus! {

/// An append-only list of log lines.
pub struct GameLog {
    pub entries: Vec<String>,
}

impl GameLog {
    /// A log seeded with one greeting line.
    pub fn new(greeting: String) -> (r: GameLog)
        ensures
            r.entries@.len() == 1,
            r.entries@[0] == greeting,
    {
        let mut entries: Vec<String> = Vec::new();
        entries.push(greeting);
        GameLog { entries }
    }

    /// Appends one line; existing lines are never dropped or reordered.
    pub fn push_line(&mut self, line: String)
        ensures
            final(self).entries@ == old(self).entries@.push(line),
    {
        self.entries.push(line);
    }
}

} // verus!
