//! The log of published transactions.

use vstd::prelude::*;

verus! {

/// The list of log lines, each a block label and a message.
pub struct TxsLog<'a> {
    pub logs: &'a [(String, String)],
}

impl<'a> TxsLog<'a> {
    /// The list over those lines.
    pub fn new(logs: &'a [(String, String)]) -> (r: TxsLog<'a>)
        ensures
            r.logs@ == logs@,
    {
        TxsLog { logs }
    }

    /// The number of lines.
    pub fn len(&self) -> (r: usize)
        ensures
            r == self.logs@.len(),
    {
        self.logs.len()
    }

    /// The label and the message of line `i`.
    pub fn entry(&self, i: usize) -> (r: (&'a str, &'a str))
        requires
            i < self.logs@.len(),
        ensures
            r.0@ == self.logs@[i as int].0@,
            r.1@ == self.logs@[i as int].1@,
    {
        (self.logs[i].0.as_str(), self.logs[i].1.as_str())
    }
}

} // verus!
