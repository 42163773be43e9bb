//! The log of the computing nodes.

use vstd::prelude::*;
use crate::layout_result::same_text;

verus! {

/// The colour in which the name of a node is written.
#[derive(Clone, Copy, Debug, PartialEq, Eq, Structural)]
pub enum NodeColor {
    Cyan,
    Blue,
    Magenta,
    Yellow,
}

/// The colour of each known node: one for each of the three nodes and
/// one for the coordinator. Any other name has none.
pub open spec fn color_of_node(node: Seq<char>) -> Option<NodeColor> {
    if node == "MPC Node 1"@ {
        Some(NodeColor::Cyan)
    } else if node == "MPC Node 2"@ {
        Some(NodeColor::Blue)
    } else if node == "MPC Node 3"@ {
        Some(NodeColor::Magenta)
    } else if node == "MPC Coordinator"@ {
        Some(NodeColor::Yellow)
    } else {
        None
    }
}

/// The list of log lines, each the name of a node and a message.
pub struct MpcLog<'a> {
    pub logs: &'a [(String, String)],
}

impl<'a> MpcLog<'a> {
    /// The list over those lines.
    pub fn new(logs: &'a [(String, String)]) -> (r: MpcLog<'a>)
        ensures
            r.logs@ == logs@,
    {
        MpcLog { logs }
    }

    /// The number of lines.
    pub fn len(&self) -> (r: usize)
        ensures
            r == self.logs@.len(),
    {
        self.logs.len()
    }

    /// The name of the node and the message of line `i`.
    pub fn entry(&self, i: usize) -> (r: (&'a str, &'a str))
        requires
            i < self.logs@.len(),
        ensures
            r.0@ == self.logs@[i as int].0@,
            r.1@ == self.logs@[i as int].1@,
    {
        (self.logs[i].0.as_str(), self.logs[i].1.as_str())
    }

    /// The colour of a node by its name, if the node is known.
    pub fn color_of(node: &str) -> (r: Option<NodeColor>)
        ensures
            r == color_of_node(node@),
    {
        if same_text(node, "MPC Node 1") {
            Some(NodeColor::Cyan)
        } else if same_text(node, "MPC Node 2") {
            Some(NodeColor::Blue)
        } else if same_text(node, "MPC Node 3") {
            Some(NodeColor::Magenta)
        } else if same_text(node, "MPC Coordinator") {
            Some(NodeColor::Yellow)
        } else {
            None
        }
    }

    /// Whether every line is of a known node, so that every line has a
    /// colour.
    pub fn all_known(&self) -> (r: bool)
        ensures
            r == forall|i: int|
                0 <= i < self.logs@.len() ==> color_of_node(
                    (#[trigger] self.logs@[i]).0@,
                ) is Some,
    {
        let mut i: usize = 0;
        while i < self.logs.len()
            invariant
                0 <= i <= self.logs@.len(),
                forall|j: int|
                    0 <= j < i ==> color_of_node((#[trigger] self.logs@[j]).0@) is Some,
            decreases self.logs.len() - i,
        {
            if MpcLog::color_of(self.logs[i].0.as_str()).is_none() {
                return false;
            }
            i = i + 1;
        }
        true
    }
}

} // verus!
