//! The menu tree and its mathematical model.
//!
//! Text is a sequence of characters. Every runtime type has a view: the
//! value it stands for, built from `Seq` alone, over which every contract of
//! the library is stated.

use crate::snippet::refs_well_formed;
use vstd::prelude::*;

verus! {

/// The value of a [`Node`].
pub ghost enum NodeV {
    Menu(Seq<EntryV>),
    Action(Seq<char>),
}

/// The value of an [`Entry`].
pub ghost struct EntryV {
    pub trigger: Seq<char>,
    pub label: Seq<char>,
    pub child: NodeV,
}

/// A node of the menu tree: a menu of further entries, or the command
/// template that a leaf is bound to.
#[derive(Debug, PartialEq, Eq)]
pub enum Node {
    Menu(Menu),
    Action(Vec<char>),
}

/// An ordered list of entries; the order is the display order.
#[derive(Debug, PartialEq, Eq)]
pub struct Menu {
    pub entries: Vec<Entry>,
}

/// One line of a menu: what the user types, what is shown, what it leads to.
#[derive(Debug, PartialEq, Eq)]
pub struct Entry {
    pub trigger: Vec<char>,
    pub label: Vec<char>,
    pub child: Node,
}

impl View for Node {
    type V = NodeV;

    open spec fn view(&self) -> NodeV
        decreases self,
    {
        match self {
            Node::Menu(m) => NodeV::Menu(m.view()),
            Node::Action(t) => NodeV::Action(t@),
        }
    }
}

impl View for Menu {
    type V = Seq<EntryV>;

    open spec fn view(&self) -> Seq<EntryV>
        decreases self,
    {
        Seq::new(
            self.entries@.len(),
            |i: int|
                if 0 <= i < self.entries@.len() {
                    self.entries@[i].view()
                } else {
                    arbitrary()
                },
        )
    }
}

impl View for Entry {
    type V = EntryV;

    open spec fn view(&self) -> EntryV
        decreases self,
    {
        EntryV { trigger: self.trigger@, label: self.label@, child: self.child.view() }
    }
}

/// No two entries of the menu have the same trigger.
pub open spec fn triggers_distinct(entries: Seq<EntryV>) -> bool {
    forall|i: int, j: int|
        0 <= i < j < entries.len() ==> #[trigger] entries[i].trigger != #[trigger] entries[j].trigger
}

/// The invariant of a menu tree: at every level each trigger is non-empty
/// and occurs once, and every reference in a command template is well
/// formed.
pub open spec fn node_wf(node: NodeV) -> bool
    decreases node,
{
    match node {
        NodeV::Menu(entries) => menu_wf(entries),
        NodeV::Action(template) => refs_well_formed(template),
    }
}

/// The invariant of one menu and of every menu below it.
pub open spec fn menu_wf(entries: Seq<EntryV>) -> bool
    decreases entries,
{
    &&& triggers_distinct(entries)
    &&& forall|i: int|
        0 <= i < entries.len() ==> (#[trigger] entries[i]).trigger.len() > 0 && node_wf(
            entries[i].child,
        )
}

} // verus!
