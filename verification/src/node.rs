//! The parse-tree node: a labeled entry holding a semantic payload, the
//! position reached after its match, and its ordered children.

use crate::location::Location;
use crate::parser::ParserType;
use vstd::prelude::*;

verus! {

/// One labeled node of the output parse tree. The `location` records the
/// position *after* the consumed span; leaf matchers supply no children.
#[derive(Debug, PartialEq)]
pub struct Node<T> where T: ParserType {
    pub name: &'static str,
    pub value: T,
    pub location: Location,
    pub children: Vec<Node<T>>,
}

impl<T> Node<T> where T: ParserType {
    /// A pure data constructor: every field is taken exactly as given.
    pub fn new(name: &'static str, value: T, location: Location, children: Vec<Node<T>>) -> (r:
        Self)
        ensures
            r.name == name,
            r.value == value,
            r.location == location,
            r.children == children,
    {
        Self { name, value, location, children }
    }
}

/// Two nodes carry the same content: the same label and payload, the same
/// position, and pairwise agreeing children.
pub open spec fn nodes_agree<T: ParserType>(a: Node<T>, b: Node<T>) -> bool {
    &&& a.name@ == b.name@
    &&& a.value == b.value
    &&& a.location@ == b.location@
    &&& a.children@ == b.children@
}

} // verus!
