//! Nodes of the virtual filesystem's graph. Nodes live in an arena and
//! name each other by index; a node's first edge points at its parent
//! (the root points at itself), the rest at its children.

use vstd::prelude::*;

verus! {

/// An index into the arena holding the nodes.
pub type NodePointer = usize;

/// Edges of one node: the parent first, then the children.
pub type Edge = Vec<NodePointer>;

/// A value and its edges.
#[derive(Debug, PartialEq)]
pub struct Node<T>(pub T, pub Edge);

pub trait Graph: Sized {
    type NodeType;

    spec fn value_of(&self) -> Self::NodeType;

    spec fn edges_of(&self) -> Seq<NodePointer>;

    fn new(value: Self::NodeType, edges: Edge) -> (n: Self)
        ensures
            n.value_of() == value,
            n.edges_of() == edges@,
    ;

    fn connect(&mut self, node: NodePointer)
        ensures
            final(self).value_of() == old(self).value_of(),
            final(self).edges_of() == old(self).edges_of().push(node),
    ;
}

impl<T> Graph for Node<T> {
    type NodeType = T;

    open spec fn value_of(&self) -> T {
        self.0
    }

    open spec fn edges_of(&self) -> Seq<NodePointer> {
        self.1@
    }

    fn new(value: T, edges: Edge) -> (n: Node<T>) {
        Node(value, edges)
    }

    fn connect(&mut self, node: NodePointer) {
        self.1.push(node);
    }
}

} // verus!
