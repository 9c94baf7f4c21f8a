//! The document tree: an owned, immutable node graph produced by the caller's
//! markup parser and consumed read-only by the style resolver.

use vstd::prelude::*;

verus! {

/// What selector matching reads of an element: its tag name, its optional id,
/// and its class names (already split into words by the input parser).
pub struct ElementData {
    pub tag_name: String,
    pub id: Option<String>,
    pub classes: Vec<String>,
}

/// A node is either an element or a run of text.
pub enum NodeType {
    Element(ElementData),
    Text(String),
}

/// One node of the document tree, owning its children.
pub struct Node {
    pub node_type: NodeType,
    pub children: Vec<Node>,
}

impl ElementData {
    /// Whether `cls` is among this element's class names.
    pub open spec fn spec_has_class(self, cls: Seq<char>) -> bool {
        exists|i: int| 0 <= i < self.classes@.len() && self.classes@[i]@ == cls
    }

    pub fn has_class(&self, cls: &String) -> (r: bool)
        ensures
            r == self.spec_has_class(cls@),
    {
        let mut i: usize = 0;
        while i < self.classes.len()
            invariant
                0 <= i <= self.classes@.len(),
                forall|j: int| 0 <= j < i ==> self.classes@[j]@ != cls@,
            decreases self.classes@.len() - i,
        {
            if self.classes[i] == *cls {
                return true;
            }
            i = i + 1;
        }
        false
    }
}

} // verus!
