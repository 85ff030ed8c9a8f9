//! The intermediate form of one external resource.

use vstd::prelude::*;

verus! {

/// One external resource before compilation: its name and kind, an owned
/// copy of its owner's name and kind (never a back-reference, and itself
/// childless), and its nested sub-resources.
#[derive(Debug, PartialEq, Eq)]
pub struct IntegrationResource {
    pub name: String,
    pub kind: String,
    pub parent: Option<Box<IntegrationResource>>,
    pub children: Vec<IntegrationResource>,
}

impl IntegrationResource {
    pub fn new(
        name: String,
        kind: String,
        parent: Option<IntegrationResource>,
        children: Vec<IntegrationResource>,
    ) -> (r: IntegrationResource)
        ensures
            r.name == name,
            r.kind == kind,
            match parent {
                Some(p) => r.parent matches Some(b) && *b == p,
                None => r.parent is None,
            },
            r.children == children,
    {
        IntegrationResource {
            name,
            kind,
            parent: match parent {
                Some(p) => Some(Box::new(p)),
                None => None,
            },
            children,
        }
    }
}

} // verus!
