//! Exclusive canonicalization requests and the visibility rule that shapes
//! them.
//!
//! The canonical octets themselves come from an XML library; what is decided
//! here is which nodes take part in them.

use crate::document;
use crate::document::Document;
use vstd::prelude::*;

verus! {

/// A request for the exclusive canonical form of the subtree of `target`,
/// without the subtree of `exclude`, under the given list of inclusive
/// namespace prefixes.
pub struct CanonRequest {
    pub target: usize,
    pub exclude: Option<usize>,
    pub prefixes: Vec<String>,
}

/// The model of a [`CanonRequest`].
pub struct RequestView {
    pub target: int,
    pub exclude: Option<int>,
    pub prefixes: Seq<Seq<char>>,
}

impl View for CanonRequest {
    type V = RequestView;

    open spec fn view(&self) -> RequestView {
        RequestView {
            target: self.target as int,
            exclude: document::opt_id(self.exclude),
            prefixes: self.prefixes.deep_view(),
        }
    }
}

/// A node that canonicalization visits: an element, or another node (attribute,
/// namespace, text, comment, processing instruction) with the element that owns
/// it, if one does.
pub enum Visited {
    Element(usize),
    Other(Option<usize>),
}

/// The element that decides on the visibility of a node: an element itself, and
/// for any other node its owner.
pub open spec fn anchor_of(node: Visited) -> Option<int> {
    match node {
        Visited::Element(i) => Some(i as int),
        Visited::Other(owner) => document::opt_id(owner),
    }
}

/// Whether a node anchored at `anchor` takes part in the canonical form: its
/// anchor is the target or a descendant of it, and is neither the excluded
/// element nor a descendant of that.
pub open spec fn takes_part(
    t: Seq<document::NodeView>,
    request: RequestView,
    anchor: Option<int>,
) -> bool {
    match anchor {
        None => false,
        Some(a) => document::within(t, a, request.target) && match request.exclude {
            Some(x) => !document::within(t, a, x),
            None => true,
        },
    }
}

/// Whether a node takes part in the canonical form that `request` asks for.
pub fn is_visible(doc: &Document, request: &CanonRequest, node: Visited) -> (r: bool)
    ensures
        r == takes_part(doc@, request@, anchor_of(node)),
{
    let anchor = match node {
        Visited::Element(i) => Some(i),
        Visited::Other(owner) => owner,
    };
    match anchor {
        None => false,
        Some(a) => {
            let hidden = match request.exclude {
                Some(x) => doc.is_within(a, x),
                None => false,
            };
            !hidden && doc.is_within(a, request.target)
        },
    }
}

} // verus!
