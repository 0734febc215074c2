//! What holds of documents: what each lookup finds.

use crate::c14n;
use crate::c14n::Visited;
use crate::document;
use crate::document::{Attribute, Document, KindView, NodeKind, NodeView};
use vstd::prelude::*;

verus! {

/// Whether `path` leads from node `i` up to node `a`, from each node to its
/// parent, which stands before it.
pub open spec fn is_path(t: Seq<NodeView>, path: Seq<int>, i: int, a: int) -> bool {
    &&& path.len() > 0
    &&& path[0] == i
    &&& path.last() == a
    &&& forall|k: int| 0 <= k < path.len() ==> 0 <= #[trigger] path[k] < t.len()
    &&& forall|k: int|
        #![trigger t[path[k]]]
        0 <= k < path.len() - 1 ==> t[path[k]].parent == Some(path[k + 1]) && path[k + 1] < path[k]
}

/// Whether a path leads from node `i` up to node `a`.
pub open spec fn leads_up(t: Seq<NodeView>, i: int, a: int) -> bool {
    exists|path: Seq<int>| #[trigger] is_path(t, path, i, a)
}

/// Whether node `i` is an element with the local name `local` and, where one is
/// asked for, in the namespace `ns`.
pub open spec fn is_element(
    t: Seq<NodeView>,
    i: int,
    local: Seq<char>,
    ns: Option<Seq<char>>,
) -> bool {
    &&& 0 <= i < t.len()
    &&& t[i].kind matches KindView::Element { name, namespace, attributes }
    &&& name == local
    &&& ns is Some ==> ns == Some(namespace)
}

/// Whether `s` lists, each once and in increasing order, exactly the positions
/// below `n` at which `p` holds.
pub open spec fn lists(s: Seq<int>, n: nat, p: spec_fn(int) -> bool) -> bool {
    &&& forall|j: int, k: int| 0 <= j < k < s.len() ==> #[trigger] s[j] < #[trigger] s[k]
    &&& forall|i: int| #[trigger] s.contains(i) <==> 0 <= i < n && p(i)
}

/// Whether `i` is the first position below `n` at which `p` holds.
pub open spec fn is_first(i: int, n: nat, p: spec_fn(int) -> bool) -> bool {
    &&& 0 <= i < n
    &&& p(i)
    &&& forall|j: int| 0 <= j < i ==> !#[trigger] p(j)
}

/// The parent of a node is an element that stands before it; only the first node
/// has none, and it is an element.
pub proof fn law_parents(t: Seq<NodeView>, i: int)
    requires
        document::well_formed(t),
        0 <= i < t.len(),
    ensures
        match t[i].parent {
            Some(p) => 0 <= p < i && t[p].kind is Element,
            None => i == 0 && t[i].kind is Element,
        },
{
    document::lemma_parent(t, i);
}

/// A node can be appended as the root of an empty document, or under an element
/// that is the last node or lies on the way from there up to the root.
pub proof fn law_where_nodes_go(t: Seq<NodeView>, parent: Option<int>)
    ensures
        document::can_append(t, parent) <==> match parent {
            None => t.len() == 0,
            Some(p) => 0 <= p < t.len() && t[p].kind is Element && leads_up(t, t.len() - 1, p),
        },
{
    if let Some(p) = parent {
        law_within_is_a_path(t, t.len() - 1, p);
    }
}

/// A list of nodes is a document where every node could be appended to those
/// before it, and the first of them is an element.
pub proof fn law_well_formed(t: Seq<NodeView>)
    ensures
        document::well_formed(t) <==> (t.len() > 0 ==> t[0].kind is Element) && forall|i: int|
            0 <= i < t.len() ==> document::can_append(t.take(i), (#[trigger] t[i]).parent),
{
}

/// A node is in the subtree of another exactly where a path leads up to it.
pub proof fn law_within_is_a_path(t: Seq<NodeView>, i: int, a: int)
    ensures
        document::within(t, i, a) <==> leads_up(t, i, a),
{
    if document::within(t, i, a) {
        let path = lemma_path_of(t, i, a);
    }
    if leads_up(t, i, a) {
        let path = choose|path: Seq<int>| #[trigger] is_path(t, path, i, a);
        lemma_path_is_within(t, path, i, a);
    }
}

/// The path from a node in a subtree up to its root.
proof fn lemma_path_of(t: Seq<NodeView>, i: int, a: int) -> (path: Seq<int>)
    requires
        document::within(t, i, a),
    ensures
        is_path(t, path, i, a),
    decreases i,
{
    if i == a {
        seq![i]
    } else {
        let rest = lemma_path_of(t, t[i].parent->Some_0, a);
        let path = seq![i] + rest;
        assert(path.last() == rest.last());
        assert forall|k: int| 0 <= k < path.len() implies 0 <= #[trigger] path[k] < t.len() by {
            if k > 0 {
                assert(path[k] == rest[k - 1]);
            }
        }
        assert forall|k: int|
            #![trigger t[path[k]]]
            0 <= k < path.len() - 1 implies t[path[k]].parent == Some(path[k + 1]) && path[k + 1]
            < path[k] by {
            assert(path[k + 1] == rest[k]);
            if k > 0 {
                assert(path[k] == rest[k - 1]);
                assert(t[rest[k - 1]].parent == Some(rest[k - 1 + 1]));
            }
        }
        path
    }
}

/// A node from which a path leads up is in the subtree.
proof fn lemma_path_is_within(t: Seq<NodeView>, path: Seq<int>, i: int, a: int)
    requires
        is_path(t, path, i, a),
    ensures
        document::within(t, i, a),
    decreases path.len(),
{
    if path.len() > 1 {
        let rest = path.drop_first();
        let top = 0int;
        assert(t[path[top]].parent == Some(path[top + 1]) && path[top + 1] < path[top]);
        assert(rest.last() == path.last());
        assert forall|k: int| 0 <= k < rest.len() implies 0 <= #[trigger] rest[k] < t.len() by {
            assert(rest[k] == path[k + 1]);
        }
        assert forall|k: int|
            #![trigger t[rest[k]]]
            0 <= k < rest.len() - 1 implies t[rest[k]].parent == Some(rest[k + 1]) && rest[k + 1]
            < rest[k] by {
            assert(rest[k] == path[k + 1]);
            assert(t[path[k + 1]].parent == Some(path[k + 1 + 1]));
        }
        lemma_path_is_within(t, rest, path[1], a);
    }
}

/// The positions that are selected.
proof fn lemma_lists(n: nat, p: spec_fn(int) -> bool, q: spec_fn(int) -> bool)
    requires
        forall|i: int| 0 <= i < n ==> (#[trigger] p(i) <==> q(i)),
    ensures
        lists(document::matching(n, p), n, q),
        document::first_of(document::matching(n, p)) matches Some(i) ==> is_first(i, n, q),
        document::first_of(document::matching(n, p)) is None ==> forall|i: int|
            0 <= i < n ==> !#[trigger] q(i),
{
    document::lemma_matching(n, p);
    let s = document::matching(n, p);
    assert forall|i: int| #[trigger] s.contains(i) <==> 0 <= i < n && q(i) by {
        if s.contains(i) {
            let k = choose|k: int| 0 <= k < s.len() && s[k] == i;
            assert(p(s[k]));
        }
        if 0 <= i < n && q(i) {
            assert(p(i));
        }
    }
    if s.len() > 0 {
        assert(p(s[0]));
        assert forall|j: int| 0 <= j < s[0] implies !#[trigger] q(j) by {
            if q(j) {
                assert(s.contains(j));
                let k = choose|k: int| 0 <= k < s.len() && s[k] == j;
            }
        }
    } else {
        assert forall|i: int| 0 <= i < n implies !#[trigger] q(i) by {
            if q(i) {
                assert(s.contains(i));
            }
        }
    }
}

/// The elements of a name are all of them, in document order.
pub proof fn law_elements(t: Seq<NodeView>, local: Seq<char>, ns: Option<Seq<char>>)
    ensures
        lists(
            document::elements_named(t, local, ns),
            t.len(),
            |i: int| is_element(t, i, local, ns),
        ),
{
    lemma_lists(
        t.len(),
        document::pick_elements(t, local, ns),
        |i: int| is_element(t, i, local, ns),
    );
}

/// The children of a name are all of them under any of the parents, in document
/// order.
pub proof fn law_children(
    t: Seq<NodeView>,
    parents: Seq<int>,
    local: Seq<char>,
    ns: Option<Seq<char>>,
)
    ensures
        lists(
            document::children_named(t, parents, local, ns),
            t.len(),
            |i: int|
                is_element(t, i, local, ns) && t[i].parent is Some && parents.contains(
                    t[i].parent->Some_0,
                ),
        ),
{
    lemma_lists(
        t.len(),
        document::pick_children(t, parents, local, ns),
        |i: int|
            is_element(t, i, local, ns) && t[i].parent is Some && parents.contains(
                t[i].parent->Some_0,
            ),
    );
}

/// The descendants of a name are all of them below the node, at any depth, in
/// document order.
pub proof fn law_descendants(t: Seq<NodeView>, a: int, local: Seq<char>, ns: Option<Seq<char>>)
    ensures
        lists(
            document::descendants_named(t, a, local, ns),
            t.len(),
            |i: int|
                is_element(t, i, local, ns) && i != a && leads_up(t, i, a),
        ),
{
    let p = document::pick_descendants(t, a, local, ns);
    let q = |i: int|
        is_element(t, i, local, ns) && i != a && leads_up(t, i, a);
    assert forall|i: int| 0 <= i < t.len() implies (#[trigger] p(i) <==> q(i)) by {
        law_within_is_a_path(t, i, a);
    }
    lemma_lists(t.len(), p, q);
}

/// The child of a name is the first of them in document order.
pub proof fn law_child(t: Seq<NodeView>, a: int, local: Seq<char>, ns: Option<Seq<char>>)
    ensures
        match document::child_named(t, a, local, ns) {
            Some(i) => is_first(
                i,
                t.len(),
                |j: int| is_element(t, j, local, ns) && t[j].parent == Some(a),
            ),
            None => forall|i: int|
                #[trigger] is_element(t, i, local, ns) ==> t[i].parent != Some(a),
        },
{
    let p = document::pick_children(t, seq![a], local, ns);
    let q = |j: int| is_element(t, j, local, ns) && t[j].parent == Some(a);
    assert forall|i: int| 0 <= i < t.len() implies (#[trigger] p(i) <==> q(i)) by {
        if q(i) {
            assert(seq![a][0] == a);
        }
    }
    lemma_lists(t.len(), p, q);
    if document::child_named(t, a, local, ns) is None {
        assert forall|i: int| #[trigger] is_element(t, i, local, ns) implies t[i].parent != Some(
            a,
        ) by {
            assert(!q(i));
        }
    }
}

/// The value of an attribute is that of the first attribute with the local name.
pub proof fn law_attribute(t: Seq<NodeView>, i: int, wanted: Seq<char>)
    requires
        0 <= i < t.len(),
    ensures
        match t[i].kind {
            KindView::Element { name, namespace, attributes } => match document::attribute_of(
                t,
                i,
                wanted,
            ) {
                Some(v) => exists|k: int|
                    {
                        &&& 0 <= k < attributes.len()
                        &&& (#[trigger] attributes[k]).name == wanted
                        &&& attributes[k].value == v
                        &&& forall|j: int| 0 <= j < k ==> (#[trigger] attributes[j]).name != wanted
                    },
                None => forall|k: int|
                    0 <= k < attributes.len() ==> (#[trigger] attributes[k]).name != wanted,
            },
            KindView::Text(_) => document::attribute_of(t, i, wanted) is None,
        },
{
    if let KindView::Element { name, namespace, attributes } = t[i].kind {
        lemma_attribute(attributes, wanted);
    }
}

/// The first attribute of a name in a list.
proof fn lemma_attribute(s: Seq<document::AttributeView>, wanted: Seq<char>)
    ensures
        match document::attribute_in(s, wanted) {
            Some(v) => exists|k: int|
                {
                    &&& 0 <= k < s.len()
                    &&& (#[trigger] s[k]).name == wanted
                    &&& s[k].value == v
                    &&& forall|j: int| 0 <= j < k ==> (#[trigger] s[j]).name != wanted
                },
            None => forall|k: int| 0 <= k < s.len() ==> (#[trigger] s[k]).name != wanted,
        },
    decreases s.len(),
{
    if s.len() > 0 {
        if s.first().name == wanted {
            assert(s[0].name == wanted);
        } else {
            let rest = s.drop_first();
            lemma_attribute(rest, wanted);
            if let Some(v) = document::attribute_in(s, wanted) {
                let k = choose|k: int|
                    {
                        &&& 0 <= k < rest.len()
                        &&& (#[trigger] rest[k]).name == wanted
                        &&& rest[k].value == v
                        &&& forall|j: int| 0 <= j < k ==> (#[trigger] rest[j]).name != wanted
                    };
                assert(s[k + 1].name == wanted && s[k + 1].value == v);
                assert forall|j: int| 0 <= j < k + 1 implies (#[trigger] s[j]).name != wanted by {
                    if j > 0 {
                        assert(rest[j - 1] == s[j]);
                    }
                }
            } else {
                assert forall|k: int| 0 <= k < s.len() implies (#[trigger] s[k]).name
                    != wanted by {
                    if k > 0 {
                        assert(rest[k - 1] == s[k]);
                    }
                }
            }
        }
    }
}

/// Whether node `i` is an element with an attribute of this name and value that
/// is in no namespace.
pub open spec fn bears(t: Seq<NodeView>, i: int, name: Seq<char>, value: Seq<char>) -> bool {
    &&& 0 <= i < t.len()
    &&& t[i].kind matches KindView::Element { name: n, namespace, attributes }
    &&& exists|k: int|
        {
            &&& 0 <= k < attributes.len()
            &&& (#[trigger] attributes[k]).name == name
            &&& attributes[k].value == value
            &&& attributes[k].namespace.len() == 0
        }
}

/// The element with an attribute is the first that bears it.
pub proof fn law_element_with_attribute(t: Seq<NodeView>, name: Seq<char>, value: Seq<char>)
    ensures
        match document::element_with_attribute(t, name, value) {
            Some(i) => is_first(i, t.len(), |j: int| bears(t, j, name, value)),
            None => forall|i: int| !#[trigger] bears(t, i, name, value),
        },
{
    let p = document::pick_with_attribute(t, name, value);
    let q = |j: int| bears(t, j, name, value);
    assert forall|i: int| 0 <= i < t.len() implies (#[trigger] p(i) <==> q(i)) by {
        if let KindView::Element { name: n, namespace, attributes } = t[i].kind {
            let wanted = document::AttributeView { name, namespace: Seq::empty(), value };
            if p(i) {
                let k = choose|k: int| 0 <= k < attributes.len() && attributes[k] == wanted;
                assert(attributes[k].name == name);
            }
            if q(i) {
                let k = choose|k: int|
                    {
                        &&& 0 <= k < attributes.len()
                        &&& (#[trigger] attributes[k]).name == name
                        &&& attributes[k].value == value
                        &&& attributes[k].namespace.len() == 0
                    };
                assert(attributes[k].namespace =~= Seq::<char>::empty());
                assert(attributes[k] == wanted);
            }
        }
    }
    lemma_lists(t.len(), p, q);
    if document::element_with_attribute(t, name, value) is None {
        assert forall|i: int| !#[trigger] bears(t, i, name, value) by {
            if bears(t, i, name, value) {
                assert(!q(i));
            }
        }
    }
}

/// What each node adds to the text content of `a`: its text, where it is a text
/// node from which a path leads up to `a`.
pub open spec fn pieces(t: Seq<NodeView>, a: int) -> Seq<Seq<char>> {
    Seq::new(
        t.len(),
        |i: int|
            match t[i].kind {
                KindView::Text(s) => if leads_up(t, i, a) {
                    s
                } else {
                    Seq::empty()
                },
                KindView::Element { .. } => Seq::empty(),
            },
    )
}

/// The text content of a node is all the text in its subtree, put together in
/// document order.
pub proof fn law_content(t: Seq<NodeView>, a: int)
    ensures
        document::content_of(t, a) == pieces(t, a).flatten(),
{
    lemma_content(t, a, t.len());
    assert(pieces(t, a).take(t.len() as int) =~= pieces(t, a));
}

/// The text content among the first nodes.
proof fn lemma_content(t: Seq<NodeView>, a: int, n: nat)
    requires
        n <= t.len(),
    ensures
        document::content_before(t, a, n) == pieces(t, a).take(n as int).flatten(),
    decreases n,
{
    let all = pieces(t, a);
    if n == 0 {
        assert(all.take(0) =~= Seq::empty());
        assert(all.take(0).flatten() =~= Seq::<char>::empty());
    } else {
        lemma_content(t, a, (n - 1) as nat);
        law_within_is_a_path(t, n - 1, a);
        let init = all.take(n - 1);
        assert(all.take(n as int) =~= init.push(all[n - 1]));
        init.lemma_flatten_push(all[n - 1]);
        assert(document::content_before(t, a, n) =~= init.flatten() + all[n - 1]);
    }
}

/// A node takes part in a canonical form where a path leads from the element that
/// decides on it up to the target, and none to what is excluded. An element
/// decides on itself, any other node is decided on by its owner.
pub proof fn law_takes_part(t: Seq<NodeView>, request: c14n::RequestView, node: Visited)
    ensures
        c14n::takes_part(t, request, c14n::anchor_of(node)) <==> ({
            let anchor: Option<int> = match node {
                Visited::Element(i) => Some(i as int),
                Visited::Other(Some(i)) => Some(i as int),
                Visited::Other(None) => None,
            };
            anchor matches Some(a) && leads_up(t, a, request.target) && (request.exclude matches Some(x)
                ==> !leads_up(t, a, x))
        }),
{
    if let Some(a) = c14n::anchor_of(node) {
        law_within_is_a_path(t, a, request.target);
        if let Some(x) = request.exclude {
            law_within_is_a_path(t, a, x);
        }
    }
}

/// Visibility is decided by what takes part.
pub proof fn law_visible(doc: &Document, request: &c14n::CanonRequest, node: Visited, r: bool)
    requires
        call_ensures(c14n::is_visible, (doc, request, node), r),
    ensures
        r == c14n::takes_part(doc@, request@, c14n::anchor_of(node)),
        request@.target == request.target,
        request@.exclude == (match request.exclude {
            Some(x) => Some(x as int),
            None => None,
        }),
        request@.prefixes == request.prefixes.deep_view(),
{
}

/// The model of an element or a text holds what the node holds.
pub proof fn law_node_views(
    name: String,
    namespace: String,
    attributes: Vec<Attribute>,
    s: String,
    k: int,
)
    requires
        0 <= k < attributes@.len(),
    ensures
        (NodeKind::Text(s))@ == KindView::Text(s@),
        (NodeKind::Element { name, namespace, attributes })@ matches KindView::Element {
            name: n,
            namespace: u,
            attributes: views,
        } && n == name@ && u == namespace@ && views.len() == attributes@.len() && views[k].name
            == attributes@[k].name@ && views[k].namespace == attributes@[k].namespace@
            && views[k].value == attributes@[k].value@,
{
}

/// Positions are taken over one by one.
pub proof fn law_positions(s: Seq<usize>, k: int, p: Option<usize>)
    requires
        0 <= k < s.len(),
    ensures
        document::ids(s).len() == s.len(),
        document::ids(s)[k] == s[k],
        match document::opt_id(p) {
            Some(i) => p matches Some(j) && i == j,
            None => p is None,
        },
{
}

} // verus!
