//! XML documents as plain values.
//!
//! A document is the list of its element and text nodes in document order.
//! Every node but the root names its parent by position, so a position stands
//! for a node. Comments and processing instructions are not held: they take
//! part neither in any lookup nor in the text content of an element.

use crate::text;
use vstd::prelude::*;
use vstd::string::*;

verus! {

/// An attribute: its local name, its namespace (empty for none) and its value.
pub struct Attribute {
    pub name: String,
    pub namespace: String,
    pub value: String,
}

/// What a node is: an element with its local name, its namespace (empty for
/// none) and its attributes, or a piece of text.
pub enum NodeKind {
    Element { name: String, namespace: String, attributes: Vec<Attribute> },
    Text(String),
}

/// A node and the position of its parent; the root has none.
pub struct Node {
    parent: Option<usize>,
    kind: NodeKind,
}

/// A parsed document.
pub struct Document {
    nodes: Vec<Node>,
}

/// The model of an [`Attribute`].
pub struct AttributeView {
    pub name: Seq<char>,
    pub namespace: Seq<char>,
    pub value: Seq<char>,
}

/// The model of a [`NodeKind`].
pub enum KindView {
    Element { name: Seq<char>, namespace: Seq<char>, attributes: Seq<AttributeView> },
    Text(Seq<char>),
}

/// The model of a [`Node`].
pub struct NodeView {
    pub parent: Option<int>,
    pub kind: KindView,
}

impl View for Attribute {
    type V = AttributeView;

    open spec fn view(&self) -> AttributeView {
        AttributeView { name: self.name@, namespace: self.namespace@, value: self.value@ }
    }
}

/// The models of a list of attributes.
pub open spec fn attribute_views(s: Seq<Attribute>) -> Seq<AttributeView> {
    s.map_values(|a: Attribute| a@)
}

impl View for NodeKind {
    type V = KindView;

    open spec fn view(&self) -> KindView {
        match self {
            NodeKind::Element { name, namespace, attributes } => KindView::Element {
                name: name@,
                namespace: namespace@,
                attributes: attribute_views(attributes@),
            },
            NodeKind::Text(t) => KindView::Text(t@),
        }
    }
}

impl View for Node {
    type V = NodeView;

    closed spec fn view(&self) -> NodeView {
        NodeView {
            parent: match self.parent {
                Some(p) => Some(p as int),
                None => None,
            },
            kind: self.kind@,
        }
    }
}

impl View for Document {
    type V = Seq<NodeView>;

    closed spec fn view(&self) -> Seq<NodeView> {
        self.nodes@.map_values(|n: Node| n@)
    }
}

/// Positions as mathematical integers.
pub open spec fn ids(s: Seq<usize>) -> Seq<int> {
    s.map_values(|i: usize| i as int)
}

/// An optional position as a mathematical integer.
pub open spec fn opt_id(i: Option<usize>) -> Option<int> {
    match i {
        Some(p) => Some(p as int),
        None => None,
    }
}

/// Whether node `i` is node `a` or one of its descendants.
pub open spec fn within(t: Seq<NodeView>, i: int, a: int) -> bool
    decreases i,
{
    0 <= i < t.len() && (i == a || match t[i].parent {
        Some(p) => 0 <= p < i && within(t, p, a),
        None => false,
    })
}

/// Whether a node can be appended to `t` under `parent`: the first node is the
/// root and has no parent; any later node hangs under an element that is the
/// last node or one of its ancestors, so that positions are in document order.
pub open spec fn can_append(t: Seq<NodeView>, parent: Option<int>) -> bool {
    match parent {
        None => t.len() == 0,
        Some(p) => 0 <= p < t.len() && t[p].kind is Element && within(t, t.len() - 1, p),
    }
}

/// Whether `t` lists the nodes of one tree in document order: the root is an
/// element, and each node was appended where [`can_append`] allows it.
pub open spec fn well_formed(t: Seq<NodeView>) -> bool {
    &&& t.len() > 0 ==> t[0].kind is Element
    &&& forall|i: int| 0 <= i < t.len() ==> can_append(t.take(i), (#[trigger] t[i]).parent)
}

/// The positions below `n` at which `p` holds, in increasing order.
pub open spec fn matching(n: nat, p: spec_fn(int) -> bool) -> Seq<int>
    decreases n,
{
    if n == 0 {
        Seq::empty()
    } else {
        let earlier = matching((n - 1) as nat, p);
        if p(n - 1) {
            earlier.push(n - 1)
        } else {
            earlier
        }
    }
}

/// Whether node `i` is an element with the local name `local` and, where one is
/// given, the namespace `ns`.
pub open spec fn is_named(
    t: Seq<NodeView>,
    i: int,
    local: Seq<char>,
    ns: Option<Seq<char>>,
) -> bool {
    match t[i].kind {
        KindView::Element { name, namespace, .. } => name == local && match ns {
            Some(u) => namespace == u,
            None => true,
        },
        KindView::Text(_) => false,
    }
}

/// Selects the elements of the given name.
pub open spec fn pick_elements(
    t: Seq<NodeView>,
    local: Seq<char>,
    ns: Option<Seq<char>>,
) -> spec_fn(int) -> bool {
    |i: int| is_named(t, i, local, ns)
}

/// Selects the elements of the given name whose parent is one of `parents`.
pub open spec fn pick_children(
    t: Seq<NodeView>,
    parents: Seq<int>,
    local: Seq<char>,
    ns: Option<Seq<char>>,
) -> spec_fn(int) -> bool {
    |i: int|
        is_named(t, i, local, ns) && match t[i].parent {
            Some(p) => parents.contains(p),
            None => false,
        }
}

/// Selects the elements of the given name that are proper descendants of `a`.
pub open spec fn pick_descendants(
    t: Seq<NodeView>,
    a: int,
    local: Seq<char>,
    ns: Option<Seq<char>>,
) -> spec_fn(int) -> bool {
    |i: int| is_named(t, i, local, ns) && i != a && within(t, i, a)
}

/// Selects the elements with an attribute `name` in no namespace whose value is
/// `value`.
pub open spec fn pick_with_attribute(
    t: Seq<NodeView>,
    name: Seq<char>,
    value: Seq<char>,
) -> spec_fn(int) -> bool {
    |i: int|
        match t[i].kind {
            KindView::Element { attributes, .. } => attributes.contains(
                AttributeView { name, namespace: Seq::empty(), value },
            ),
            KindView::Text(_) => false,
        }
}

/// The elements of the given name, in document order.
pub open spec fn elements_named(
    t: Seq<NodeView>,
    local: Seq<char>,
    ns: Option<Seq<char>>,
) -> Seq<int> {
    matching(t.len(), pick_elements(t, local, ns))
}

/// The elements of the given name whose parent is one of `parents`, in document
/// order.
pub open spec fn children_named(
    t: Seq<NodeView>,
    parents: Seq<int>,
    local: Seq<char>,
    ns: Option<Seq<char>>,
) -> Seq<int> {
    matching(t.len(), pick_children(t, parents, local, ns))
}

/// The proper descendants of `a` of the given name, in document order.
pub open spec fn descendants_named(
    t: Seq<NodeView>,
    a: int,
    local: Seq<char>,
    ns: Option<Seq<char>>,
) -> Seq<int> {
    matching(t.len(), pick_descendants(t, a, local, ns))
}

/// The first of `s`, if any.
pub open spec fn first_of(s: Seq<int>) -> Option<int> {
    if s.len() > 0 {
        Some(s[0])
    } else {
        None
    }
}

/// The first child of `a` of the given name.
pub open spec fn child_named(
    t: Seq<NodeView>,
    a: int,
    local: Seq<char>,
    ns: Option<Seq<char>>,
) -> Option<int> {
    first_of(children_named(t, seq![a], local, ns))
}

/// The first element with an attribute `name` in no namespace whose value is
/// `value`.
pub open spec fn element_with_attribute(
    t: Seq<NodeView>,
    name: Seq<char>,
    value: Seq<char>,
) -> Option<int> {
    first_of(matching(t.len(), pick_with_attribute(t, name, value)))
}

/// The value of the first attribute in `s` with the local name `name`.
pub open spec fn attribute_in(s: Seq<AttributeView>, name: Seq<char>) -> Option<Seq<char>>
    decreases s.len(),
{
    if s.len() == 0 {
        None
    } else if s.first().name == name {
        Some(s.first().value)
    } else {
        attribute_in(s.drop_first(), name)
    }
}

/// The value of the first attribute of node `i` with the local name `name`.
pub open spec fn attribute_of(t: Seq<NodeView>, i: int, name: Seq<char>) -> Option<Seq<char>> {
    if 0 <= i < t.len() {
        match t[i].kind {
            KindView::Element { attributes, .. } => attribute_in(attributes, name),
            KindView::Text(_) => None,
        }
    } else {
        None
    }
}

/// The text among the first `n` nodes that lies in the subtree of `a`.
pub open spec fn content_before(t: Seq<NodeView>, a: int, n: nat) -> Seq<char>
    decreases n,
{
    if n == 0 {
        Seq::empty()
    } else {
        let earlier = content_before(t, a, (n - 1) as nat);
        match t[n - 1].kind {
            KindView::Text(s) => if within(t, n - 1, a) {
                earlier + s
            } else {
                earlier
            },
            KindView::Element { .. } => earlier,
        }
    }
}

/// The text content of node `a`: all text in its subtree, in document order.
pub open spec fn content_of(t: Seq<NodeView>, a: int) -> Seq<char> {
    content_before(t, a, t.len())
}

/// The values that [`matching`] lists are those below `n` at which `p` holds,
/// each once and in increasing order.
pub proof fn lemma_matching(n: nat, p: spec_fn(int) -> bool)
    ensures
        forall|k: int|
            0 <= k < matching(n, p).len() ==> 0 <= (#[trigger] matching(n, p)[k]) < n && p(
                matching(n, p)[k],
            ),
        forall|j: int, k: int|
            0 <= j < k < matching(n, p).len() ==> #[trigger] matching(n, p)[j]
                < #[trigger] matching(n, p)[k],
        forall|i: int| 0 <= i < n && p(i) ==> #[trigger] matching(n, p).contains(i),
    decreases n,
{
    if n > 0 {
        let m = (n - 1) as nat;
        lemma_matching(m, p);
        let earlier = matching(m, p);
        let all = matching(n, p);
        assert forall|i: int| 0 <= i < n && p(i) implies #[trigger] all.contains(i) by {
            if i < m {
                assert(earlier.contains(i));
                let k = choose|k: int| 0 <= k < earlier.len() && earlier[k] == i;
                assert(all[k] == i);
            } else {
                assert(all[all.len() - 1] == i);
            }
        }
    }
}

/// The first position at which `p` holds is the first that [`matching`] lists.
proof fn lemma_matching_first(n: nat, i: nat, p: spec_fn(int) -> bool)
    requires
        i < n,
        p(i as int),
        matching(i, p).len() == 0,
    ensures
        matching(n, p).len() > 0,
        matching(n, p)[0] == i,
    decreases n,
{
    if n == i + 1 {
        assert(matching(n, p) == matching(i, p).push(i as int));
    } else {
        lemma_matching_first((n - 1) as nat, i, p);
    }
}

/// Selections that agree list the same positions.
pub proof fn lemma_same_matching(n: nat, p: spec_fn(int) -> bool, q: spec_fn(int) -> bool)
    requires
        forall|i: int| 0 <= i < n ==> (#[trigger] p(i) <==> q(i)),
    ensures
        matching(n, p) == matching(n, q),
    decreases n,
{
    if n > 0 {
        assert(p(n - 1) <==> q(n - 1));
        lemma_same_matching((n - 1) as nat, p, q);
    }
}

/// Appending a node changes the subtree of no node that was there before.
pub proof fn law_append_keeps_subtrees(t: Seq<NodeView>, x: NodeView, i: int, a: int)
    requires
        0 <= i < t.len(),
    ensures
        within(t.push(x), i, a) == within(t, i, a),
    decreases i,
{
    match t[i].parent {
        Some(p) => if 0 <= p < i {
            law_append_keeps_subtrees(t, x, p, a);
        },
        None => {},
    }
}

/// Appending where [`can_append`] allows it keeps the tree well formed.
proof fn lemma_append(t: Seq<NodeView>, x: NodeView)
    requires
        well_formed(t),
        can_append(t, x.parent),
        t.len() == 0 ==> x.kind is Element,
    ensures
        well_formed(t.push(x)),
{
    let u = t.push(x);
    assert forall|i: int| 0 <= i < u.len() implies can_append(u.take(i), (#[trigger] u[i]).parent) by {
        if i < t.len() {
            assert(u.take(i) =~= t.take(i));
            assert(u[i] == t[i]);
        } else {
            assert(u.take(i) =~= t);
        }
    }
}

/// In a well formed tree every parent comes before its children and is an
/// element; only the root has none.
pub proof fn lemma_parent(t: Seq<NodeView>, i: int)
    requires
        well_formed(t),
        0 <= i < t.len(),
    ensures
        match t[i].parent {
            Some(p) => 0 <= p < i && t[p].kind is Element,
            None => i == 0,
        },
{
    assert(can_append(t.take(i), t[i].parent));
}

/// A list of positions grows as its integers do.
pub proof fn lemma_ids_push(s: Seq<usize>, i: usize)
    ensures
        ids(s.push(i)) == ids(s).push(i as int),
{
    assert(ids(s.push(i)) =~= ids(s).push(i as int));
}

impl Document {
    #[verifier::type_invariant]
    spec fn inv(self) -> bool {
        well_formed(self@)
    }

    /// The document with no node at all.
    pub fn new() -> (d: Document)
        ensures
            d@ == Seq::<NodeView>::empty(),
    {
        let nodes: Vec<Node> = Vec::new();
        assert(nodes@.map_values(|n: Node| n@) =~= Seq::<NodeView>::empty());
        Document { nodes }
    }

    /// The number of nodes.
    pub fn len(&self) -> (n: usize)
        ensures
            n == self@.len(),
    {
        self.nodes.len()
    }

    /// The root element, if there is any node. Whatever document it is asked of
    /// lists the nodes of one tree in document order.
    pub fn root(&self) -> (r: Option<usize>)
        ensures
            r == (if self@.len() > 0 {
                Some(0usize)
            } else {
                None
            }),
            well_formed(self@),
    {
        proof {
            use_type_invariant(self);
        }
        if self.nodes.len() > 0 {
            Some(0)
        } else {
            None
        }
    }

    /// The parent of node `i`.
    fn parent(&self, i: usize) -> (r: Option<usize>)
        requires
            i < self@.len(),
        ensures
            opt_id(r) == self@[i as int].parent,
            r matches Some(p) ==> p < i,
    {
        proof {
            use_type_invariant(self);
            lemma_parent(self@, i as int);
        }
        self.nodes[i].parent
    }

    /// Whether node `i` is node `a` or one of its descendants.
    pub fn is_within(&self, i: usize, a: usize) -> (r: bool)
        ensures
            r == within(self@, i as int, a as int),
    {
        if i >= self.nodes.len() {
            return false;
        }
        let mut cur: usize = i;
        loop
            invariant
                cur < self@.len(),
                within(self@, i as int, a as int) == within(self@, cur as int, a as int),
            decreases cur,
        {
            if cur == a {
                return true;
            }
            match self.parent(cur) {
                Some(p) => {
                    cur = p;
                },
                None => {
                    return false;
                },
            }
        }
    }

    /// Whether a node can be appended under `parent`.
    fn accepts(&self, parent: Option<usize>) -> (r: bool)
        ensures
            r == can_append(self@, opt_id(parent)),
    {
        match parent {
            None => self.nodes.len() == 0,
            Some(p) => {
                if p >= self.nodes.len() {
                    return false;
                }
                let element = match &self.nodes[p].kind {
                    NodeKind::Element { .. } => true,
                    NodeKind::Text(_) => false,
                };
                element && self.is_within(self.nodes.len() - 1, p)
            },
        }
    }

    /// Appends a node under `parent`.
    fn append(&mut self, parent: Option<usize>, kind: NodeKind) -> (i: usize)
        requires
            can_append(old(self)@, opt_id(parent)),
            old(self)@.len() == 0 ==> kind is Element,
        ensures
            i == old(self)@.len(),
            final(self)@ == old(self)@.push(NodeView { parent: opt_id(parent), kind: kind@ }),
    {
        proof {
            use_type_invariant(&*self);
        }
        let ghost before = self@;
        let i = self.nodes.len();
        let mut nodes: Vec<Node> = Vec::new();
        assert(nodes@.map_values(|n: Node| n@) =~= Seq::<NodeView>::empty());
        std::mem::swap(&mut nodes, &mut self.nodes);
        let node = Node { parent, kind };
        let ghost added = node@;
        nodes.push(node);
        proof {
            assert(nodes@.map_values(|n: Node| n@) =~= before.push(added));
            lemma_append(before, added);
        }
        self.nodes = nodes;
        i
    }

    /// Appends an element under `parent` and gives its position. Nodes are
    /// appended in document order: the root first, without a parent; every
    /// other node under an element that is the last node or one of its
    /// ancestors. Anything else is refused and leaves the document unchanged.
    pub fn add_element(
        &mut self,
        parent: Option<usize>,
        name: String,
        namespace: String,
        attributes: Vec<Attribute>,
    ) -> (r: Option<usize>)
        ensures
            r is Some <==> can_append(old(self)@, opt_id(parent)),
            r matches Some(i) ==> i == old(self)@.len() && final(self)@ == old(self)@.push(
                NodeView {
                    parent: opt_id(parent),
                    kind: KindView::Element {
                        name: name@,
                        namespace: namespace@,
                        attributes: attribute_views(attributes@),
                    },
                },
            ),
            r is None ==> final(self)@ == old(self)@,
    {
        if self.accepts(parent) {
            Some(self.append(parent, NodeKind::Element { name, namespace, attributes }))
        } else {
            None
        }
    }

    /// Appends a piece of text under `parent` and gives its position, under the
    /// same rule as [`Document::add_element`].
    pub fn add_text(&mut self, parent: usize, text: String) -> (r: Option<usize>)
        ensures
            r is Some <==> can_append(old(self)@, Some(parent as int)),
            r matches Some(i) ==> i == old(self)@.len() && final(self)@ == old(self)@.push(
                NodeView { parent: Some(parent as int), kind: KindView::Text(text@) },
            ),
            r is None ==> final(self)@ == old(self)@,
    {
        if self.accepts(Some(parent)) {
            Some(self.append(Some(parent), NodeKind::Text(text)))
        } else {
            None
        }
    }

    /// The value of the first attribute of node `i` with the local name `name`,
    /// whatever its namespace.
    pub fn get_attribute(&self, i: usize, name: &str) -> (r: Option<String>)
        ensures
            text::text_of(r) == attribute_of(self@, i as int, name@),
    {
        if i >= self.nodes.len() {
            return None;
        }
        match &self.nodes[i].kind {
            NodeKind::Text(_) => None,
            NodeKind::Element { attributes, .. } => {
                let wanted = name.to_owned();
                let ghost all = attribute_views(attributes@);
                let mut k: usize = 0;
                assert(all.skip(0) =~= all);
                while k < attributes.len()
                    invariant
                        k <= attributes.len(),
                        wanted@ == name@,
                        all == attribute_views(attributes@),
                        attribute_of(self@, i as int, name@) == attribute_in(all, name@),
                        attribute_in(all, name@) == attribute_in(all.skip(k as int), name@),
                    decreases attributes.len() - k,
                {
                    assert(all.skip(k as int).first() == attributes@[k as int]@);
                    assert(all.skip(k as int).drop_first() =~= all.skip(k + 1));
                    if attributes[k].name == wanted {
                        return Some(attributes[k].value.clone());
                    }
                    k = k + 1;
                }
                None
            },
        }
    }

    /// For each node, whether it is in the subtree of `a`.
    fn marks_within(&self, a: usize) -> (marks: Vec<bool>)
        ensures
            marks.len() == self@.len(),
            forall|i: int|
                0 <= i < marks.len() ==> #[trigger] marks@[i] == within(self@, i, a as int),
    {
        let mut marks: Vec<bool> = Vec::new();
        let mut i: usize = 0;
        while i < self.nodes.len()
            invariant
                i <= self@.len(),
                self@.len() == self.nodes.len(),
                marks.len() == i,
                forall|j: int|
                    0 <= j < marks.len() ==> #[trigger] marks@[j] == within(self@, j, a as int),
            decreases self.nodes.len() - i,
        {
            let mark = i == a || match self.parent(i) {
                Some(p) => marks[p],
                None => false,
            };
            marks.push(mark);
            i = i + 1;
        }
        marks
    }

    /// For each node, whether its position is among `chosen`.
    fn marks_of(&self, chosen: &Vec<usize>) -> (marks: Vec<bool>)
        ensures
            marks.len() == self@.len(),
            forall|i: int|
                0 <= i < marks.len() ==> #[trigger] marks@[i] == ids(chosen@).contains(i),
    {
        let n = self.nodes.len();
        let mut marks: Vec<bool> = Vec::new();
        while marks.len() < n
            invariant
                marks.len() <= n,
                forall|j: int| 0 <= j < marks.len() ==> !(#[trigger] marks@[j]),
            decreases n - marks.len(),
        {
            marks.push(false);
        }
        let mut k: usize = 0;
        while k < chosen.len()
            invariant
                k <= chosen.len(),
                marks.len() == n,
                forall|j: int|
                    0 <= j < marks.len() ==> #[trigger] marks@[j] == ids(chosen@).take(
                        k as int,
                    ).contains(j),
            decreases chosen.len() - k,
        {
            let ghost seen = ids(chosen@).take(k as int);
            let ghost next = ids(chosen@).take(k + 1);
            proof {
                assert(next =~= seen.push(chosen@[k as int] as int));
                assert forall|j: int| next.contains(j) == (seen.contains(j) || j
                    == chosen@[k as int] as int) by {
                    if seen.contains(j) {
                        let m = choose|m: int| 0 <= m < seen.len() && seen[m] == j;
                        assert(next[m] == j);
                    }
                    assert(next[k as int] == chosen@[k as int] as int);
                }
            }
            if chosen[k] < n {
                marks.set(chosen[k], true);
            }
            k = k + 1;
        }
        assert(ids(chosen@).take(k as int) =~= ids(chosen@));
        marks
    }

    /// Whether node `i` is an element with the local name `local` and, where
    /// one is given, the namespace `ns`.
    fn has_name(&self, i: usize, local: &String, ns: &Option<String>) -> (r: bool)
        requires
            i < self@.len(),
        ensures
            r == is_named(self@, i as int, local@, text::text_of(*ns)),
    {
        match &self.nodes[i].kind {
            NodeKind::Text(_) => false,
            NodeKind::Element { name, namespace, .. } => *name == *local && match ns {
                Some(u) => *namespace == *u,
                None => true,
            },
        }
    }

    /// The elements of the given name, in document order.
    pub fn elements(&self, local: &str, ns: Option<&str>) -> (r: Vec<usize>)
        ensures
            ids(r@) == elements_named(self@, local@, text::str_text(ns)),
    {
        let local_name = local.to_owned();
        let namespace = text::owned(ns);
        let ghost pick = pick_elements(self@, local@, text::str_text(ns));
        let mut r: Vec<usize> = Vec::new();
        let mut i: usize = 0;
        assert(ids(r@) =~= Seq::<int>::empty());
        while i < self.nodes.len()
            invariant
                i <= self@.len(),
                self@.len() == self.nodes.len(),
                local_name@ == local@,
                text::text_of(namespace) == text::str_text(ns),
                pick == pick_elements(self@, local@, text::str_text(ns)),
                ids(r@) == matching(i as nat, pick),
            decreases self.nodes.len() - i,
        {
            if self.has_name(i, &local_name, &namespace) {
                proof {
                    lemma_ids_push(r@, i);
                }
                r.push(i);
            }
            i = i + 1;
        }
        r
    }

    /// The elements of the given name whose parent is one of `parents`, in
    /// document order.
    pub fn children(&self, parents: &Vec<usize>, local: &str, ns: Option<&str>) -> (r: Vec<usize>)
        ensures
            ids(r@) == children_named(self@, ids(parents@), local@, text::str_text(ns)),
    {
        let local_name = local.to_owned();
        let namespace = text::owned(ns);
        let marks = self.marks_of(parents);
        let ghost pick = pick_children(self@, ids(parents@), local@, text::str_text(ns));
        let mut r: Vec<usize> = Vec::new();
        let mut i: usize = 0;
        assert(ids(r@) =~= Seq::<int>::empty());
        while i < self.nodes.len()
            invariant
                i <= self@.len(),
                self@.len() == self.nodes.len(),
                local_name@ == local@,
                text::text_of(namespace) == text::str_text(ns),
                marks.len() == self@.len(),
                forall|j: int|
                    0 <= j < marks.len() ==> #[trigger] marks@[j] == ids(parents@).contains(j),
                pick == pick_children(self@, ids(parents@), local@, text::str_text(ns)),
                ids(r@) == matching(i as nat, pick),
            decreases self.nodes.len() - i,
        {
            let under = match self.parent(i) {
                Some(p) => marks[p],
                None => false,
            };
            if under && self.has_name(i, &local_name, &namespace) {
                proof {
                    lemma_ids_push(r@, i);
                }
                r.push(i);
            }
            i = i + 1;
        }
        r
    }

    /// The proper descendants of `a` of the given name, in document order.
    pub fn descendants(&self, a: usize, local: &str, ns: Option<&str>) -> (r: Vec<usize>)
        ensures
            ids(r@) == descendants_named(self@, a as int, local@, text::str_text(ns)),
    {
        let local_name = local.to_owned();
        let namespace = text::owned(ns);
        let marks = self.marks_within(a);
        let ghost pick = pick_descendants(self@, a as int, local@, text::str_text(ns));
        let mut r: Vec<usize> = Vec::new();
        let mut i: usize = 0;
        assert(ids(r@) =~= Seq::<int>::empty());
        while i < self.nodes.len()
            invariant
                i <= self@.len(),
                self@.len() == self.nodes.len(),
                local_name@ == local@,
                text::text_of(namespace) == text::str_text(ns),
                marks.len() == self@.len(),
                forall|j: int|
                    0 <= j < marks.len() ==> #[trigger] marks@[j] == within(self@, j, a as int),
                pick == pick_descendants(self@, a as int, local@, text::str_text(ns)),
                ids(r@) == matching(i as nat, pick),
            decreases self.nodes.len() - i,
        {
            if i != a && marks[i] && self.has_name(i, &local_name, &namespace) {
                proof {
                    lemma_ids_push(r@, i);
                }
                r.push(i);
            }
            i = i + 1;
        }
        r
    }

    /// The first child of `a` of the given name.
    pub fn child(&self, a: usize, local: &str, ns: Option<&str>) -> (r: Option<usize>)
        ensures
            opt_id(r) == child_named(self@, a as int, local@, text::str_text(ns)),
    {
        let parents = vec![a];
        assert(ids(parents@) =~= seq![a as int]);
        let found = self.children(&parents, local, ns);
        if found.len() > 0 {
            Some(found[0])
        } else {
            None
        }
    }

    /// The first element with an attribute `name` in no namespace whose value
    /// is `value`.
    pub fn find_by_attribute(&self, name: &str, value: &str) -> (r: Option<usize>)
        ensures
            opt_id(r) == element_with_attribute(self@, name@, value@),
    {
        let wanted_name = name.to_owned();
        let wanted_value = value.to_owned();
        let ghost pick = pick_with_attribute(self@, name@, value@);
        let mut i: usize = 0;
        while i < self.nodes.len()
            invariant
                i <= self@.len(),
                self@.len() == self.nodes.len(),
                wanted_name@ == name@,
                wanted_value@ == value@,
                pick == pick_with_attribute(self@, name@, value@),
                matching(i as nat, pick).len() == 0,
            decreases self.nodes.len() - i,
        {
            if self.carries(i, &wanted_name, &wanted_value) {
                proof {
                    lemma_matching_first(self@.len(), i as nat, pick);
                }
                return Some(i);
            }
            i = i + 1;
        }
        None
    }

    /// Whether node `i` is an element with an attribute `name` in no namespace
    /// whose value is `value`.
    fn carries(&self, i: usize, name: &String, value: &String) -> (r: bool)
        requires
            i < self@.len(),
        ensures
            r == pick_with_attribute(self@, name@, value@)(i as int),
    {
        match &self.nodes[i].kind {
            NodeKind::Text(_) => false,
            NodeKind::Element { attributes, .. } => {
                let ghost all = attribute_views(attributes@);
                let ghost wanted = AttributeView {
                    name: name@,
                    namespace: Seq::empty(),
                    value: value@,
                };
                let mut k: usize = 0;
                while k < attributes.len()
                    invariant
                        k <= attributes.len(),
                        all == attribute_views(attributes@),
                        wanted == (AttributeView {
                            name: name@,
                            namespace: Seq::empty(),
                            value: value@,
                        }),
                        pick_with_attribute(self@, name@, value@)(i as int) == all.contains(wanted),
                        forall|j: int| 0 <= j < k ==> #[trigger] all[j] != wanted,
                    decreases attributes.len() - k,
                {
                    let a = &attributes[k];
                    assert(all[k as int] == a@);
                    if a.name == *name && a.namespace.as_str().is_empty() && a.value == *value {
                        assert(a.namespace@ =~= Seq::<char>::empty());
                        return true;
                    }
                    k = k + 1;
                }
                false
            },
        }
    }

    /// The text content of node `a`: all text in its subtree, in document
    /// order.
    pub fn get_content(&self, a: usize) -> (r: String)
        ensures
            r@ == content_of(self@, a as int),
    {
        let marks = self.marks_within(a);
        let mut r = String::new();
        let mut i: usize = 0;
        while i < self.nodes.len()
            invariant
                i <= self@.len(),
                self@.len() == self.nodes.len(),
                marks.len() == self@.len(),
                forall|j: int|
                    0 <= j < marks.len() ==> #[trigger] marks@[j] == within(self@, j, a as int),
                r@ == content_before(self@, a as int, i as nat),
            decreases self.nodes.len() - i,
        {
            match &self.nodes[i].kind {
                NodeKind::Text(t) => {
                    if marks[i] {
                        r.append(t.as_str());
                    }
                },
                NodeKind::Element { .. } => {},
            }
            i = i + 1;
        }
        r
    }
}

} // verus!
