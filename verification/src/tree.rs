//! A tree of elements that can be walked: from a node to its parent, its
//! children, its siblings, and to the deepest node at an offset.

use crate::elements::inline::{
    in_order, inline_nested, inline_views, inlines_within, InlineElement, InlineElementView,
};
use crate::elements::page::{as_elements, element_nested, Element, ElementView};
use crate::located::Located;
use std::collections::HashMap;
use std::collections::HashSet;
use vstd::prelude::*;

verus! {

/// A node of the tree: an element with its region, the id of the node, the
/// id of its parent, the ids of its children from left to right, and its
/// depth below the root.
pub struct ElementNode<'a> {
    pub id: usize,
    pub parent: Option<usize>,
    pub children: Vec<usize>,
    pub depth: usize,
    pub data: Located<Element<'a>>,
}

impl<'a> ElementNode<'a> {
    pub fn id(&self) -> (r: usize)
        ensures
            r == self.id,
    {
        self.id
    }

    pub fn parent_id(&self) -> (r: Option<usize>)
        ensures
            r == self.parent,
    {
        self.parent
    }

    pub fn children_ids(&self) -> (r: &Vec<usize>)
        ensures
            *r == self.children,
    {
        &self.children
    }

    pub fn depth(&self) -> (r: usize)
        ensures
            r == self.depth,
    {
        self.depth
    }

    pub fn data(&self) -> (r: &Located<Element<'a>>)
        ensures
            *r == self.data,
    {
        &self.data
    }

    /// The element of the node.
    pub fn as_element(&self) -> (r: &Element<'a>)
        ensures
            *r == self.data.value,
    {
        &self.data.value
    }

    /// Whether the region of the node covers the character at `offset`.
    pub fn contains_offset(&self, offset: usize) -> (r: bool)
        ensures
            r == self.data.region.spec_contains_offset(offset as int),
    {
        self.data.region.contains_offset(offset)
    }

    /// The node with its element borrowed from this one.
    pub fn to_borrowed<'b>(&'b self) -> (r: ElementNode<'b>)
        ensures
            r.same_as(*self),
    {
        let mut children: Vec<usize> = Vec::new();
        let mut i: usize = 0;
        while i < self.children.len()
            invariant
                i <= self.children@.len(),
                children@ == self.children@.subrange(0, i as int),
            decreases self.children@.len() - i,
        {
            children.push(self.children[i]);
            proof {
                assert(children@ =~= self.children@.subrange(0, i + 1));
            }
            i += 1;
        }
        proof {
            assert(children@ =~= self.children@);
        }
        ElementNode {
            id: self.id,
            parent: self.parent,
            children,
            depth: self.depth,
            data: Located { value: self.data.value.to_borrowed(), region: self.data.region },
        }
    }

    /// A copy of the node whose element owns its text.
    pub fn owned_copy(&self) -> (r: ElementNode<'static>)
        ensures
            r.same_as(*self),
    {
        let mut children: Vec<usize> = Vec::new();
        let mut i: usize = 0;
        while i < self.children.len()
            invariant
                i <= self.children@.len(),
                children@ == self.children@.subrange(0, i as int),
            decreases self.children@.len() - i,
        {
            children.push(self.children[i]);
            proof {
                assert(children@ =~= self.children@.subrange(0, i + 1));
            }
            i += 1;
        }
        proof {
            assert(children@ =~= self.children@);
        }
        ElementNode {
            id: self.id,
            parent: self.parent,
            children,
            depth: self.depth,
            data: Located { value: self.data.value.owned_copy(), region: self.data.region },
        }
    }

    /// Whether this node and `other` have the same id, parent, children and
    /// depth, and hold the same element in the same region.
    pub open spec fn same_as(&self, other: ElementNode) -> bool {
        &&& self.id == other.id
        &&& self.parent == other.parent
        &&& self.children@ == other.children@
        &&& self.depth == other.depth
        &&& self.data@ == other.data@
    }
}

/// The nodes of a tree by their ids.
pub type Nodes<'a> = Map<usize, ElementNode<'a>>;

/// The ids of `ids` that are ids of nodes, in order.
pub open spec fn known(nodes: Nodes, ids: Seq<usize>) -> Seq<usize>
    decreases ids.len(),
{
    if ids.len() == 0 {
        Seq::empty()
    } else if nodes.contains_key(ids.last()) {
        known(nodes, ids.drop_last()).push(ids.last())
    } else {
        known(nodes, ids.drop_last())
    }
}

/// The ids of `all` that stand before the first `id`.
pub open spec fn before(all: Seq<usize>, id: usize) -> Seq<usize>
    decreases all.len(),
{
    if all.len() == 0 || all[0] == id {
        Seq::empty()
    } else {
        seq![all[0]] + before(all.drop_first(), id)
    }
}

/// The ids of `all` that stand after the first `id`.
pub open spec fn after(all: Seq<usize>, id: usize) -> Seq<usize>
    decreases all.len(),
{
    if all.len() == 0 {
        Seq::empty()
    } else if all[0] == id {
        all.drop_first()
    } else {
        after(all.drop_first(), id)
    }
}

/// The nodes with the given ids.
pub open spec fn nodes_at<'a>(nodes: Nodes<'a>, ids: Seq<usize>) -> Seq<ElementNode<'a>> {
    ids.map_values(|id: usize| nodes[id])
}

/// The nodes that a list of references points to.
pub open spec fn pointed<'b, 'a>(refs: Seq<&'b ElementNode<'a>>) -> Seq<ElementNode<'a>> {
    refs.map_values(|r: &'b ElementNode<'a>| *r)
}

/// The ids of the ancestors of the node `id`, itself first, its parent
/// next, and so on up to the root.
pub open spec fn up_from(nodes: Nodes, id: usize) -> Seq<usize>
    decreases
            (if nodes.contains_key(id) {
                nodes[id].depth as int + 1
            } else {
                0
            }),
{
    if !nodes.contains_key(id) {
        Seq::empty()
    } else {
        seq![id] + (match nodes[id].parent {
            Some(p) => if nodes.contains_key(p) && nodes[p].depth < nodes[id].depth {
                up_from(nodes, p)
            } else {
                Seq::empty()
            },
            None => Seq::empty(),
        })
    }
}

/// The ids of the ancestors of a node, from its parent up to the root.
pub open spec fn ancestors_of(nodes: Nodes, node: ElementNode) -> Seq<usize> {
    match node.parent {
        Some(p) => up_from(nodes, p),
        None => Seq::empty(),
    }
}

/// The ids that a breadth-first walk visits from a queue of ids: the first
/// of the queue, then what the walk visits from the rest of the queue with
/// the children of the first put at its end. The walk takes at most `fuel`
/// ids from the queue.
pub open spec fn walk(nodes: Nodes, queue: Seq<usize>, fuel: nat) -> Seq<usize>
    decreases fuel,
{
    if queue.len() == 0 || fuel == 0 {
        Seq::empty()
    } else if nodes.contains_key(queue[0]) {
        seq![queue[0]] + walk(
            nodes,
            queue.drop_first() + nodes[queue[0]].children@,
            (fuel - 1) as nat,
        )
    } else {
        walk(nodes, queue.drop_first(), (fuel - 1) as nat)
    }
}

/// The ids of the descendants of a node, level by level: its children,
/// then their children, and so on.
pub open spec fn descendants_of(nodes: Nodes, node: ElementNode) -> Seq<usize> {
    walk(nodes, node.children@, nodes.dom().len())
}

/// The ids of the children of the parent of a node.
pub open spec fn family_of(nodes: Nodes, node: ElementNode) -> Seq<usize> {
    match node.parent {
        Some(p) => if nodes.contains_key(p) {
            known(nodes, nodes[p].children@)
        } else {
            Seq::empty()
        },
        None => Seq::empty(),
    }
}

/// The ids of the siblings before a node: the children of its parent that
/// stand before it.
pub open spec fn siblings_before_of(nodes: Nodes, node: ElementNode) -> Seq<usize> {
    before(family_of(nodes, node), node.id)
}

/// The ids of the siblings after a node: the children of its parent that
/// stand after it.
pub open spec fn siblings_after_of(nodes: Nodes, node: ElementNode) -> Seq<usize> {
    after(family_of(nodes, node), node.id)
}

/// The better of two finds: the deeper one, and the later one of two
/// equally deep.
pub open spec fn better(a: Option<(usize, usize)>, b: Option<(usize, usize)>) -> Option<
    (usize, usize),
> {
    match (a, b) {
        (Some(x), Some(y)) => if y.0 >= x.0 {
            b
        } else {
            a
        },
        (Some(_), None) => a,
        _ => b,
    }
}

/// The deepest node at `offset` in the subtree of the node `id`, with its
/// depth: the best find among the children of the node, or the node itself
/// where no child has one. Nothing where the region of the node does not
/// cover the offset. `depth` is the depth of the node, and `fuel` bounds how
/// far down the search goes.
pub open spec fn find_in(nodes: Nodes, id: usize, offset: usize, depth: usize, fuel: nat) -> Option<
    (usize, usize),
>
    decreases fuel, 0nat,
{
    if fuel == 0 || !nodes.contains_key(id) || !nodes[id].data.region.spec_contains_offset(
        offset as int,
    ) {
        None
    } else {
        match find_among(
            nodes,
            nodes[id].children@,
            offset,
            depth,
            (fuel - 1) as nat,
            nodes[id].children@.len(),
        ) {
            Some(found) => Some(found),
            None => Some((depth, id)),
        }
    }
}

/// The best find among the first `n` of `kids`, which are one level below
/// `depth`.
pub open spec fn find_among(
    nodes: Nodes,
    kids: Seq<usize>,
    offset: usize,
    depth: usize,
    fuel: nat,
    n: nat,
) -> Option<(usize, usize)>
    decreases fuel, 1 + n,
{
    if n == 0 || n > kids.len() || depth == usize::MAX {
        None
    } else {
        better(
            find_among(nodes, kids, offset, depth, fuel, (n - 1) as nat),
            find_in(nodes, kids[n - 1], offset, (depth + 1) as usize, fuel),
        )
    }
}

/// The deepest node at `offset` in a tree.
pub open spec fn find_at(nodes: Nodes, root_id: usize, offset: usize) -> Option<usize> {
    match find_in(nodes, root_id, offset, 0, nodes.dom().len()) {
        Some((_, id)) => Some(id),
        None => None,
    }
}

/// The shape of a tree: the id of a node and the shapes of the subtrees
/// of its children, from left to right.
pub struct Shape {
    pub id: usize,
    pub kids: Seq<Shape>,
}

/// The ids of the roots of a list of shapes.
pub open spec fn root_ids(shapes: Seq<Shape>) -> Seq<usize> {
    shapes.map_values(|s: Shape| s.id)
}

/// Number of nodes of a list of shapes.
pub open spec fn total_size(shapes: Seq<Shape>) -> nat
    decreases shapes, 0nat,
{
    if shapes.len() == 0 {
        0
    } else {
        total_size(shapes.drop_last()) + shapes.last().size()
    }
}

/// The ids of a list of shapes, shape after shape.
pub open spec fn all_ids(shapes: Seq<Shape>) -> Seq<usize>
    decreases shapes, 0nat,
{
    if shapes.len() == 0 {
        Seq::empty()
    } else {
        all_ids(shapes.drop_last()) + shapes.last().ids()
    }
}

impl Shape {
    /// Number of nodes.
    pub open spec fn size(self) -> nat
        decreases self, 1nat,
    {
        1 + total_size(self.kids)
    }

    /// The ids of the nodes: that of the root, then those of the subtrees
    /// of its children.
    pub open spec fn ids(self) -> Seq<usize>
        decreases self, 1nat,
    {
        seq![self.id] + all_ids(self.kids)
    }

    /// Whether `nodes` holds the nodes of this shape, linked as the shape
    /// says: the root has the given parent and depth, its children are the
    /// roots of the subtrees, each a level deeper, and the elements directly
    /// inside its element are the elements of its children, in order.
    pub open spec fn fits(self, nodes: Nodes, parent: Option<usize>, depth: nat) -> bool
        decreases self,
    {
        &&& nodes.contains_key(self.id)
        &&& nodes[self.id].id == self.id
        &&& nodes[self.id].parent == parent
        &&& nodes[self.id].depth == depth
        &&& nodes[self.id].children@ == root_ids(self.kids)
        &&& nodes[self.id].data@.value.children().len() == self.kids.len()
        &&& forall|i: int|
            0 <= i < self.kids.len() ==> {
                &&& (#[trigger] self.kids[i]).fits(nodes, Some(self.id), depth + 1)
                &&& nodes[self.kids[i].id].data@ == nodes[self.id].data@.value.children()[i]
            }
    }
}

/// Whether `nodes` is a tree of the given shape with the given root: the
/// nodes are those of the shape, each under an id of its own.
pub open spec fn is_tree(nodes: Nodes, root_id: usize, shape: Shape) -> bool {
    &&& shape.id == root_id
    &&& shape.fits(nodes, None, 0)
    &&& shape.ids().no_duplicates()
    &&& nodes.dom() =~= shape.ids().to_set()
    &&& nodes.dom().finite()
}

/// A tree of elements. Each node has an id of its own; parents and
/// children are held by their ids and looked up in a table. The tree is
/// built once and not changed afterwards.
pub struct ElementTree<'a> {
    nodes: HashMap<usize, ElementNode<'a>>,
    root_id: usize,
    order: Vec<usize>,
    shape: Ghost<Shape>,
}

impl<'a> View for ElementTree<'a> {
    type V = Nodes<'a>;

    /// The nodes of the tree by their ids.
    closed spec fn view(&self) -> Nodes<'a> {
        self.nodes@
    }
}

impl<'a> ElementTree<'a> {
    #[verifier::type_invariant]
    closed spec fn inv(&self) -> bool {
        &&& is_tree(self.nodes@, self.root_id, self.shape@)
        &&& self.order@.no_duplicates()
        &&& self.order@.to_set() =~= self.nodes@.dom()
    }

    /// The id of the root.
    pub closed spec fn spec_root_id(&self) -> usize {
        self.root_id
    }

    /// The shape of the tree.
    pub closed spec fn spec_shape(&self) -> Shape {
        self.shape@
    }

    /// The ids of the nodes, in the order in which `nodes` hands the nodes
    /// out.
    pub closed spec fn spec_order(&self) -> Seq<usize> {
        self.order@
    }

    /// Whether the table of nodes is a tree with the recorded shape and
    /// root. This holds of every tree.
    pub open spec fn wf(&self) -> bool {
        &&& is_tree(self@, self.spec_root_id(), self.spec_shape())
        &&& self.spec_order().no_duplicates()
        &&& self.spec_order().to_set() =~= self@.dom()
    }

    /// The root of the tree.
    pub fn root(&self) -> (r: &ElementNode<'a>)
        ensures
            self@.contains_key(self.spec_root_id()),
            *r == self@[self.spec_root_id()],
            r.id == self.spec_root_id(),
            r.parent is None,
            r.depth == 0,
    {
        proof {
            use_type_invariant(self);
            assert(self.shape@.fits(self.nodes@, None, 0));
            assert(self.nodes@.contains_key(self.root_id));
        }
        match self.nodes.get(&self.root_id) {
            Some(n) => n,
            None => vstd::pervasive::unreached(),
        }
    }

    /// The node with the given id, if the tree has one.
    pub fn node(&self, id: usize) -> (r: Option<&ElementNode<'a>>)
        ensures
            match r {
                Some(n) => self@.contains_key(id) && *n == self@[id],
                None => !self@.contains_key(id),
            },
    {
        self.nodes.get(&id)
    }

    /// Number of nodes.
    pub fn len(&self) -> (r: usize)
        ensures
            r == self@.dom().len(),
            r == self.spec_order().len(),
    {
        proof {
            use_type_invariant(self);
            self.order@.unique_seq_to_set();
        }
        self.order.len()
    }

    /// The nodes with the given ids, those left out that the tree does not
    /// have.
    pub fn nodes_with<'b>(&'b self, ids: &Vec<usize>) -> (r: Vec<&'b ElementNode<'a>>)
        ensures
            pointed(r@) == nodes_at(self@, known(self@, ids@)),
    {
        let mut out: Vec<&'b ElementNode<'a>> = Vec::new();
        let mut i: usize = 0;
        proof {
            assert(ids@.take(0) =~= Seq::empty());
            assert(pointed(out@) =~= nodes_at(self@, known(self@, ids@.take(0))));
        }
        while i < ids.len()
            invariant
                i <= ids@.len(),
                pointed(out@) == nodes_at(self@, known(self@, ids@.take(i as int))),
            decreases ids@.len() - i,
        {
            let ghost before = out@;
            let ghost seen = known(self@, ids@.take(i as int));
            proof {
                assert(ids@.take(i + 1).drop_last() =~= ids@.take(i as int));
                assert(ids@.take(i + 1).last() == ids@[i as int]);
            }
            match self.nodes.get(&ids[i]) {
                Some(n) => {
                    out.push(n);
                    proof {
                        assert(pointed(out@) =~= pointed(before).push(*n));
                        assert(nodes_at(self@, seen.push(ids@[i as int])) =~= nodes_at(
                            self@,
                            seen,
                        ).push(self@[ids@[i as int]]));
                    }
                },
                None => {},
            }
            i += 1;
        }
        proof {
            assert(ids@.take(ids@.len() as int) =~= ids@);
        }
        out
    }

    /// All nodes of the tree.
    pub fn nodes<'b>(&'b self) -> (r: Vec<&'b ElementNode<'a>>)
        ensures
            pointed(r@) == nodes_at(self@, self.spec_order()),
            r@.len() == self@.dom().len(),
    {
        proof {
            use_type_invariant(self);
            self.order@.unique_seq_to_set();
        }
        let r = self.nodes_with(&self.order);
        proof {
            lemma_known_all(self@, self.order@);
            assert(pointed(r@).len() == r@.len());
        }
        r
    }

    /// The parent of a node, if it has one.
    pub fn parent<'b>(&'b self, node: &ElementNode<'_>) -> (r: Option<&'b ElementNode<'a>>)
        ensures
            match r {
                Some(p) => node.parent == Some(p.id) && self@.contains_key(p.id) && *p == self@[p.id],
                None => node.parent matches Some(p) ==> !self@.contains_key(p),
            },
    {
        proof {
            use_type_invariant(self);
            self.lemma_ids();
        }
        match node.parent {
            Some(id) => self.nodes.get(&id),
            None => None,
        }
    }

    /// The children of a node, from left to right.
    pub fn children<'b>(&'b self, node: &ElementNode<'_>) -> (r: Vec<&'b ElementNode<'a>>)
        ensures
            pointed(r@) == nodes_at(self@, known(self@, node.children@)),
    {
        self.nodes_with(&node.children)
    }

    /// The ancestors of a node: its parent, the parent of its parent, and
    /// so on up to the root.
    pub fn ancestors<'b>(&'b self, node: &ElementNode<'_>) -> (r: Vec<&'b ElementNode<'a>>)
        ensures
            pointed(r@) == nodes_at(self@, ancestors_of(self@, *node)),
    {
        let mut out: Vec<&'b ElementNode<'a>> = Vec::new();
        let ghost mut ids: Seq<usize> = Seq::empty();
        let mut cur: Option<&'b ElementNode<'a>> = match node.parent {
            Some(p) => self.nodes.get(&p),
            None => None,
        };
        proof {
            use_type_invariant(self);
            self.lemma_ids();
            assert(pointed(out@) =~= nodes_at(self@, ids));
            if cur is Some {
                assert(ids + up_from(self@, cur.unwrap().id) =~= up_from(self@, cur.unwrap().id));
            }
        }
        loop
            invariant
                pointed(out@) == nodes_at(self@, ids),
                match cur {
                    Some(n) => self@.contains_key(n.id) && *n == self@[n.id] && ancestors_of(
                        self@,
                        *node,
                    ) == ids + up_from(self@, n.id),
                    None => ancestors_of(self@, *node) == ids,
                },
            decreases
                    (match cur {
                        Some(n) => n.depth as int + 1,
                        None => 0,
                    }),
        {
            match cur {
                Some(n) => {
                    let ghost before = out@;
                    out.push(n);
                    proof {
                        assert(pointed(out@) =~= pointed(before).push(*n));
                        assert(nodes_at(self@, ids.push(n.id)) =~= nodes_at(self@, ids).push(
                            self@[n.id],
                        ));
                    }
                    let next = match n.parent {
                        Some(p) => match self.nodes.get(&p) {
                            Some(x) => if x.depth < n.depth && x.id == p {
                                Some(x)
                            } else {
                                None
                            },
                            None => None,
                        },
                        None => None,
                    };
                    proof {
                        use_type_invariant(self);
                        self.lemma_ids();
                        let rest = up_from(self@, n.id);
                        match next {
                            Some(x) => {
                                assert(ids + (seq![n.id] + up_from(self@, x.id)) =~= ids.push(
                                    n.id,
                                ) + up_from(self@, x.id));
                            },
                            None => {
                                assert(ids + seq![n.id] =~= ids.push(n.id));
                                assert(rest =~= seq![n.id]) by {
                                    if n.parent is Some && self@.contains_key(n.parent.unwrap()) {
                                        self.lemma_parent_depth(n.id);
                                    }
                                }
                            },
                        }
                        ids = ids.push(n.id);
                    }
                    cur = next;
                },
                None => {
                    return out;
                },
            }
        }
    }

    /// The siblings of a node that stand before it, from left to right.
    pub fn siblings_before<'b>(&'b self, node: &ElementNode<'_>) -> (r: Vec<&'b ElementNode<'a>>)
        ensures
            pointed(r@) == nodes_at(self@, siblings_before_of(self@, *node)),
    {
        let family = match self.parent(node) {
            Some(p) => self.children(p),
            None => Vec::new(),
        };
        let ghost all = family_of(self@, *node);
        proof {
            assert(pointed(family@) =~= nodes_at(self@, all));
            use_type_invariant(self);
            self.lemma_ids();
            if node.parent is Some && self@.contains_key(node.parent.unwrap()) {
                lemma_known_in(self@, self@[node.parent.unwrap()].children@);
            }
        }
        let mut out: Vec<&'b ElementNode<'a>> = Vec::new();
        let mut i: usize = 0;
        let mut done = false;
        proof {
            assert(pointed(out@) =~= nodes_at(self@, Seq::empty()));
            assert(all.subrange(0, all.len() as int) =~= all);
        }
        while i < family.len() && !done
            invariant
                i <= family@.len(),
                family@.len() == all.len(),
                pointed(family@) == nodes_at(self@, all),
                forall|k: int| 0 <= k < all.len() ==> self@[#[trigger] all[k]].id == all[k],
                !done ==> before(all, node.id) == all.subrange(0, i as int) + before(
                    all.subrange(i as int, all.len() as int),
                    node.id,
                ),
                done ==> before(all, node.id) == all.subrange(0, i as int),
                pointed(out@) == nodes_at(self@, all.subrange(0, i as int)),
            decreases family@.len() - i + (if done { 0int } else { 1int }),
        {
            let n = family[i];
            let ghost rest = all.subrange(i as int, all.len() as int);
            proof {
                assert(pointed(family@)[i as int] == *n);
                assert(n.id == all[i as int]);
                assert(rest[0] == all[i as int]);
            }
            if n.id == node.id {
                proof {
                    assert(all.subrange(0, i as int) + Seq::<usize>::empty() =~= all.subrange(
                        0,
                        i as int,
                    ));
                }
                done = true;
            } else {
                let ghost before_out = out@;
                out.push(n);
                proof {
                    assert(rest.drop_first() =~= all.subrange(i + 1, all.len() as int));
                    assert(all.subrange(0, i as int) + (seq![all[i as int]] + before(
                        rest.drop_first(),
                        node.id,
                    )) =~= all.subrange(0, i + 1) + before(rest.drop_first(), node.id));
                    assert(pointed(out@) =~= pointed(before_out).push(*n));
                    assert(nodes_at(self@, all.subrange(0, i + 1)) =~= nodes_at(
                        self@,
                        all.subrange(0, i as int),
                    ).push(self@[all[i as int]]));
                }
                i += 1;
            }
        }
        proof {
            if !done {
                assert(all.subrange(i as int, all.len() as int) =~= Seq::<usize>::empty());
                assert(all.subrange(0, i as int) + Seq::<usize>::empty() =~= all.subrange(
                    0,
                    i as int,
                ));
            }
        }
        out
    }

    /// The siblings of a node that stand after it, from left to right.
    pub fn siblings_after<'b>(&'b self, node: &ElementNode<'_>) -> (r: Vec<&'b ElementNode<'a>>)
        ensures
            pointed(r@) == nodes_at(self@, siblings_after_of(self@, *node)),
    {
        let family = match self.parent(node) {
            Some(p) => self.children(p),
            None => Vec::new(),
        };
        let ghost all = family_of(self@, *node);
        proof {
            assert(pointed(family@) =~= nodes_at(self@, all));
            use_type_invariant(self);
            self.lemma_ids();
            if node.parent is Some && self@.contains_key(node.parent.unwrap()) {
                lemma_known_in(self@, self@[node.parent.unwrap()].children@);
            }
        }
        let mut out: Vec<&'b ElementNode<'a>> = Vec::new();
        let mut i: usize = 0;
        let mut found = false;
        proof {
            assert(pointed(out@) =~= nodes_at(self@, Seq::empty()));
            assert(all.subrange(0, all.len() as int) =~= all);
        }
        while i < family.len()
            invariant
                i <= family@.len(),
                family@.len() == all.len(),
                pointed(family@) == nodes_at(self@, all),
                forall|k: int| 0 <= k < all.len() ==> self@[#[trigger] all[k]].id == all[k],
                !found ==> after(all, node.id) == after(
                    all.subrange(i as int, all.len() as int),
                    node.id,
                ) && out@.len() == 0,
                found ==> exists|j: int|
                    0 <= j <= i && after(all, node.id) == all.subrange(j, all.len() as int)
                        && pointed(out@) == nodes_at(self@, all.subrange(j, i as int)),
            decreases family@.len() - i,
        {
            let n = family[i];
            let ghost rest = all.subrange(i as int, all.len() as int);
            proof {
                assert(pointed(family@)[i as int] == *n);
                assert(n.id == all[i as int]);
                assert(rest[0] == all[i as int]);
                assert(rest.drop_first() =~= all.subrange(i + 1, all.len() as int));
            }
            if found {
                let ghost j = choose|j: int|
                    0 <= j <= i && after(all, node.id) == all.subrange(j, all.len() as int)
                        && pointed(out@) == nodes_at(self@, all.subrange(j, i as int));
                let ghost before_out = out@;
                out.push(n);
                proof {
                    assert(pointed(out@) =~= pointed(before_out).push(*n));
                    assert(nodes_at(self@, all.subrange(j, i + 1)) =~= nodes_at(
                        self@,
                        all.subrange(j, i as int),
                    ).push(self@[all[i as int]]));
                }
            } else if n.id == node.id {
                proof {
                    assert(pointed(out@) =~= nodes_at(self@, all.subrange(i + 1, i + 1)));
                }
                found = true;
            }
            i += 1;
        }
        proof {
            if found {
                let j = choose|j: int|
                    0 <= j <= i && after(all, node.id) == all.subrange(j, all.len() as int)
                        && pointed(out@) == nodes_at(self@, all.subrange(j, i as int));
                assert(all.subrange(j, i as int) =~= all.subrange(j, all.len() as int));
            } else {
                assert(all.subrange(i as int, all.len() as int) =~= Seq::<usize>::empty());
                assert(pointed(out@) =~= nodes_at(self@, Seq::empty()));
            }
        }
        out
    }

    /// The siblings of a node: those before it, then those after it.
    pub fn siblings<'b>(&'b self, node: &ElementNode<'_>) -> (r: Vec<&'b ElementNode<'a>>)
        ensures
            pointed(r@) == nodes_at(
                self@,
                siblings_before_of(self@, *node) + siblings_after_of(self@, *node),
            ),
    {
        let mut out = self.siblings_before(node);
        let mut more = self.siblings_after(node);
        let ghost a = out@;
        let ghost b = more@;
        out.append(&mut more);
        proof {
            assert(pointed(out@) =~= pointed(a) + pointed(b));
            assert(nodes_at(
                self@,
                siblings_before_of(self@, *node) + siblings_after_of(self@, *node),
            ) =~= nodes_at(self@, siblings_before_of(self@, *node)) + nodes_at(
                self@,
                siblings_after_of(self@, *node),
            ));
        }
        out
    }

    /// The descendants of a node, level by level: all its children come
    /// before any of their children.
    pub fn descendants<'b>(&'b self, node: &ElementNode<'_>) -> (r: Vec<&'b ElementNode<'a>>)
        ensures
            pointed(r@) == nodes_at(self@, descendants_of(self@, *node)),
    {
        let mut out: Vec<&'b ElementNode<'a>> = Vec::new();
        let ghost mut ids: Seq<usize> = Seq::empty();
        let mut queue: Vec<usize> = Vec::new();
        let mut k: usize = 0;
        while k < node.children.len()
            invariant
                k <= node.children@.len(),
                queue@ == node.children@.subrange(0, k as int),
            decreases node.children@.len() - k,
        {
            queue.push(node.children[k]);
            proof {
                assert(queue@ =~= node.children@.subrange(0, k + 1));
            }
            k += 1;
        }
        let mut head: usize = 0;
        let mut fuel: usize = self.len();
        proof {
            assert(queue@ =~= node.children@);
            assert(queue@.subrange(0, queue@.len() as int) =~= queue@);
            assert(pointed(out@) =~= nodes_at(self@, ids));
            assert(ids + walk(self@, queue@, fuel as nat) =~= walk(self@, queue@, fuel as nat));
        }
        while head < queue.len() && fuel > 0
            invariant
                head <= queue@.len(),
                pointed(out@) == nodes_at(self@, ids),
                descendants_of(self@, *node) == ids + walk(
                    self@,
                    queue@.subrange(head as int, queue@.len() as int),
                    fuel as nat,
                ),
            decreases fuel,
        {
            let id = queue[head];
            let ghost pending = queue@.subrange(head as int, queue@.len() as int);
            proof {
                assert(pending[0] == id);
                assert(pending.drop_first() =~= queue@.subrange(head + 1, queue@.len() as int));
            }
            match self.nodes.get(&id) {
                Some(n) => {
                    let ghost before_out = out@;
                    out.push(n);
                    let ghost before_queue = queue@;
                    let mut j: usize = 0;
                    while j < n.children.len()
                        invariant
                            j <= n.children@.len(),
                            queue@ == before_queue + n.children@.subrange(0, j as int),
                        decreases n.children@.len() - j,
                    {
                        queue.push(n.children[j]);
                        proof {
                            assert(queue@ =~= before_queue + n.children@.subrange(0, j + 1));
                        }
                        j += 1;
                    }
                    proof {
                        assert(n.children@.subrange(0, n.children@.len() as int) =~= n.children@);
                        assert(queue@.subrange(head + 1, queue@.len() as int)
                            =~= pending.drop_first() + n.children@);
                        let more = walk(
                            self@,
                            pending.drop_first() + n.children@,
                            (fuel - 1) as nat,
                        );
                        assert(ids + (seq![id] + more) =~= ids.push(id) + more);
                        assert(pointed(out@) =~= pointed(before_out).push(*n));
                        assert(nodes_at(self@, ids.push(id)) =~= nodes_at(self@, ids).push(
                            self@[id],
                        ));
                        ids = ids.push(id);
                    }
                },
                None => {},
            }
            head += 1;
            fuel -= 1;
        }
        proof {
            assert(ids + Seq::<usize>::empty() =~= ids);
            if head >= queue@.len() {
                assert(queue@.subrange(head as int, queue@.len() as int).len() == 0);
            }
        }
        out
    }

    /// The deepest node at `offset` in the subtree of the node `id`, with
    /// its depth.
    fn _find_at_offset(&self, id: usize, offset: usize, depth: usize, fuel: usize) -> (r: Option<
        (usize, usize),
    >)
        ensures
            r == find_in(self@, id, offset, depth, fuel as nat),
        decreases fuel,
    {
        if fuel == 0 {
            return None;
        }
        let n = match self.nodes.get(&id) {
            Some(n) => n,
            None => {
                return None;
            },
        };
        if !n.contains_offset(offset) {
            return None;
        }
        let mut best: Option<(usize, usize)> = None;
        let mut i: usize = 0;
        while i < n.children.len()
            invariant
                i <= n.children@.len(),
                self@.contains_key(id),
                *n == self@[id],
                fuel > 0,
                best == find_among(
                    self@,
                    n.children@,
                    offset,
                    depth,
                    (fuel - 1) as nat,
                    i as nat,
                ),
            decreases n.children@.len() - i,
        {
            if depth < usize::MAX {
                let found = self._find_at_offset(n.children[i], offset, depth + 1, fuel - 1);
                best = match (best, found) {
                    (Some(x), Some(y)) => if y.0 >= x.0 {
                        found
                    } else {
                        best
                    },
                    (Some(_), None) => best,
                    _ => found,
                };
            }
            i += 1;
        }
        match best {
            Some(found) => Some(found),
            None => Some((depth, id)),
        }
    }

    /// The deepest node whose region covers the character at `offset`, if
    /// there is one; of two nodes equally deep, the one further right. The
    /// search goes down from the root through nodes that cover the offset,
    /// so the node found covers the offset and none of its children does,
    /// and nothing is found exactly where the root does not cover the
    /// offset.
    pub fn find_at_offset(&self, offset: usize) -> (r: Option<&ElementNode<'a>>)
        ensures
            match r {
                Some(n) => {
                    &&& find_at(self@, self.spec_root_id(), offset) == Some(n.id)
                    &&& self@.contains_key(n.id)
                    &&& *n == self@[n.id]
                    &&& is_deepest_at(self@, n.id, offset)
                    &&& covers(self@, self.spec_root_id(), offset)
                },
                None => {
                    &&& find_at(self@, self.spec_root_id(), offset) is None
                    &&& !covers(self@, self.spec_root_id(), offset)
                },
            },
    {
        proof {
            use_type_invariant(self);
            self.lemma_ids();
            let shape = self.spec_shape();
            lemma_ids_len(shape);
            shape.ids().unique_seq_to_set();
            lemma_find_in(shape, self@, None, 0, self@.dom().len(), offset);
            if find_at(self@, self.spec_root_id(), offset) is Some {
                let id = find_at(self@, self.spec_root_id(), offset).unwrap();
                assert(shape.ids().to_set().contains(id));
            }
        }
        match self._find_at_offset(self.root_id, offset, 0, self.len()) {
            Some((_, id)) => self.nodes.get(&id),
            None => None,
        }
    }

    /// Each node is held under its own id.
    pub proof fn lemma_ids(&self)
        requires
            self.wf(),
        ensures
            forall|id: usize| self@.contains_key(id) ==> (#[trigger] self@[id]).id == id,
    {
        assert forall|id: usize| self@.contains_key(id) implies (#[trigger] self@[id]).id == id by {
            lemma_fits_ids(self.shape@, self@, None, 0, id);
        }
    }

    /// The parent of a node of the tree is less deep than the node.
    pub proof fn lemma_parent_depth(&self, id: usize)
        requires
            self.wf(),
            self@.contains_key(id),
            self@[id].parent is Some,
            self@.contains_key(self@[id].parent.unwrap()),
        ensures
            self@[self@[id].parent.unwrap()].depth < self@[id].depth,
    {
        lemma_fits_parent(self.shape@, self@, None, 0, id);
    }
}

/// All ids of a list without strangers are known.
pub proof fn lemma_known_all(nodes: Nodes, ids: Seq<usize>)
    requires
        forall|i: int| 0 <= i < ids.len() ==> nodes.contains_key(#[trigger] ids[i]),
    ensures
        known(nodes, ids) == ids,
    decreases ids.len(),
{
    if ids.len() > 0 {
        lemma_known_all(nodes, ids.drop_last());
        assert(ids.drop_last().push(ids.last()) =~= ids);
    }
}

/// The known ids are ids of nodes.
pub proof fn lemma_known_in(nodes: Nodes, ids: Seq<usize>)
    ensures
        forall|i: int|
            0 <= i < known(nodes, ids).len() ==> nodes.contains_key(#[trigger] known(nodes, ids)[i]),
    decreases ids.len(),
{
    if ids.len() > 0 {
        lemma_known_in(nodes, ids.drop_last());
        let front = known(nodes, ids.drop_last());
        assert forall|i: int| 0 <= i < known(nodes, ids).len() implies nodes.contains_key(
            #[trigger] known(nodes, ids)[i],
        ) by {
            if i < front.len() {
                assert(known(nodes, ids)[i] == front[i]);
            }
        }
    }
}

/// The ids of a shape that fits are ids of nodes, and every node found
/// under an id of the shape has that id.
pub proof fn lemma_fits_ids(shape: Shape, nodes: Nodes, parent: Option<usize>, depth: nat, id: usize)
    requires
        shape.fits(nodes, parent, depth),
        shape.ids().contains(id),
    ensures
        nodes.contains_key(id),
        nodes[id].id == id,
    decreases shape,
{
    if id != shape.id {
        let k = lemma_ids_home(shape, id);
        lemma_fits_ids(shape.kids[k], nodes, Some(shape.id), depth + 1, id);
    }
}

/// An id of a shape other than that of its root is an id of one of the
/// subtrees.
pub proof fn lemma_ids_home(shape: Shape, id: usize) -> (k: int)
    requires
        shape.ids().contains(id),
        id != shape.id,
    ensures
        0 <= k < shape.kids.len(),
        shape.kids[k].ids().contains(id),
{
    let j = choose|j: int| 0 <= j < shape.ids().len() && shape.ids()[j] == id;
    assert(all_ids(shape.kids)[j - 1] == id);
    lemma_all_ids_home(shape.kids, id)
}

/// An id of a list of shapes is an id of one of them.
pub proof fn lemma_all_ids_home(shapes: Seq<Shape>, id: usize) -> (k: int)
    requires
        all_ids(shapes).contains(id),
    ensures
        0 <= k < shapes.len(),
        shapes[k].ids().contains(id),
    decreases shapes.len(),
{
    let j = choose|j: int| 0 <= j < all_ids(shapes).len() && all_ids(shapes)[j] == id;
    let front = all_ids(shapes.drop_last());
    if j < front.len() {
        assert(front[j] == id);
        lemma_all_ids_home(shapes.drop_last(), id)
    } else {
        assert(shapes.last().ids()[j - front.len()] == id);
        shapes.len() - 1
    }
}

/// In a shape that fits, the parent of a node is less deep than the node.
pub proof fn lemma_fits_parent(
    shape: Shape,
    nodes: Nodes,
    parent: Option<usize>,
    depth: nat,
    id: usize,
)
    requires
        shape.fits(nodes, parent, depth),
        shape.ids().contains(id),
        id != shape.id || parent is None,
        nodes[id].parent is Some,
        nodes.contains_key(nodes[id].parent.unwrap()),
        shape.ids().no_duplicates(),
    ensures
        nodes[nodes[id].parent.unwrap()].depth < nodes[id].depth,
        shape.ids().contains(nodes[id].parent.unwrap()),
    decreases shape,
{
    if id != shape.id {
        let k = lemma_ids_home(shape, id);
        let kid = shape.kids[k];
        if id == kid.id {
            assert(shape.ids()[0] == shape.id);
        } else {
            lemma_kid_ids_distinct(shape, k);
            lemma_fits_parent(kid, nodes, Some(shape.id), depth + 1, id);
            lemma_kid_ids_within(shape, k, nodes[id].parent.unwrap());
        }
    }
}

/// The ids of a subtree are ids of the whole.
pub proof fn lemma_kid_ids_within(shape: Shape, k: int, id: usize)
    requires
        0 <= k < shape.kids.len(),
        shape.kids[k].ids().contains(id),
    ensures
        shape.ids().contains(id),
{
    lemma_all_ids_within(shape.kids, k, id);
    let j = choose|j: int| 0 <= j < all_ids(shape.kids).len() && all_ids(shape.kids)[j] == id;
    assert(shape.ids()[j + 1] == id);
}

pub proof fn lemma_all_ids_within(shapes: Seq<Shape>, k: int, id: usize)
    requires
        0 <= k < shapes.len(),
        shapes[k].ids().contains(id),
    ensures
        all_ids(shapes).contains(id),
    decreases shapes.len(),
{
    let front = all_ids(shapes.drop_last());
    if k == shapes.len() - 1 {
        let j = choose|j: int| 0 <= j < shapes[k].ids().len() && shapes[k].ids()[j] == id;
        assert(all_ids(shapes)[front.len() + j] == id);
    } else {
        lemma_all_ids_within(shapes.drop_last(), k, id);
        let j = choose|j: int| 0 <= j < front.len() && front[j] == id;
        assert(all_ids(shapes)[j] == id);
    }
}

/// Where no id of a shape occurs twice, none of a subtree does.
pub proof fn lemma_kid_ids_distinct(shape: Shape, k: int)
    requires
        0 <= k < shape.kids.len(),
        shape.ids().no_duplicates(),
    ensures
        shape.kids[k].ids().no_duplicates(),
        !shape.kids[k].ids().contains(shape.id),
{
    let all = all_ids(shape.kids);
    assert(all =~= shape.ids().subrange(1, shape.ids().len() as int));
    assert(all.no_duplicates()) by {
        assert forall|i: int, j: int| 0 <= i < all.len() && 0 <= j < all.len() && i != j implies all[i]
            != all[j] by {
            assert(shape.ids()[i + 1] == all[i]);
            assert(shape.ids()[j + 1] == all[j]);
        }
    }
    lemma_part_distinct(shape.kids, k);
    if shape.kids[k].ids().contains(shape.id) {
        lemma_all_ids_within(shape.kids, k, shape.id);
        let j = choose|j: int| 0 <= j < all.len() && all[j] == shape.id;
        assert(shape.ids()[j + 1] == shape.id);
        assert(shape.ids()[0] == shape.id);
    }
}

/// Where no id of a list of shapes occurs twice, none of one shape does.
pub proof fn lemma_part_distinct(shapes: Seq<Shape>, k: int)
    requires
        0 <= k < shapes.len(),
        all_ids(shapes).no_duplicates(),
    ensures
        shapes[k].ids().no_duplicates(),
    decreases shapes.len(),
{
    let all = all_ids(shapes);
    let front = all_ids(shapes.drop_last());
    let back = shapes.last().ids();
    if k == shapes.len() - 1 {
        assert forall|i: int, j: int| 0 <= i < back.len() && 0 <= j < back.len() && i != j implies back[i]
            != back[j] by {
            assert(all[front.len() + i] == back[i]);
            assert(all[front.len() + j] == back[j]);
        }
    } else {
        assert forall|i: int, j: int| 0 <= i < front.len() && 0 <= j < front.len() && i
            != j implies front[i] != front[j] by {
            assert(all[i] == front[i]);
            assert(all[j] == front[j]);
        }
        lemma_part_distinct(shapes.drop_last(), k);
    }
}

/// Number of nodes of the tree of an inline element: one for the element
/// and one for each element inside it, at any depth.
pub open spec fn count_inline(v: InlineElementView) -> nat
    decreases v, 1nat,
{
    match v {
        InlineElementView::DecoratedText(_, items) => 1 + count_inlines(items),
        _ => 1,
    }
}

/// Number of nodes of the trees of a list of inline elements.
pub open spec fn count_inlines(items: Seq<Located<InlineElementView>>) -> nat
    decreases items, 0nat,
{
    if items.len() == 0 {
        0
    } else {
        count_inlines(items.drop_last()) + count_inline(items.last().value)
    }
}

/// Number of nodes of the tree of an element.
pub open spec fn count_nodes(v: ElementView) -> nat {
    match v {
        ElementView::Block(b) => 1 + count_inlines(b.children()),
        ElementView::Inline(i) => count_inline(i),
    }
}

/// The first elements of a list have no more nodes than the whole list.
pub proof fn lemma_count_inlines_grows(items: Seq<Located<InlineElementView>>, i: int)
    requires
        0 <= i <= items.len(),
    ensures
        count_inlines(items.take(i)) <= count_inlines(items),
        i < items.len() ==> count_inlines(items.take(i + 1)) == count_inlines(items.take(i))
            + count_inline(items[i].value),
    decreases items.len() - i,
{
    if i == items.len() {
        assert(items.take(i) =~= items);
    } else {
        lemma_count_inlines_grows(items, i + 1);
        assert(items.take(i + 1).drop_last() =~= items.take(i));
        assert(items.take(i + 1).last() == items[i]);
    }
}

/// A shape fits a table of nodes if it fits another that holds the same
/// nodes under the ids of the shape.
pub proof fn lemma_fits_same(shape: Shape, a: Nodes, b: Nodes, parent: Option<usize>, depth: nat)
    requires
        shape.fits(a, parent, depth),
        forall|id: usize| #[trigger]
            shape.ids().contains(id) ==> b.contains_key(id) && b[id].same_as(a[id]),
    ensures
        shape.fits(b, parent, depth),
    decreases shape,
{
    assert(shape.ids()[0] == shape.id);
    assert(shape.ids().contains(shape.id));
    assert forall|i: int| 0 <= i < shape.kids.len() implies {
        &&& (#[trigger] shape.kids[i]).fits(b, Some(shape.id), depth + 1)
        &&& b[shape.kids[i].id].data@ == b[shape.id].data@.value.children()[i]
    } by {
        let kid = shape.kids[i];
        assert(kid.ids()[0] == kid.id);
        assert(kid.ids().contains(kid.id));
        lemma_kid_ids_within(shape, i, kid.id);
        assert(shape.ids().contains(kid.id));
        assert forall|id: usize| #[trigger] kid.ids().contains(id) implies b.contains_key(id)
            && b[id].same_as(a[id]) by {
            lemma_kid_ids_within(shape, i, id);
            assert(shape.ids().contains(id));
        }
        lemma_fits_same(kid, a, b, Some(shape.id), depth + 1);
        assert(kid.ids()[0] == kid.id);
        lemma_kid_ids_within(shape, i, kid.id);
    }
}

/// The ids of a list of shapes with one more shape.
pub proof fn lemma_all_ids_push(shapes: Seq<Shape>, s: Shape)
    ensures
        all_ids(shapes.push(s)) == all_ids(shapes) + s.ids(),
        total_size(shapes.push(s)) == total_size(shapes) + s.size(),
        root_ids(shapes.push(s)) == root_ids(shapes).push(s.id),
{
    assert(shapes.push(s).drop_last() =~= shapes);
    assert(root_ids(shapes.push(s)) =~= root_ids(shapes).push(s.id));
}

/// Counts the nodes of the tree of an inline element; nothing where they
/// are more than `usize::MAX`.
pub fn count_inline_nodes(e: &InlineElement<'_>) -> (r: Option<usize>)
    ensures
        match r {
            Some(n) => n == count_inline(e@),
            None => count_inline(e@) > usize::MAX,
        },
    decreases e,
{
    match e {
        InlineElement::DecoratedText(d) => match count_inline_list(&d.contents) {
            Some(n) => n.checked_add(1),
            None => None,
        },
        _ => Some(1),
    }
}

/// Counts the nodes of the trees of a list of inline elements; nothing
/// where they are more than `usize::MAX`.
pub fn count_inline_list(v: &Vec<Located<InlineElement<'_>>>) -> (r: Option<usize>)
    ensures
        match r {
            Some(n) => n == count_inlines(inline_views(v@)),
            None => count_inlines(inline_views(v@)) > usize::MAX,
        },
    decreases v,
{
    let ghost views = inline_views(v@);
    let mut acc: usize = 0;
    let mut i: usize = 0;
    proof {
        assert(views.take(0) =~= Seq::empty());
    }
    while i < v.len()
        invariant
            i <= v@.len(),
            views == inline_views(v@),
            acc == count_inlines(views.take(i as int)),
        decreases v@.len() - i,
    {
        proof {
            lemma_count_inlines_grows(views, i as int);
            lemma_count_inlines_grows(views, i + 1);
            assert(views[i as int].value == v@[i as int].value@);
        }
        let next = match count_inline_nodes(&v[i].value) {
            Some(n) => acc.checked_add(n),
            None => None,
        };
        match next {
            Some(n) => {
                acc = n;
            },
            None => {
                return None;
            },
        }
        i += 1;
    }
    proof {
        assert(views.take(views.len() as int) =~= views);
    }
    Some(acc)
}

/// Whether no id of the table is among the ids `ids[from..]`.
pub open spec fn unused_from(nodes: Nodes, ids: Seq<usize>, from: int) -> bool {
    forall|j: int| from <= j < ids.len() ==> !nodes.contains_key(#[trigger] ids[j])
}

/// Whether `after` holds what `before` held, unchanged, and besides it
/// nodes under the ids `ids[from..to]`.
pub open spec fn grown(before: Nodes, after: Nodes, ids: Seq<usize>, from: int, to: int) -> bool {
    &&& forall|id: usize| before.contains_key(id) ==> after.contains_key(id) && #[trigger] after[id]
        == before[id]
    &&& after.dom() =~= before.dom() + ids.subrange(from, to).to_set()
}

/// Whether `order` lists the ids of `nodes`, each once.
pub open spec fn lists(order: Seq<usize>, nodes: Nodes) -> bool {
    &&& order.no_duplicates()
    &&& order.to_set() =~= nodes.dom()
    &&& nodes.dom().finite()
}

/// Makes the nodes of the tree of an inline element. The node of the
/// element takes the id `ids[cursor]`, and the nodes of the elements inside
/// it the ids that follow, in the order in which a walk that goes deep
/// first meets them.
fn make_nodes<'a>(
    element: &Located<InlineElement<'_>>,
    parent: Option<usize>,
    depth: usize,
    ids: &[usize],
    cursor: usize,
    nodes: &mut HashMap<usize, ElementNode<'a>>,
    order: &mut Vec<usize>,
) -> (r: Option<(usize, Ghost<Shape>)>)
    requires
        cursor <= ids@.len(),
        depth <= cursor,
        ids@.no_duplicates(),
        unused_from(old(nodes)@, ids@, cursor as int),
        lists(old(order)@, old(nodes)@),
    ensures
        match r {
            Some((next, shape)) => {
                &&& next == cursor + count_inline(element.value@)
                &&& next <= ids@.len()
                &&& shape@.id == ids@[cursor as int]
                &&& shape@.ids() == ids@.subrange(cursor as int, next as int)
                &&& shape@.fits(final(nodes)@, parent, depth as nat)
                &&& final(nodes)@[shape@.id].data@ == (Located {
                    value: ElementView::Inline(element.value@),
                    region: element.region,
                })
                &&& grown(old(nodes)@, final(nodes)@, ids@, cursor as int, next as int)
                &&& lists(final(order)@, final(nodes)@)
            },
            None => cursor + count_inline(element.value@) > ids@.len(),
        },
    decreases element, 1nat,
{
    if cursor >= ids.len() {
        return None;
    }
    let id = ids[cursor];
    let ghost before = nodes@;
    let empty: Vec<Located<InlineElement<'_>>> = Vec::new();
    proof {
        assert(inline_views(empty@) =~= Seq::empty());
    }
    let made = match &element.value {
        InlineElement::DecoratedText(d) => make_children(
            &d.contents,
            id,
            depth,
            ids,
            cursor,
            nodes,
            order,
        ),
        _ => {
            proof {
                assert(ids@.subrange(cursor + 1, cursor + 1) =~= Seq::empty());
                assert(before.dom() + Seq::<usize>::empty().to_set() =~= before.dom());
            }
            Some((cursor + 1, Vec::new(), Ghost(Seq::empty())))
        },
    };
    let (next, children, kids) = match made {
        Some(x) => x,
        None => {
            return None;
        },
    };
    let ghost shape = Shape { id, kids: kids@ };
    let ghost mid = nodes@;
    let data = Located { value: Element::Inline(element.value.owned_copy()), region: element.region };
    let node = ElementNode { id, parent, children, depth, data };
    proof {
        // the id of the node is none of those taken so far
        assert(!mid.contains_key(id)) by {
            if mid.contains_key(id) {
                assert(!before.contains_key(ids@[cursor as int]));
                let taken = ids@.subrange(cursor + 1, next as int);
                assert(taken.to_set().contains(id));
                let j = choose|j: int| 0 <= j < taken.len() && taken[j] == id;
                assert(ids@[cursor + 1 + j] == ids@[cursor as int]);
            }
        }
    }
    let ghost order_mid = order@;
    nodes.insert(id, node);
    order.push(id);
    proof {
        let last = nodes@;
        assert(order@.drop_last() =~= order_mid);
        assert(shape.ids() =~= ids@.subrange(cursor as int, next as int)) by {
            assert(seq![id] + ids@.subrange(cursor + 1, next as int) =~= ids@.subrange(
                cursor as int,
                next as int,
            ));
        }
        assert forall|i: int| 0 <= i < shape.kids.len() implies {
            &&& (#[trigger] shape.kids[i]).fits(last, Some(id), (depth + 1) as nat)
            &&& last[shape.kids[i].id].data@ == last[id].data@.value.children()[i]
        } by {
            let kid = shape.kids[i];
            assert forall|x: usize| #[trigger] kid.ids().contains(x) implies last.contains_key(x)
                && last[x].same_as(mid[x]) by {
                lemma_all_ids_within(shape.kids, i, x);
                lemma_fits_ids(kid, mid, Some(id), (depth + 1) as nat, x);
            }
            lemma_fits_same(kid, mid, last, Some(id), (depth + 1) as nat);
            assert(kid.ids()[0] == kid.id);
            lemma_all_ids_within(shape.kids, i, kid.id);
            lemma_fits_ids(kid, mid, Some(id), (depth + 1) as nat, kid.id);
        }
        assert(last.dom() =~= before.dom() + ids@.subrange(cursor as int, next as int).to_set())
            by {
            assert(ids@.subrange(cursor as int, next as int) =~= seq![id] + ids@.subrange(
                cursor + 1,
                next as int,
            ));
            assert forall|x: usize|
                last.dom().contains(x) <==> (before.dom() + ids@.subrange(
                    cursor as int,
                    next as int,
                ).to_set()).contains(x) by {
                let taken = ids@.subrange(cursor + 1, next as int);
                let whole = ids@.subrange(cursor as int, next as int);
                if taken.to_set().contains(x) {
                    let j = choose|j: int| 0 <= j < taken.len() && taken[j] == x;
                    assert(whole[j + 1] == x);
                }
                if x == id {
                    assert(whole[0] == x);
                }
                if whole.to_set().contains(x) && x != id {
                    let j = choose|j: int| 0 <= j < whole.len() && whole[j] == x;
                    assert(taken[j - 1] == x);
                }
            }
        }
        let prev = old(order)@;
        assert(order@.no_duplicates()) by {
            let o = order@;
            assert forall|i: int, j: int| 0 <= i < o.len() && 0 <= j < o.len() && i != j implies o[i]
                != o[j] by {
                if i == o.len() - 1 {
                    assert(order_mid[j] == o[j]);
                    assert(order_mid.to_set().contains(o[j]));
                } else if j == o.len() - 1 {
                    assert(order_mid[i] == o[i]);
                    assert(order_mid.to_set().contains(o[i]));
                } else {
                    assert(order_mid[i] == o[i] && order_mid[j] == o[j]);
                }
            }
        }
        assert(order@.to_set() =~= last.dom()) by {
            let o = order@;
            assert forall|x: usize| o.to_set().contains(x) <==> last.dom().contains(x) by {
                if o.to_set().contains(x) {
                    let j = choose|j: int| 0 <= j < o.len() && o[j] == x;
                    if j < o.len() - 1 {
                        assert(order_mid[j] == x);
                        assert(order_mid.to_set().contains(x));
                    }
                }
                if last.dom().contains(x) {
                    if x == id {
                        assert(o[o.len() - 1] == x);
                    } else {
                        assert(order_mid.to_set().contains(x));
                        let j = choose|j: int| 0 <= j < order_mid.len() && order_mid[j] == x;
                        assert(o[j] == x);
                    }
                }
            }
        }
    }
    proof {
        let last = nodes@;
        assert(next == cursor + count_inline(element.value@));
        assert(shape.id == ids@[cursor as int]);
        assert(last[shape.id].data@ == (Located {
            value: ElementView::Inline(element.value@),
            region: element.region,
        }));
        assert(last[id].children@ == root_ids(shape.kids));
        assert(last[id].data@.value.children().len() == shape.kids.len());
        assert(shape.fits(last, parent, depth as nat));
        assert(grown(old(nodes)@, last, ids@, cursor as int, next as int));
        assert(lists(order@, last));
    }
    Some((next, Ghost(shape)))
}

/// Makes the nodes of the trees of the elements `children`, which stand
/// directly inside an element whose node has the id `parent`, the depth
/// `depth` and the id `ids[cursor]`.
fn make_children<'a>(
    children: &Vec<Located<InlineElement<'_>>>,
    parent: usize,
    depth: usize,
    ids: &[usize],
    cursor: usize,
    nodes: &mut HashMap<usize, ElementNode<'a>>,
    order: &mut Vec<usize>,
) -> (r: Option<(usize, Vec<usize>, Ghost<Seq<Shape>>)>)
    requires
        cursor < ids@.len(),
        depth <= cursor,
        ids@.no_duplicates(),
        unused_from(old(nodes)@, ids@, cursor as int),
        lists(old(order)@, old(nodes)@),
    ensures
        match r {
            Some((next, made, shapes)) => {
                &&& next == cursor + 1 + count_inlines(inline_views(children@))
                &&& next <= ids@.len()
                &&& made@ == root_ids(shapes@)
                &&& shapes@.len() == children@.len()
                &&& all_ids(shapes@) == ids@.subrange(cursor + 1, next as int)
                &&& forall|i: int|
                    0 <= i < shapes@.len() ==> {
                        &&& (#[trigger] shapes@[i]).fits(
                            final(nodes)@,
                            Some(parent),
                            (depth + 1) as nat,
                        )
                        &&& final(nodes)@[shapes@[i].id].data@ == as_elements(
                            inline_views(children@),
                        )[i]
                    }
                &&& grown(old(nodes)@, final(nodes)@, ids@, cursor + 1, next as int)
                &&& lists(final(order)@, final(nodes)@)
            },
            None => cursor + 1 + count_inlines(inline_views(children@)) > ids@.len(),
        },
    decreases children, 0nat,
{
    let ghost views = inline_views(children@);
    let ghost before = nodes@;
    let mut made: Vec<usize> = Vec::new();
    let ghost mut shapes: Seq<Shape> = Seq::empty();
    let available = ids.len();
    let mut next: usize = cursor + 1;
    let mut i: usize = 0;
    proof {
        assert(views.take(0) =~= Seq::empty());
        assert(made@ =~= root_ids(shapes));
        assert(ids@.subrange(cursor + 1, cursor + 1) =~= Seq::empty());
        assert(before.dom() + Seq::<usize>::empty().to_set() =~= before.dom());
    }
    while i < children.len()
        invariant
            i <= children@.len(),
            views == inline_views(children@),
            cursor < next <= ids@.len(),
            depth <= cursor,
            ids@.no_duplicates(),
            next == cursor + 1 + count_inlines(views.take(i as int)),
            made@ == root_ids(shapes),
            shapes.len() == i,
            all_ids(shapes) == ids@.subrange(cursor + 1, next as int),
            forall|k: int|
                0 <= k < shapes.len() ==> {
                    &&& (#[trigger] shapes[k]).fits(nodes@, Some(parent), (depth + 1) as nat)
                    &&& nodes@[shapes[k].id].data@ == as_elements(views)[k]
                },
            grown(before, nodes@, ids@, cursor + 1, next as int),
            unused_from(nodes@, ids@, next as int),
            lists(order@, nodes@),
        decreases children@.len() - i,
    {
        let ghost mid = nodes@;
        let ghost start = next;
        proof {
            lemma_count_inlines_grows(views, i as int);
            assert(views[i as int].value == children@[i as int].value@);
        }
        match make_nodes(&children[i], Some(parent), depth + 1, ids, next, nodes, order) {
            Some((after, shape)) => {
                made.push(ids[next]);
                proof {
                    let now = nodes@;
                    lemma_all_ids_push(shapes, shape@);
                    assert(ids@.subrange(cursor + 1, start as int) + ids@.subrange(
                        start as int,
                        after as int,
                    ) =~= ids@.subrange(cursor + 1, after as int));
                    assert forall|k: int| 0 <= k < shapes.len() implies {
                        &&& (#[trigger] shapes[k]).fits(now, Some(parent), (depth + 1) as nat)
                        &&& now[shapes[k].id].data@ == as_elements(views)[k]
                    } by {
                        let old_shape = shapes[k];
                        assert forall|x: usize| #[trigger]
                            old_shape.ids().contains(x) implies now.contains_key(x)
                            && now[x].same_as(mid[x]) by {
                            lemma_fits_ids(old_shape, mid, Some(parent), (depth + 1) as nat, x);
                        }
                        lemma_fits_same(old_shape, mid, now, Some(parent), (depth + 1) as nat);
                        assert(old_shape.ids()[0] == old_shape.id);
                        lemma_fits_ids(
                            old_shape,
                            mid,
                            Some(parent),
                            (depth + 1) as nat,
                            old_shape.id,
                        );
                    }
                    assert(now.dom() =~= before.dom() + ids@.subrange(
                        cursor + 1,
                        after as int,
                    ).to_set()) by {
                        let a = ids@.subrange(cursor + 1, start as int);
                        let b = ids@.subrange(start as int, after as int);
                        let c = ids@.subrange(cursor + 1, after as int);
                        assert forall|x: usize| c.to_set().contains(x) <==> (a.to_set().contains(x)
                            || b.to_set().contains(x)) by {
                            if c.to_set().contains(x) {
                                let j = choose|j: int| 0 <= j < c.len() && c[j] == x;
                                if j < a.len() {
                                    assert(a[j] == x);
                                } else {
                                    assert(b[j - a.len()] == x);
                                }
                            }
                            if a.to_set().contains(x) {
                                let j = choose|j: int| 0 <= j < a.len() && a[j] == x;
                                assert(c[j] == x);
                            }
                            if b.to_set().contains(x) {
                                let j = choose|j: int| 0 <= j < b.len() && b[j] == x;
                                assert(c[a.len() + j] == x);
                            }
                        }
                    }
                    assert(unused_from(now, ids@, after as int)) by {
                        assert forall|j: int| after <= j < ids@.len() implies !now.contains_key(
                            #[trigger] ids@[j],
                        ) by {
                            let b = ids@.subrange(start as int, after as int);
                            if b.to_set().contains(ids@[j]) {
                                let m = choose|m: int| 0 <= m < b.len() && b[m] == ids@[j];
                                assert(ids@[start + m] == ids@[j]);
                            }
                        }
                    }
                    shapes = shapes.push(shape@);
                    assert(as_elements(views)[i as int] == (Located {
                        value: ElementView::Inline(views[i as int].value),
                        region: views[i as int].region,
                    }));
                }
                next = after;
            },
            None => {
                proof {
                    lemma_count_inlines_grows(views, i + 1);
                }
                return None;
            },
        }
        i += 1;
    }
    proof {
        assert(views.take(views.len() as int) =~= views);
    }
    Some((next, made, Ghost(shapes)))
}

/// Tells whether no id occurs twice in `ids`.
pub fn all_distinct(ids: &[usize]) -> (r: bool)
    ensures
        r == ids@.no_duplicates(),
{
    let mut seen: HashSet<usize> = HashSet::new();
    let mut i: usize = 0;
    while i < ids.len()
        invariant
            i <= ids@.len(),
            ids@.subrange(0, i as int).no_duplicates(),
            seen@ =~= ids@.subrange(0, i as int).to_set(),
        decreases ids@.len() - i,
    {
        let fresh = seen.insert(ids[i]);
        let ghost head = ids@.subrange(0, i as int);
        let ghost more = ids@.subrange(0, i + 1);
        if !fresh {
            proof {
                let j = choose|j: int| 0 <= j < head.len() && head[j] == ids@[i as int];
                assert(ids@[j] == ids@[i as int]);
            }
            return false;
        }
        proof {
            assert forall|a: int, b: int| 0 <= a < more.len() && 0 <= b < more.len() && a
                != b implies more[a] != more[b] by {
                if a == i {
                    assert(head[b] == more[b]);
                    assert(head.to_set().contains(head[b]));
                } else if b == i {
                    assert(head[a] == more[a]);
                    assert(head.to_set().contains(head[a]));
                } else {
                    assert(head[a] == more[a] && head[b] == more[b]);
                }
            }
            assert(seen@ =~= more.to_set()) by {
                assert forall|x: usize| seen@.contains(x) <==> more.to_set().contains(x) by {
                    if more.to_set().contains(x) {
                        let j = choose|j: int| 0 <= j < more.len() && more[j] == x;
                        if j < i {
                            assert(head[j] == x);
                            assert(head.to_set().contains(x));
                        }
                    }
                    if seen@.contains(x) {
                        if x == ids@[i as int] {
                            assert(more[i as int] == x);
                        } else {
                            assert(head.to_set().contains(x));
                            let j = choose|j: int| 0 <= j < head.len() && head[j] == x;
                            assert(more[j] == x);
                        }
                    }
                }
            }
        }
        i += 1;
    }
    proof {
        assert(ids@.subrange(0, ids@.len() as int) =~= ids@);
    }
    true
}

/// Counts the nodes of the tree of an element; nothing where they are more
/// than `usize::MAX`.
pub fn count_element_nodes(e: &Element<'_>) -> (r: Option<usize>)
    ensures
        match r {
            Some(n) => n == count_nodes(e@),
            None => count_nodes(e@) > usize::MAX,
        },
{
    match e {
        Element::Block(b) => {
            let kids = b.children();
            match count_inline_list(&kids) {
                Some(n) => n.checked_add(1),
                None => None,
            }
        },
        Element::Inline(i) => count_inline_nodes(i),
    }
}

/// A copy of a list of ids.
fn copy_ids(ids: &Vec<usize>) -> (r: Vec<usize>)
    ensures
        r@ == ids@,
{
    let mut out: Vec<usize> = Vec::new();
    let mut i: usize = 0;
    while i < ids.len()
        invariant
            i <= ids@.len(),
            out@ == ids@.subrange(0, i as int),
        decreases ids@.len() - i,
    {
        out.push(ids[i]);
        proof {
            assert(out@ =~= ids@.subrange(0, i + 1));
        }
        i += 1;
    }
    proof {
        assert(out@ =~= ids@);
    }
    out
}

/// Whether each of `ids` is an id that `new_id` hands out: a result that a
/// call of `new_id` can have.
pub open spec fn handed_out<F: Fn() -> usize>(new_id: F, ids: Seq<usize>) -> bool {
    forall|k: int| 0 <= k < ids.len() ==> new_id.ensures((), #[trigger] ids[k])
}

/// Whether `r` is what building the tree of `located` gives when `ids` are
/// the ids for its nodes, one for each node: where no id occurs twice, the
/// tree whose nodes have these ids in the order in which a walk that goes
/// deep first meets the nodes, and nothing where an id occurs twice.
pub open spec fn built_with<'a>(
    r: Option<ElementTree<'a>>,
    located: Located<ElementView>,
    ids: Seq<usize>,
) -> bool {
    &&& ids.len() == count_nodes(located.value)
    &&& match r {
        Some(t) => {
            &&& ids.no_duplicates()
            &&& t.wf()
            &&& t.spec_root_id() == ids[0]
            &&& t@[t.spec_root_id()].data@ == located
            &&& t.spec_shape().ids() == ids
            &&& t@.dom().len() == ids.len()
        },
        None => !ids.no_duplicates(),
    }
}

impl<'a> ElementTree<'a> {
    /// Builds the tree of `located` with the given ids. The root takes the
    /// first id, and the other nodes the ids after it, in the order in
    /// which a walk that goes deep first meets them: each node before the
    /// nodes below it, and those before the nodes to its right. No tree is
    /// built where an id occurs twice or there are too few ids; ids beyond
    /// those needed are left unused.
    pub fn from_ids(located: Located<Element<'a>>, ids: &[usize]) -> (r: Option<ElementTree<'a>>)
        ensures
            match r {
                Some(t) => {
                    &&& ids@.no_duplicates()
                    &&& count_nodes(located@.value) <= ids@.len()
                    &&& t.wf()
                    &&& t.spec_root_id() == ids@[0]
                    &&& t@[t.spec_root_id()].data@ == located@
                    &&& t.spec_shape().ids() == ids@.subrange(
                        0,
                        count_nodes(located@.value) as int,
                    )
                    &&& t@.dom().len() == count_nodes(located@.value)
                },
                None => !ids@.no_duplicates() || count_nodes(located@.value) > ids@.len(),
            },
    {
        if !all_distinct(ids) || ids.len() == 0 {
            return None;
        }
        let root_id = ids[0];
        let mut nodes: HashMap<usize, ElementNode<'a>> = HashMap::new();
        let mut order: Vec<usize> = Vec::new();
        let kids = match &located.value {
            Element::Block(b) => b.children(),
            Element::Inline(i) => i.children(),
        };
        proof {
            assert(order@.to_set() =~= nodes@.dom());
            assert(located@.value.children() == as_elements(inline_views(kids@)));
        }
        let ghost before = nodes@;
        let (next, children, shapes) = match make_children(
            &kids,
            root_id,
            0,
            ids,
            0,
            &mut nodes,
            &mut order,
        ) {
            Some(x) => x,
            None => {
                return None;
            },
        };
        let ghost shape = Shape { id: root_id, kids: shapes@ };
        let ghost mid = nodes@;
        let ghost order_mid = order@;
        let ghost view = located@;
        let node = ElementNode { id: root_id, parent: None, children, depth: 0, data: located };
        proof {
            assert(!mid.contains_key(root_id)) by {
                if mid.contains_key(root_id) {
                    let taken = ids@.subrange(1, next as int);
                    assert(taken.to_set().contains(root_id));
                    let j = choose|j: int| 0 <= j < taken.len() && taken[j] == root_id;
                    assert(ids@[1 + j] == ids@[0]);
                }
            }
        }
        nodes.insert(root_id, node);
        order.push(root_id);
        proof {
            let last = nodes@;
            let whole = ids@.subrange(0, next as int);
            let taken = ids@.subrange(1, next as int);
            assert(order@.drop_last() =~= order_mid);
            assert(shape.ids() =~= whole) by {
                assert(seq![root_id] + taken =~= whole);
            }
            assert forall|i: int| 0 <= i < shape.kids.len() implies {
                &&& (#[trigger] shape.kids[i]).fits(last, Some(root_id), 1)
                &&& last[shape.kids[i].id].data@ == last[root_id].data@.value.children()[i]
            } by {
                let kid = shape.kids[i];
                assert forall|x: usize| #[trigger] kid.ids().contains(x) implies last.contains_key(
                    x,
                ) && last[x].same_as(mid[x]) by {
                    lemma_all_ids_within(shape.kids, i, x);
                    lemma_fits_ids(kid, mid, Some(root_id), 1, x);
                }
                lemma_fits_same(kid, mid, last, Some(root_id), 1);
                assert(kid.ids()[0] == kid.id);
                lemma_all_ids_within(shape.kids, i, kid.id);
                lemma_fits_ids(kid, mid, Some(root_id), 1, kid.id);
            }
            assert(last[root_id].children@ == root_ids(shape.kids));
            assert(last[root_id].data@.value.children().len() == shape.kids.len());
            assert(shape.fits(last, None, 0));
            assert(shape.ids().no_duplicates()) by {
                assert forall|i: int, j: int| 0 <= i < whole.len() && 0 <= j < whole.len() && i
                    != j implies whole[i] != whole[j] by {
                    assert(ids@[i] == whole[i] && ids@[j] == whole[j]);
                }
            }
            assert(last.dom() =~= whole.to_set()) by {
                assert forall|x: usize| last.dom().contains(x) <==> whole.to_set().contains(x) by {
                    if taken.to_set().contains(x) {
                        let j = choose|j: int| 0 <= j < taken.len() && taken[j] == x;
                        assert(whole[j + 1] == x);
                    }
                    if x == root_id {
                        assert(whole[0] == x);
                    }
                    if whole.to_set().contains(x) && x != root_id {
                        let j = choose|j: int| 0 <= j < whole.len() && whole[j] == x;
                        assert(taken[j - 1] == x);
                    }
                }
            }
            assert(order@.no_duplicates()) by {
                let o = order@;
                assert forall|i: int, j: int| 0 <= i < o.len() && 0 <= j < o.len() && i
                    != j implies o[i] != o[j] by {
                    if i == o.len() - 1 {
                        assert(order_mid[j] == o[j]);
                        assert(order_mid.to_set().contains(o[j]));
                    } else if j == o.len() - 1 {
                        assert(order_mid[i] == o[i]);
                        assert(order_mid.to_set().contains(o[i]));
                    } else {
                        assert(order_mid[i] == o[i] && order_mid[j] == o[j]);
                    }
                }
            }
            assert(order@.to_set() =~= last.dom()) by {
                let o = order@;
                assert forall|x: usize| o.to_set().contains(x) <==> last.dom().contains(x) by {
                    if o.to_set().contains(x) {
                        let j = choose|j: int| 0 <= j < o.len() && o[j] == x;
                        if j < o.len() - 1 {
                            assert(order_mid[j] == x);
                            assert(order_mid.to_set().contains(x));
                        }
                    }
                    if last.dom().contains(x) {
                        if x == root_id {
                            assert(o[o.len() - 1] == x);
                        } else {
                            assert(order_mid.to_set().contains(x));
                            let j = choose|j: int| 0 <= j < order_mid.len() && order_mid[j] == x;
                            assert(o[j] == x);
                        }
                    }
                }
            }
            whole.unique_seq_to_set();
            assert(is_tree(last, root_id, shape));
        }
        Some(ElementTree { nodes, root_id, order, shape: Ghost(shape) })
    }

    /// Builds the tree of `located`, with the ids that `new_id` hands out.
    /// An id is asked for each node, in the order in which a walk that goes
    /// deep first meets the nodes: the root takes the first id handed out,
    /// and each node takes its id before the nodes below it and the nodes
    /// to its right. The tree is built where the ids handed out differ from
    /// each other. No tree is built where `new_id` hands out an id twice,
    /// nor where the element has more nodes than `usize::MAX`.
    pub fn build<F: Fn() -> usize>(located: Located<Element<'a>>, new_id: F) -> (r: Option<
        ElementTree<'a>,
    >)
        requires
            new_id.requires(()),
        ensures
            count_nodes(located@.value) > usize::MAX ==> r is None,
            count_nodes(located@.value) <= usize::MAX ==> exists|ids: Seq<usize>| #[trigger]
                handed_out(new_id, ids) && built_with(r, located@, ids),
            r matches Some(t) ==> {
                &&& t.wf()
                &&& t@[t.spec_root_id()].data@ == located@
                &&& t@.dom().len() == count_nodes(located@.value)
                &&& forall|id: usize| #[trigger] t@.contains_key(id) ==> new_id.ensures((), id)
            },
    {
        let n = match count_element_nodes(&located.value) {
            Some(n) => n,
            None => {
                return None;
            },
        };
        let mut ids: Vec<usize> = Vec::new();
        let mut i: usize = 0;
        while i < n
            invariant
                i <= n,
                ids@.len() == i,
                new_id.requires(()),
                forall|k: int| 0 <= k < i ==> new_id.ensures((), #[trigger] ids@[k]),
            decreases n - i,
        {
            let id = new_id();
            ids.push(id);
            i += 1;
        }
        let r = ElementTree::from_ids(located, ids.as_slice());
        proof {
            assert(ids@.subrange(0, n as int) =~= ids@);
            assert(handed_out(new_id, ids@));
            assert(built_with(r, located@, ids@));
            if r is Some {
                let t = r.unwrap();
                assert forall|id: usize| #[trigger] t@.contains_key(id) implies new_id.ensures(
                    (),
                    id,
                ) by {
                    assert(t.spec_shape().ids().to_set().contains(id));
                    let k = choose|k: int| 0 <= k < ids@.len() && ids@[k] == id;
                    assert(new_id.ensures((), ids@[k]));
                }
            }
        }
        r
    }

    /// Builds the tree of `located` with the ids 0, 1, 2 and so on, given
    /// out in the order in which a walk that goes deep first meets the
    /// nodes: the root is 0, and each node has a smaller id than the nodes
    /// below it and the nodes to its right.
    pub fn from_element(located: Located<Element<'a>>) -> (t: ElementTree<'a>)
        requires
            count_nodes(located@.value) <= usize::MAX,
        ensures
            t.wf(),
            t.spec_root_id() == 0,
            t@[t.spec_root_id()].data@ == located@,
            t@.dom().len() == count_nodes(located@.value),
            forall|id: usize| t@.contains_key(id) <==> id < count_nodes(located@.value),
            t.spec_shape().ids() == Seq::new(count_nodes(located@.value), |i: int| i as usize),
    {
        let n = match count_element_nodes(&located.value) {
            Some(n) => n,
            None => vstd::pervasive::unreached(),
        };
        let mut ids: Vec<usize> = Vec::new();
        let mut i: usize = 0;
        while i < n
            invariant
                i <= n,
                ids@.len() == i,
                forall|k: int| 0 <= k < i ==> ids@[k] == k,
            decreases n - i,
        {
            ids.push(i);
            i += 1;
        }
        proof {
            assert(count_nodes(located@.value) >= 1);
        }
        match ElementTree::from_ids(located, ids.as_slice()) {
            Some(t) => {
                proof {
                    assert(ids@.subrange(0, n as int) =~= ids@);
                    assert(ids@ =~= Seq::new(n as nat, |i: int| i as usize));
                    assert forall|id: usize| t@.contains_key(id) <==> id < n by {
                        if t@.contains_key(id) {
                            assert(ids@.to_set().contains(id));
                        }
                        if id < n {
                            assert(ids@[id as int] == id);
                            assert(ids@.to_set().contains(id));
                        }
                    }
                }
                t
            },
            None => vstd::pervasive::unreached(),
        }
    }

    /// The tree with the text of its elements borrowed from this one.
    pub fn to_borrowed<'b>(&'b self) -> (t: ElementTree<'b>)
        ensures
            t.wf(),
            t.spec_root_id() == self.spec_root_id(),
            t.spec_shape() == self.spec_shape(),
            t.spec_order() == self.spec_order(),
            t@.dom() == self@.dom(),
            forall|id: usize| self@.contains_key(id) ==> (#[trigger] t@[id]).same_as(self@[id]),
    {
        proof {
            use_type_invariant(self);
        }
        let mut nodes: HashMap<usize, ElementNode<'b>> = HashMap::new();
        let mut i: usize = 0;
        proof {
            assert(self.order@.subrange(0, 0).to_set() =~= nodes@.dom());
        }
        while i < self.order.len()
            invariant
                i <= self.order@.len(),
                self.order@.to_set() =~= self.nodes@.dom(),
                nodes@.dom() =~= self.order@.subrange(0, i as int).to_set(),
                forall|id: usize|
                    nodes@.contains_key(id) ==> self.nodes@.contains_key(id) && (
                    #[trigger] nodes@[id]).same_as(self.nodes@[id]),
            decreases self.order@.len() - i,
        {
            let id = self.order[i];
            proof {
                assert(self.order@.to_set().contains(id));
            }
            let ghost before = nodes@;
            match self.nodes.get(&id) {
                Some(n) => {
                    nodes.insert(id, n.to_borrowed());
                    proof {
                        let a = self.order@.subrange(0, i as int);
                        let b = self.order@.subrange(0, i + 1);
                        assert forall|x: usize| nodes@.dom().contains(x) <==> b.to_set().contains(
                            x,
                        ) by {
                            if b.to_set().contains(x) {
                                let j = choose|j: int| 0 <= j < b.len() && b[j] == x;
                                if j < i {
                                    assert(a[j] == x);
                                    assert(a.to_set().contains(x));
                                }
                            }
                            if a.to_set().contains(x) {
                                let j = choose|j: int| 0 <= j < a.len() && a[j] == x;
                                assert(b[j] == x);
                            }
                            if x == id {
                                assert(b[i as int] == x);
                            }
                        }
                    }
                },
                None => {
                    proof {
                        assert(false);
                    }
                },
            }
            i += 1;
        }
        let order = copy_ids(&self.order);
        proof {
            assert(self.order@.subrange(0, self.order@.len() as int) =~= self.order@);
            assert(nodes@.dom() =~= self.nodes@.dom());
            assert forall|id: usize| #[trigger]
                self.shape@.ids().contains(id) implies nodes@.contains_key(id) && nodes@[id].same_as(
                self.nodes@[id],
            ) by {
                assert(self.shape@.ids().to_set().contains(id));
            }
            lemma_fits_same(self.shape@, self.nodes@, nodes@, None, 0);
        }
        ElementTree { nodes, root_id: self.root_id, order, shape: Ghost(self.shape@) }
    }

    /// A copy of the tree whose elements own their text.
    pub fn owned_copy(&self) -> (t: ElementTree<'static>)
        ensures
            t.wf(),
            t.spec_root_id() == self.spec_root_id(),
            t.spec_shape() == self.spec_shape(),
            t.spec_order() == self.spec_order(),
            t@.dom() == self@.dom(),
            forall|id: usize| self@.contains_key(id) ==> (#[trigger] t@[id]).same_as(self@[id]),
    {
        proof {
            use_type_invariant(self);
        }
        let mut nodes: HashMap<usize, ElementNode<'static>> = HashMap::new();
        let mut i: usize = 0;
        proof {
            assert(self.order@.subrange(0, 0).to_set() =~= nodes@.dom());
        }
        while i < self.order.len()
            invariant
                i <= self.order@.len(),
                self.order@.to_set() =~= self.nodes@.dom(),
                nodes@.dom() =~= self.order@.subrange(0, i as int).to_set(),
                forall|id: usize|
                    nodes@.contains_key(id) ==> self.nodes@.contains_key(id) && (
                    #[trigger] nodes@[id]).same_as(self.nodes@[id]),
            decreases self.order@.len() - i,
        {
            let id = self.order[i];
            proof {
                assert(self.order@.to_set().contains(id));
            }
            let ghost before = nodes@;
            match self.nodes.get(&id) {
                Some(n) => {
                    nodes.insert(id, n.owned_copy());
                    proof {
                        let a = self.order@.subrange(0, i as int);
                        let b = self.order@.subrange(0, i + 1);
                        assert forall|x: usize| nodes@.dom().contains(x) <==> b.to_set().contains(
                            x,
                        ) by {
                            if b.to_set().contains(x) {
                                let j = choose|j: int| 0 <= j < b.len() && b[j] == x;
                                if j < i {
                                    assert(a[j] == x);
                                    assert(a.to_set().contains(x));
                                }
                            }
                            if a.to_set().contains(x) {
                                let j = choose|j: int| 0 <= j < a.len() && a[j] == x;
                                assert(b[j] == x);
                            }
                            if x == id {
                                assert(b[i as int] == x);
                            }
                        }
                    }
                },
                None => {
                    proof {
                        assert(false);
                    }
                },
            }
            i += 1;
        }
        let order = copy_ids(&self.order);
        proof {
            assert(self.order@.subrange(0, self.order@.len() as int) =~= self.order@);
            assert(nodes@.dom() =~= self.nodes@.dom());
            assert forall|id: usize| #[trigger]
                self.shape@.ids().contains(id) implies nodes@.contains_key(id) && nodes@[id].same_as(
                self.nodes@[id],
            ) by {
                assert(self.shape@.ids().to_set().contains(id));
            }
            lemma_fits_same(self.shape@, self.nodes@, nodes@, None, 0);
        }
        ElementTree { nodes, root_id: self.root_id, order, shape: Ghost(self.shape@) }
    }

    /// The tree, with elements that own their text.
    pub fn into_owned(self) -> (t: ElementTree<'static>)
        ensures
            t.wf(),
            t.spec_root_id() == self.spec_root_id(),
            t.spec_shape() == self.spec_shape(),
            t@.dom() == self@.dom(),
            forall|id: usize| self@.contains_key(id) ==> (#[trigger] t@[id]).same_as(self@[id]),
    {
        self.owned_copy()
    }
}

/// The size of two lists of shapes put together.
pub proof fn lemma_total_size_concat(a: Seq<Shape>, b: Seq<Shape>)
    ensures
        total_size(a + b) == total_size(a) + total_size(b),
    decreases b.len(),
{
    if b.len() == 0 {
        assert(a + b =~= a);
    } else {
        lemma_total_size_concat(a, b.drop_last());
        assert((a + b).drop_last() =~= a + b.drop_last());
        assert((a + b).last() == b.last());
    }
}

/// The size of a list of shapes without its first.
pub proof fn lemma_total_size_rest(a: Seq<Shape>)
    requires
        a.len() > 0,
    ensures
        total_size(a) == a[0].size() + total_size(a.drop_first()),
{
    assert(seq![a[0]] + a.drop_first() =~= a);
    lemma_total_size_concat(seq![a[0]], a.drop_first());
    assert(seq![a[0]].drop_last() =~= Seq::<Shape>::empty());
    assert(seq![a[0]].last() == a[0]);
    assert(total_size(Seq::<Shape>::empty()) == 0);
    assert(total_size(seq![a[0]]) == total_size(seq![a[0]].drop_last()) + seq![a[0]].last().size());
}

/// A shape has as many ids as nodes.
pub proof fn lemma_ids_len(shape: Shape)
    ensures
        shape.ids().len() == shape.size(),
    decreases shape, 1nat,
{
    lemma_all_ids_len(shape.kids);
}

pub proof fn lemma_all_ids_len(shapes: Seq<Shape>)
    ensures
        all_ids(shapes).len() == total_size(shapes),
    decreases shapes, 0nat,
{
    if shapes.len() > 0 {
        lemma_all_ids_len(shapes.drop_last());
        lemma_ids_len(shapes.last());
    }
}

/// The part of a shape below one of its ids: it fits where the shape fits,
/// its ids are ids of the shape, and it is no larger than the shape.
pub proof fn lemma_subshape(shape: Shape, nodes: Nodes, parent: Option<usize>, depth: nat, id: usize) -> (sub:
    Shape)
    requires
        shape.fits(nodes, parent, depth),
        shape.ids().contains(id),
    ensures
        sub.id == id,
        sub.fits(nodes, nodes[id].parent, nodes[id].depth as nat),
        sub.size() <= shape.size(),
        forall|x: usize| sub.ids().contains(x) ==> shape.ids().contains(x),
    decreases shape,
{
    if id == shape.id {
        shape
    } else {
        let k = lemma_ids_home(shape, id);
        let sub = lemma_subshape(shape.kids[k], nodes, Some(shape.id), depth + 1, id);
        assert forall|x: usize| sub.ids().contains(x) implies shape.ids().contains(x) by {
            lemma_kid_ids_within(shape, k, x);
        }
        lemma_part_size(shape.kids, k);
        sub
    }
}

/// One shape of a list is no larger than the list.
pub proof fn lemma_part_size(shapes: Seq<Shape>, k: int)
    requires
        0 <= k < shapes.len(),
    ensures
        shapes[k].size() <= total_size(shapes),
    decreases shapes.len(),
{
    if k < shapes.len() - 1 {
        lemma_part_size(shapes.drop_last(), k);
    }
}

/// Whether the shapes of a queue fit, each under its own parent and at its
/// own depth, and stand in the order of a walk level by level: no shape
/// is less deep than one before it, and the last at most one level deeper
/// than the first.
pub open spec fn queue_fits(nodes: Nodes, queue: Seq<Shape>) -> bool {
    &&& forall|i: int|
        0 <= i < queue.len() ==> (#[trigger] queue[i]).fits(
            nodes,
            nodes[queue[i].id].parent,
            nodes[queue[i].id].depth as nat,
        )
    &&& forall|i: int, j: int|
        0 <= i <= j < queue.len() ==> nodes[(#[trigger] queue[i]).id].depth <= nodes[(
        #[trigger] queue[j]).id].depth
    &&& forall|i: int|
        0 <= i < queue.len() ==> nodes[(#[trigger] queue[i]).id].depth <= nodes[queue[0].id].depth
            + 1
}

/// A walk level by level from a queue of shapes visits as many nodes as
/// the shapes have, all of them nodes of the table, none less deep than
/// the first of the queue, and none less deep than one visited before it.
pub proof fn lemma_walk_levels(nodes: Nodes, queue: Seq<Shape>, fuel: nat)
    requires
        queue_fits(nodes, queue),
        fuel >= total_size(queue),
    ensures
        walk(nodes, root_ids(queue), fuel).len() == total_size(queue),
        forall|i: int|
            0 <= i < walk(nodes, root_ids(queue), fuel).len() ==> nodes.contains_key(
                #[trigger] walk(nodes, root_ids(queue), fuel)[i],
            ),
        forall|i: int|
            0 <= i < walk(nodes, root_ids(queue), fuel).len() ==> nodes[queue[0].id].depth
                <= nodes[#[trigger] walk(nodes, root_ids(queue), fuel)[i]].depth,
        forall|i: int, j: int|
            0 <= i <= j < walk(nodes, root_ids(queue), fuel).len() ==> nodes[#[trigger] walk(
                nodes,
                root_ids(queue),
                fuel,
            )[i]].depth <= nodes[#[trigger] walk(nodes, root_ids(queue), fuel)[j]].depth,
    decreases total_size(queue),
{
    let ids = root_ids(queue);
    if queue.len() == 0 {
    } else {
        let first = queue[0];
        let next = queue.drop_first() + first.kids;
        lemma_total_size_rest(queue);
        lemma_total_size_concat(queue.drop_first(), first.kids);
        assert(ids[0] == first.id);
        assert(root_ids(next) =~= ids.drop_first() + nodes[first.id].children@);
        assert(first.fits(nodes, nodes[first.id].parent, nodes[first.id].depth as nat));
        assert forall|i: int| 0 <= i < next.len() implies (#[trigger] next[i]).fits(
            nodes,
            nodes[next[i].id].parent,
            nodes[next[i].id].depth as nat,
        ) && nodes[next[i].id].depth <= nodes[first.id].depth + 1 && nodes[first.id].depth
            <= nodes[next[i].id].depth && (i >= queue.len() - 1 ==> nodes[next[i].id].depth
            == nodes[first.id].depth + 1) by {
            if i < queue.len() - 1 {
                assert(next[i] == queue[i + 1]);
                assert(nodes[queue[0].id].depth <= nodes[queue[i + 1].id].depth);
            } else {
                let k = i - (queue.len() - 1);
                assert(next[i] == first.kids[k]);
                assert(first.kids[k].fits(
                    nodes,
                    Some(first.id),
                    (nodes[first.id].depth + 1) as nat,
                ));
            }
        }
        assert(queue_fits(nodes, next)) by {
            assert forall|i: int, j: int| 0 <= i <= j < next.len() implies nodes[(
            #[trigger] next[i]).id].depth <= nodes[(#[trigger] next[j]).id].depth by {
                if j < queue.len() - 1 {
                    assert(next[i] == queue[i + 1] && next[j] == queue[j + 1]);
                }
            }
            if next.len() > 0 {
                assert forall|i: int| 0 <= i < next.len() implies nodes[(
                #[trigger] next[i]).id].depth <= nodes[next[0].id].depth + 1 by {}
            }
        }
        lemma_walk_levels(nodes, next, (fuel - 1) as nat);
        let rest = walk(nodes, root_ids(next), (fuel - 1) as nat);
        let all = walk(nodes, ids, fuel);
        assert(all =~= seq![first.id] + rest);
        assert forall|i: int| 0 <= i < all.len() implies nodes.contains_key(#[trigger] all[i])
            && nodes[first.id].depth <= nodes[all[i]].depth by {
            if i > 0 {
                assert(all[i] == rest[i - 1]);
                assert(nodes.contains_key(rest[i - 1]));
                assert(next.len() > 0);
                assert(nodes[next[0].id].depth <= nodes[rest[i - 1]].depth);
                assert(nodes[first.id].depth <= nodes[next[0].id].depth);
            }
        }
        assert forall|i: int, j: int| 0 <= i <= j < all.len() implies nodes[#[trigger] all[i]].depth
            <= nodes[#[trigger] all[j]].depth by {
            if i > 0 {
                assert(all[i] == rest[i - 1] && all[j] == rest[j - 1]);
            } else if j > 0 {
                assert(all[j] == rest[j - 1]);
            }
        }
    }
}

/// The elements directly inside the element of a node.
pub open spec fn items_of(view: ElementView) -> Seq<Located<InlineElementView>> {
    match view {
        ElementView::Block(b) => b.children(),
        ElementView::Inline(i) => match i {
            InlineElementView::DecoratedText(_, c) => c,
            _ => Seq::empty(),
        },
    }
}

/// The tree of the element of a node has as many nodes as the shape below
/// the node.
pub proof fn lemma_shape_counts(shape: Shape, nodes: Nodes, parent: Option<usize>, depth: nat)
    requires
        shape.fits(nodes, parent, depth),
    ensures
        shape.size() == count_nodes(nodes[shape.id].data@.value),
    decreases shape, shape.kids.len() + 1,
{
    let view = nodes[shape.id].data@.value;
    let items = items_of(view);
    assert(view.children() == as_elements(items));
    assert(count_nodes(view) == 1 + count_inlines(items));
    lemma_kids_count(shape, nodes, parent, depth, shape.kids.len() as int);
    assert(shape.kids.take(shape.kids.len() as int) =~= shape.kids);
    assert(items.take(items.len() as int) =~= items);
}

/// The first `k` subtrees of a shape have as many nodes as the trees of
/// the first `k` elements directly inside the element of its root.
pub proof fn lemma_kids_count(shape: Shape, nodes: Nodes, parent: Option<usize>, depth: nat, k: int)
    requires
        shape.fits(nodes, parent, depth),
        0 <= k <= shape.kids.len(),
    ensures
        total_size(shape.kids.take(k)) == count_inlines(
            items_of(nodes[shape.id].data@.value).take(k),
        ),
    decreases shape, k,
{
    let view = nodes[shape.id].data@.value;
    let items = items_of(view);
    assert(view.children() == as_elements(items));
    if k == 0 {
        assert(items.take(0) =~= Seq::empty());
        assert(shape.kids.take(0) =~= Seq::empty());
    } else {
        lemma_kids_count(shape, nodes, parent, depth, k - 1);
        let kid = shape.kids[k - 1];
        lemma_shape_counts(kid, nodes, Some(shape.id), depth + 1);
        assert(nodes[kid.id].data@ == as_elements(items)[k - 1]);
        assert(shape.kids.take(k).drop_last() =~= shape.kids.take(k - 1));
        assert(shape.kids.take(k).last() == kid);
        assert(items.take(k).drop_last() =~= items.take(k - 1));
        assert(items.take(k).last() == items[k - 1]);
    }
}

impl<'a> ElementTree<'a> {
    /// The descendants of a node of the tree come level by level: none is
    /// less deep than one that comes before it. There are as many of them
    /// as the tree of the element of the node has nodes, the node itself
    /// not counted; all of them are nodes of the tree and deeper than the
    /// node.
    pub proof fn lemma_descendants(&self, id: usize)
        requires
            self.wf(),
            self@.contains_key(id),
        ensures
            descendants_of(self@, self@[id]).len() + 1 == count_nodes(self@[id].data@.value),
            forall|i: int|
                0 <= i < descendants_of(self@, self@[id]).len() ==> self@.contains_key(
                    #[trigger] descendants_of(self@, self@[id])[i],
                ) && self@[id].depth < self@[descendants_of(self@, self@[id])[i]].depth,
            forall|i: int, j: int|
                0 <= i <= j < descendants_of(self@, self@[id]).len() ==> self@[#[trigger] descendants_of(
                    self@,
                    self@[id],
                )[i]].depth <= self@[#[trigger] descendants_of(self@, self@[id])[j]].depth,
    {
        let nodes = self@;
        let shape = self.spec_shape();
        assert(shape.ids().to_set().contains(id));
        let sub = lemma_subshape(shape, nodes, None, 0, id);
        let queue = sub.kids;
        lemma_ids_len(shape);
        shape.ids().unique_seq_to_set();
        assert(total_size(queue) < nodes.dom().len());
        assert(queue_fits(nodes, queue)) by {
            assert forall|i: int| 0 <= i < queue.len() implies (#[trigger] queue[i]).fits(
                nodes,
                nodes[queue[i].id].parent,
                nodes[queue[i].id].depth as nat,
            ) && nodes[queue[i].id].depth == nodes[id].depth + 1 by {
                assert(queue[i].fits(nodes, Some(id), (nodes[id].depth + 1) as nat));
            }
        }
        lemma_walk_levels(nodes, queue, nodes.dom().len());
        lemma_shape_counts(sub, nodes, nodes[id].parent, nodes[id].depth as nat);
        let d = descendants_of(nodes, nodes[id]);
        assert(d == walk(nodes, root_ids(queue), nodes.dom().len()));
        assert forall|i: int| 0 <= i < d.len() implies self@[id].depth < self@[#[trigger] d[i]].depth by {
            assert(queue[0].fits(nodes, Some(id), (nodes[id].depth + 1) as nat));
        }
    }
}

/// Whether the region of the node `id` covers the character at `offset`.
pub open spec fn covers(nodes: Nodes, id: usize, offset: usize) -> bool {
    nodes.contains_key(id) && nodes[id].data.region.spec_contains_offset(offset as int)
}

/// Whether the node `id` covers the offset and none of its children does.
pub open spec fn is_deepest_at(nodes: Nodes, id: usize, offset: usize) -> bool {
    &&& covers(nodes, id, offset)
    &&& forall|j: int|
        0 <= j < nodes[id].children@.len() ==> !covers(
            nodes,
            #[trigger] nodes[id].children@[j],
            offset,
        )
}

/// Whether the region of each node lies within the region of its parent.
pub open spec fn regions_nested(nodes: Nodes) -> bool {
    forall|id: usize|
        nodes.contains_key(id) && (#[trigger] nodes[id]).parent is Some && nodes.contains_key(
            nodes[id].parent.unwrap(),
        ) ==> nodes[nodes[id].parent.unwrap()].data.region.spec_encloses(nodes[id].data.region)
}

/// What a search below the root of a shape finds: nothing where the root
/// does not cover the offset, and otherwise a node of the shape that
/// covers the offset and has no child that covers it.
pub proof fn lemma_find_in(
    shape: Shape,
    nodes: Nodes,
    parent: Option<usize>,
    depth: nat,
    fuel: nat,
    offset: usize,
)
    requires
        shape.fits(nodes, parent, depth),
        fuel >= shape.size(),
    ensures
        match find_in(nodes, shape.id, offset, depth as usize, fuel) {
            Some((_, r)) => covers(nodes, shape.id, offset) && shape.ids().contains(r)
                && is_deepest_at(nodes, r, offset),
            None => !covers(nodes, shape.id, offset),
        },
    decreases shape, shape.kids.len() + 1,
{
    if covers(nodes, shape.id, offset) {
        lemma_find_among(shape, nodes, parent, depth, (fuel - 1) as nat, offset, shape.kids.len());
        let among = find_among(
            nodes,
            nodes[shape.id].children@,
            offset,
            depth as usize,
            (fuel - 1) as nat,
            shape.kids.len(),
        );
        assert(nodes[shape.id].children@.len() == shape.kids.len());
        match among {
            Some((_, r)) => {
                let k = choose|k: int|
                    0 <= k < shape.kids.len() && shape.kids[k].ids().contains(r);
                lemma_kid_ids_within(shape, k, r);
            },
            None => {
                assert(shape.ids()[0] == shape.id);
                assert forall|j: int| 0 <= j < nodes[shape.id].children@.len() implies !covers(
                    nodes,
                    #[trigger] nodes[shape.id].children@[j],
                    offset,
                ) by {
                    assert(nodes[shape.id].children@[j] == shape.kids[j].id);
                }
            },
        }
    }
}

/// What a search among the first `n` children of the root of a shape
/// finds: nothing where none of them covers the offset, and otherwise a
/// node below one of them that covers the offset and has no child that
/// covers it.
pub proof fn lemma_find_among(
    shape: Shape,
    nodes: Nodes,
    parent: Option<usize>,
    depth: nat,
    fuel: nat,
    offset: usize,
    n: nat,
)
    requires
        shape.fits(nodes, parent, depth),
        fuel >= total_size(shape.kids),
        n <= shape.kids.len(),
    ensures
        match find_among(nodes, nodes[shape.id].children@, offset, depth as usize, fuel, n) {
            Some((_, r)) => is_deepest_at(nodes, r, offset) && exists|k: int|
                0 <= k < n && (#[trigger] shape.kids[k]).ids().contains(r),
            None => forall|k: int| 0 <= k < n ==> !covers(nodes, (#[trigger] shape.kids[k]).id, offset),
        },
    decreases shape, n,
{
    let kids = nodes[shape.id].children@;
    assert(kids.len() == shape.kids.len());
    if n > 0 {
        let kid = shape.kids[n - 1];
        assert(kid.fits(nodes, Some(shape.id), depth + 1));
        assert(nodes[kid.id].depth == depth + 1);
        assert(depth < usize::MAX);
        assert(kids[n - 1] == kid.id);
        lemma_find_among(shape, nodes, parent, depth, fuel, offset, (n - 1) as nat);
        lemma_part_size(shape.kids, n - 1);
        lemma_find_in(kid, nodes, Some(shape.id), depth + 1, fuel, offset);
        let before = find_among(nodes, kids, offset, depth as usize, fuel, (n - 1) as nat);
        let here = find_in(nodes, kids[n - 1], offset, (depth + 1) as usize, fuel);
        let both = better(before, here);
        assert(both == find_among(nodes, kids, offset, depth as usize, fuel, n));
        match both {
            Some((_, r)) => {
                if both == here {
                    assert(shape.kids[n - 1].ids().contains(r));
                } else {
                    let k = choose|k: int|
                        0 <= k < n - 1 && (#[trigger] shape.kids[k]).ids().contains(r);
                    assert(shape.kids[k].ids().contains(r));
                }
            },
            None => {},
        }
    }
}

/// The nodes on the way up from a node are no deeper than the node.
pub proof fn lemma_up_depth(nodes: Nodes, x: usize, y: usize)
    requires
        up_from(nodes, x).contains(y),
    ensures
        nodes.contains_key(x),
        nodes.contains_key(y),
        nodes[y].depth <= nodes[x].depth,
        y != x ==> nodes[y].depth < nodes[x].depth,
    decreases
            (if nodes.contains_key(x) {
                nodes[x].depth as int + 1
            } else {
                0
            }),
{
    let up = up_from(nodes, x);
    let j = choose|j: int| 0 <= j < up.len() && up[j] == y;
    if j > 0 {
        let p = nodes[x].parent.unwrap();
        assert(up_from(nodes, p)[j - 1] == y);
        lemma_up_depth(nodes, p, y);
    }
}

/// In a shape that fits, each node but the root is listed among the
/// children of its parent, which is a node of the shape.
pub proof fn lemma_parent_lists(
    shape: Shape,
    nodes: Nodes,
    parent: Option<usize>,
    depth: nat,
    x: usize,
) -> (j: int)
    requires
        shape.fits(nodes, parent, depth),
        shape.ids().contains(x),
        x != shape.id,
    ensures
        nodes[x].parent is Some,
        nodes.contains_key(nodes[x].parent.unwrap()),
        0 <= j < nodes[nodes[x].parent.unwrap()].children@.len(),
        nodes[nodes[x].parent.unwrap()].children@[j] == x,
    decreases shape,
{
    let k = lemma_ids_home(shape, x);
    let kid = shape.kids[k];
    assert(kid.fits(nodes, Some(shape.id), depth + 1));
    if x == kid.id {
        assert(nodes[shape.id].children@[k] == kid.id);
        k
    } else {
        lemma_parent_lists(kid, nodes, Some(shape.id), depth + 1, x)
    }
}

/// Where regions are nested, a node that covers an offset and has another
/// node on its way up has, among the children of that node, one that
/// covers the offset.
pub proof fn lemma_covering_child(
    shape: Shape,
    nodes: Nodes,
    x: usize,
    a: usize,
    offset: usize,
) -> (j: int)
    requires
        shape.fits(nodes, None, 0),
        nodes.dom() =~= shape.ids().to_set(),
        regions_nested(nodes),
        covers(nodes, x, offset),
        up_from(nodes, x).contains(a),
        x != a,
    ensures
        0 <= j < nodes[a].children@.len(),
        covers(nodes, nodes[a].children@[j], offset),
    decreases nodes[x].depth,
{
    let up = up_from(nodes, x);
    let i = choose|i: int| 0 <= i < up.len() && up[i] == a;
    assert(i > 0);
    let p = nodes[x].parent.unwrap();
    assert(up_from(nodes, p)[i - 1] == a);
    assert(up_from(nodes, p).contains(a));
    assert(shape.ids().to_set().contains(x));
    if p == a {
        assert(shape.ids()[0] == shape.id);
        let j = lemma_parent_lists(shape, nodes, None, 0, x);
        j
    } else {
        assert(nodes[p].data.region.spec_encloses(nodes[x].data.region));
        lemma_covering_child(shape, nodes, p, a, offset)
    }
}

/// Whether the children of each node stand one after the other: the region
/// of each ends where the region of the next begins, or before.
pub open spec fn siblings_apart(nodes: Nodes) -> bool {
    forall|id: usize, i: int, j: int|
        nodes.contains_key(id) && 0 <= i < j < nodes[id].children@.len() && nodes.contains_key(
            #[trigger] nodes[id].children@[i],
        ) && nodes.contains_key(#[trigger] nodes[id].children@[j])
            ==> nodes[nodes[id].children@[i]].data.region.spec_end()
            <= nodes[nodes[id].children@[j]].data.region.offset
}

/// Where the elements inside the element of the root of a shape are
/// nested, so is the element of each node of the shape.
pub proof fn lemma_shape_nested(shape: Shape, nodes: Nodes, parent: Option<usize>, depth: nat)
    requires
        shape.fits(nodes, parent, depth),
        element_nested(nodes[shape.id].data@),
    ensures
        forall|id: usize| #[trigger] shape.ids().contains(id) ==> element_nested(nodes[id].data@),
    decreases shape,
{
    assert forall|id: usize| #[trigger] shape.ids().contains(id) implies element_nested(
        nodes[id].data@,
    ) by {
        if id != shape.id {
            let k = lemma_ids_home(shape, id);
            let kid = shape.kids[k];
            assert(kid.fits(nodes, Some(shape.id), depth + 1));
            lemma_child_nested(shape, nodes, parent, depth, k);
            lemma_shape_nested(kid, nodes, Some(shape.id), depth + 1);
        }
    }
}

/// Where the elements inside the element of a node are nested, the element
/// of each child of the node is the element in that place inside it: it
/// lies within the region of the node, and is nested.
pub proof fn lemma_child_nested(shape: Shape, nodes: Nodes, parent: Option<usize>, depth: nat, k: int)
    requires
        shape.fits(nodes, parent, depth),
        element_nested(nodes[shape.id].data@),
        0 <= k < shape.kids.len(),
    ensures
        nodes[shape.id].children@[k] == shape.kids[k].id,
        nodes[shape.kids[k].id].data.region == items_of(nodes[shape.id].data@.value)[k].region,
        nodes[shape.id].data.region.spec_encloses(nodes[shape.kids[k].id].data.region),
        element_nested(nodes[shape.kids[k].id].data@),
        in_order(items_of(nodes[shape.id].data@.value)),
        items_of(nodes[shape.id].data@.value).len() == shape.kids.len(),
{
    let kid = shape.kids[k];
    assert(kid.fits(nodes, Some(shape.id), depth + 1));
    let top = nodes[shape.id].data@;
    let below = nodes[kid.id].data@;
    assert(below == top.value.children()[k]);
    let items = items_of(top.value);
    assert(top.value.children() == as_elements(items));
    assert(below.value == ElementView::Inline(items[k].value));
    assert(below.region == items[k].region);
    assert(items[k] == (Located { value: items[k].value, region: items[k].region }));
    match top.value {
        ElementView::Block(b) => {
            assert(inlines_within(items, top.region));
        },
        ElementView::Inline(i) => {
            assert(inline_nested(Located { value: i, region: top.region }));
        },
    }
    assert(top.region.spec_encloses(items[k].region));
    assert(inline_nested(items[k]));
    assert(root_ids(shape.kids)[k] == kid.id);
}

impl<'a> ElementTree<'a> {
    /// The search for the deepest node at an offset never stops at a node
    /// that has, below it, a node that covers the offset: it goes on to
    /// that node or to one deeper. This holds where the region of each
    /// node lies within the region of its parent.
    pub proof fn lemma_find_at_offset_goes_deep(&self, offset: usize, a: usize, b: usize)
        requires
            self.wf(),
            regions_nested(self@),
            covers(self@, a, offset),
            covers(self@, b, offset),
            ancestors_of(self@, self@[b]).contains(a),
        ensures
            find_at(self@, self.spec_root_id(), offset) != Some(a),
    {
        let nodes = self@;
        let shape = self.spec_shape();
        lemma_ids_len(shape);
        shape.ids().unique_seq_to_set();
        lemma_find_in(shape, nodes, None, 0, nodes.dom().len(), offset);
        if find_at(nodes, self.spec_root_id(), offset) == Some(a) {
            assert(is_deepest_at(nodes, a, offset));
            let anc = ancestors_of(nodes, nodes[b]);
            let i = choose|i: int| 0 <= i < anc.len() && anc[i] == a;
            let p = nodes[b].parent.unwrap();
            lemma_up_depth(nodes, p, a);
            assert(shape.ids().to_set().contains(b));
            assert(nodes[b].id == b) by {
                lemma_fits_ids(shape, nodes, None, 0, b);
            }
            if b == shape.id {
                assert(nodes[b].parent is None);
            }
            let jb = lemma_parent_lists(shape, nodes, None, 0, b);
            self.lemma_parent_depth(b);
            assert(up_from(nodes, b) =~= seq![b] + up_from(nodes, p));
            assert(up_from(nodes, b)[i + 1] == a);
            let j = lemma_covering_child(shape, nodes, b, a, offset);
            assert(!covers(nodes, nodes[a].children@[j], offset));
        }
    }

    /// Where the elements inside the element of the root are nested, the
    /// region of each node lies within the region of its parent, and the
    /// children of a node stand one after the other.
    pub proof fn lemma_nested(&self)
        requires
            self.wf(),
            element_nested(self@[self.spec_root_id()].data@),
        ensures
            regions_nested(self@),
            siblings_apart(self@),
    {
        let nodes = self@;
        let shape = self.spec_shape();
        lemma_shape_nested(shape, nodes, None, 0);
        assert forall|id: usize|
            nodes.contains_key(id) && (#[trigger] nodes[id]).parent is Some && nodes.contains_key(
                nodes[id].parent.unwrap(),
            ) implies nodes[nodes[id].parent.unwrap()].data.region.spec_encloses(
            nodes[id].data.region,
        ) by {
            assert(shape.ids().to_set().contains(id));
            let p = nodes[id].parent.unwrap();
            assert(shape.ids().to_set().contains(p));
            if id == shape.id {
                assert(nodes[id].parent is None);
            }
            let j = lemma_parent_lists(shape, nodes, None, 0, id);
            let sub = lemma_subshape(shape, nodes, None, 0, p);
            assert(sub.kids[j].id == id) by {
                assert(root_ids(sub.kids)[j] == sub.kids[j].id);
            }
            lemma_child_nested(sub, nodes, nodes[p].parent, nodes[p].depth as nat, j);
        }
        assert forall|id: usize, i: int, j: int|
            nodes.contains_key(id) && 0 <= i < j < nodes[id].children@.len() && nodes.contains_key(
                #[trigger] nodes[id].children@[i],
            ) && nodes.contains_key(#[trigger] nodes[id].children@[j]) implies nodes[nodes[id].children@[i]].data.region.spec_end()
            <= nodes[nodes[id].children@[j]].data.region.offset by {
            assert(shape.ids().to_set().contains(id));
            let sub = lemma_subshape(shape, nodes, None, 0, id);
            assert(root_ids(sub.kids)[i] == sub.kids[i].id);
            assert(root_ids(sub.kids)[j] == sub.kids[j].id);
            lemma_child_nested(sub, nodes, nodes[id].parent, nodes[id].depth as nat, i);
            lemma_child_nested(sub, nodes, nodes[id].parent, nodes[id].depth as nat, j);
            let items = items_of(nodes[id].data@.value);
            assert(items[i].region.spec_end() <= items[j].region.offset);
        }
    }

    /// Tells whether the region of each node lies within the region of its
    /// parent.
    pub fn has_nested_regions(&self) -> (r: bool)
        ensures
            r == regions_nested(self@),
    {
        proof {
            use_type_invariant(self);
            self.lemma_ids();
        }
        let mut i: usize = 0;
        while i < self.order.len()
            invariant
                i <= self.order@.len(),
                self.order@.to_set() =~= self.nodes@.dom(),
                forall|id: usize| self.nodes@.contains_key(id) ==> (#[trigger] self.nodes@[id]).id == id,
                forall|k: int|
                    0 <= k < i ==> {
                        let n = self.nodes@[#[trigger] self.order@[k]];
                        n.parent is Some && self.nodes@.contains_key(n.parent.unwrap())
                            ==> self.nodes@[n.parent.unwrap()].data.region.spec_encloses(
                            n.data.region,
                        )
                    },
            decreases self.order@.len() - i,
        {
            let id = self.order[i];
            proof {
                assert(self.order@.to_set().contains(id));
            }
            match self.nodes.get(&id) {
                Some(n) => {
                    match n.parent {
                        Some(p) => {
                            match self.nodes.get(&p) {
                                Some(pn) => {
                                    if !pn.data.region.encloses(&n.data.region) {
                                        return false;
                                    }
                                },
                                None => {},
                            }
                        },
                        None => {},
                    }
                },
                None => {},
            }
            i += 1;
        }
        proof {
            assert forall|id: usize|
                self.nodes@.contains_key(id) && (#[trigger] self.nodes@[id]).parent is Some
                    && self.nodes@.contains_key(
                    self.nodes@[id].parent.unwrap(),
                ) implies self.nodes@[self.nodes@[id].parent.unwrap()].data.region.spec_encloses(
                self.nodes@[id].data.region,
            ) by {
                assert(self.order@.to_set().contains(id));
                let k = choose|k: int| 0 <= k < self.order@.len() && self.order@[k] == id;
                assert(self.order@[k] == id);
            }
        }
        true
    }
}

} // verus!
