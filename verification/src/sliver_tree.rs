//! A tree in a sliver.
//!
//! A sliver lays out a **flat list** of rows, and a tree is not one. So this
//! module is one idea: keep the tree as the caller wrote it, and maintain
//! beside it a flattened list of the rows currently on screen -- the
//! *active* nodes, where active means *reachable through expanded parents*,
//! which is not the same as visible.
//!
//! The decision worth arriving at is what happens **while a node is
//! collapsing**: its children stay in the flat list until the animation
//! ends, or there would be nothing left to animate away. So the unpack rule
//! is not "is this node expanded" but "is it expanded *or currently
//! animating in either direction*".
//!
//! Every walk of the tree carries a budget of as many levels as the tree has
//! nodes. A walk from the roots of a tree never needs more; only a chain of
//! children that leads back to itself would, and there the budget ends the
//! walk rather than letting it go round for ever.

use crate::text::{append_str, decimal, owned, push_decimal, same_text};
use std::collections::HashMap;
use vstd::prelude::*;

verus! {

broadcast use vstd::std_specs::hash::group_hash_axioms;

/// A node as the contracts see it.
pub struct NodeView {
    pub id: u64,
    pub content: Seq<char>,
    pub children: Seq<u64>,
    pub expanded: bool,
    pub depth: Option<usize>,
    pub parent: Option<u64>,
}

/// A node of a tree sliver. Nodes are identified by a `u64`; the tree keeps
/// them in an arena, so a node's parent and depth are written by the tree.
#[derive(Clone, Debug, PartialEq, Eq)]
pub struct TreeSliverNode {
    pub id: u64,
    /// The thing the row is about.
    pub content: String,
    pub children: Vec<u64>,
    expanded: bool,
    /// `None` until the tree has been unpacked once.
    depth: Option<usize>,
    parent: Option<u64>,
}

impl View for TreeSliverNode {
    type V = NodeView;

    closed spec fn view(&self) -> NodeView {
        NodeView {
            id: self.id,
            content: self.content@,
            children: self.children@,
            expanded: self.expanded,
            depth: self.depth,
            parent: self.parent,
        }
    }
}

/// The depth as a debug dump shows it.
pub open spec fn depth_text(depth: Option<usize>) -> Seq<char> {
    match depth {
        Some(d) => if d == 0 {
            "root"@
        } else {
            decimal(d as nat)
        },
        None => "null"@,
    }
}

/// The kind of node as a debug dump shows it: a leaf, or a parent and
/// whether it is expanded.
pub open spec fn kind_text(children: Seq<u64>, expanded: bool) -> Seq<char> {
    if children.len() == 0 {
        "leaf"@
    } else if expanded {
        "parent, expanded: true"@
    } else {
        "parent, expanded: false"@
    }
}

impl TreeSliverNode {
    /// A node. **A node with no children cannot be expanded**, however it was
    /// asked: a leaf that reported itself expanded would have nothing to show
    /// for it, and every caller that trusted the flag would have to check the
    /// children as well.
    pub fn new(id: u64, content: &str, children: Vec<u64>, expanded: bool) -> (r: TreeSliverNode)
        ensures
            r@ == (NodeView {
                id,
                content: content@,
                children: children@,
                expanded: children@.len() > 0 && expanded,
                depth: None,
                parent: None,
            }),
    {
        let has_children = children.len() > 0;
        TreeSliverNode {
            id,
            content: owned(content),
            children,
            expanded: has_children && expanded,
            depth: None,
            parent: None,
        }
    }

    pub fn leaf(id: u64, content: &str) -> (r: TreeSliverNode)
        ensures
            r@ == (NodeView {
                id,
                content: content@,
                children: Seq::empty(),
                expanded: false,
                depth: None,
                parent: None,
            }),
    {
        TreeSliverNode::new(id, content, Vec::new(), false)
    }

    pub fn is_expanded(&self) -> (r: bool)
        ensures
            r == self@.expanded,
    {
        self.expanded
    }

    pub fn depth(&self) -> (r: Option<usize>)
        ensures
            r == self@.depth,
    {
        self.depth
    }

    pub fn parent(&self) -> (r: Option<u64>)
        ensures
            r == self@.parent,
    {
        self.parent
    }

    /// How a debug dump shows the node, telling apart the three kinds a
    /// reader cares about: `TreeSliverNode: <content>, depth: <root, n or
    /// null>, <leaf or parent, expanded: <flag>>`.
    pub fn describe(&self) -> (r: String)
        ensures
            r@ == "TreeSliverNode: "@ + self@.content + ", depth: "@ + depth_text(self@.depth)
                + ", "@ + kind_text(self@.children, self@.expanded),
    {
        let mut out = String::new();
        append_str(&mut out, "TreeSliverNode: ");
        append_str(&mut out, self.content.as_str());
        append_str(&mut out, ", depth: ");
        match self.depth {
            Some(d) => {
                if d == 0 {
                    append_str(&mut out, "root");
                } else {
                    push_decimal(&mut out, d as u64);
                }
            },
            None => append_str(&mut out, "null"),
        }
        append_str(&mut out, ", ");
        if self.children.len() == 0 {
            append_str(&mut out, "leaf");
        } else if self.expanded {
            append_str(&mut out, "parent, expanded: true");
        } else {
            append_str(&mut out, "parent, expanded: false");
        }
        out
    }
}

/// A leaf is never expanded, whatever it was asked.
pub proof fn lemma_leaf_never_expanded(children: Seq<u64>, expanded: bool)
    requires
        children.len() == 0,
    ensures
        !(children.len() > 0 && expanded),
{
}

/// What the walks of the tree read of a node: its children and its flag.
pub struct NodeShape {
    pub children: Seq<u64>,
    pub expanded: bool,
}

/// The shape of every node, keyed by id.
pub open spec fn shape_of(nodes: Map<u64, NodeView>) -> Map<u64, NodeShape> {
    nodes.map_values(|n: NodeView| NodeShape { children: n.children, expanded: n.expanded })
}

/// The nodes keyed by id, a later node replacing an earlier one with the
/// same id.
pub open spec fn node_map(nodes: Seq<NodeView>) -> Map<u64, NodeView>
    decreases nodes.len(),
{
    if nodes.len() == 0 {
        Map::empty()
    } else {
        node_map(nodes.drop_last()).insert(nodes.last().id, nodes.last())
    }
}

/// One row of a walk: the node, how deep it sits and under which parent.
pub struct Visit {
    pub id: u64,
    pub depth: nat,
    pub parent: Option<u64>,
}

/// Whether a walk goes into a node's children: a node with none has nothing
/// to unpack; a node **animating either way** keeps its children; otherwise
/// the flag decides.
pub open spec fn unpacks(
    shape: Map<u64, NodeShape>,
    animating: Map<u64, ToggleDirection>,
    id: u64,
) -> bool {
    &&& shape.contains_key(id)
    &&& shape[id].children.len() > 0
    &&& (animating.contains_key(id) || shape[id].expanded)
}

/// The depth-first walk over `ids` at `depth` under `parent`, going into the
/// children of every node that unpacks, with `fuel` levels left.
pub open spec fn walk(
    shape: Map<u64, NodeShape>,
    animating: Map<u64, ToggleDirection>,
    ids: Seq<u64>,
    depth: nat,
    parent: Option<u64>,
    fuel: nat,
) -> Seq<Visit>
    decreases fuel, ids.len(), 1nat,
{
    if ids.len() == 0 {
        Seq::empty()
    } else {
        walk(shape, animating, ids.drop_last(), depth, parent, fuel) + walk_node(
            shape,
            animating,
            ids.last(),
            depth,
            parent,
            fuel,
        )
    }
}

/// The walk at one node: its own row, then its children's if it unpacks.
pub open spec fn walk_node(
    shape: Map<u64, NodeShape>,
    animating: Map<u64, ToggleDirection>,
    id: u64,
    depth: nat,
    parent: Option<u64>,
    fuel: nat,
) -> Seq<Visit>
    decreases fuel, 0nat, 0nat,
{
    seq![Visit { id, depth, parent }] + if unpacks(shape, animating, id) && fuel > 0 {
        walk(shape, animating, shape[id].children, depth + 1, Some(id), (fuel - 1) as nat)
    } else {
        Seq::empty()
    }
}

/// The ids of a walk's rows, in row order.
pub open spec fn ids_of(visits: Seq<Visit>) -> Seq<u64> {
    visits.map_values(|v: Visit| v.id)
}

/// A node's depth and parent as one row of a walk writes them.
pub open spec fn write_visit(nodes: Map<u64, NodeView>, v: Visit) -> Map<u64, NodeView> {
    if nodes.contains_key(v.id) {
        nodes.insert(
            v.id,
            NodeView { depth: Some(v.depth as usize), parent: v.parent, ..nodes[v.id] },
        )
    } else {
        nodes
    }
}

/// Every row of a walk written in turn, so a node reached twice keeps the
/// last place it was reached at.
pub open spec fn write_visits(nodes: Map<u64, NodeView>, visits: Seq<Visit>) -> Map<
    u64,
    NodeView,
>
    decreases visits.len(),
{
    if visits.len() == 0 {
        nodes
    } else {
        write_visit(write_visits(nodes, visits.drop_last()), visits.last())
    }
}

/// The tree as the contracts see it.
pub struct TreeView {
    pub nodes: Map<u64, NodeView>,
    /// The caller's tree, at the root.
    pub roots: Seq<u64>,
    /// The active nodes, in row order.
    pub active: Seq<u64>,
    /// Which nodes are animating, and which way.
    pub animating: Map<u64, ToggleDirection>,
    pub animation_disabled: bool,
    /// Which nodes were toggled, in order.
    pub toggles: Seq<u64>,
}

/// The walk from the roots, with a level for every node.
pub open spec fn root_walk(t: TreeView) -> Seq<Visit> {
    walk(shape_of(t.nodes), t.animating, t.roots, 0, None, t.nodes.len())
}

/// The tree with its active rows rebuilt: every active node in row order,
/// each with the depth and parent its row gives it.
pub open spec fn unpacked(t: TreeView) -> TreeView {
    TreeView { active: ids_of(root_walk(t)), nodes: write_visits(t.nodes, root_walk(t)), ..t }
}

/// The tree after one node is toggled.
///
/// A node missing from the tree, or with no children, has no state to
/// change. Otherwise its flag flips, the toggle is recorded, and either the
/// animation starts (an expanding node's children appear at once, so there
/// is something to animate in) or, with the animation switched off, the rows
/// are rebuilt straight away: a zero duration is no animation, not a very
/// short one.
pub open spec fn toggled(t: TreeView, id: u64) -> TreeView {
    if !t.nodes.contains_key(id) || t.nodes[id].children.len() == 0 {
        t
    } else {
        let now = !t.nodes[id].expanded;
        unpacked(
            TreeView {
                nodes: t.nodes.insert(id, NodeView { expanded: now, ..t.nodes[id] }),
                toggles: t.toggles.push(id),
                animating: if t.animation_disabled {
                    t.animating.remove(id)
                } else {
                    t.animating.insert(
                        id,
                        if now {
                            ToggleDirection::Expanding
                        } else {
                            ToggleDirection::Collapsing
                        },
                    )
                },
                ..t
            },
        )
    }
}

/// The tree once a node's animation has finished. The rows are rebuilt
/// **only when the node collapsed**: an expansion already put the children in
/// on the way in.
pub open spec fn finished(t: TreeView, id: u64) -> TreeView {
    let rest = TreeView { animating: t.animating.remove(id), ..t };
    if t.animating.contains_key(id) && t.animating[id] == ToggleDirection::Collapsing {
        unpacked(rest)
    } else {
        rest
    }
}

/// Toggles run one after another.
pub open spec fn toggle_all(t: TreeView, ids: Seq<u64>) -> TreeView
    decreases ids.len(),
{
    if ids.len() == 0 {
        t
    } else {
        toggled(toggle_all(t, ids.drop_last()), ids.last())
    }
}

/// The expand-all or collapse-all walk over `ids`: post-order, so a node's
/// descendants come before it. A node whose flag already says `expand` is
/// left alone; an **active** one is deferred, to be toggled afterwards; a
/// **hidden** one has its flag set directly, since toggling it would start an
/// animation nobody can see. Returns the shapes after the direct sets and the
/// deferred nodes, deepest first.
pub open spec fn walk_from(
    shape: Map<u64, NodeShape>,
    active: Seq<u64>,
    ids: Seq<u64>,
    expand: bool,
    fuel: nat,
) -> (Map<u64, NodeShape>, Seq<u64>)
    decreases fuel, ids.len(), 1nat,
{
    if ids.len() == 0 {
        (shape, Seq::empty())
    } else {
        let before = walk_from(shape, active, ids.drop_last(), expand, fuel);
        let here = walk_from_node(before.0, active, ids.last(), expand, fuel);
        (here.0, before.1 + here.1)
    }
}

/// The walk at one node: its children first, then the node itself.
pub open spec fn walk_from_node(
    shape: Map<u64, NodeShape>,
    active: Seq<u64>,
    id: u64,
    expand: bool,
    fuel: nat,
) -> (Map<u64, NodeShape>, Seq<u64>)
    decreases fuel, 0nat, 0nat,
{
    if !shape.contains_key(id) || shape[id].children.len() == 0 {
        (shape, Seq::empty())
    } else {
        let below = if fuel > 0 {
            walk_from(shape, active, shape[id].children, expand, (fuel - 1) as nat)
        } else {
            (shape, Seq::empty())
        };
        if !below.0.contains_key(id) || below.0[id].expanded == expand {
            below
        } else if active.contains(id) {
            (below.0, below.1.push(id))
        } else {
            (below.0.insert(id, NodeShape { expanded: expand, ..below.0[id] }), below.1)
        }
    }
}

/// The nodes with their flags taken from `shape`.
pub open spec fn with_flags(nodes: Map<u64, NodeView>, shape: Map<u64, NodeShape>) -> Map<
    u64,
    NodeView,
> {
    Map::new(
        |k: u64| nodes.contains_key(k),
        |k: u64|
            NodeView {
                expanded: if shape.contains_key(k) {
                    shape[k].expanded
                } else {
                    nodes[k].expanded
                },
                ..nodes[k]
            },
    )
}

/// Expanding or collapsing everything: the walk from the roots, then the
/// deferred toggles **in reverse**, so they run shallowest first. That works
/// because a collapsing node keeps its descendants active until its
/// animation ends, so collapsing a shallow node does not take the deeper
/// ones out of the rows before their own turn comes.
pub open spec fn walked_all(t: TreeView, expand: bool) -> TreeView {
    let w = walk_from(shape_of(t.nodes), t.active, t.roots, expand, t.nodes.len());
    toggle_all(TreeView { nodes: with_flags(t.nodes, w.0), ..t }, w.1.reverse())
}

/// The first node in tree order, depth first from `ids`, whose content is
/// `content`. A child missing from the tree ends the search of its own
/// siblings.
pub open spec fn search(
    nodes: Map<u64, NodeView>,
    ids: Seq<u64>,
    content: Seq<char>,
    fuel: nat,
) -> Option<u64>
    decreases fuel, ids.len(),
{
    if ids.len() == 0 {
        None
    } else if !nodes.contains_key(ids[0]) {
        None
    } else if nodes[ids[0]].content == content {
        Some(ids[0])
    } else {
        let below = if fuel > 0 {
            search(nodes, nodes[ids[0]].children, content, (fuel - 1) as nat)
        } else {
            None
        };
        if below is Some {
            below
        } else {
            search(nodes, ids.drop_first(), content, fuel)
        }
    }
}

/// Whether `at` is the first row holding `id`.
pub open spec fn first_row(active: Seq<u64>, id: u64, at: int) -> bool {
    &&& 0 <= at < active.len()
    &&& active[at] == id
    &&& forall|j: int| 0 <= j < at ==> active[j] != id
}

/// A tree in a sliver: the tree as the caller wrote it, and the flat list of
/// its active rows.
#[derive(Debug)]
pub struct TreeSliver {
    nodes: HashMap<u64, TreeSliverNode>,
    roots: Vec<u64>,
    active: Vec<u64>,
    animating: HashMap<u64, ToggleDirection>,
    /// Whether the toggle animation is switched off (no animation, or one of
    /// zero duration, which is the same thing).
    pub animation_disabled: bool,
    toggles: Vec<u64>,
}

/// A copy of a list of ids.
fn copy_ids(ids: &Vec<u64>) -> (r: Vec<u64>)
    ensures
        r@ == ids@,
{
    let mut r: Vec<u64> = Vec::new();
    let mut i: usize = 0;
    while i < ids.len()
        invariant
            i <= ids.len(),
            r@ == ids@.take(i as int),
        decreases ids.len() - i,
    {
        r.push(ids[i]);
        i = i + 1;
        proof {
            assert(r@ =~= ids@.take(i as int));
        }
    }
    proof {
        assert(r@ =~= ids@);
    }
    r
}

/// Writing rows in two runs is writing them in one.
proof fn lemma_write_visits_concat(nodes: Map<u64, NodeView>, a: Seq<Visit>, b: Seq<Visit>)
    ensures
        write_visits(nodes, a + b) == write_visits(write_visits(nodes, a), b),
    decreases b.len(),
{
    if b.len() == 0 {
        assert(a + b =~= a);
    } else {
        assert((a + b).drop_last() =~= a + b.drop_last());
        assert((a + b).last() == b.last());
        lemma_write_visits_concat(nodes, a, b.drop_last());
    }
}

/// Writing a row changes no node's shape.
proof fn lemma_write_keeps_shape(nodes: Map<u64, NodeView>, visits: Seq<Visit>)
    ensures
        shape_of(write_visits(nodes, visits)) == shape_of(nodes),
        write_visits(nodes, visits).dom() == nodes.dom(),
    decreases visits.len(),
{
    if visits.len() > 0 {
        lemma_write_keeps_shape(nodes, visits.drop_last());
        let m = write_visits(nodes, visits.drop_last());
        assert(shape_of(write_visit(m, visits.last())) =~= shape_of(m));
        assert(write_visit(m, visits.last()).dom() =~= m.dom());
    }
}

impl TreeSliver {
    pub closed spec fn nodes_view(&self) -> Map<u64, NodeView> {
        self.nodes@.map_values(|n: TreeSliverNode| n@)
    }

    pub closed spec fn view(&self) -> TreeView {
        TreeView {
            nodes: self.nodes_view(),
            roots: self.roots@,
            active: self.active@,
            animating: self.animating@,
            animation_disabled: self.animation_disabled,
            toggles: self.toggles@,
        }
    }

    /// A tree of `nodes` (keyed by id, a later node replacing an earlier one
    /// with the same id) whose top level is `roots`, with its active rows
    /// unpacked. The toggle animation starts switched off.
    pub fn new(nodes: Vec<TreeSliverNode>, roots: Vec<u64>) -> (r: TreeSliver)
        ensures
            r.view() == unpacked(
                TreeView {
                    nodes: node_map(nodes@.map_values(|n: TreeSliverNode| n@)),
                    roots: roots@,
                    active: Seq::empty(),
                    animating: Map::empty(),
                    animation_disabled: true,
                    toggles: Seq::empty(),
                },
            ),
    {
        let ghost given = nodes@.map_values(|n: TreeSliverNode| n@);
        let mut map: HashMap<u64, TreeSliverNode> = HashMap::new();
        let mut rest = nodes;
        let ghost total = rest.len();
        let mut i: usize = 0;
        while rest.len() > 0
            invariant
                i + rest.len() == total,
                total == given.len(),
                rest@.map_values(|n: TreeSliverNode| n@) == given.skip(i as int),
                map@.map_values(|n: TreeSliverNode| n@) == node_map(given.take(i as int)),
            decreases rest.len(),
        {
            let ghost before = rest@;
            let node = rest.remove(0);
            proof {
                assert(given.take(i + 1).drop_last() =~= given.take(i as int));
                assert(before.map_values(|n: TreeSliverNode| n@)[0] == node@);
                assert(given.take(i + 1).last() == node@);
                assert forall|j: int| 0 <= j < rest@.len() implies #[trigger] rest@[j]@ == given.skip(
                    i + 1,
                )[j] by {
                    assert(rest@[j] == before[j + 1]);
                    assert(before.map_values(|n: TreeSliverNode| n@)[j + 1] == given.skip(
                        i as int,
                    )[j + 1]);
                }
                assert(rest@.map_values(|n: TreeSliverNode| n@) =~= given.skip(i + 1));
            }
            let id = node.id;
            map.insert(id, node);
            i = i + 1;
            proof {
                assert(map@.map_values(|n: TreeSliverNode| n@) =~= node_map(
                    given.take(i as int),
                ));
            }
        }
        proof {
            assert(given.take(i as int) =~= given);
        }
        let mut tree = TreeSliver {
            nodes: map,
            roots,
            active: Vec::new(),
            animating: HashMap::new(),
            animation_disabled: true,
            toggles: Vec::new(),
        };
        tree.unpack_active_nodes();
        tree
    }

    /// The node with this id, if the tree has one.
    pub fn node(&self, id: u64) -> (r: Option<&TreeSliverNode>)
        ensures
            match r {
                Some(n) => self.view().nodes.contains_key(id) && n@ == self.view().nodes[id],
                None => !self.view().nodes.contains_key(id),
            },
    {
        self.nodes.get(&id)
    }

    /// The active nodes, in row order.
    pub fn active_nodes(&self) -> (r: &[u64])
        ensures
            r@ == self.view().active,
    {
        self.active.as_slice()
    }

    /// Which nodes were toggled, in order, for a caller standing in for a
    /// node-toggle callback.
    pub fn toggles(&self) -> (r: &[u64])
        ensures
            r@ == self.view().toggles,
    {
        self.toggles.as_slice()
    }

    /// Whether a walk goes into this node's children: see [`unpacks`].
    pub fn should_unpack_node(&self, id: u64) -> (r: bool)
        ensures
            r == unpacks(shape_of(self.view().nodes), self.view().animating, id),
    {
        match self.nodes.get(&id) {
            None => false,
            Some(node) => {
                if node.children.len() == 0 {
                    false
                } else if self.animating.contains_key(&id) {
                    true
                } else {
                    node.expanded
                }
            },
        }
    }

    /// Rebuilds the active rows: a depth-first walk from the roots that
    /// writes each node's depth and parent as it goes, which is why a node
    /// moved elsewhere in the tree needs no fixing up.
    pub fn unpack_active_nodes(&mut self)
        ensures
            final(self).view() == unpacked(old(self).view()),
    {
        self.active = Vec::new();
        let roots = copy_ids(&self.roots);
        let fuel = self.nodes.len();
        proof {
            assert(self.nodes_view().dom() =~= self.nodes@.dom());
        }
        self.unpack(&roots, 0, None, fuel);
        proof {
            assert(self.active@ =~= ids_of(root_walk(old(self).view())));
        }
    }

    fn unpack(&mut self, ids: &Vec<u64>, depth: usize, parent: Option<u64>, fuel: usize)
        requires
            depth + fuel <= usize::MAX,
        ensures
            final(self).nodes_view() == write_visits(
                old(self).nodes_view(),
                walk(
                    shape_of(old(self).nodes_view()),
                    old(self).animating@,
                    ids@,
                    depth as nat,
                    parent,
                    fuel as nat,
                ),
            ),
            final(self).active@ == old(self).active@ + ids_of(
                walk(
                    shape_of(old(self).nodes_view()),
                    old(self).animating@,
                    ids@,
                    depth as nat,
                    parent,
                    fuel as nat,
                ),
            ),
            final(self).animating@ == old(self).animating@,
            final(self).roots@ == old(self).roots@,
            final(self).toggles@ == old(self).toggles@,
            final(self).animation_disabled == old(self).animation_disabled,
        decreases fuel,
    {
        let ghost shape = shape_of(self.nodes_view());
        let ghost anim = self.animating@;
        let ghost n0 = self.nodes_view();
        let ghost a0 = self.active@;
        let mut i: usize = 0;
        while i < ids.len()
            invariant
                i <= ids.len(),
                depth + fuel <= usize::MAX,
                shape == shape_of(old(self).nodes_view()),
                anim == old(self).animating@,
                n0 == old(self).nodes_view(),
                a0 == old(self).active@,
                self.animating@ == anim,
                self.roots@ == old(self).roots@,
                self.toggles@ == old(self).toggles@,
                self.animation_disabled == old(self).animation_disabled,
                self.nodes_view() == write_visits(
                    n0,
                    walk(shape, anim, ids@.take(i as int), depth as nat, parent, fuel as nat),
                ),
                self.active@ == a0 + ids_of(
                    walk(shape, anim, ids@.take(i as int), depth as nat, parent, fuel as nat),
                ),
            decreases ids.len() - i,
        {
            let id = ids[i];
            let ghost done = walk(shape, anim, ids@.take(i as int), depth as nat, parent, fuel as nat);
            proof {
                assert(ids@.take(i + 1).drop_last() =~= ids@.take(i as int));
                assert(ids@.take(i + 1).last() == id);
                lemma_write_keeps_shape(n0, done);
            }
            let ghost before = self.nodes_view();
            match self.nodes.remove(&id) {
                Some(node) => {
                    let mut node = node;
                    node.depth = Some(depth);
                    node.parent = parent;
                    self.nodes.insert(id, node);
                    proof {
                        assert(self.nodes_view() =~= write_visit(
                            before,
                            Visit { id, depth: depth as nat, parent },
                        ));
                    }
                },
                None => {
                    proof {
                        assert(self.nodes_view() =~= before);
                    }
                },
            }
            self.active.push(id);
            let ghost here = seq![Visit { id, depth: depth as nat, parent }];
            proof {
                lemma_write_visits_concat(n0, done, here);
                assert(here.drop_last() =~= Seq::<Visit>::empty());
                assert(write_visits(before, here.drop_last()) == before);
                assert(write_visits(before, here) == write_visit(before, here.last()));
                assert(self.nodes_view() == write_visits(n0, done + here));
                assert(ids_of(done + here) =~= ids_of(done) + seq![id]);
                lemma_write_keeps_shape(n0, done + here);
                assert(shape_of(self.nodes_view()) == shape);
            }
            if fuel > 0 && self.should_unpack_node(id) {
                let children = match self.nodes.get(&id) {
                    Some(node) => copy_ids(&node.children),
                    None => Vec::new(),
                };
                let ghost mid_nodes = self.nodes_view();
                let ghost mid_active = self.active@;
                self.unpack(&children, depth + 1, Some(id), fuel - 1);
                proof {
                    let below = walk(
                        shape,
                        anim,
                        shape[id].children,
                        depth as nat + 1,
                        Some(id),
                        (fuel - 1) as nat,
                    );
                    assert(children@ == shape[id].children);
                    assert(walk_node(shape, anim, id, depth as nat, parent, fuel as nat) == here
                        + below);
                    lemma_write_visits_concat(n0, done + here, below);
                    assert(done + (here + below) =~= done + here + below);
                    assert(ids_of(done + here + below) =~= ids_of(done + here) + ids_of(below));
                }
            } else {
                proof {
                    assert(walk_node(shape, anim, id, depth as nat, parent, fuel as nat) =~= here);
                }
            }
            proof {
                assert(walk(shape, anim, ids@.take(i + 1), depth as nat, parent, fuel as nat)
                    == done + walk_node(shape, anim, id, depth as nat, parent, fuel as nat));
            }
            i = i + 1;
        }
        proof {
            assert(ids@.take(i as int) =~= ids@);
        }
    }
}


/// The first row holding `id`, if any.
fn row_of(active: &Vec<u64>, id: u64) -> (r: Option<usize>)
    ensures
        match r {
            Some(at) => first_row(active@, id, at as int),
            None => !active@.contains(id),
        },
{
    let mut i: usize = 0;
    while i < active.len()
        invariant
            i <= active.len(),
            forall|j: int| 0 <= j < i ==> active@[j] != id,
        decreases active.len() - i,
    {
        if active[i] == id {
            return Some(i);
        }
        i = i + 1;
    }
    None
}

impl TreeSliver {
    /// Toggles one node: see [`toggled`].
    pub fn toggle_node(&mut self, id: u64)
        ensures
            final(self).view() == toggled(old(self).view(), id),
    {
        let now_expanded = match self.nodes.get(&id) {
            None => {
                return ;
            },
            Some(node) => {
                if node.children.len() == 0 {
                    return ;
                }
                !node.expanded
            },
        };
        match self.nodes.remove(&id) {
            Some(node) => {
                let mut node = node;
                node.expanded = now_expanded;
                self.nodes.insert(id, node);
            },
            None => {},
        }
        self.toggles.push(id);
        if self.animation_disabled {
            self.animating.remove(&id);
        } else {
            let direction = if now_expanded {
                ToggleDirection::Expanding
            } else {
                ToggleDirection::Collapsing
            };
            self.animating.insert(id, direction);
        }
        proof {
            let t = old(self).view();
            assert(self.nodes_view() =~= t.nodes.insert(
                id,
                NodeView { expanded: now_expanded, ..t.nodes[id] },
            ));
        }
        self.unpack_active_nodes();
    }

    /// The animation of a node finishing: see [`finished`].
    pub fn finish_toggle_animation(&mut self, id: u64)
        ensures
            final(self).view() == finished(old(self).view(), id),
    {
        let direction = self.animating.remove(&id);
        match direction {
            Some(ToggleDirection::Collapsing) => self.unpack_active_nodes(),
            _ => {},
        }
    }

    pub fn is_animating(&self, id: u64) -> (r: bool)
        ensures
            r == self.view().animating.contains_key(id),
    {
        self.animating.contains_key(&id)
    }

    /// How deep a node's row sits, zero for a node with no row written yet;
    /// its indent is this many steps of the indentation.
    pub fn depth_for(&self, id: u64) -> (r: usize)
        ensures
            r == (if self.view().nodes.contains_key(id) && self.view().nodes[id].depth is Some {
                self.view().nodes[id].depth->0
            } else {
                0
            }),
    {
        match self.nodes.get(&id) {
            Some(node) => match node.depth {
                Some(d) => d,
                None => 0,
            },
            None => 0,
        }
    }

    /// The rows an animating node's children occupy, first and last. It is
    /// **recomputed** rather than recorded, because the children's rows move
    /// whenever anything above them expands or collapses. `None` for a node
    /// with no row or no children.
    pub fn animation_range(&self, id: u64) -> (r: Option<(usize, usize)>)
        requires
            forall|at: int|
                first_row(self.view().active, id, at) && self.view().nodes.contains_key(id) ==> at
                    + self.view().nodes[id].children.len() < usize::MAX,
        ensures
            match r {
                Some((first, last)) => {
                    &&& first >= 1
                    &&& first_row(self.view().active, id, first - 1)
                    &&& self.view().nodes.contains_key(id)
                    &&& self.view().nodes[id].children.len() > 0
                    &&& last == first - 1 + self.view().nodes[id].children.len()
                },
                None => !self.view().active.contains(id) || !self.view().nodes.contains_key(id)
                    || self.view().nodes[id].children.len() == 0,
            },
    {
        let at = match row_of(&self.active, id) {
            Some(at) => at,
            None => {
                return None;
            },
        };
        let node = match self.nodes.get(&id) {
            Some(node) => node,
            None => {
                return None;
            },
        };
        if node.children.len() == 0 {
            return None;
        }
        proof {
            assert(first_row(self.view().active, id, at as int));
            assert(at + self.view().nodes[id].children.len() < usize::MAX);
            assert(node.children@ == self.view().nodes[id].children);
        }
        let leading = at + 1;
        Some((leading, leading + node.children.len() - 1))
    }

    /// The expand-all or collapse-all walk: see [`walk_from`].
    fn walk_all_from(&mut self, ids: &Vec<u64>, expand: bool, deferred: &mut Vec<u64>, fuel: usize)
        ensures
            ({
                let w = walk_from(
                    shape_of(old(self).nodes_view()),
                    old(self).active@,
                    ids@,
                    expand,
                    fuel as nat,
                );
                &&& shape_of(final(self).nodes_view()) == w.0
                &&& final(deferred)@ == old(deferred)@ + w.1
            }),
            final(self).nodes_view().dom() == old(self).nodes_view().dom(),
            forall|k: u64|
                old(self).nodes_view().contains_key(k) ==> #[trigger] final(self).nodes_view()[k]
                    == (NodeView {
                    expanded: final(self).nodes_view()[k].expanded,
                    ..old(self).nodes_view()[k]
                }),
            final(self).active@ == old(self).active@,
            final(self).animating@ == old(self).animating@,
            final(self).roots@ == old(self).roots@,
            final(self).toggles@ == old(self).toggles@,
            final(self).animation_disabled == old(self).animation_disabled,
        decreases fuel,
    {
        let ghost s0 = shape_of(self.nodes_view());
        let ghost n0 = self.nodes_view();
        let ghost d0 = deferred@;
        let ghost act = self.active@;
        let mut i: usize = 0;
        while i < ids.len()
            invariant
                i <= ids.len(),
                s0 == shape_of(old(self).nodes_view()),
                n0 == old(self).nodes_view(),
                d0 == old(deferred)@,
                act == old(self).active@,
                shape_of(self.nodes_view()) == walk_from(
                    s0,
                    act,
                    ids@.take(i as int),
                    expand,
                    fuel as nat,
                ).0,
                deferred@ == d0 + walk_from(s0, act, ids@.take(i as int), expand, fuel as nat).1,
                self.nodes_view().dom() == n0.dom(),
                forall|k: u64|
                    n0.contains_key(k) ==> #[trigger] self.nodes_view()[k] == (NodeView {
                        expanded: self.nodes_view()[k].expanded,
                        ..n0[k]
                    }),
                self.active@ == act,
                self.animating@ == old(self).animating@,
                self.roots@ == old(self).roots@,
                self.toggles@ == old(self).toggles@,
                self.animation_disabled == old(self).animation_disabled,
            decreases ids.len() - i,
        {
            let id = ids[i];
            let ghost cur = shape_of(self.nodes_view());
            let ghost before = walk_from(s0, act, ids@.take(i as int), expand, fuel as nat);
            proof {
                assert(ids@.take(i + 1).drop_last() =~= ids@.take(i as int));
                assert(ids@.take(i + 1).last() == id);
                assert(walk_from(s0, act, ids@.take(i + 1), expand, fuel as nat) == (
                    walk_from_node(cur, act, id, expand, fuel as nat).0,
                    before.1 + walk_from_node(cur, act, id, expand, fuel as nat).1,
                ));
            }
            let children = match self.nodes.get(&id) {
                None => {
                    i = i + 1;
                    proof {
                        assert(before.1 + Seq::<u64>::empty() =~= before.1);
                    }
                    continue ;
                },
                Some(node) => copy_ids(&node.children),
            };
            if children.len() == 0 {
                i = i + 1;
                proof {
                    assert(before.1 + Seq::<u64>::empty() =~= before.1);
                }
                continue ;
            }
            let ghost mid_deferred = deferred@;
            if fuel > 0 {
                self.walk_all_from(&children, expand, deferred, fuel - 1);
            }
            let ghost below = if fuel > 0 {
                walk_from(cur, act, cur[id].children, expand, (fuel - 1) as nat)
            } else {
                (cur, Seq::<u64>::empty())
            };
            proof {
                assert(children@ == cur[id].children);
                assert(shape_of(self.nodes_view()) == below.0);
                assert(deferred@ == mid_deferred + below.1);
            }
            let flag = match self.nodes.get(&id) {
                Some(node) => node.expanded,
                None => expand,
            };
            if flag == expand {
                proof {
                    assert(deferred@ =~= d0 + (before.1 + below.1));
                }
            } else if contains_id(&self.active, id) {
                deferred.push(id);
                proof {
                    assert(deferred@ =~= d0 + (before.1 + below.1.push(id)));
                }
            } else {
                let ghost mid = self.nodes_view();
                match self.nodes.remove(&id) {
                    Some(node) => {
                        let mut node = node;
                        node.expanded = expand;
                        self.nodes.insert(id, node);
                    },
                    None => {},
                }
                proof {
                    assert(self.nodes_view() =~= mid.insert(
                        id,
                        NodeView { expanded: expand, ..mid[id] },
                    ));
                    assert(shape_of(self.nodes_view()) =~= below.0.insert(
                        id,
                        NodeShape { expanded: expand, ..below.0[id] },
                    ));
                    assert(self.nodes_view().dom() =~= n0.dom());
                    assert(deferred@ =~= d0 + (before.1 + below.1));
                }
            }
            i = i + 1;
        }
        proof {
            assert(ids@.take(i as int) =~= ids@);
        }
    }

    /// Expanding or collapsing everything: see [`walked_all`].
    fn walk_all(&mut self, expand: bool)
        ensures
            final(self).view() == walked_all(old(self).view(), expand),
    {
        let mut deferred: Vec<u64> = Vec::new();
        let roots = copy_ids(&self.roots);
        let fuel = self.nodes.len();
        proof {
            assert(self.nodes_view().dom() =~= self.nodes@.dom());
        }
        self.walk_all_from(&roots, expand, &mut deferred, fuel);
        let ghost t = old(self).view();
        let ghost w = walk_from(shape_of(t.nodes), t.active, t.roots, expand, t.nodes.len());
        let ghost flagged = TreeView { nodes: with_flags(t.nodes, w.0), ..t };
        proof {
            assert(deferred@ =~= w.1);
            assert(self.nodes_view() =~= with_flags(t.nodes, w.0));
            assert(self.view() == flagged);
        }
        let mut k: usize = deferred.len();
        while k > 0
            invariant
                k <= deferred.len(),
                deferred@ == w.1,
                self.view() == toggle_all(flagged, w.1.reverse().take(w.1.len() - k)),
            decreases k,
        {
            k = k - 1;
            proof {
                let r = w.1.reverse();
                assert(r.take(w.1.len() - k).drop_last() =~= r.take(w.1.len() - k - 1));
                assert(r.take(w.1.len() - k).last() == w.1[k as int]);
            }
            self.toggle_node(deferred[k]);
        }
        proof {
            assert(w.1.reverse().take(w.1.len() as int) =~= w.1.reverse());
        }
    }

    /// The first node in tree order with this content: see [`search`].
    fn search_from(&self, ids: &Vec<u64>, content: &str, fuel: usize) -> (r: Option<u64>)
        ensures
            r == search(self.view().nodes, ids@, content@, fuel as nat),
        decreases fuel,
    {
        let mut i: usize = 0;
        proof {
            assert(ids@.skip(0) =~= ids@);
        }
        while i < ids.len()
            invariant
                i <= ids.len(),
                search(self.view().nodes, ids@, content@, fuel as nat) == search(
                    self.view().nodes,
                    ids@.skip(i as int),
                    content@,
                    fuel as nat,
                ),
            decreases ids.len() - i,
        {
            let id = ids[i];
            proof {
                assert(ids@.skip(i as int)[0] == id);
                assert(ids@.skip(i as int).drop_first() =~= ids@.skip(i + 1));
            }
            let node = match self.nodes.get(&id) {
                Some(node) => node,
                None => {
                    return None;
                },
            };
            if same_text(node.content.as_str(), content) {
                return Some(id);
            }
            if fuel > 0 {
                let children = copy_ids(&node.children);
                let found = self.search_from(&children, content, fuel - 1);
                if found.is_some() {
                    return found;
                }
            }
            i = i + 1;
        }
        proof {
            assert(ids@.skip(i as int) =~= Seq::<u64>::empty());
        }
        None
    }
}

/// Whether `id` is in `ids`.
fn contains_id(ids: &Vec<u64>, id: u64) -> (r: bool)
    ensures
        r == ids@.contains(id),
{
    match row_of(ids, id) {
        Some(_) => true,
        None => false,
    }
}

/// What a tree controller can ask of whatever implements the tree, so that
/// other widgets can implement it and be driven by the same controller.
pub trait TreeSliverStateMixin {
    fn is_expanded(&self, node: u64) -> bool;

    /// A node is active when its parent chain is expanded; this does not
    /// reflect whether it is visible in the viewport.
    fn is_active(&self, node: u64) -> bool;

    fn toggle_node(&mut self, node: u64);

    fn collapse_all(&mut self);

    fn expand_all(&mut self);

    /// Searches the **whole** tree rather than the active rows, so a caller
    /// can find and expand something currently hidden.
    fn get_node_for(&self, content: &str) -> Option<u64>;

    /// The row of an active node; `None` for an inactive one.
    fn get_active_index_for(&self, node: u64) -> Option<usize>;
}

/// Whether the tree holds this node, expanded.
pub open spec fn expanded_in(t: TreeView, id: u64) -> bool {
    t.nodes.contains_key(id) && t.nodes[id].expanded
}

/// The first node in tree order with this content, searching the whole tree
/// from the roots.
pub open spec fn found_in(t: TreeView, content: Seq<char>) -> Option<u64> {
    search(t.nodes, t.roots, content, t.nodes.len())
}

impl Default for TreeSliver {
    /// An empty tree, with the toggle animation switched on.
    fn default() -> (r: TreeSliver)
        ensures
            r.view() == (TreeView {
                nodes: Map::empty(),
                roots: Seq::empty(),
                active: Seq::empty(),
                animating: Map::empty(),
                animation_disabled: false,
                toggles: Seq::empty(),
            }),
    {
        let r = TreeSliver {
            nodes: HashMap::new(),
            roots: Vec::new(),
            active: Vec::new(),
            animating: HashMap::new(),
            animation_disabled: false,
            toggles: Vec::new(),
        };
        proof {
            assert(r.nodes_view() =~= Map::empty());
        }
        r
    }
}

impl TreeSliverStateMixin for TreeSliver {
    fn is_expanded(&self, node: u64) -> (r: bool)
        ensures
            r == expanded_in(self.view(), node),
    {
        match self.nodes.get(&node) {
            Some(n) => n.expanded,
            None => false,
        }
    }

    fn is_active(&self, node: u64) -> (r: bool)
        ensures
            r == self.view().active.contains(node),
    {
        contains_id(&self.active, node)
    }

    fn toggle_node(&mut self, node: u64)
        ensures
            final(self).view() == toggled(old(self).view(), node),
    {
        TreeSliver::toggle_node(self, node);
    }

    fn collapse_all(&mut self)
        ensures
            final(self).view() == walked_all(old(self).view(), false),
    {
        self.walk_all(false);
    }

    fn expand_all(&mut self)
        ensures
            final(self).view() == walked_all(old(self).view(), true),
    {
        self.walk_all(true);
    }

    /// Searches the whole tree depth first from the roots, so the answer is
    /// the first match in tree order.
    fn get_node_for(&self, content: &str) -> (r: Option<u64>)
        ensures
            r == found_in(self.view(), content@),
    {
        let roots = copy_ids(&self.roots);
        let fuel = self.nodes.len();
        proof {
            assert(self.nodes_view().dom() =~= self.nodes@.dom());
        }
        self.search_from(&roots, content, fuel)
    }

    fn get_active_index_for(&self, node: u64) -> (r: Option<usize>)
        ensures
            match r {
                Some(at) => first_row(self.view().active, node, at as int),
                None => !self.view().active.contains(node),
            },
    {
        row_of(&self.active, node)
    }
}

/// Which way a node is animating.
#[derive(Clone, Copy, Debug, PartialEq, Eq, Structural)]
pub enum ToggleDirection {
    Expanding,
    Collapsing,
}

/// Drives one tree. A controller is associated with **one** tree: sharing
/// one would leave expanding a node ambiguous about which tree it meant.
#[derive(Clone, Copy, Debug, PartialEq, Eq, Structural)]
pub struct TreeSliverController {
    attached: bool,
}

impl View for TreeSliverController {
    type V = bool;

    closed spec fn view(&self) -> bool {
        self.attached
    }
}

impl Default for TreeSliverController {
    fn default() -> (r: TreeSliverController)
        ensures
            !r@,
    {
        TreeSliverController { attached: false }
    }
}

/// The message a second attachment is refused with.
pub open spec fn one_tree_message() -> Seq<char> {
    "a TreeSliverController can only be associated with one TreeSliver"@
}

impl TreeSliverController {
    pub fn new() -> (r: TreeSliverController)
        ensures
            !r@,
    {
        TreeSliverController { attached: false }
    }

    pub fn is_attached(&self) -> (r: bool)
        ensures
            r == self@,
    {
        self.attached
    }

    /// Attaches the controller to a tree; refused while it is attached to one.
    pub fn attach(&mut self) -> (r: Result<(), &'static str>)
        ensures
            final(self)@,
            match r {
                Ok(()) => !old(self)@,
                Err(message) => old(self)@ && message@ == one_tree_message(),
            },
    {
        if self.attached {
            return Err("a TreeSliverController can only be associated with one TreeSliver");
        }
        self.attached = true;
        Ok(())
    }

    pub fn detach(&mut self)
        ensures
            !final(self)@,
    {
        self.attached = false;
    }

    /// Whether the node is expanded. Every question needs the controller
    /// attached.
    pub fn is_expanded(&self, tree: &TreeSliver, node: u64) -> (r: bool)
        requires
            self@,
        ensures
            r == expanded_in(tree.view(), node),
    {
        TreeSliverStateMixin::is_expanded(tree, node)
    }

    pub fn is_active(&self, tree: &TreeSliver, node: u64) -> (r: bool)
        requires
            self@,
        ensures
            r == tree.view().active.contains(node),
    {
        TreeSliverStateMixin::is_active(tree, node)
    }

    pub fn get_node_for(&self, tree: &TreeSliver, content: &str) -> (r: Option<u64>)
        requires
            self@,
        ensures
            r == found_in(tree.view(), content@),
    {
        TreeSliverStateMixin::get_node_for(tree, content)
    }

    pub fn toggle_node(&self, tree: &mut TreeSliver, node: u64)
        requires
            self@,
        ensures
            final(tree).view() == toggled(old(tree).view(), node),
    {
        TreeSliver::toggle_node(tree, node);
    }

    /// Expands the node; **no effect if it is already expanded**. A caller
    /// that said "expand" meant the end state, not the transition.
    pub fn expand_node(&self, tree: &mut TreeSliver, node: u64)
        requires
            self@,
        ensures
            final(tree).view() == (if expanded_in(old(tree).view(), node) {
                old(tree).view()
            } else {
                toggled(old(tree).view(), node)
            }),
    {
        if TreeSliverStateMixin::is_expanded(tree, node) {
            return ;
        }
        TreeSliver::toggle_node(tree, node);
    }

    /// Collapses the node; no effect if it is not expanded.
    pub fn collapse_node(&self, tree: &mut TreeSliver, node: u64)
        requires
            self@,
        ensures
            final(tree).view() == (if !expanded_in(old(tree).view(), node) {
                old(tree).view()
            } else {
                toggled(old(tree).view(), node)
            }),
    {
        if !TreeSliverStateMixin::is_expanded(tree, node) {
            return ;
        }
        TreeSliver::toggle_node(tree, node);
    }

    pub fn expand_all(&self, tree: &mut TreeSliver)
        requires
            self@,
        ensures
            final(tree).view() == walked_all(old(tree).view(), true),
    {
        TreeSliverStateMixin::expand_all(tree);
    }

    pub fn collapse_all(&self, tree: &mut TreeSliver)
        requires
            self@,
        ensures
            final(tree).view() == walked_all(old(tree).view(), false),
    {
        TreeSliverStateMixin::collapse_all(tree);
    }
}

/// A walk over nodes none of which unpacks is just those nodes, in order.
proof fn lemma_walk_without_unpacking(
    shape: Map<u64, NodeShape>,
    animating: Map<u64, ToggleDirection>,
    ids: Seq<u64>,
    depth: nat,
    parent: Option<u64>,
    fuel: nat,
)
    requires
        forall|i: int| 0 <= i < ids.len() ==> !unpacks(shape, animating, #[trigger] ids[i]),
    ensures
        ids_of(walk(shape, animating, ids, depth, parent, fuel)) == ids,
    decreases ids.len(),
{
    if ids.len() > 0 {
        lemma_walk_without_unpacking(shape, animating, ids.drop_last(), depth, parent, fuel);
        assert(!unpacks(shape, animating, ids[ids.len() - 1]));
        let before = walk(shape, animating, ids.drop_last(), depth, parent, fuel);
        let here = walk_node(shape, animating, ids.last(), depth, parent, fuel);
        assert(here =~= seq![Visit { id: ids.last(), depth, parent }]);
        assert(ids_of(before + here) =~= ids_of(before) + seq![ids.last()]);
        assert(ids.drop_last() + seq![ids.last()] =~= ids);
    }
}

/// A collapsed tree is only its roots: when no root unpacks, the active rows
/// are the roots, in order.
pub proof fn lemma_a_collapsed_tree_is_only_its_roots(t: TreeView)
    requires
        forall|i: int|
            0 <= i < t.roots.len() ==> !unpacks(shape_of(t.nodes), t.animating, #[trigger] t.roots[i]),
    ensures
        unpacked(t).active == t.roots,
{
    lemma_walk_without_unpacking(shape_of(t.nodes), t.animating, t.roots, 0, None, t.nodes.len());
}

/// Whether a row of a walk over `ids` at `depth` under `parent` is either one
/// of those nodes at that depth, or sits deeper, as a child of a node that
/// unpacks.
pub open spec fn sits_in_walk(
    shape: Map<u64, NodeShape>,
    animating: Map<u64, ToggleDirection>,
    ids: Seq<u64>,
    depth: nat,
    parent: Option<u64>,
    v: Visit,
) -> bool {
    ||| (v.parent == parent && ids.contains(v.id) && v.depth == depth)
    ||| (v.parent is Some && unpacks(shape, animating, v.parent->0) && shape[v.parent->0].children.contains(
        v.id,
    ) && v.depth > depth)
}

proof fn lemma_walk_rows(
    shape: Map<u64, NodeShape>,
    animating: Map<u64, ToggleDirection>,
    ids: Seq<u64>,
    depth: nat,
    parent: Option<u64>,
    fuel: nat,
)
    ensures
        forall|j: int|
            0 <= j < walk(shape, animating, ids, depth, parent, fuel).len() ==> sits_in_walk(
                shape,
                animating,
                ids,
                depth,
                parent,
                #[trigger] walk(shape, animating, ids, depth, parent, fuel)[j],
            ),
    decreases fuel, ids.len(), 1nat,
{
    if ids.len() > 0 {
        let before = walk(shape, animating, ids.drop_last(), depth, parent, fuel);
        let here = walk_node(shape, animating, ids.last(), depth, parent, fuel);
        lemma_walk_rows(shape, animating, ids.drop_last(), depth, parent, fuel);
        lemma_walk_node_rows(shape, animating, ids.last(), depth, parent, fuel);
        assert forall|j: int| 0 <= j < (before + here).len() implies sits_in_walk(
            shape,
            animating,
            ids,
            depth,
            parent,
            #[trigger] (before + here)[j],
        ) by {
            if j < before.len() {
                assert((before + here)[j] == before[j]);
                assert(sits_in_walk(shape, animating, ids.drop_last(), depth, parent, before[j]));
                if before[j].parent == parent && ids.drop_last().contains(before[j].id)
                    && before[j].depth == depth {
                    let k = choose|k: int|
                        0 <= k < ids.drop_last().len() && ids.drop_last()[k] == before[j].id;
                    assert(ids[k] == before[j].id);
                }
            } else {
                assert((before + here)[j] == here[j - before.len()]);
                let v = here[j - before.len()];
                if v.parent == parent && v.id == ids.last() && v.depth == depth {
                    assert(ids[ids.len() - 1] == v.id);
                }
            }
        }
    }
}

proof fn lemma_walk_node_rows(
    shape: Map<u64, NodeShape>,
    animating: Map<u64, ToggleDirection>,
    id: u64,
    depth: nat,
    parent: Option<u64>,
    fuel: nat,
)
    ensures
        forall|j: int|
            0 <= j < walk_node(shape, animating, id, depth, parent, fuel).len() ==> {
                let v = #[trigger] walk_node(shape, animating, id, depth, parent, fuel)[j];
                ||| (v.parent == parent && v.id == id && v.depth == depth)
                ||| (v.parent is Some && unpacks(shape, animating, v.parent->0)
                    && shape[v.parent->0].children.contains(v.id) && v.depth > depth)
            },
    decreases fuel, 0nat, 0nat,
{
    let here = seq![Visit { id, depth, parent }];
    if unpacks(shape, animating, id) && fuel > 0 {
        let kids = shape[id].children;
        let below = walk(shape, animating, kids, depth + 1, Some(id), (fuel - 1) as nat);
        lemma_walk_rows(shape, animating, kids, depth + 1, Some(id), (fuel - 1) as nat);
        assert forall|j: int| 0 <= j < (here + below).len() implies {
            let v = #[trigger] (here + below)[j];
            ||| (v.parent == parent && v.id == id && v.depth == depth)
            ||| (v.parent is Some && unpacks(shape, animating, v.parent->0)
                && shape[v.parent->0].children.contains(v.id) && v.depth > depth)
        } by {
            if j > 0 {
                assert((here + below)[j] == below[j - 1]);
                assert(sits_in_walk(shape, animating, kids, depth + 1, Some(id), below[j - 1]));
            }
        }
    } else {
        assert(walk_node(shape, animating, id, depth, parent, fuel) =~= here);
    }
}

/// Active is **reachable through expanded parents**: every active row is
/// either a root at depth zero with no parent, or sits, deeper, as a child
/// of a node that unpacks -- one that is expanded or animating.
pub proof fn lemma_rows_sit_under_unpacked_nodes(t: TreeView)
    ensures
        forall|j: int|
            0 <= j < root_walk(t).len() ==> sits_in_walk(
                shape_of(t.nodes),
                t.animating,
                t.roots,
                0,
                None,
                #[trigger] root_walk(t)[j],
            ),
        unpacked(t).active.len() == root_walk(t).len(),
        forall|j: int|
            0 <= j < root_walk(t).len() ==> unpacked(t).active[j] == #[trigger] root_walk(t)[j].id,
{
    lemma_walk_rows(shape_of(t.nodes), t.animating, t.roots, 0, None, t.nodes.len());
}

/// A collapsing node's children stay active while it animates -- there would
/// otherwise be nothing left to animate away -- though its flag flipped at
/// once; when the animation finishes they go.
pub proof fn lemma_a_collapsing_node_keeps_its_children(t: TreeView, id: u64)
    requires
        t.nodes.contains_key(id),
        t.nodes[id].children.len() > 0,
        t.nodes[id].expanded,
        !t.animation_disabled,
    ensures
        ({
            let u = toggled(t, id);
            let f = finished(u, id);
            &&& !expanded_in(u, id)
            &&& u.animating.contains_key(id)
            &&& u.animating[id] == ToggleDirection::Collapsing
            &&& unpacks(shape_of(u.nodes), u.animating, id)
            &&& !unpacks(shape_of(f.nodes), f.animating, id)
        }),
{
    let u = toggled(t, id);
    let flipped = TreeView {
        nodes: t.nodes.insert(id, NodeView { expanded: false, ..t.nodes[id] }),
        toggles: t.toggles.push(id),
        animating: t.animating.insert(id, ToggleDirection::Collapsing),
        ..t
    };
    assert(u == unpacked(flipped));
    lemma_write_keeps_shape(flipped.nodes, root_walk(flipped));
    assert(shape_of(u.nodes)[id] == shape_of(flipped.nodes)[id]);
    let rest = TreeView { animating: u.animating.remove(id), ..u };
    lemma_write_keeps_shape(rest.nodes, root_walk(rest));
    assert(shape_of(finished(u, id).nodes)[id] == shape_of(rest.nodes)[id]);
}

/// Toggling a leaf, or a node the tree does not hold, does nothing at all.
pub proof fn lemma_toggling_a_leaf_does_nothing(t: TreeView, id: u64)
    requires
        !t.nodes.contains_key(id) || t.nodes[id].children.len() == 0,
    ensures
        toggled(t, id) == t,
{
}

/// Expanding a node is an end state, not a toggle: afterwards a node with
/// children is expanded, whether or not it was before.
pub proof fn lemma_expand_node_is_an_end_state(t: TreeView, id: u64)
    requires
        t.nodes.contains_key(id),
        t.nodes[id].children.len() > 0,
    ensures
        expanded_in(if expanded_in(t, id) { t } else { toggled(t, id) }, id),
        !expanded_in(if !expanded_in(t, id) { t } else { toggled(t, id) }, id),
{
    let now = !t.nodes[id].expanded;
    let flipped = TreeView {
        nodes: t.nodes.insert(id, NodeView { expanded: now, ..t.nodes[id] }),
        toggles: t.toggles.push(id),
        animating: if t.animation_disabled {
            t.animating.remove(id)
        } else {
            t.animating.insert(
                id,
                if now {
                    ToggleDirection::Expanding
                } else {
                    ToggleDirection::Collapsing
                },
            )
        },
        ..t
    };
    assert(toggled(t, id) == unpacked(flipped));
    lemma_write_keeps_shape(flipped.nodes, root_walk(flipped));
    assert(shape_of(unpacked(flipped).nodes)[id] == shape_of(flipped.nodes)[id]);
}

/// Whether every node of `shape` that has children already says `expand`.
pub open spec fn all_say(shape: Map<u64, NodeShape>, expand: bool) -> bool {
    forall|k: u64|
        shape.contains_key(k) && shape[k].children.len() > 0 ==> #[trigger] shape[k].expanded
            == expand
}

proof fn lemma_walk_from_settled(
    shape: Map<u64, NodeShape>,
    active: Seq<u64>,
    ids: Seq<u64>,
    expand: bool,
    fuel: nat,
)
    requires
        all_say(shape, expand),
    ensures
        walk_from(shape, active, ids, expand, fuel) == (shape, Seq::<u64>::empty()),
    decreases fuel, ids.len(), 1nat,
{
    if ids.len() > 0 {
        lemma_walk_from_settled(shape, active, ids.drop_last(), expand, fuel);
        lemma_walk_from_node_settled(shape, active, ids.last(), expand, fuel);
        assert(Seq::<u64>::empty() + Seq::<u64>::empty() =~= Seq::<u64>::empty());
    }
}

proof fn lemma_walk_from_node_settled(
    shape: Map<u64, NodeShape>,
    active: Seq<u64>,
    id: u64,
    expand: bool,
    fuel: nat,
)
    requires
        all_say(shape, expand),
    ensures
        walk_from_node(shape, active, id, expand, fuel) == (shape, Seq::<u64>::empty()),
    decreases fuel, 0nat, 0nat,
{
    if shape.contains_key(id) && shape[id].children.len() > 0 && fuel > 0 {
        lemma_walk_from_settled(shape, active, shape[id].children, expand, (fuel - 1) as nat);
    }
}

/// Expanding an already expanded tree changes nothing: no flag is set and no
/// node is toggled. The same holds of collapsing a collapsed one.
pub proof fn lemma_expanding_an_expanded_tree_changes_nothing(t: TreeView, expand: bool)
    requires
        all_say(shape_of(t.nodes), expand),
    ensures
        walked_all(t, expand) == t,
{
    let shape = shape_of(t.nodes);
    lemma_walk_from_settled(shape, t.active, t.roots, expand, t.nodes.len());
    assert(Seq::<u64>::empty().reverse() =~= Seq::<u64>::empty());
    assert(with_flags(t.nodes, shape) =~= t.nodes);
}

proof fn lemma_walk_from_defers_active(
    shape: Map<u64, NodeShape>,
    active: Seq<u64>,
    ids: Seq<u64>,
    expand: bool,
    fuel: nat,
)
    ensures
        forall|j: int|
            0 <= j < walk_from(shape, active, ids, expand, fuel).1.len() ==> active.contains(
                #[trigger] walk_from(shape, active, ids, expand, fuel).1[j],
            ),
    decreases fuel, ids.len(), 1nat,
{
    if ids.len() > 0 {
        let before = walk_from(shape, active, ids.drop_last(), expand, fuel);
        let here = walk_from_node(before.0, active, ids.last(), expand, fuel);
        lemma_walk_from_defers_active(shape, active, ids.drop_last(), expand, fuel);
        lemma_walk_from_node_defers_active(before.0, active, ids.last(), expand, fuel);
        assert forall|j: int| 0 <= j < (before.1 + here.1).len() implies active.contains(
            #[trigger] (before.1 + here.1)[j],
        ) by {
            if j < before.1.len() {
                assert((before.1 + here.1)[j] == before.1[j]);
            } else {
                assert((before.1 + here.1)[j] == here.1[j - before.1.len()]);
            }
        }
    }
}

proof fn lemma_walk_from_node_defers_active(
    shape: Map<u64, NodeShape>,
    active: Seq<u64>,
    id: u64,
    expand: bool,
    fuel: nat,
)
    ensures
        forall|j: int|
            0 <= j < walk_from_node(shape, active, id, expand, fuel).1.len() ==> active.contains(
                #[trigger] walk_from_node(shape, active, id, expand, fuel).1[j],
            ),
    decreases fuel, 0nat, 0nat,
{
    if shape.contains_key(id) && shape[id].children.len() > 0 && fuel > 0 {
        lemma_walk_from_defers_active(shape, active, shape[id].children, expand, (fuel - 1) as nat);
        let below = walk_from(shape, active, shape[id].children, expand, (fuel - 1) as nat);
        if below.0.contains_key(id) && below.0[id].expanded != expand && active.contains(id) {
            assert forall|j: int| 0 <= j < below.1.push(id).len() implies active.contains(
                #[trigger] below.1.push(id)[j],
            ) by {
                if j < below.1.len() {
                    assert(below.1.push(id)[j] == below.1[j]);
                }
            }
        }
    }
}

/// Only active nodes are toggled by expanding or collapsing everything: a
/// hidden node has its flag set directly, because toggling it would start an
/// animation nobody can see.
pub proof fn lemma_only_active_nodes_are_toggled(t: TreeView, expand: bool)
    ensures
        ({
            let w = walk_from(shape_of(t.nodes), t.active, t.roots, expand, t.nodes.len());
            forall|j: int| 0 <= j < w.1.len() ==> t.active.contains(#[trigger] w.1[j])
        }),
{
    lemma_walk_from_defers_active(shape_of(t.nodes), t.active, t.roots, expand, t.nodes.len());
}

proof fn lemma_search_finds_the_content(
    nodes: Map<u64, NodeView>,
    ids: Seq<u64>,
    content: Seq<char>,
    fuel: nat,
)
    ensures
        search(nodes, ids, content, fuel) matches Some(found) ==> nodes.contains_key(found)
            && nodes[found].content == content,
    decreases fuel, ids.len(),
{
    if ids.len() > 0 && nodes.contains_key(ids[0]) && nodes[ids[0]].content != content {
        if fuel > 0 {
            lemma_search_finds_the_content(nodes, nodes[ids[0]].children, content, (fuel - 1) as nat);
        }
        lemma_search_finds_the_content(nodes, ids.drop_first(), content, fuel);
    }
}

/// A node found by its content has that content, and the search looks
/// through the whole tree rather than just the active rows: a root with that
/// content is found whether or not anything is expanded.
pub proof fn lemma_a_found_node_has_the_content(t: TreeView, content: Seq<char>)
    ensures
        found_in(t, content) matches Some(found) ==> t.nodes.contains_key(found)
            && t.nodes[found].content == content,
        t.roots.len() > 0 && t.nodes.contains_key(t.roots[0]) && t.nodes[t.roots[0]].content
            == content ==> found_in(t, content) == Some(t.roots[0]),
{
    lemma_search_finds_the_content(t.nodes, t.roots, content, t.nodes.len());
}

/// Every id the tree names, among its roots or as a child, is one of its
/// nodes.
pub open spec fn names_only_its_nodes(t: TreeView) -> bool {
    &&& forall|i: int| 0 <= i < t.roots.len() ==> t.nodes.contains_key(#[trigger] t.roots[i])
    &&& forall|n: u64, i: int|
        t.nodes.contains_key(n) && 0 <= i < t.nodes[n].children.len() ==> t.nodes.contains_key(
            #[trigger] t.nodes[n].children[i],
        )
}

/// `path` runs down the tree from one of its roots without repeating a node:
/// each node on it is a child of the one before.
pub open spec fn is_path_from_roots(t: TreeView, path: Seq<u64>) -> bool {
    &&& path.len() > 0
    &&& t.roots.contains(path[0])
    &&& forall|i: int| 0 <= i < path.len() ==> t.nodes.contains_key(#[trigger] path[i])
    &&& forall|i: int, j: int|
        0 <= i && j == i + 1 && j < path.len() ==> t.nodes[#[trigger] path[i]].children.contains(
            #[trigger] path[j],
        )
    &&& path.no_duplicates()
}

proof fn lemma_search_reaches_the_path_end(
    t: TreeView,
    ids: Seq<u64>,
    content: Seq<char>,
    fuel: nat,
    path: Seq<u64>,
)
    requires
        names_only_its_nodes(t),
        forall|i: int| 0 <= i < ids.len() ==> t.nodes.contains_key(#[trigger] ids[i]),
        ids.contains(path[0]),
        path.len() > 0,
        path.len() - 1 <= fuel,
        forall|i: int| 0 <= i < path.len() ==> t.nodes.contains_key(#[trigger] path[i]),
        forall|i: int, j: int|
            0 <= i && j == i + 1 && j < path.len() ==> t.nodes[#[trigger] path[i]].children.contains(
                #[trigger] path[j],
            ),
        t.nodes[path.last()].content == content,
    ensures
        search(t.nodes, ids, content, fuel) is Some,
    decreases fuel, ids.len(),
{
    let k = choose|k: int| 0 <= k < ids.len() && ids[k] == path[0];
    assert(t.nodes.contains_key(ids[0]));
    if t.nodes[ids[0]].content != content {
        if k == 0 {
            assert(path.len() > 1);
            let rest = path.drop_first();
            assert(t.nodes[path[0]].children.contains(path[1]));
            let children = t.nodes[ids[0]].children;
            assert forall|i: int| 0 <= i < children.len() implies t.nodes.contains_key(
                #[trigger] children[i],
            ) by {}
            assert forall|i: int, j: int|
                0 <= i && j == i + 1 && j < rest.len() implies t.nodes[#[trigger] rest[i]].children.contains(
                #[trigger] rest[j],
            ) by {
                assert(rest[i] == path[i + 1] && rest[j] == path[j + 1]);
            }
            assert forall|i: int| 0 <= i < rest.len() implies t.nodes.contains_key(#[trigger] rest[i]) by {
                assert(rest[i] == path[i + 1]);
            }
            lemma_search_reaches_the_path_end(t, children, content, (fuel - 1) as nat, rest);
        } else {
            let tail = ids.drop_first();
            assert(tail[k - 1] == path[0]);
            assert forall|i: int| 0 <= i < tail.len() implies t.nodes.contains_key(#[trigger] tail[i]) by {
                assert(tail[i] == ids[i + 1]);
            }
            lemma_search_reaches_the_path_end(t, tail, content, fuel, path);
        }
    }
}

/// **The search covers the whole tree**: when a node with the content can be
/// reached from the roots, down through children without repeating a node,
/// a node with that content is found, however deep it lies and whether or
/// not anything is expanded. (A tree that names an id it has no node for can
/// end a search early, so the tree is taken to name only its own nodes.)
pub proof fn lemma_the_search_covers_the_whole_tree(
    t: TreeView,
    content: Seq<char>,
    path: Seq<u64>,
)
    requires
        t.nodes.dom().finite(),
        names_only_its_nodes(t),
        is_path_from_roots(t, path),
        t.nodes[path.last()].content == content,
    ensures
        found_in(t, content) is Some,
{
    path.unique_seq_to_set();
    assert(path.to_set().subset_of(t.nodes.dom()));
    vstd::set_lib::lemma_len_subset(path.to_set(), t.nodes.dom());
    lemma_search_reaches_the_path_end(t, t.roots, content, t.nodes.len(), path);
}

} // verus!
