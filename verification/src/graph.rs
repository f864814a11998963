use vstd::prelude::*;

use crate::WidgetId;

verus! {

/// Index of one node in a [`Graph`]'s node arena.
#[derive(Copy, Clone, Debug, PartialEq, Eq, Hash, Structural)]
pub struct NodeId(pub usize);

/// One node of the widget graph: the per-pass widget id it carries, a back
/// pointer to the node it was appended under, and its ordered children.
pub struct GraphNode {
    pub data: WidgetId,
    pub parent: Option<NodeId>,
    pub children: Vec<NodeId>,
}

/// An ordered, rooted tree over widget ids, arena-allocated. Nodes are
/// created detached and then appended as the last child of their parent;
/// a child is always allocated after its parent, so every child index is
/// strictly greater than its parent's index.
pub struct Graph {
    pub nodes: Vec<GraphNode>,
}

impl Graph {
    /// Well-formedness: children are in range, allocated strictly after
    /// their parent, and linked back to it; parent pointers in turn point
    /// strictly backwards at a node that lists this node among its children.
    pub open spec fn wf(&self) -> bool {
        forall|i: int|
            0 <= i < self.nodes@.len() ==> (#[trigger] self.node_wf(i))
    }

    pub open spec fn node_wf(&self, i: int) -> bool {
        let n = self.nodes@[i];
        &&& forall|j: int|
            0 <= j < n.children@.len() ==> {
                let c = (#[trigger] n.children@[j]).0;
                &&& i < c < self.nodes@.len()
                &&& self.nodes@[c as int].parent == Some(NodeId(i as usize))
            }
        &&& match n.parent {
            Some(p) => p.0 < i && self.nodes@[p.0 as int].children@.contains(NodeId(i as usize)),
            None => true,
        }
    }

    pub fn new() -> (g: Self)
        ensures
            g.nodes@ == Seq::<GraphNode>::empty(),
            g.wf(),
    {
        Graph { nodes: Vec::new() }
    }

    pub fn len(&self) -> (n: usize)
        ensures
            n == self.nodes@.len(),
    {
        self.nodes.len()
    }

    /// Allocates a fresh, detached node carrying `data` and returns its index.
    pub fn new_node(&mut self, data: WidgetId) -> (id: NodeId)
        requires
            old(self).wf(),
        ensures
            final(self).wf(),
            id == NodeId(old(self).nodes@.len() as usize),
            final(self).nodes@.len() == old(self).nodes@.len() + 1,
            final(self).nodes@[id.0 as int].data == data,
            final(self).nodes@[id.0 as int].parent is None,
            final(self).nodes@[id.0 as int].children@ == Seq::<NodeId>::empty(),
            forall|i: int|
                0 <= i < old(self).nodes@.len() ==> final(self).nodes@[i] == old(self).nodes@[i],
    {
        let id = NodeId(self.nodes.len());
        self.nodes.push(GraphNode { data, parent: None, children: Vec::new() });
        proof {
            assert forall|i: int| 0 <= i < self.nodes@.len() implies #[trigger] self.node_wf(i) by {
                if i < old(self).nodes@.len() {
                    assert(old(self).node_wf(i));
                    assert(self.nodes@[i] == old(self).nodes@[i]);
                }
            }
        }
        id
    }

    /// Appends `child` as the last child of `parent`, returning the
    /// zero-based sibling index `child` now occupies. A node can be
    /// attached only once, and only under a node allocated before it.
    pub fn append(&mut self, parent: NodeId, child: NodeId) -> (local: usize)
        requires
            old(self).wf(),
            parent.0 < old(self).nodes@.len(),
            child.0 < old(self).nodes@.len(),
            parent.0 < child.0,
            old(self).nodes@[child.0 as int].parent is None,
        ensures
            final(self).wf(),
            local == old(self).nodes@[parent.0 as int].children@.len(),
            final(self).nodes@.len() == old(self).nodes@.len(),
            final(self).nodes@[parent.0 as int].children@ == old(self).nodes@[
                parent.0 as int
            ].children@.push(child),
            final(self).nodes@[parent.0 as int].data == old(self).nodes@[parent.0 as int].data,
            final(self).nodes@[parent.0 as int].parent == old(self).nodes@[parent.0 as int].parent,
            final(self).nodes@[child.0 as int].parent == Some(parent),
            final(self).nodes@[child.0 as int].data == old(self).nodes@[child.0 as int].data,
            final(self).nodes@[child.0 as int].children@ == old(self).nodes@[
                child.0 as int
            ].children@,
            forall|i: int|
                0 <= i < old(self).nodes@.len() && i != parent.0 && i != child.0
                    ==> final(self).nodes@[i] == old(self).nodes@[i],
    {
        let local = {
            let p = &mut self.nodes[parent.0];
            let local = p.children.len();
            p.children.push(child);
            local
        };
        {
            let c = &mut self.nodes[child.0];
            c.parent = Some(parent);
        }
        proof {
            let post = *self;
            let pre = *old(self);
            assert(post.nodes@[parent.0 as int].children@ == pre.nodes@[
                parent.0 as int
            ].children@.push(child));
            assert forall|i: int| 0 <= i < post.nodes@.len() implies #[trigger] post.node_wf(i) by {
                assert(pre.node_wf(i));
                assert(pre.node_wf(parent.0 as int));
                assert(pre.node_wf(child.0 as int));
                let n = post.nodes@[i];
                assert forall|j: int| 0 <= j < n.children@.len() implies {
                    let c = (#[trigger] n.children@[j]).0;
                    &&& i < c < post.nodes@.len()
                    &&& post.nodes@[c as int].parent == Some(NodeId(i as usize))
                } by {
                    if i == parent.0 && j == n.children@.len() - 1 {
                        assert(n.children@[j] == child);
                    } else {
                        assert(pre.nodes@[i].children@[j] == n.children@[j]);
                        let c = n.children@[j].0;
                        assert(pre.nodes@[c as int].parent == Some(NodeId(i as usize)));
                        assert(c != child.0);
                    }
                }
                match n.parent {
                    Some(p) => {
                        if i == child.0 {
                            assert(p == parent);
                            assert(post.nodes@[p.0 as int].children@.contains(
                                NodeId(i as usize),
                            )) by {
                                assert(post.nodes@[p.0 as int].children@.last() == NodeId(
                                    i as usize,
                                ));
                            }
                        } else {
                            assert(pre.nodes@[i].parent == n.parent);
                            assert(pre.nodes@[p.0 as int].children@.contains(NodeId(i as usize)));
                            let k = choose|k: int|
                                0 <= k < pre.nodes@[p.0 as int].children@.len()
                                    && pre.nodes@[p.0 as int].children@[k] == NodeId(i as usize);
                            assert(post.nodes@[p.0 as int].children@[k] == NodeId(i as usize));
                            assert(post.nodes@[p.0 as int].children@.contains(NodeId(i as usize)));
                        }
                    },
                    None => {},
                }
            }
        }
        local
    }

    /// The ordered children of `node`.
    pub fn children(&self, node: NodeId) -> (r: &Vec<NodeId>)
        requires
            node.0 < self.nodes@.len(),
        ensures
            r@ == self.nodes@[node.0 as int].children@,
    {
        &self.nodes[node.0].children
    }

    /// The widget id carried by `node`.
    pub fn data(&self, node: NodeId) -> (r: WidgetId)
        requires
            node.0 < self.nodes@.len(),
        ensures
            r == self.nodes@[node.0 as int].data,
    {
        self.nodes[node.0].data
    }
}

} // verus!
