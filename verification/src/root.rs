//! The namespace tree: a stable-identifier arena of nodes with a path map.

use crate::node::{addr_valid, Container, Node};
use crate::osc::{OscMsg, OscValue};
use crate::param::value_kind;
use crate::param::{ParamGetSet, ParamSet};
use vstd::prelude::*;

verus! {

/// A stable, opaque identifier for a node, handed out on insertion.  It
/// survives unrelated removals and is rejected once its node is removed;
/// identifiers are never reused.
#[derive(Copy, Clone, PartialEq, Eq, Structural, Debug, Hash)]
pub struct NodeHandle(pub(crate) usize);

impl NodeHandle {
    /// The identifier as a number, for specifications.
    pub closed spec fn id(self) -> int {
        self.0 as int
    }
}

/// A namespace change pushed to interested listeners.
#[derive(Clone, PartialEq, Debug)]
pub enum NamespaceChange {
    PathAdded(String),
    PathRemoved(String),
}

/// A namespace change, as plain values: whether it is an addition, and the
/// full path concerned.
pub open spec fn ns_change_view(e: NamespaceChange) -> (bool, Seq<char>) {
    match e {
        NamespaceChange::PathAdded(p) => (true, p@),
        NamespaceChange::PathRemoved(p) => (false, p@),
    }
}

/// A node to be added by a deferred mutation.  A write handler cannot
/// itself install another write handler: a node added this way has none.
pub enum NewNode {
    Container(crate::node::Container),
    Get(crate::node::Get),
    /// A write-only leaf, from its parts.
    SetNode { address: String, description: Option<String>, params: Vec<ParamSet> },
    /// A read-write leaf, from its parts.
    GetSet { address: String, description: Option<String>, params: Vec<ParamGetSet> },
}

/// One deferred structural mutation of the tree, requested by a write
/// handler and performed after the dispatch that collected it.
pub enum TreeCommand {
    /// Add `node` under `parent`, or under the root when `parent` is `None`.
    Add { node: NewNode, parent: Option<NodeHandle> },
    /// Remove the subtree rooted at the handle.
    Remove(NodeHandle),
}

/// What a write handler may hand back: tree mutations to run, in order,
/// once the dispatch that is walking the tree has finished.
pub type OscWriteCallback = Vec<TreeCommand>;



/// The path map after storing `id` under `key`: an existing entry with
/// that key is replaced, else the pair is appended.
pub open spec fn map_upsert(m: Seq<(Seq<char>, int)>, key: Seq<char>, id: int) -> Seq<
    (Seq<char>, int),
> {
    if exists|k: int| 0 <= k < m.len() && (#[trigger] m[k]).0 == key {
        m.update(choose|k: int| 0 <= k < m.len() && (#[trigger] m[k]).0 == key, (key, id))
    } else {
        m.push((key, id))
    }
}

/// The effect of a successful insertion: the node is stored live in a
/// fresh slot at the end with no children, under `pid`, at the path
/// `base/address`; the parent gains it as its last child; everything else
/// is unchanged; the path map is upserted; and, with a listener attached
/// and room in the queue, a path-added event is appended.
pub open spec fn add_effect(
    pre: Root,
    node: Node,
    pid: int,
    base: Seq<char>,
    h: int,
    post: Root,
) -> bool {
    &&& h == pre.n_slots()
    &&& post.n_slots() == pre.n_slots() + 1
    &&& post.live(h)
    &&& post.node_at(h) == node
    &&& post.parent_of(h) == pid
    &&& post.children_of(h) == Seq::<int>::empty()
    &&& post.path_at(h) == base + seq!['/'] + node.spec_address()
    &&& forall|i: int| i != h ==> (#[trigger] post.live(i) <==> pre.live(i))
    &&& forall|i: int|
        #[trigger] pre.live(i) ==> post.node_at(i) == pre.node_at(i) && post.path_at(i)
            == pre.path_at(i) && post.parent_of(i) == pre.parent_of(i)
    &&& forall|i: int|
        #[trigger] pre.live(i) && i != pid ==> post.children_of(i) == pre.children_of(i)
    &&& post.children_of(pid) == pre.children_of(pid).push(h)
    &&& post.map_view() == map_upsert(pre.map_view(), post.path_at(h), h)
    &&& post.spec_name() == pre.spec_name()
    &&& post.ns_on() == pre.ns_on()
    &&& post.events() == (if pre.ns_on() && pre.events().len() < 1024 {
        pre.events().push((true, post.path_at(h)))
    } else {
        pre.events()
    })
}

/// One stored node: its materialized full path and the node itself.
pub struct NodeWrapper {
    pub full_path: String,
    pub node: Node,
}

/// One arena slot: the stored node, its parent and its children, by
/// identifier, in insertion order.
pub(crate) struct Entry {
    pub(crate) wrapper: NodeWrapper,
    pub(crate) parent: usize,
    pub(crate) children: Vec<usize>,
}

/// One entry of the path map.
pub(crate) struct PathEntry {
    pub(crate) path: String,
    pub(crate) id: usize,
}

/// How many pending namespace changes are kept before further ones are
/// dropped.
pub const NS_CHANGE_LEN: usize = 1024;

/// The root of an OSCQuery namespace tree: an arena of nodes with stable,
/// never-reused identifiers, a path map maintained in lockstep, and a
/// bounded queue of pending namespace-change events.
pub struct Root {
    name: Option<String>,
    nodes: Vec<Option<Entry>>,
    index_map: Vec<PathEntry>,
    ns_attached: bool,
    ns_events: Vec<NamespaceChange>,
}

impl Root {
    /// How many slots have ever been filled; identifiers run below this.
    pub closed spec fn n_slots(self) -> int {
        self.nodes@.len() as int
    }

    /// Whether `i` names a live node.
    pub closed spec fn live(self, i: int) -> bool {
        0 <= i < self.nodes@.len() && self.nodes@[i] is Some
    }

    /// The node stored at a live `i`.
    pub closed spec fn node_at(self, i: int) -> Node
        recommends
            self.live(i),
    {
        self.nodes@[i]->Some_0.wrapper.node
    }

    /// The full path of the node at a live `i`.
    pub closed spec fn path_at(self, i: int) -> Seq<char>
        recommends
            self.live(i),
    {
        self.nodes@[i]->Some_0.wrapper.full_path@
    }

    /// The parent identifier of the node at a live `i`.
    pub closed spec fn parent_of(self, i: int) -> int
        recommends
            self.live(i),
    {
        self.nodes@[i]->Some_0.parent as int
    }

    /// The children identifiers of the node at a live `i`, in insertion
    /// order.
    pub closed spec fn children_of(self, i: int) -> Seq<int>
        recommends
            self.live(i),
    {
        self.nodes@[i]->Some_0.children@.map_values(|c: usize| c as int)
    }

    /// The path map as pairs of path and identifier, in storage order.
    pub closed spec fn map_view(self) -> Seq<(Seq<char>, int)> {
        self.index_map@.map_values(|e: PathEntry| (e.path@, e.id as int))
    }

    /// The server name.
    pub closed spec fn spec_name(self) -> Option<Seq<char>> {
        match self.name {
            Option::Some(n) => Option::Some(n@),
            Option::None => Option::None,
        }
    }

    /// Whether a namespace-change listener is attached.
    pub closed spec fn ns_on(self) -> bool {
        self.ns_attached
    }

    /// The pending namespace changes, as plain values, in arrival order.
    pub closed spec fn events(self) -> Seq<(bool, Seq<char>)> {
        self.ns_events@.map_values(|e: NamespaceChange| ns_change_view(e))
    }

    /// The base that a child's path is appended to: empty for the root,
    /// the stored full path otherwise.
    pub open spec fn parent_base(self, p: int) -> Seq<char> {
        if p == 0 {
            Seq::empty()
        } else {
            self.path_at(p)
        }
    }

    /// The path map has distinct keys and every entry resolves to a live
    /// node with that full path.
    pub open spec fn map_wf(self) -> bool {
        &&& forall|k1: int, k2: int|
            0 <= k1 < k2 < self.map_view().len() ==> (#[trigger] self.map_view()[k1]).0 != (
            #[trigger] self.map_view()[k2]).0
        &&& forall|k: int|
            0 <= k < self.map_view().len() ==> self.live((#[trigger] self.map_view()[k]).1)
                && self.path_at(self.map_view()[k].1) == self.map_view()[k].0
    }

    /// Every live node's path is in the path map; with [`Root::map_wf`]
    /// the map entries are then exactly the live nodes.
    pub open spec fn map_exact(self) -> bool {
        forall|i: int|
            #[trigger] self.live(i) ==> exists|k: int|
                0 <= k < self.map_view().len() && (#[trigger] self.map_view()[k]) == (
                self.path_at(i),
                i,
                )
    }

    /// The structural invariant of the tree: a live container root at
    /// identifier zero with path `/`; every other live node has a smaller
    /// live parent that lists it once among its children, a well-formed
    /// address, and the materialized path of its parent's base, `/`, and
    /// its address; children lists point down to distinct live nodes; and
    /// the path map is well-formed.
    pub open spec fn wf(self) -> bool {
        &&& 1 <= self.n_slots()
        &&& self.live(0)
        &&& self.path_at(0) == seq!['/']
        &&& self.node_at(0) is Container
        &&& self.parent_of(0) == 0
        &&& forall|i: int|
            #[trigger] self.live(i) && i != 0 ==> {
                &&& 0 <= self.parent_of(i) < i
                &&& self.live(self.parent_of(i))
                &&& self.children_of(self.parent_of(i)).contains(i)
                &&& self.node_at(i).wf()
                &&& self.path_at(i) == self.parent_base(self.parent_of(i)) + seq!['/']
                    + self.node_at(i).spec_address()
            }
        &&& forall|i: int|
            #[trigger] self.live(i) ==> {
                &&& self.children_of(i).no_duplicates()
                &&& forall|k: int|
                    0 <= k < self.children_of(i).len() ==> i < #[trigger] self.children_of(i)[k]
                        < self.n_slots() && self.live(self.children_of(i)[k]) && self.parent_of(
                        self.children_of(i)[k],
                    ) == i
            }
        &&& self.map_wf()
    }

    /// An empty tree: a container root at `/` described as the root node,
    /// no listener, no pending events.
    pub fn new(name: Option<String>) -> (r: Root)
        ensures
            r.wf(),
            r.map_exact(),
            r.n_slots() == 1,
            forall|i: int| #[trigger] r.live(i) <==> i == 0,
            r.children_of(0).len() == 0,
            r.node_at(0).spec_address() == Seq::<char>::empty(),
            r.node_at(0).spec_description() == Option::Some("root node"@),
            match (r.spec_name(), name) {
                (Option::Some(a), Option::Some(b)) => a == b@,
                (Option::None, Option::None) => true,
                _ => false,
            },
            !r.ns_on(),
            r.events().len() == 0,
    {
        proof {
            reveal_strlit("/");
            reveal_strlit("");
            reveal_strlit("root node");
        }
        proof {
            assert(""@ =~= Seq::<char>::empty());
            assert(addr_valid(""@));
        }
        let root_container = match Container::new("", Option::Some("root node")) {
            Ok(c) => c,
            Err(_) => {
                proof {
                    assert(false);
                }
                unreached()
            },
        };
        let root_node = Node::Container(root_container);
        let entry = Entry {
            wrapper: NodeWrapper { full_path: "/".to_owned(), node: root_node },
            parent: 0,
            children: Vec::new(),
        };
        let mut nodes: Vec<Option<Entry>> = Vec::new();
        nodes.push(Option::Some(entry));
        let mut index_map: Vec<PathEntry> = Vec::new();
        index_map.push(PathEntry { path: "/".to_owned(), id: 0 });
        let r = Root { name, nodes, index_map, ns_attached: false, ns_events: Vec::new() };
        proof {
            assert(r.path_at(0) =~= seq!['/']);
            assert(r.map_view() =~= seq![("/"@, 0int)]);
            assert forall|i: int| #[trigger] r.live(i) implies i == 0 by {}
            assert(r.map_view()[0].0 =~= r.path_at(0));
            assert(r.map_wf());
            assert forall|i: int| #[trigger] r.live(i) implies exists|k: int|
                0 <= k < r.map_view().len() && (#[trigger] r.map_view()[k]) == (
                r.path_at(i),
                i,
                ) by {
                assert(r.map_view()[0] == (r.path_at(0), 0int));
            }
        }
        r
    }

    /// The server name, if one was set.
    pub fn name(&self) -> (r: Option<String>)
        ensures
            match (r, self.spec_name()) {
                (Option::Some(a), Option::Some(b)) => a@ == b,
                (Option::None, Option::None) => true,
                _ => false,
            },
    {
        match &self.name {
            Option::Some(n) => Option::Some(n.clone()),
            Option::None => Option::None,
        }
    }

    /// The full path of the node a handle names, while it is live.
    pub fn handle_to_path(&self, handle: &NodeHandle) -> (r: Option<String>)
        ensures
            match r {
                Option::Some(p) => self.live(handle.id()) && p@ == self.path_at(handle.id()),
                Option::None => !self.live(handle.id()),
            },
    {
        let i = handle.0;
        if i < self.nodes.len() {
            match &self.nodes[i] {
                Option::Some(e) => Option::Some(e.wrapper.full_path.clone()),
                Option::None => Option::None,
            }
        } else {
            Option::None
        }
    }


    /// Insert a node under the given parent, or under the root when no
    /// parent is given.  On success the new stable handle is returned and
    /// one path-added event is emitted; a handle that no longer names a
    /// live node is rejected with the node handed back.
    pub fn add_node(&mut self, node: Node, parent: Option<NodeHandle>) -> (r: Result<
        NodeHandle,
        (Node, &'static str),
    >)
        requires
            old(self).wf(),
            node.wf(),
        ensures
            final(self).wf(),
            match r {
                Ok(h) => {
                    &&& match parent {
                        Option::Some(p) => old(self).live(p.id()) && p.id() != 0 && add_effect(
                            *old(self),
                            node,
                            p.id(),
                            old(self).path_at(p.id()),
                            h.id(),
                            *final(self),
                        ),
                        Option::None => add_effect(
                            *old(self),
                            node,
                            0,
                            Seq::empty(),
                            h.id(),
                            *final(self),
                        ),
                    }
                    &&& (old(self).map_exact() && (forall|i: int|
                        #[trigger] old(self).live(i) ==> old(self).path_at(i) != final(self).path_at(
                            h.id(),
                        )) ==> final(self).map_exact())
                },
                Err((n, e)) => {
                    &&& n == node
                    &&& parent matches Option::Some(p) && (!old(self).live(p.id()) || p.id() == 0)
                    &&& e@ == "parent not in graph"@
                    &&& *final(self) == *old(self)
                },
            },
    {
        proof {
            reveal_strlit("parent not in graph");
            reveal_strlit("/");
        }
        let (pid, base): (usize, String) = match parent {
            Option::Some(h) => {
                let i = h.0;
                if i != 0 && i < self.nodes.len() {
                    match &self.nodes[i] {
                        Option::Some(e) => (i, e.wrapper.full_path.clone()),
                        Option::None => {
                            return Err((node, "parent not in graph"));
                        },
                    }
                } else {
                    return Err((node, "parent not in graph"));
                }
            },
            Option::None => (0, String::new()),
        };
        let ghost spec_base: Seq<char> = base@;
        let mut full_path = base;
        full_path.append("/");
        full_path.append(node.address().as_str());
        proof {
            assert(full_path@ =~= spec_base + seq!['/'] + node.spec_address());
        }
        let id = self.nodes.len();
        let ghost pre = *self;
        let entry = Entry {
            wrapper: NodeWrapper { full_path: full_path.clone(), node },
            parent: pid,
            children: Vec::new(),
        };
        self.nodes.push(Option::Some(entry));
        // register as the parent's last child
        let ghost mid1 = *self;
        match &mut self.nodes[pid] {
            Option::Some(e) => {
                e.children.push(id);
            },
            Option::None => {
                proof {
                    assert(false);
                }
            },
        }
        proof {
            assert(self.nodes@[pid as int]->Some_0.children@ == mid1.nodes@[pid as int]->Some_0.children@.push(id));
            assert(self.children_of(pid as int) =~= mid1.children_of(pid as int).push(id as int));
        }
        // upsert the path map
        let ghost mid2 = *self;
        proof {
            assert(mid2.map_view() == pre.map_view());
        }
        match self.map_find(&full_path) {
            Option::Some(k) => {
                self.index_map[k] = PathEntry { path: full_path.clone(), id };
                proof {
                    let mv = mid2.map_view();
                    let k0 = choose|j: int| 0 <= j < mv.len() && (#[trigger] mv[j]).0 == full_path@;
                    assert(mv[k as int].0 == full_path@);
                    assert(pre.map_wf());
                    assert(k0 == k as int) by {
                        if k0 != k as int {
                            if k0 < k as int {
                                assert(mv[k0].0 != mv[k as int].0);
                            } else {
                                assert(mv[k as int].0 != mv[k0].0);
                            }
                        }
                    }
                    assert(self.map_view() =~= map_upsert(mid2.map_view(), full_path@, id as int));
                }
            },
            Option::None => {
                self.index_map.push(PathEntry { path: full_path.clone(), id });
                proof {
                    assert(self.map_view() =~= map_upsert(mid2.map_view(), full_path@, id as int));
                }
            },
        }
        // queue the namespace change, dropping it when the queue is full
        if self.ns_attached && self.ns_events.len() < NS_CHANGE_LEN {
            self.ns_events.push(NamespaceChange::PathAdded(full_path));
        }
        proof {
            let post = *self;
            assert(post.events() =~= (if pre.ns_on() && pre.events().len() < 1024 {
                pre.events().push((true, post.path_at(id as int)))
            } else {
                pre.events()
            }));
            let hh = id as int;
            let pp = pid as int;
            assert(hh == pre.n_slots());
            assert(post.n_slots() == pre.n_slots() + 1);
            assert(post.live(hh));
            assert(post.node_at(hh) == node);
            assert(post.parent_of(hh) == pp);
            assert(post.children_of(hh) =~= Seq::<int>::empty());
            assert(post.path_at(hh) == spec_base + seq!['/'] + node.spec_address());
            assert(forall|i: int| i != hh ==> (#[trigger] post.live(i) <==> pre.live(i)));
            assert forall|i: int| #[trigger] pre.live(i) implies post.node_at(i) == pre.node_at(i)
                && post.path_at(i) == pre.path_at(i) && post.parent_of(i) == pre.parent_of(i) by {
                assert(post.nodes@[i] == pre.nodes@[i] || i == pp);
            }
            assert forall|i: int| #[trigger] pre.live(i) && i != pp implies post.children_of(i)
                == pre.children_of(i) by {
                assert(post.nodes@[i] == pre.nodes@[i]);
            }
            assert(post.children_of(pp) == pre.children_of(pp).push(hh));
            assert(post.map_view() == map_upsert(pre.map_view(), post.path_at(hh), hh));
            assert(post.spec_name() == pre.spec_name());
            assert(post.ns_on() == pre.ns_on());
            assert(add_effect(pre, node, pid as int, spec_base, id as int, post));
            lemma_add_preserves_wf(pre, node, pid as int, spec_base, id as int, post);
        }
        Ok(NodeHandle(id))
    }


    /// Find the storage index of a path-map entry with the given key.
    fn map_find(&self, path: &String) -> (r: Option<usize>)
        ensures
            match r {
                Option::Some(k) => 0 <= k < self.map_view().len() && self.map_view()[
                    k as int
                ].0 == path@,
                Option::None => forall|j: int|
                    0 <= j < self.map_view().len() ==> (#[trigger] self.map_view()[j]).0 != path@,
            },
    {
        let m = self.index_map.len();
        for k in 0..m
            invariant
                m == self.index_map.len(),
                forall|j: int| 0 <= j < k ==> (#[trigger] self.map_view()[j]).0 != path@,
            decreases m - k,
        {
            if self.index_map[k].path == *path {
                return Option::Some(k);
            }
        }
        Option::None
    }


    /// Find the position of child `c` in the children list of `p`.
    fn find_child(&self, p: usize, c: usize) -> (r: usize)
        requires
            self.live(p as int),
            self.children_of(p as int).contains(c as int),
        ensures
            0 <= r < self.children_of(p as int).len(),
            self.children_of(p as int)[r as int] == c as int,
    {
        match &self.nodes[p] {
            Option::Some(e) => {
                let m = e.children.len();
                for k in 0..m
                    invariant
                        self.live(p as int),
                        self.nodes@[p as int] is Some,
                        e == self.nodes@[p as int]->Some_0,
                        m == e.children.len(),
                        self.children_of(p as int).contains(c as int),
                        forall|j: int| 0 <= j < k ==> self.children_of(p as int)[j] != c as int,
                    decreases m - k,
                {
                    if e.children[k] == c {
                        return k;
                    }
                }
                proof {
                    let j = choose|j: int|
                        0 <= j < self.children_of(p as int).len() && self.children_of(p as int)[j]
                            == c as int;
                    assert(false);
                }
                0
            },
            Option::None => {
                proof {
                    assert(false);
                }
                0
            },
        }
    }

    /// Remove the subtree rooted at the handle.  On success the removed
    /// nodes come back leaves first — the reverse of the subtree's
    /// preorder — with one path-removed event queued per node in the same
    /// order; a handle that no longer names a live node is rejected.
    #[verifier::rlimit(100)]
    pub fn rm_node(&mut self, handle: NodeHandle) -> (r: Result<Vec<Node>, (NodeHandle, &'static str)>)
        requires
            old(self).wf(),
        ensures
            final(self).wf(),
            match r {
                Ok(v) => old(self).live(handle.id()) && handle.id() != 0 && rm_effect(
                    *old(self),
                    handle.id(),
                    v@,
                    *final(self),
                ),
                Err((rh, e)) => {
                    &&& rh == handle
                    &&& !(old(self).live(handle.id()) && handle.id() != 0)
                    &&& e@ == "node at handle not in graph"@
                    &&& *final(self) == *old(self)
                },
            },
    {
        proof {
            reveal_strlit("node at handle not in graph");
        }
        let i = handle.0;
        if i == 0 || i >= self.nodes.len() {
            return Err((handle, "node at handle not in graph"));
        }
        let p: usize = match &self.nodes[i] {
            Option::Some(e) => e.parent,
            Option::None => {
                return Err((handle, "node at handle not in graph"));
            },
        };
        let ghost pre = *self;
        let ghost ord = pre.preorder(i as int);
        proof {
            pre.lemma_preorder_elems(i as int);
            pre.lemma_preorder_distinct(i as int);
        }
        // collect the subtree, ancestors before descendants
        let mut order: Vec<usize> = Vec::new();
        self.collect_subtree(i, &mut order);
        proof {
            assert(Seq::<usize>::empty().map_values(|x: usize| x as int) =~= Seq::<int>::empty());
            assert(order@.map_values(|x: usize| x as int) =~= ord);
            assert(forall|t: int|
                0 <= t < ord.len() ==> #[trigger] ord[t] == order@.map_values(
                    |x: usize| x as int,
                )[t]);
        }
        // detach the subtree root from its parent
        let pos = self.find_child(p, i);
        let ghost children_pre = self.children_of(p as int);
        match &mut self.nodes[p] {
            Option::Some(e) => {
                e.children.remove(pos);
            },
            Option::None => {
                proof {
                    assert(false);
                }
            },
        }
        let ghost mid = *self;
        proof {
            assert(mid.children_of(p as int) =~= children_pre.remove(pos as int));
            assert(mid.map_view() == pre.map_view());
            assert(mid.events() == pre.events());
            assert(forall|j: int|
                0 <= j < mid.nodes@.len() && j != p as int ==> mid.nodes@[j] == pre.nodes@[j]);
            assert forall|t: int| 0 <= t < ord.len() implies #[trigger] ord[t] != p as int by {
                assert((i as int) <= ord[t]);
                assert((p as int) < (i as int));
            }
            assert(mid.map_wf());
        }
        // remove the subtree slots, leaves first
        let mut removed: Vec<Node> = Vec::new();
        let n = order.len();
        for k in 0..n
            invariant
                pre.wf(),
                pre.live(i as int),
                0 < i as int,
                (p as int) == pre.parent_of(i as int),
                ord == pre.preorder(i as int),
                ord.no_duplicates(),
                n == order@.len(),
                order@.map_values(|x: usize| x as int) == ord,
                forall|t: int|
                    0 <= t < ord.len() ==> (i as int) <= #[trigger] ord[t] < pre.n_slots()
                        && pre.live(ord[t]),
                self.nodes@.len() == pre.nodes@.len(),
                mid.nodes@.len() == pre.nodes@.len(),
                forall|t: int| 0 <= t < ord.len() ==> #[trigger] ord[t] != p as int,
                forall|j: int|
                    0 <= j < mid.nodes@.len() && j != p as int ==> mid.nodes@[j] == pre.nodes@[j],
                forall|j: int|
                    0 <= j < self.nodes@.len() && !ord.skip(n - k).contains(j) ==> self.nodes@[j]
                        == mid.nodes@[j],
                forall|t: int| n - k <= t < n ==> self.nodes@[#[trigger] ord[t]] is None,
                removed@.len() == k,
                forall|j: int|
                    0 <= j < k ==> #[trigger] removed@[j] == pre.node_at(ord[n - 1 - j]),
                forall|k1: int, k2: int|
                    0 <= k1 < k2 < self.map_view().len() ==> (#[trigger] self.map_view()[k1]).0
                        != (#[trigger] self.map_view()[k2]).0,
                forall|kk: int|
                    0 <= kk < self.map_view().len() ==> self.live(
                        (#[trigger] self.map_view()[kk]).1,
                    ) && self.path_at(self.map_view()[kk].1) == self.map_view()[kk].0,
                self.ns_attached == pre.ns_on(),
                self.spec_name() == pre.spec_name(),
                !pre.ns_on() ==> self.events() == pre.events(),
            decreases n - k,
        {
            let id = order[n - 1 - k];
            proof {
                assert(ord[n - 1 - k as int] == id as int);
                assert(!ord.skip(n - k as int).contains(id as int)) by {
                    if ord.skip(n - k as int).contains(id as int) {
                        let t = choose|t: int|
                            0 <= t < ord.skip(n - k as int).len() && #[trigger] ord.skip(
                                n - k as int,
                            )[t] == id as int;
                        assert(ord[t + n - k as int] == id as int);
                        assert(ord.no_duplicates());
                    }
                }
                assert(self.nodes@[id as int] == mid.nodes@[id as int]);
                assert(id as int != p as int);
                assert(mid.nodes@[id as int] == pre.nodes@[id as int]);
                assert(pre.live(id as int));
            }
            let ghost self0 = *self;
            let ghost nodes0 = self.nodes@;
            proof {
                assert forall|kk: int| 0 <= kk < self0.map_view().len() implies {
                    let e = #[trigger] self0.map_view()[kk];
                    &&& 0 <= e.1 < nodes0.len()
                    &&& nodes0[e.1] is Some
                    &&& nodes0[e.1]->Some_0.wrapper.full_path@ == e.0
                } by {
                    assert(self0.live(self0.map_view()[kk].1));
                    assert(self0.path_at(self0.map_view()[kk].1) == self0.map_view()[kk].0);
                }
            }
            let entry_opt = self.nodes[id].take();
            match entry_opt {
                Option::Some(entry) => {
                    proof {
                        assert(entry == pre.nodes@[id as int]->Some_0);
                        assert(entry.wrapper.full_path@ == pre.path_at(id as int));
                    }
                    removed.push(entry.wrapper.node);
                    let ghost before_map = self.map_view();
                    match self.map_find(&entry.wrapper.full_path) {
                        Option::Some(kk) => {
                            self.index_map.remove(kk);
                            proof {
                                assert(self.map_view() =~= before_map.remove(kk as int));
                                lemma_map_wf_after_slot_and_key_removal(
                                    before_map,
                                    self.map_view(),
                                    nodes0,
                                    self.nodes@,
                                    id as int,
                                    pre.path_at(id as int),
                                    Option::Some(kk as int),
                                );
                            }
                        },
                        Option::None => {
                            proof {
                                lemma_map_wf_after_slot_and_key_removal(
                                    before_map,
                                    self.map_view(),
                                    nodes0,
                                    self.nodes@,
                                    id as int,
                                    pre.path_at(id as int),
                                    Option::None,
                                );
                            }
                        },
                    }
                    if self.ns_attached && self.ns_events.len() < NS_CHANGE_LEN {
                        self.ns_events.push(
                            NamespaceChange::PathRemoved(entry.wrapper.full_path),
                        );
                    }
                    proof {
                        lemma_skip_step(ord, n - 1 - k as int);
                        assert forall|t: int| n - 1 - k <= t < n implies self.nodes@[
                            #[trigger] ord[t]
                        ] is None by {
                            if t > n - 1 - k {
                                assert(ord[t] != id as int);
                            }
                        }
                    }
                },
                Option::None => {
                    proof {
                        assert(false);
                    }
                },
            }
        }
        proof {
            assert(ord.skip(0) =~= ord);
            lemma_rm_finish(
                pre,
                mid,
                *self,
                i as int,
                p as int,
                pos as int,
                children_pre,
                removed@,
            );
        }
        Ok(removed)
    }


    /// Attach the namespace-change listener: from now on additions and
    /// removals queue their events (the queue is bounded; events are
    /// dropped, never blocking, once it is full).  Reports whether this
    /// call attached it; at most one listener is ever attached.
    pub fn ns_change_attach(&mut self) -> (r: bool)
        ensures
            r == !old(self).ns_on(),
            final(self).ns_on(),
            final(self).events() == old(self).events(),
            final(self).n_slots() == old(self).n_slots(),
            forall|i: int| #[trigger] final(self).live(i) == old(self).live(i),
            forall|i: int|
                #[trigger] old(self).live(i) ==> final(self).node_at(i) == old(self).node_at(i)
                    && final(self).path_at(i) == old(self).path_at(i) && final(self).parent_of(i)
                    == old(self).parent_of(i) && final(self).children_of(i) == old(
                    self,
                ).children_of(i),
            final(self).map_view() == old(self).map_view(),
            final(self).spec_name() == old(self).spec_name(),
            old(self).wf() ==> final(self).wf(),
    {
        let was = self.ns_attached;
        self.ns_attached = true;
        proof {
            if old(self).wf() {
                lemma_wf_ignores_ns(*old(self), *self);
            }
        }
        !was
    }

    /// Drain the queued namespace changes, in arrival order, leaving the
    /// queue empty.
    pub fn take_ns_changes(&mut self) -> (r: Vec<NamespaceChange>)
        ensures
            r@.map_values(|e: NamespaceChange| ns_change_view(e)) == old(self).events(),
            final(self).events().len() == 0,
            final(self).ns_on() == old(self).ns_on(),
            final(self).n_slots() == old(self).n_slots(),
            forall|i: int| #[trigger] final(self).live(i) == old(self).live(i),
            forall|i: int|
                #[trigger] old(self).live(i) ==> final(self).node_at(i) == old(self).node_at(i)
                    && final(self).path_at(i) == old(self).path_at(i) && final(self).parent_of(i)
                    == old(self).parent_of(i) && final(self).children_of(i) == old(
                    self,
                ).children_of(i),
            final(self).map_view() == old(self).map_view(),
            final(self).spec_name() == old(self).spec_name(),
            old(self).wf() ==> final(self).wf(),
    {
        let mut drained: Vec<NamespaceChange> = Vec::new();
        core::mem::swap(&mut drained, &mut self.ns_events);
        proof {
            assert(final(self).events() =~= Seq::<(bool, Seq<char>)>::empty());
            if old(self).wf() {
                lemma_wf_ignores_ns(*old(self), *self);
            }
        }
        drained
    }


    /// Render the current values of the readable node at `path` into an
    /// OSC message addressed to it: one argument per parameter slot, of
    /// the slot's kind.  Only a readable leaf is triggered; a container,
    /// a write-only node or an unmapped path yields nothing.
    pub fn trigger_msg(&self, path: &str) -> (r: Option<OscMsg>)
        requires
            self.wf(),
        ensures
            match r {
                Option::Some(m) => exists|i: int|
                    #[trigger] self.live(i) && self.path_at(i) == path@ && m.addr@ == path@ && (
                    self.node_at(i) is Get || self.node_at(i) is GetSet) && m.args@.len()
                        == self.node_at(i).spec_render_count() && (forall|k: int|
                        0 <= k < m.args@.len() ==> value_kind(#[trigger] m.args@[k])
                            == self.node_at(i).spec_param_kinds()[k]),
                Option::None => forall|k: int|
                    0 <= k < self.map_view().len() ==> ((#[trigger] self.map_view()[k]).0 != path@
                        || !(self.node_at(self.map_view()[k].1) is Get || self.node_at(
                        self.map_view()[k].1,
                    ) is GetSet)),
            },
    {
        match self.lookup_path(path) {
            Option::Some(i) => {
                match &self.nodes[i] {
                    Option::Some(e) => {
                        let readable = match &e.wrapper.node {
                            Node::Get(_) => true,
                            Node::GetSet(_) => true,
                            _ => false,
                        };
                        if readable {
                            let mut args: Vec<OscValue> = Vec::new();
                            let ghost a0 = args@;
                            e.wrapper.node.render_args(&mut args);
                            proof {
                                assert forall|k: int| 0 <= k < args@.len() implies value_kind(
                                    #[trigger] args@[k],
                                ) == e.wrapper.node.spec_param_kinds()[k] by {
                                    assert(value_kind(args@[a0.len() + k])
                                        == e.wrapper.node.spec_param_kinds()[k]);
                                }
                            }
                            let m = OscMsg { addr: e.wrapper.full_path.clone(), args };
                            proof {
                                assert(e.wrapper.node == self.node_at(i as int));
                                assert(m.args@.len() == self.node_at(
                                    i as int,
                                ).spec_render_count());
                                assert(forall|k: int|
                                    0 <= k < m.args@.len() ==> value_kind(#[trigger] m.args@[k])
                                        == self.node_at(i as int).spec_param_kinds()[k]);
                                assert(self.live(i as int) && self.path_at(i as int) == path@
                                    && m.addr@ == path@ && (self.node_at(i as int) is Get
                                    || self.node_at(i as int) is GetSet));
                            }
                            Option::Some(m)
                        } else {
                            proof {
                                let k0 = choose|k: int|
                                    0 <= k < self.map_view().len() && #[trigger] self.map_view()[k]
                                        == (path@, i as int);
                                assert forall|k: int| 0 <= k < self.map_view().len() implies ((
                                #[trigger] self.map_view()[k]).0 != path@ || !(self.node_at(
                                    self.map_view()[k].1,
                                ) is Get || self.node_at(self.map_view()[k].1) is GetSet)) by {
                                    if self.map_view()[k].0 == path@ {
                                        if k != k0 {
                                            if k < k0 {
                                                assert(self.map_view()[k].0
                                                    != self.map_view()[k0].0);
                                            } else {
                                                assert(self.map_view()[k0].0
                                                    != self.map_view()[k].0);
                                            }
                                        }
                                        assert(self.map_view()[k].1 == i as int);
                                    }
                                }
                            }
                            Option::None
                        }
                    },
                    Option::None => {
                        proof {
                            assert(false);
                        }
                        Option::None
                    },
                }
            },
            Option::None => Option::None,
        }
    }

    /// Find the identifier mapped to a path, if any.
    pub(crate) fn lookup_path(&self, path: &str) -> (r: Option<usize>)
        requires
            self.wf(),
        ensures
            match r {
                Option::Some(i) => self.live(i as int) && self.path_at(i as int) == path@
                    && (exists|k: int|
                    0 <= k < self.map_view().len() && #[trigger] self.map_view()[k] == (
                    path@,
                    i as int,
                    )),
                Option::None => forall|k: int|
                    0 <= k < self.map_view().len() ==> (#[trigger] self.map_view()[k]).0 != path@,
            },
    {
        let p = path.to_owned();
        let n = self.index_map.len();
        for k in 0..n
            invariant
                self.wf(),
                p@ == path@,
                n == self.index_map.len(),
                forall|j: int| 0 <= j < k ==> (#[trigger] self.map_view()[j]).0 != path@,
            decreases n - k,
        {
            if self.index_map[k].path == p {
                let i = self.index_map[k].id;
                proof {
                    assert(self.map_view()[k as int] == (path@, i as int));
                }
                return Option::Some(i);
            }
        }
        Option::None
    }
}



impl Root {
    /// Whether `i` lies in the subtree rooted at `a`: both live, and the
    /// parent chain of `i` reaches `a`.  Parents have smaller identifiers,
    /// so the chain strictly decreases.
    pub open spec fn in_subtree(self, i: int, a: int) -> bool
        decreases (if 0 <= i {
            i
        } else {
            0
        }),
    {
        if !self.live(i) || !self.live(a) {
            false
        } else if i == a {
            true
        } else if i != 0 && 0 <= self.parent_of(i) < i {
            self.in_subtree(self.parent_of(i), a)
        } else {
            false
        }
    }

    /// The subtree rooted at `i`, in preorder: the node itself, then each
    /// child's subtree, children in insertion order.
    pub open spec fn preorder(self, i: int) -> Seq<int>
        decreases self.n_slots() - i, 0int,
    {
        if self.live(i) {
            seq![i] + self.preorder_list(self.children_of(i), i)
        } else {
            seq![i]
        }
    }

    /// The concatenated preorders of the subtrees rooted at `s`, skipping
    /// entries that do not lie strictly below the bound `b`.
    pub open spec fn preorder_list(self, s: Seq<int>, b: int) -> Seq<int>
        decreases self.n_slots() - b - 1, s.len(),
    {
        if s.len() == 0 {
            Seq::empty()
        } else if b < s[0] < self.n_slots() {
            self.preorder(s[0]) + self.preorder_list(s.drop_first(), b)
        } else {
            self.preorder_list(s.drop_first(), b)
        }
    }

    /// A subtree member's identifier is at least the root's.
    pub proof fn lemma_subtree_ge(self, i: int, a: int)
        requires
            self.in_subtree(i, a),
        ensures
            i >= a,
            self.live(i),
            self.live(a),
        decreases (if 0 <= i {
            i
        } else {
            0
        }),
    {
        if i != a && i != 0 && 0 <= self.parent_of(i) < i {
            self.lemma_subtree_ge(self.parent_of(i), a);
        }
    }

    /// Two subtrees a member lies in are nested one way or the other.
    pub proof fn lemma_subtree_linear(self, i: int, a: int, b: int)
        requires
            self.in_subtree(i, a),
            self.in_subtree(i, b),
        ensures
            self.in_subtree(a, b) || self.in_subtree(b, a),
        decreases (if 0 <= i {
            i
        } else {
            0
        }),
    {
        if i == a {
            assert(self.in_subtree(a, b));
        } else if i == b {
            assert(self.in_subtree(b, a));
        } else {
            self.lemma_subtree_linear(self.parent_of(i), a, b);
        }
    }

    /// A subtree of a child lies in the subtree of the parent.
    pub proof fn lemma_subtree_extend(self, x: int, c: int)
        requires
            self.in_subtree(x, c),
            c != 0,
            0 <= self.parent_of(c) < c,
            self.live(self.parent_of(c)),
        ensures
            self.in_subtree(x, self.parent_of(c)),
        decreases (if 0 <= x {
            x
        } else {
            0
        }),
    {
        if x == c {
            assert(self.in_subtree(self.parent_of(c), self.parent_of(c)));
        } else {
            self.lemma_subtree_ge(x, c);
            self.lemma_subtree_extend(self.parent_of(x), c);
            assert(x != self.parent_of(c));
            assert(self.in_subtree(x, self.parent_of(c)));
        }
    }

    /// Everything the preorder of a live `i` lists is a live member of the
    /// subtree at `i`, and the preorder starts with `i` itself.
    pub proof fn lemma_preorder_elems(self, i: int)
        requires
            self.wf(),
            self.live(i),
        ensures
            self.preorder(i).len() >= 1,
            self.preorder(i)[0] == i,
            forall|k: int|
                0 <= k < self.preorder(i).len() ==> self.live(#[trigger] self.preorder(i)[k])
                    && self.in_subtree(self.preorder(i)[k], i) && i <= self.preorder(i)[k]
                    < self.n_slots(),
        decreases self.n_slots() - i, 0int,
    {
        self.lemma_preorder_list_elems(self.children_of(i), i);
        assert forall|k: int| 0 <= k < self.preorder(i).len() implies self.live(
            #[trigger] self.preorder(i)[k],
        ) && self.in_subtree(self.preorder(i)[k], i) && i <= self.preorder(i)[k]
            < self.n_slots() by {
            if k > 0 {
                let x = self.preorder(i)[k];
                assert(x == self.preorder_list(self.children_of(i), i)[k - 1]);
                let j = choose|j: int|
                    0 <= j < self.children_of(i).len() && self.in_subtree(
                        x,
                        #[trigger] self.children_of(i)[j],
                    );
                let c = self.children_of(i)[j];
                assert(self.parent_of(c) == i);
                self.lemma_subtree_extend(x, c);
            }
        }
    }

    /// Everything a preorder list over children of `b` lists is a live
    /// member of a subtree of one of the children.
    #[verifier::rlimit(50)]
    pub proof fn lemma_preorder_list_elems(self, s: Seq<int>, b: int)
        requires
            self.wf(),
            self.live(b),
            forall|k: int|
                0 <= k < s.len() ==> b < #[trigger] s[k] < self.n_slots() && self.live(s[k])
                    && self.parent_of(s[k]) == b,
        ensures
            forall|k: int|
                0 <= k < self.preorder_list(s, b).len() ==> self.live(
                    #[trigger] self.preorder_list(s, b)[k],
                ) && (exists|j: int|
                    0 <= j < s.len() && self.in_subtree(self.preorder_list(s, b)[k], #[trigger] s[j]))
                    && b < self.preorder_list(s, b)[k] < self.n_slots(),
        decreases self.n_slots() - b - 1, s.len(),
    {
        if s.len() == 0 {
        } else if b < s[0] < self.n_slots() {
            assert(forall|k: int|
                0 <= k < s.drop_first().len() ==> #[trigger] s.drop_first()[k] == s[k + 1]);
            self.lemma_preorder_elems(s[0]);
            self.lemma_preorder_list_elems(s.drop_first(), b);
            assert forall|k: int| 0 <= k < self.preorder_list(s, b).len() implies self.live(
                #[trigger] self.preorder_list(s, b)[k],
            ) && (exists|j: int|
                0 <= j < s.len() && self.in_subtree(self.preorder_list(s, b)[k], #[trigger] s[j]))
                && b < self.preorder_list(s, b)[k] < self.n_slots() by {
                let x = self.preorder_list(s, b)[k];
                if k < self.preorder(s[0]).len() {
                    assert(x == self.preorder(s[0])[k]);
                    assert(self.in_subtree(x, s[0]));
                    self.lemma_subtree_ge(x, s[0]);
                } else {
                    let k2 = k - self.preorder(s[0]).len();
                    assert(x == self.preorder_list(s.drop_first(), b)[k2]);
                    let j = choose|j: int|
                        0 <= j < s.drop_first().len() && self.in_subtree(
                            x,
                            #[trigger] s.drop_first()[j],
                        );
                    assert(s.drop_first()[j] == s[j + 1]);
                    assert(self.in_subtree(x, s[j + 1]));
                }
            }
        } else {
            assert(b < s[0] < self.n_slots());
        }
    }
}


impl Root {
    /// The preorder of a child listed in `s` is contained in the preorder
    /// list over `s`.
    pub proof fn lemma_preorder_list_contains(self, s: Seq<int>, b: int, c: int)
        requires
            self.wf(),
            self.live(b),
            forall|k: int|
                0 <= k < s.len() ==> b < #[trigger] s[k] < self.n_slots() && self.live(s[k])
                    && self.parent_of(s[k]) == b,
            s.contains(c),
        ensures
            forall|y: int|
                self.preorder(c).contains(y) ==> #[trigger] self.preorder_list(s, b).contains(y),
        decreases s.len(),
    {
        assert(s.len() > 0);
        if s[0] == c {
            assert forall|y: int| self.preorder(c).contains(y) implies #[trigger] self.preorder_list(
                s,
                b,
            ).contains(y) by {
                let k = choose|k: int| 0 <= k < self.preorder(c).len() && self.preorder(c)[k] == y;
                assert(self.preorder_list(s, b)[k] == y);
            }
        } else {
            let j = choose|j: int| 0 <= j < s.len() && s[j] == c;
            assert(s.drop_first()[j - 1] == c);
            assert(s.drop_first().contains(c));
            assert(forall|k: int|
                0 <= k < s.drop_first().len() ==> #[trigger] s.drop_first()[k] == s[k + 1]);
            self.lemma_preorder_list_contains(s.drop_first(), b, c);
            assert(b < s[0] < self.n_slots());
            assert forall|y: int| self.preorder(c).contains(y) implies #[trigger] self.preorder_list(
                s,
                b,
            ).contains(y) by {
                assert(self.preorder_list(s.drop_first(), b).contains(y));
                let k = choose|k: int|
                    0 <= k < self.preorder_list(s.drop_first(), b).len() && self.preorder_list(
                        s.drop_first(),
                        b,
                    )[k] == y;
                assert(self.preorder_list(s, b)[self.preorder(s[0]).len() + k] == y);
            }
        }
    }

    /// A live member of the subtree at `i` is listed in the preorder of `i`.
    pub proof fn lemma_preorder_complete(self, x: int, i: int)
        requires
            self.wf(),
            self.in_subtree(x, i),
        ensures
            self.preorder(i).contains(x),
        decreases (if 0 <= x {
            x
        } else {
            0
        }),
    {
        if x == i {
            assert(self.preorder(i)[0] == i);
        } else {
            let p = self.parent_of(x);
            self.lemma_preorder_complete(p, i);
            // x's own preorder starts with x, and is contained in p's list
            assert(self.preorder(x)[0] == x);
            assert(self.preorder(x).contains(x));
            assert(self.children_of(p).contains(x));
            self.lemma_preorder_list_contains(self.children_of(p), p, x);
            assert(self.preorder_list(self.children_of(p), p).contains(x));
            // and p's preorder appears inside i's, by the chain
            self.lemma_preorder_within(x, p, i);
        }
    }

    /// If `p` lies in the subtree at `i` and `y` is in the preorder list of
    /// `p`'s children, then `y` is in the preorder of `i`.
    pub proof fn lemma_preorder_within(self, y: int, p: int, i: int)
        requires
            self.wf(),
            self.in_subtree(p, i),
            self.preorder_list(self.children_of(p), p).contains(y),
        ensures
            self.preorder(i).contains(y),
        decreases (if 0 <= p {
            p
        } else {
            0
        }),
    {
        if p == i {
            let k = choose|k: int|
                0 <= k < self.preorder_list(self.children_of(p), p).len() && self.preorder_list(
                    self.children_of(p),
                    p,
                )[k] == y;
            assert(self.preorder(i)[1 + k] == y);
        } else {
            let q = self.parent_of(p);
            // y is inside p's preorder, which is inside q's children list
            let k = choose|k: int|
                0 <= k < self.preorder_list(self.children_of(p), p).len() && self.preorder_list(
                    self.children_of(p),
                    p,
                )[k] == y;
            assert(self.preorder(p)[1 + k] == y);
            assert(self.preorder(p).contains(y));
            assert(self.children_of(q).contains(p));
            self.lemma_preorder_list_contains(self.children_of(q), q, p);
            assert(self.preorder_list(self.children_of(q), q).contains(y));
            self.lemma_preorder_within(y, q, i);
        }
    }

    /// The preorder of a live node lists no identifier twice.
    pub proof fn lemma_preorder_distinct(self, i: int)
        requires
            self.wf(),
            self.live(i),
        ensures
            self.preorder(i).no_duplicates(),
        decreases self.n_slots() - i, 0int,
    {
        self.lemma_preorder_list_distinct(self.children_of(i), i);
        self.lemma_preorder_list_elems(self.children_of(i), i);
        let rest = self.preorder_list(self.children_of(i), i);
        assert forall|k1: int, k2: int|
            0 <= k1 < k2 < self.preorder(i).len() implies self.preorder(i)[k1] != self.preorder(
            i,
        )[k2] by {
            if k1 == 0 {
                assert(self.preorder(i)[k2] == rest[k2 - 1]);
                assert(i < rest[k2 - 1]);
            } else {
                assert(self.preorder(i)[k1] == rest[k1 - 1]);
                assert(self.preorder(i)[k2] == rest[k2 - 1]);
            }
        }
    }

    /// A preorder list over distinct children lists no identifier twice.
    #[verifier::rlimit(50)]
    pub proof fn lemma_preorder_list_distinct(self, s: Seq<int>, b: int)
        requires
            self.wf(),
            self.live(b),
            s.no_duplicates(),
            forall|k: int|
                0 <= k < s.len() ==> b < #[trigger] s[k] < self.n_slots() && self.live(s[k])
                    && self.parent_of(s[k]) == b,
        ensures
            self.preorder_list(s, b).no_duplicates(),
        decreases self.n_slots() - b - 1, s.len(),
    {
        if s.len() == 0 {
        } else {
            assert(b < s[0] < self.n_slots());
            assert(forall|k: int|
                0 <= k < s.drop_first().len() ==> #[trigger] s.drop_first()[k] == s[k + 1]);
            assert(s.drop_first().no_duplicates());
            self.lemma_preorder_distinct(s[0]);
            self.lemma_preorder_list_distinct(s.drop_first(), b);
            self.lemma_preorder_elems(s[0]);
            self.lemma_preorder_list_elems(s.drop_first(), b);
            let head = self.preorder(s[0]);
            let tail = self.preorder_list(s.drop_first(), b);
            // the two halves are disjoint: a shared member would lie in the
            // subtrees of two distinct siblings
            assert forall|k1: int, k2: int|
                0 <= k1 < head.len() && 0 <= k2 < tail.len() implies head[k1] != tail[k2] by {
                if head[k1] == tail[k2] {
                    let x = head[k1];
                    assert(self.in_subtree(x, s[0]));
                    let j = choose|j: int|
                        0 <= j < s.drop_first().len() && self.in_subtree(
                            x,
                            #[trigger] s.drop_first()[j],
                        );
                    let c = s.drop_first()[j];
                    assert(c == s[j + 1]);
                    assert(c != s[0]);
                    assert(self.in_subtree(x, c));
                    self.lemma_subtree_sibling_disjoint(x, s[0], c, b);
                }
            }
            assert forall|k1: int, k2: int|
                0 <= k1 < k2 < self.preorder_list(s, b).len() implies self.preorder_list(s, b)[k1]
                != self.preorder_list(s, b)[k2] by {
                if k2 < head.len() {
                    assert(self.preorder_list(s, b)[k1] == head[k1]);
                    assert(self.preorder_list(s, b)[k2] == head[k2]);
                } else if k1 >= head.len() {
                    assert(self.preorder_list(s, b)[k1] == tail[k1 - head.len()]);
                    assert(self.preorder_list(s, b)[k2] == tail[k2 - head.len()]);
                } else {
                    assert(self.preorder_list(s, b)[k1] == head[k1]);
                    assert(self.preorder_list(s, b)[k2] == tail[k2 - head.len()]);
                }
            }
        }
    }

    /// No identifier lies in the subtrees of two distinct children of the
    /// same parent.
    pub proof fn lemma_subtree_sibling_disjoint(self, x: int, a: int, c: int, b: int)
        requires
            self.wf(),
            self.in_subtree(x, a),
            a != c,
            self.parent_of(a) == b,
            self.parent_of(c) == b,
            b < a,
            b < c,
            self.live(a),
            self.live(c),
        ensures
            !self.in_subtree(x, c),
    {
        if self.in_subtree(x, c) {
            self.lemma_subtree_linear(x, a, c);
            if self.in_subtree(a, c) {
                self.lemma_subtree_ge(self.parent_of(a), c);
            } else {
                self.lemma_subtree_ge(self.parent_of(c), a);
            }
        }
    }
}


impl Root {
    /// Appending one more child extends the preorder list by its subtree.
    pub proof fn lemma_preorder_list_snoc(self, s: Seq<int>, b: int, c: int)
        requires
            b < c < self.n_slots(),
            forall|k: int| 0 <= k < s.len() ==> b < #[trigger] s[k] < self.n_slots(),
        ensures
            self.preorder_list(s.push(c), b) == self.preorder_list(s, b) + self.preorder(c),
        decreases s.len(),
    {
        if s.len() == 0 {
            assert(s.push(c)[0] == c);
            assert(s.push(c).drop_first() =~= Seq::<int>::empty());
            assert(s =~= Seq::<int>::empty());
            assert(self.preorder_list(s, b) =~= Seq::<int>::empty());
            assert(self.preorder_list(s.push(c), b) == self.preorder(c) + self.preorder_list(
                s.push(c).drop_first(),
                b,
            ));
            assert(self.preorder_list(s.push(c).drop_first(), b) == self.preorder_list(s, b));
            assert(self.preorder_list(s.push(c), b) =~= self.preorder_list(s, b) + self.preorder(
                c,
            ));
        } else {
            assert(s.push(c)[0] == s[0]);
            assert(s.push(c).drop_first() =~= s.drop_first().push(c));
            assert(forall|k: int|
                0 <= k < s.drop_first().len() ==> #[trigger] s.drop_first()[k] == s[k + 1]);
            self.lemma_preorder_list_snoc(s.drop_first(), b, c);
            assert(b < s[0] < self.n_slots());
            assert(self.preorder_list(s.push(c), b) == self.preorder(s[0]) + self.preorder_list(
                s.drop_first().push(c),
                b,
            ));
            assert(self.preorder_list(s, b) == self.preorder(s[0]) + self.preorder_list(
                s.drop_first(),
                b,
            ));
            assert(self.preorder(s[0]) + (self.preorder_list(s.drop_first(), b) + self.preorder(c))
                =~= (self.preorder(s[0]) + self.preorder_list(s.drop_first(), b)) + self.preorder(
                c,
            ));
        }
    }

    /// One more child of `i` extends the collected prefix by its subtree.
    pub proof fn lemma_preorder_take_step(self, i: int, k: int)
        requires
            self.wf(),
            self.live(i),
            0 <= k < self.children_of(i).len(),
        ensures
            self.live(self.children_of(i)[k]),
            i < self.children_of(i)[k] < self.n_slots(),
            self.preorder_list(self.children_of(i).take(k + 1), i) == self.preorder_list(
                self.children_of(i).take(k),
                i,
            ) + self.preorder(self.children_of(i)[k]),
    {
        let kids = self.children_of(i);
        assert(forall|j: int|
            0 <= j < kids.len() ==> i < (#[trigger] kids[j]) < self.n_slots() && self.live(
                kids[j],
            ));
        assert(forall|j: int|
            0 <= j < kids.take(k).len() ==> i < (#[trigger] kids.take(k)[j]) < self.n_slots());
        self.lemma_preorder_list_snoc(kids.take(k), i, kids[k]);
        assert(kids.take(k).push(kids[k]) =~= kids.take(k + 1));
    }

    /// Collect the preorder of the subtree at `i` into `out`.
    #[verifier::rlimit(100)]
    fn collect_subtree(&self, i: usize, out: &mut Vec<usize>)
        requires
            self.wf(),
            self.live(i as int),
        ensures
            final(out)@.map_values(|x: usize| x as int) == old(out)@.map_values(|x: usize| x as int)
                + self.preorder(i as int),
        decreases self.n_slots() - i,
    {
        out.push(i);
        proof {
            assert(out@.map_values(|x: usize| x as int) =~= old(out)@.map_values(
                |x: usize| x as int,
            ).push(i as int));
        }
        match &self.nodes[i] {
            Option::Some(e) => {
                let m = e.children.len();
                let ghost kids = self.children_of(i as int);
                for k in 0..m
                    invariant
                        self.wf(),
                        self.live(i as int),
                        self.nodes@[i as int] is Some,
                        e == self.nodes@[i as int]->Some_0,
                        m == e.children.len(),
                        kids == self.children_of(i as int),
                        out@.map_values(|x: usize| x as int) == old(out)@.map_values(
                            |x: usize| x as int,
                        ).push(i as int) + self.preorder_list(kids.take(k as int), i as int),
                    decreases m - k,
                {
                    let c = e.children[k];
                    proof {
                        assert(kids[k as int] == c as int);
                        self.lemma_preorder_take_step(i as int, k as int);
                    }
                    self.collect_subtree(c, out);
                }
                proof {
                    assert(kids.take(m as int) =~= kids);
                    assert(self.preorder(i as int) == seq![i as int] + self.preorder_list(
                        kids,
                        i as int,
                    ));
                    assert(final(out)@.map_values(|x: usize| x as int) =~= old(out)@.map_values(
                        |x: usize| x as int,
                    ) + self.preorder(i as int));
                }
            },
            Option::None => {
                proof {
                    assert(false);
                }
            },
        }
    }
}



/// The effect of a successful removal of the subtree at `h`: the returned
/// nodes are the subtree in reverse preorder (leaves first); exactly the
/// subtree's slots die; every survivor keeps its node, path and parent;
/// the parent of `h` loses exactly that child; and the path map keeps
/// distinct keys, each resolving to a surviving node at that path.
pub open spec fn rm_effect(pre: Root, h: int, v: Seq<Node>, post: Root) -> bool {
    let ord = pre.preorder(h);
    let p = pre.parent_of(h);
    &&& v.len() == ord.len()
    &&& forall|k: int| 0 <= k < ord.len() ==> #[trigger] v[k] == pre.node_at(ord[ord.len() - 1 - k])
    &&& post.n_slots() == pre.n_slots()
    &&& forall|i: int| #[trigger] post.live(i) <==> (pre.live(i) && !ord.contains(i))
    &&& forall|i: int|
        #[trigger] post.live(i) ==> post.node_at(i) == pre.node_at(i) && post.path_at(i)
            == pre.path_at(i) && post.parent_of(i) == pre.parent_of(i)
    &&& forall|i: int|
        #[trigger] post.live(i) && i != p ==> post.children_of(i) == pre.children_of(i)
    &&& (exists|idx: int|
        0 <= idx < pre.children_of(p).len() && pre.children_of(p)[idx] == h
            && post.children_of(p) == pre.children_of(p).remove(idx))
    &&& post.map_wf()
    &&& post.spec_name() == pre.spec_name()
    &&& post.ns_on() == pre.ns_on()
    &&& (!pre.ns_on() ==> post.events() == pre.events())
}


/// A survivor of a removal keeps a surviving parent that still lists it,
/// its well-formed address, and its materialized path.
#[verifier::rlimit(100)]
proof fn lemma_rm_wf_parents(pre: Root, h: int, post: Root)
    requires
        pre.wf(),
        pre.live(h),
        h != 0,
        post.n_slots() == pre.n_slots(),
        forall|i: int| #[trigger] post.live(i) <==> (pre.live(i) && !pre.preorder(h).contains(i)),
        forall|i: int|
            #[trigger] post.live(i) ==> post.node_at(i) == pre.node_at(i) && post.path_at(i)
                == pre.path_at(i) && post.parent_of(i) == pre.parent_of(i),
        forall|i: int|
            #[trigger] post.live(i) && i != pre.parent_of(h) ==> post.children_of(i)
                == pre.children_of(i),
        exists|idx: int|
            0 <= idx < pre.children_of(pre.parent_of(h)).len() && pre.children_of(
                pre.parent_of(h),
            )[idx] == h && post.children_of(pre.parent_of(h)) == pre.children_of(
                pre.parent_of(h),
            ).remove(idx),
    ensures
        forall|i: int|
            #[trigger] post.live(i) && i != 0 ==> {
                &&& 0 <= post.parent_of(i) < i
                &&& post.live(post.parent_of(i))
                &&& post.children_of(post.parent_of(i)).contains(i)
                &&& post.node_at(i).wf()
                &&& post.path_at(i) == post.parent_base(post.parent_of(i)) + seq!['/']
                    + post.node_at(i).spec_address()
            },
{
    let ord = pre.preorder(h);
    let p = pre.parent_of(h);
    pre.lemma_preorder_elems(h);
    assert forall|i: int| #[trigger] post.live(i) && i != 0 implies {
        &&& 0 <= post.parent_of(i) < i
        &&& post.live(post.parent_of(i))
        &&& post.children_of(post.parent_of(i)).contains(i)
        &&& post.node_at(i).wf()
        &&& post.path_at(i) == post.parent_base(post.parent_of(i)) + seq!['/']
            + post.node_at(i).spec_address()
    } by {
        assert(pre.live(i));
        let q = pre.parent_of(i);
        assert(post.parent_of(i) == q);
        assert(!ord.contains(q)) by {
            if ord.contains(q) {
                let k = choose|k: int| 0 <= k < ord.len() && ord[k] == q;
                assert(pre.in_subtree(q, h));
                assert(pre.in_subtree(i, h));
                pre.lemma_preorder_complete(i, h);
                assert(ord.contains(i));
            }
        }
        assert(post.live(q));
        if q == p {
            let idx = choose|idx: int|
                0 <= idx < pre.children_of(p).len() && pre.children_of(p)[idx] == h
                    && post.children_of(p) == pre.children_of(p).remove(idx);
            assert(i != h);
            assert(pre.children_of(p).contains(i));
            let ki = choose|ki: int|
                0 <= ki < pre.children_of(p).len() && pre.children_of(p)[ki] == i;
            assert(ki != idx);
            if ki < idx {
                assert(post.children_of(p)[ki] == pre.children_of(p)[ki]);
            } else {
                assert(post.children_of(p)[ki - 1] == pre.children_of(p)[ki]);
            }
            assert(post.children_of(p).contains(i));
        } else {
            assert(post.children_of(q) == pre.children_of(q));
        }
        if q != 0 {
            assert(post.path_at(q) == pre.path_at(q));
        }
        assert(post.parent_base(q) == pre.parent_base(q));
    }
}

/// A survivor's children all survive, stay distinct, and still point back.
#[verifier::rlimit(100)]
proof fn lemma_rm_wf_children(pre: Root, h: int, post: Root)
    requires
        pre.wf(),
        pre.live(h),
        h != 0,
        post.n_slots() == pre.n_slots(),
        forall|i: int| #[trigger] post.live(i) <==> (pre.live(i) && !pre.preorder(h).contains(i)),
        forall|i: int|
            #[trigger] post.live(i) ==> post.node_at(i) == pre.node_at(i) && post.path_at(i)
                == pre.path_at(i) && post.parent_of(i) == pre.parent_of(i),
        forall|i: int|
            #[trigger] post.live(i) && i != pre.parent_of(h) ==> post.children_of(i)
                == pre.children_of(i),
        exists|idx: int|
            0 <= idx < pre.children_of(pre.parent_of(h)).len() && pre.children_of(
                pre.parent_of(h),
            )[idx] == h && post.children_of(pre.parent_of(h)) == pre.children_of(
                pre.parent_of(h),
            ).remove(idx),
    ensures
        forall|i: int|
            #[trigger] post.live(i) ==> {
                &&& post.children_of(i).no_duplicates()
                &&& forall|k: int|
                    0 <= k < post.children_of(i).len() ==> i < #[trigger] post.children_of(i)[k]
                        < post.n_slots() && post.live(post.children_of(i)[k]) && post.parent_of(
                        post.children_of(i)[k],
                    ) == i
            },
{
    let ord = pre.preorder(h);
    let p = pre.parent_of(h);
    pre.lemma_preorder_elems(h);
    assert forall|i: int| #[trigger] post.live(i) implies {
        &&& post.children_of(i).no_duplicates()
        &&& forall|k: int|
            0 <= k < post.children_of(i).len() ==> i < #[trigger] post.children_of(i)[k]
                < post.n_slots() && post.live(post.children_of(i)[k]) && post.parent_of(
                post.children_of(i)[k],
            ) == i
    } by {
        assert(pre.live(i));
        if i != p {
            assert(post.children_of(i) == pre.children_of(i));
            assert forall|k: int| 0 <= k < post.children_of(i).len() implies i
                < #[trigger] post.children_of(i)[k] < post.n_slots() && post.live(
                post.children_of(i)[k],
            ) && post.parent_of(post.children_of(i)[k]) == i by {
                let c = pre.children_of(i)[k];
                assert(pre.live(c));
                assert(!ord.contains(c)) by {
                    if ord.contains(c) {
                        assert(pre.in_subtree(c, h));
                        assert(c != h) by {
                            if c == h {
                                assert(pre.parent_of(h) == i);
                                assert(pre.live(h) && ord.contains(h));
                                assert(!post.live(h));
                            }
                        }
                        assert(pre.in_subtree(pre.parent_of(c), h));
                        pre.lemma_preorder_complete(i, h);
                        assert(ord.contains(i));
                        assert(!post.live(i));
                    }
                }
                assert(post.live(c));
            }
        } else {
            let idx = choose|idx: int|
                0 <= idx < pre.children_of(p).len() && pre.children_of(p)[idx] == h
                    && post.children_of(p) == pre.children_of(p).remove(idx);
            assert(pre.children_of(p).no_duplicates());
            assert forall|k1: int, k2: int|
                0 <= k1 < k2 < post.children_of(p).len() implies post.children_of(p)[k1]
                != post.children_of(p)[k2] by {
                let a1 = if k1 < idx {
                    k1
                } else {
                    k1 + 1
                };
                let a2 = if k2 < idx {
                    k2
                } else {
                    k2 + 1
                };
                assert(post.children_of(p)[k1] == pre.children_of(p)[a1]);
                assert(post.children_of(p)[k2] == pre.children_of(p)[a2]);
            }
            assert forall|k: int| 0 <= k < post.children_of(p).len() implies p
                < #[trigger] post.children_of(p)[k] < post.n_slots() && post.live(
                post.children_of(p)[k],
            ) && post.parent_of(post.children_of(p)[k]) == p by {
                let a = if k < idx {
                    k
                } else {
                    k + 1
                };
                let c = pre.children_of(p)[a];
                assert(post.children_of(p)[k] == c);
                assert(pre.live(c));
                assert(c != h);
                assert(!ord.contains(c)) by {
                    if ord.contains(c) {
                        assert(pre.in_subtree(c, h));
                        assert(pre.in_subtree(pre.parent_of(c), h));
                        pre.lemma_subtree_ge(p, h);
                    }
                }
                assert(post.live(c));
                assert(post.parent_of(c) == p);
                assert(p < c < post.n_slots());
            }
        }
    }
}

/// Removing a whole subtree preserves the structural invariant.
proof fn lemma_rm_preserves_wf(pre: Root, h: int, post: Root)
    requires
        pre.wf(),
        pre.live(h),
        h != 0,
        post.n_slots() == pre.n_slots(),
        forall|i: int| #[trigger] post.live(i) <==> (pre.live(i) && !pre.preorder(h).contains(i)),
        forall|i: int|
            #[trigger] post.live(i) ==> post.node_at(i) == pre.node_at(i) && post.path_at(i)
                == pre.path_at(i) && post.parent_of(i) == pre.parent_of(i),
        forall|i: int|
            #[trigger] post.live(i) && i != pre.parent_of(h) ==> post.children_of(i)
                == pre.children_of(i),
        exists|idx: int|
            0 <= idx < pre.children_of(pre.parent_of(h)).len() && pre.children_of(
                pre.parent_of(h),
            )[idx] == h && post.children_of(pre.parent_of(h)) == pre.children_of(
                pre.parent_of(h),
            ).remove(idx),
        post.map_wf(),
    ensures
        post.wf(),
{
    let ord = pre.preorder(h);
    pre.lemma_preorder_elems(h);
    assert(!ord.contains(0)) by {
        if ord.contains(0) {
            let k = choose|k: int| 0 <= k < ord.len() && ord[k] == 0;
            assert(h <= ord[k]);
        }
    }
    assert(post.live(0));
    lemma_rm_wf_parents(pre, h, post);
    lemma_rm_wf_children(pre, h, post);
}

/// After one node slot dies and the map entry carrying its path (if any)
/// is removed, the map still has distinct keys and every entry still
/// resolves to a live slot with a matching path.
proof fn lemma_map_wf_after_slot_and_key_removal(
    before_map: Seq<(Seq<char>, int)>,
    after_map: Seq<(Seq<char>, int)>,
    before_nodes: Seq<Option<Entry>>,
    after_nodes: Seq<Option<Entry>>,
    id: int,
    key: Seq<char>,
    at: Option<int>,
)
    requires
        forall|k1: int, k2: int|
            0 <= k1 < k2 < before_map.len() ==> (#[trigger] before_map[k1]).0 != (
            #[trigger] before_map[k2]).0,
        forall|kk: int|
            0 <= kk < before_map.len() ==> {
                let e = #[trigger] before_map[kk];
                &&& 0 <= e.1 < before_nodes.len()
                &&& before_nodes[e.1] is Some
                &&& before_nodes[e.1]->Some_0.wrapper.full_path@ == e.0
            },
        0 <= id < before_nodes.len(),
        before_nodes[id] is Some,
        before_nodes[id]->Some_0.wrapper.full_path@ == key,
        after_nodes.len() == before_nodes.len(),
        forall|j: int| 0 <= j < before_nodes.len() && j != id ==> after_nodes[j] == before_nodes[j],
        after_nodes[id] is None,
        match at {
            Option::Some(a) => 0 <= a < before_map.len() && before_map[a].0 == key && after_map
                == before_map.remove(a),
            Option::None => after_map == before_map && forall|kk: int|
                0 <= kk < before_map.len() ==> (#[trigger] before_map[kk]).0 != key,
        },
    ensures
        forall|k1: int, k2: int|
            0 <= k1 < k2 < after_map.len() ==> (#[trigger] after_map[k1]).0 != (
            #[trigger] after_map[k2]).0,
        forall|kk: int|
            0 <= kk < after_map.len() ==> {
                let e = #[trigger] after_map[kk];
                &&& 0 <= e.1 < after_nodes.len()
                &&& after_nodes[e.1] is Some
                &&& after_nodes[e.1]->Some_0.wrapper.full_path@ == e.0
            },
{
    match at {
        Option::Some(a) => {
            assert forall|kk: int| 0 <= kk < after_map.len() implies {
                let e = #[trigger] after_map[kk];
                &&& 0 <= e.1 < after_nodes.len()
                &&& after_nodes[e.1] is Some
                &&& after_nodes[e.1]->Some_0.wrapper.full_path@ == e.0
            } by {
                let b = if kk < a {
                    kk
                } else {
                    kk + 1
                };
                assert(after_map[kk] == before_map[b]);
                assert(after_map[kk].1 != id) by {
                    if before_map[b].1 == id {
                        assert(before_map[b].0 == key);
                        if b < a {
                            assert(before_map[b].0 != before_map[a].0);
                        } else {
                            assert(before_map[a].0 != before_map[b].0);
                        }
                    }
                }
            }
            assert forall|k1: int, k2: int| 0 <= k1 < k2 < after_map.len() implies (
            #[trigger] after_map[k1]).0 != (#[trigger] after_map[k2]).0 by {
                let b1 = if k1 < a {
                    k1
                } else {
                    k1 + 1
                };
                let b2 = if k2 < a {
                    k2
                } else {
                    k2 + 1
                };
                assert(after_map[k1] == before_map[b1]);
                assert(after_map[k2] == before_map[b2]);
            }
        },
        Option::None => {
            assert forall|kk: int| 0 <= kk < after_map.len() implies {
                let e = #[trigger] after_map[kk];
                &&& 0 <= e.1 < after_nodes.len()
                &&& after_nodes[e.1] is Some
                &&& after_nodes[e.1]->Some_0.wrapper.full_path@ == e.0
            } by {
                assert(after_map[kk] == before_map[kk]);
                assert(after_map[kk].1 != id) by {
                    if before_map[kk].1 == id {
                        assert(before_map[kk].0 == key);
                    }
                }
            }
        },
    }
}

/// Peeling one element off a tail of a sequence.
proof fn lemma_skip_step(s: Seq<int>, m: int)
    requires
        0 <= m < s.len(),
    ensures
        forall|x: int|
            #[trigger] s.skip(m).contains(x) <==> (x == s[m] || s.skip(m + 1).contains(x)),
{
    assert forall|x: int| #[trigger] s.skip(m).contains(x) implies (x == s[m] || s.skip(
        m + 1,
    ).contains(x)) by {
        let t = choose|t: int| 0 <= t < s.skip(m).len() && #[trigger] s.skip(m)[t] == x;
        if t > 0 {
            assert(s.skip(m + 1)[t - 1] == x);
        }
    }
    assert forall|x: int| (x == s[m] || s.skip(m + 1).contains(x)) implies #[trigger] s.skip(
        m,
    ).contains(x) by {
        if x == s[m] {
            assert(s.skip(m)[0] == x);
        } else {
            let t = choose|t: int|
                0 <= t < s.skip(m + 1).len() && #[trigger] s.skip(m + 1)[t] == x;
            assert(s.skip(m)[t + 1] == x);
        }
    }
}



/// From the loop-exit facts of a removal, conclude the removal effect and
/// the preserved invariants.
#[verifier::rlimit(100)]
proof fn lemma_rm_finish(
    pre: Root,
    mid: Root,
    post: Root,
    h: int,
    p: int,
    pos: int,
    children_pre: Seq<int>,
    removed: Seq<Node>,
)
    requires
        pre.wf(),
        pre.live(h),
        h != 0,
        p == pre.parent_of(h),
        children_pre == pre.children_of(p),
        0 <= pos < children_pre.len(),
        children_pre[pos] == h,
        mid.nodes@.len() == pre.nodes@.len(),
        post.nodes@.len() == pre.nodes@.len(),
        forall|j: int| 0 <= j < mid.nodes@.len() && j != p ==> mid.nodes@[j] == pre.nodes@[j],
        mid.nodes@[p] is Some,
        mid.nodes@[p]->Some_0.wrapper == pre.nodes@[p]->Some_0.wrapper,
        mid.nodes@[p]->Some_0.parent == pre.nodes@[p]->Some_0.parent,
        mid.children_of(p) == children_pre.remove(pos),
        forall|j: int|
            0 <= j < post.nodes@.len() && !pre.preorder(h).contains(j) ==> post.nodes@[j]
                == mid.nodes@[j],
        forall|t: int|
            0 <= t < pre.preorder(h).len() ==> post.nodes@[#[trigger] pre.preorder(h)[t]] is None,
        removed.len() == pre.preorder(h).len(),
        forall|j: int|
            0 <= j < removed.len() ==> #[trigger] removed[j] == pre.node_at(
                pre.preorder(h)[pre.preorder(h).len() - 1 - j],
            ),
        forall|k1: int, k2: int|
            0 <= k1 < k2 < post.map_view().len() ==> (#[trigger] post.map_view()[k1]).0 != (
            #[trigger] post.map_view()[k2]).0,
        forall|kk: int|
            0 <= kk < post.map_view().len() ==> post.live((#[trigger] post.map_view()[kk]).1)
                && post.path_at(post.map_view()[kk].1) == post.map_view()[kk].0,
        post.spec_name() == pre.spec_name(),
        post.ns_on() == pre.ns_on(),
        !pre.ns_on() ==> post.events() == pre.events(),
    ensures
        post.wf(),
        rm_effect(pre, h, removed, post),
{
    let ord = pre.preorder(h);
    pre.lemma_preorder_elems(h);
    pre.lemma_preorder_distinct(h);
    assert forall|t: int| 0 <= t < ord.len() implies #[trigger] ord[t] != p by {
        assert(h <= ord[t]);
        assert(p < h);
    }
    assert forall|j: int| #[trigger] post.live(j) <==> (pre.live(j) && !ord.contains(j)) by {
        if ord.contains(j) {
            let t = choose|t: int| 0 <= t < ord.len() && ord[t] == j;
            assert(post.nodes@[j] is None);
        } else {
            if 0 <= j < post.nodes@.len() {
                assert(post.nodes@[j] == mid.nodes@[j]);
            }
        }
    }
    assert forall|j: int| #[trigger] post.live(j) implies post.node_at(j) == pre.node_at(j)
        && post.path_at(j) == pre.path_at(j) && post.parent_of(j) == pre.parent_of(j) by {
        assert(post.nodes@[j] == mid.nodes@[j]);
        if j != p {
            assert(mid.nodes@[j] == pre.nodes@[j]);
        }
    }
    assert forall|j: int| #[trigger] post.live(j) && j != p implies post.children_of(j)
        == pre.children_of(j) by {
        assert(post.nodes@[j] == mid.nodes@[j]);
        assert(mid.nodes@[j] == pre.nodes@[j]);
    }
    assert(post.live(p)) by {
        assert(!ord.contains(p));
        assert(post.nodes@[p] == mid.nodes@[p]);
    }
    assert(post.children_of(p) == children_pre.remove(pos)) by {
        assert(post.nodes@[p] == mid.nodes@[p]);
    }
    assert(post.map_wf());
    assert(rm_effect(pre, h, removed, post));
    lemma_rm_preserves_wf(pre, h, post);
}


/// The structural invariant reads only the arena and the path map, so two
/// states sharing them are equally well-formed.
proof fn lemma_wf_ignores_ns(a: Root, b: Root)
    requires
        a.wf(),
        b.nodes@ == a.nodes@,
        b.index_map@ == a.index_map@,
    ensures
        b.wf(),
{
    assert(b.n_slots() == a.n_slots());
    assert(b.map_view() == a.map_view());
    assert forall|i: int| #[trigger] b.live(i) == a.live(i) by {}
    assert forall|i: int| #[trigger] b.live(i) && i != 0 implies {
        &&& 0 <= b.parent_of(i) < i
        &&& b.live(b.parent_of(i))
        &&& b.children_of(b.parent_of(i)).contains(i)
        &&& b.node_at(i).wf()
        &&& b.path_at(i) == b.parent_base(b.parent_of(i)) + seq!['/'] + b.node_at(i).spec_address()
    } by {
        assert(a.live(i));
        assert(b.parent_of(i) == a.parent_of(i));
        assert(b.children_of(a.parent_of(i)) == a.children_of(a.parent_of(i)));
        assert(b.parent_base(a.parent_of(i)) == a.parent_base(a.parent_of(i)));
    }
    assert forall|i: int| #[trigger] b.live(i) implies {
        &&& b.children_of(i).no_duplicates()
        &&& forall|k: int|
            0 <= k < b.children_of(i).len() ==> i < #[trigger] b.children_of(i)[k] < b.n_slots()
                && b.live(b.children_of(i)[k]) && b.parent_of(b.children_of(i)[k]) == i
    } by {
        assert(a.live(i));
        assert(b.children_of(i) == a.children_of(i));
        assert forall|k: int| 0 <= k < b.children_of(i).len() implies i < #[trigger] b.children_of(
            i,
        )[k] < b.n_slots() && b.live(b.children_of(i)[k]) && b.parent_of(b.children_of(i)[k])
            == i by {
            assert(a.live(a.children_of(i)[k]));
        }
    }
    assert(b.map_wf());
}

/// Inserting preserves the structural invariant and, when the new path is
/// fresh, exactness of the path map.
proof fn lemma_add_preserves_wf(pre: Root, node: Node, pid: int, base: Seq<char>, h: int, post: Root)
    requires
        pre.wf(),
        node.wf(),
        pre.live(pid),
        pid == 0 ==> base == Seq::<char>::empty(),
        pid != 0 ==> base == pre.path_at(pid),
        add_effect(pre, node, pid, base, h, post),
    ensures
        post.wf(),
        pre.map_exact() && (forall|i: int|
            #[trigger] pre.live(i) ==> pre.path_at(i) != post.path_at(h)) ==> post.map_exact(),
{
    assert(post.live(0));
    assert(post.path_at(0) == seq!['/']);
    assert(pre.parent_base(pid) == base);
    assert forall|i: int| #[trigger] post.live(i) && i != 0 implies {
        &&& 0 <= post.parent_of(i) < i
        &&& post.live(post.parent_of(i))
        &&& post.children_of(post.parent_of(i)).contains(i)
        &&& post.node_at(i).wf()
        &&& post.path_at(i) == post.parent_base(post.parent_of(i)) + seq!['/']
            + post.node_at(i).spec_address()
    } by {
        if i == h {
            assert(post.parent_of(h) == pid);
            assert(pid < h);
            assert(post.live(pid));
            assert(post.children_of(pid) == pre.children_of(pid).push(h));
            assert(post.children_of(pid)[post.children_of(pid).len() - 1] == h);
            assert(post.children_of(pid).contains(h));
            assert(post.parent_base(pid) == pre.parent_base(pid));
            assert(post.path_at(h) == post.parent_base(post.parent_of(h)) + seq!['/']
                + post.node_at(h).spec_address());
        } else {
            assert(pre.live(i));
            let p = pre.parent_of(i);
            assert(pre.children_of(p).contains(i));
            if p == pid {
                assert(post.children_of(p) == pre.children_of(p).push(h));
                let k = choose|k: int| 0 <= k < pre.children_of(p).len() && pre.children_of(p)[k] == i;
                assert(post.children_of(p)[k] == i);
                assert(post.children_of(p).contains(i));
            } else {
                assert(post.children_of(p) == pre.children_of(p));
            }
            assert(post.parent_base(p) == pre.parent_base(p));
        }
    }
    assert forall|i: int| #[trigger] post.live(i) implies {
        &&& post.children_of(i).no_duplicates()
        &&& forall|k: int|
            0 <= k < post.children_of(i).len() ==> i < #[trigger] post.children_of(i)[k]
                < post.n_slots() && post.live(post.children_of(i)[k]) && post.parent_of(
                post.children_of(i)[k],
            ) == i
    } by {
        if i == h {
            assert(post.children_of(h) == Seq::<int>::empty());
        } else {
            assert(pre.live(i));
            if i == pid {
                assert(post.children_of(i) == pre.children_of(i).push(h));
                assert forall|k: int| 0 <= k < post.children_of(i).len() implies i
                    < #[trigger] post.children_of(i)[k] < post.n_slots() && post.live(
                    post.children_of(i)[k],
                ) && post.parent_of(post.children_of(i)[k]) == i by {
                    if k < pre.children_of(i).len() {
                        assert(post.children_of(i)[k] == pre.children_of(i)[k]);
                        assert(pre.live(pre.children_of(i)[k]));
                    } else {
                        assert(post.children_of(i)[k] == h);
                    }
                }
                assert forall|k1: int, k2: int|
                    0 <= k1 < k2 < post.children_of(i).len() implies post.children_of(i)[k1]
                    != post.children_of(i)[k2] by {
                    if k2 < pre.children_of(i).len() {
                        assert(pre.children_of(i).no_duplicates());
                    } else {
                        assert(post.children_of(i)[k2] == h);
                        assert(post.children_of(i)[k1] < post.n_slots());
                        if k1 < pre.children_of(i).len() {
                            assert(pre.live(pre.children_of(i)[k1]));
                            assert(pre.children_of(i)[k1] < pre.n_slots());
                        }
                    }
                }
                assert(post.children_of(i).no_duplicates());
            } else {
                assert(post.children_of(i) == pre.children_of(i));
                assert forall|k: int| 0 <= k < post.children_of(i).len() implies i
                    < #[trigger] post.children_of(i)[k] < post.n_slots() && post.live(
                    post.children_of(i)[k],
                ) && post.parent_of(post.children_of(i)[k]) == i by {
                    assert(pre.live(pre.children_of(i)[k]));
                }
            }
        }
    }
    // the path map stays well-formed through the upsert
    let mv = pre.map_view();
    let key = post.path_at(h);
    if exists|k: int| 0 <= k < mv.len() && (#[trigger] mv[k]).0 == key {
        let k0 = choose|k: int| 0 <= k < mv.len() && (#[trigger] mv[k]).0 == key;
        assert(post.map_view() == mv.update(k0, (key, h)));
        assert forall|k: int| 0 <= k < post.map_view().len() implies post.live(
            (#[trigger] post.map_view()[k]).1,
        ) && post.path_at(post.map_view()[k].1) == post.map_view()[k].0 by {
            if k == k0 {
                assert(post.map_view()[k] == (key, h));
            } else {
                assert(post.map_view()[k] == mv[k]);
                assert(pre.live(mv[k].1));
            }
        }
        assert forall|k1: int, k2: int| 0 <= k1 < k2 < post.map_view().len() implies (
        #[trigger] post.map_view()[k1]).0 != (#[trigger] post.map_view()[k2]).0 by {
            assert(mv[k1].0 != mv[k2].0);
            if k1 == k0 {
                assert(post.map_view()[k1].0 == mv[k0].0);
            }
            if k2 == k0 {
                assert(post.map_view()[k2].0 == mv[k0].0);
            }
        }
    } else {
        assert(post.map_view() == mv.push((key, h)));
        assert forall|k: int| 0 <= k < post.map_view().len() implies post.live(
            (#[trigger] post.map_view()[k]).1,
        ) && post.path_at(post.map_view()[k].1) == post.map_view()[k].0 by {
            if k < mv.len() {
                assert(post.map_view()[k] == mv[k]);
                assert(pre.live(mv[k].1));
            } else {
                assert(post.map_view()[k] == (key, h));
            }
        }
        assert forall|k1: int, k2: int| 0 <= k1 < k2 < post.map_view().len() implies (
        #[trigger] post.map_view()[k1]).0 != (#[trigger] post.map_view()[k2]).0 by {
            if k2 < mv.len() {
                assert(mv[k1].0 != mv[k2].0);
            } else {
                assert(post.map_view()[k2].0 == key);
            }
        }
    }
    // freshness of the new path carries exactness over
    if pre.map_exact() && (forall|i: int|
        #[trigger] pre.live(i) ==> pre.path_at(i) != post.path_at(h)) {
        assert(!(exists|k: int| 0 <= k < mv.len() && (#[trigger] mv[k]).0 == key)) by {
            if exists|k: int| 0 <= k < mv.len() && (#[trigger] mv[k]).0 == key {
                let k0 = choose|k: int| 0 <= k < mv.len() && (#[trigger] mv[k]).0 == key;
                assert(pre.live(mv[k0].1));
                assert(pre.path_at(mv[k0].1) == key);
            }
        }
        assert(post.map_view() == mv.push((key, h)));
        assert forall|i: int| #[trigger] post.live(i) implies exists|k: int|
            0 <= k < post.map_view().len() && (#[trigger] post.map_view()[k]) == (
            post.path_at(i),
            i,
            ) by {
            if i == h {
                assert(post.map_view()[mv.len() as int] == (post.path_at(h), h));
            } else {
                assert(pre.live(i));
                let k = choose|k: int|
                    0 <= k < mv.len() && (#[trigger] mv[k]) == (pre.path_at(i), i);
                assert(post.map_view()[k] == (post.path_at(i), i));
            }
        }
    }
}

} // verus!
