//! The ring of hash points that assigns every key to one node.

use bytes::Bytes;
use vstd::prelude::*;
use vstd::utf8::encode_utf8;

use crate::buffer::{as_slice, contents};
use crate::cluster::membership::{
    bad_id, distinct_ids, find_node, has_id, lemma_members, members_of, node_views, read_membership,
    valid_id, validate_node_id, ClusterNode, NodeView,
};
use crate::error::{ConfigError, ConfigErrorView};
use crate::hash::{fnv1a, fnv1a_of};
use crate::order::{
    lemma_precedes_strict, lemma_precedes_total, lemma_precedes_transitive, order_of, precedes, Order,
};
use crate::text::{chars_of, decimal, lemma_pieces, pieces, push_decimal};

verus! {

/// The most points that a node can have on the ring.
pub const MAX_VIRTUAL_NODES: usize = 4096;

/// The point of a node's replica on the ring.
pub open spec fn point(id: Seq<char>, replica: nat) -> u64 {
    fnv1a_of(encode_utf8(id + seq!['#'] + decimal(replica)))
}

/// Whether a walk up the ring from `hash`, around its end, meets the point `p` before `q`.
pub open spec fn earlier(p: u64, q: u64, hash: u64) -> bool {
    if (p >= hash) == (q >= hash) {
        p < q
    } else {
        p >= hash
    }
}

/// Whether a name comes before another.
pub open spec fn id_before(a: Seq<char>, b: Seq<char>) -> bool {
    precedes(encode_utf8(a), encode_utf8(b))
}

/// Whether a walk up the ring from `hash` meets this replica first. Where replicas of two nodes
/// share a point, the node whose name comes first counts.
pub open spec fn met_first(
    members: Set<NodeView>,
    replicas: nat,
    hash: u64,
    node: NodeView,
    replica: nat,
) -> bool {
    forall|other: NodeView, r: nat|
        #![trigger members.contains(other), point(other.id, r)]
        members.contains(other) && r < replicas ==> {
            &&& !earlier(point(other.id, r), point(node.id, replica), hash)
            &&& point(other.id, r) == point(node.id, replica) ==> other.id == node.id || id_before(
                node.id,
                other.id,
            )
        }
}

/// Whether a node owns the keys with this hash.
pub open spec fn owns(members: Set<NodeView>, replicas: nat, hash: u64, node: NodeView) -> bool {
    members.contains(node) && exists|replica: nat|
        replica < replicas && #[trigger] met_first(members, replicas, hash, node, replica)
}

/// The node that owns the keys with this hash.
pub open spec fn owner_of(members: Set<NodeView>, replicas: nat, hash: u64) -> NodeView {
    choose|node: NodeView| owns(members, replicas, hash, node)
}

/// Whether no two members have the same name.
pub open spec fn distinct_names(members: Set<NodeView>) -> bool {
    forall|a: NodeView, b: NodeView|
        #![trigger members.contains(a), members.contains(b)]
        members.contains(a) && members.contains(b) && a.id == b.id ==> a == b
}

/// The members of a configured cluster, or why it is not one.
pub open spec fn topology_of(
    local_id: Seq<char>,
    membership: Seq<char>,
    virtual_nodes: usize,
) -> Result<Seq<NodeView>, ConfigErrorView> {
    if virtual_nodes < 1 || virtual_nodes > MAX_VIRTUAL_NODES {
        Err(
            ConfigErrorView::InvalidCombination(
                "cluster virtual node count must be in 1..=4096"@,
            ),
        )
    } else if !valid_id(local_id) {
        Err(bad_id(local_id))
    } else {
        match members_of(pieces(membership, ',')) {
            Err(error) => Err(error),
            Ok(nodes) => if !has_id(nodes, local_id) {
                Err(
                    ConfigErrorView::InvalidCombination(
                        "FORGEKV_CLUSTER_NODE_ID must appear in FORGEKV_CLUSTER_NODES"@,
                    ),
                )
            } else {
                Ok(nodes)
            },
        }
    }
}

/// A cluster, seen from one of its nodes.
#[derive(Clone, Debug)]
pub struct ClusterTopology {
    local_node_index: usize,
    nodes: Vec<ClusterNode>,
    ring: Vec<(u64, usize)>,
    virtual_nodes: usize,
}

/// Whether the names of nodes stand in strictly increasing order.
spec fn ordered_ids(nodes: Seq<NodeView>) -> bool {
    forall|i: int, j: int|
        #![trigger nodes[i], nodes[j]]
        0 <= i < j < nodes.len() ==> id_before(nodes[i].id, nodes[j].id)
}

/// Whether pairs stand in increasing order: by their first parts, and where these are equal by
/// their second.
pub open spec fn ordered_pairs(pairs: Seq<(u64, usize)>) -> bool {
    forall|i: int, j: int|
        #![trigger pairs[i], pairs[j]]
        0 <= i < j < pairs.len() ==> pairs[i].0 < pairs[j].0 || (pairs[i].0 == pairs[j].0
            && pairs[i].1 <= pairs[j].1)
}

/// Calls `<[T]>::sort_unstable` on pairs of integers, which are ordered by their first parts and
/// then by their second: the same pairs come back in increasing order.
#[verifier::external_body]
fn sort_pairs(pairs: &mut Vec<(u64, usize)>)
    ensures
        ordered_pairs(final(pairs)@),
        final(pairs)@.to_multiset() == old(pairs)@.to_multiset(),
{
    pairs.sort_unstable();
}

/// Whether a pair is the point of one of a node's replicas.
spec fn ring_point(nodes: Seq<NodeView>, replicas: nat, pair: (u64, usize), r: nat) -> bool {
    pair.1 < nodes.len() && r < replicas && pair.0 == point(nodes[pair.1 as int].id, r)
}

/// Whether a pair is the point of a replica of some node.
spec fn some_point(nodes: Seq<NodeView>, replicas: nat, pair: (u64, usize)) -> bool {
    exists|r: nat| ring_point(nodes, replicas, pair, r)
}

/// Whether every pair of a ring is a point of a node.
spec fn ring_sound(nodes: Seq<NodeView>, replicas: nat, ring: Seq<(u64, usize)>) -> bool {
    forall|i: int| 0 <= i < ring.len() ==> some_point(nodes, replicas, #[trigger] ring[i])
}

/// Whether a ring has the points of every node up to this replica of this node.
spec fn ring_has(
    nodes: Seq<NodeView>,
    ring: Seq<(u64, usize)>,
    replicas: nat,
    node_bound: int,
    replica_bound: nat,
) -> bool {
    forall|i: int, r: nat|
        #![trigger nodes[i], point(nodes[i].id, r)]
        0 <= i < nodes.len() && r < replicas && (i < node_bound || i == node_bound && r
            < replica_bound) ==> ring.contains((point(nodes[i].id, r), i as usize))
}

impl ClusterTopology {
    /// The nodes by their names, the ring with all their points, and the local node among them.
    pub closed spec fn valid(self) -> bool {
        let nodes = node_views(self.nodes@);
        let replicas = self.virtual_nodes as nat;
        &&& self.local_node_index < nodes.len()
        &&& 1 <= self.virtual_nodes <= MAX_VIRTUAL_NODES
        &&& ordered_ids(nodes)
        &&& ordered_pairs(self.ring@)
        &&& ring_sound(nodes, replicas, self.ring@)
        &&& ring_has(nodes, self.ring@, replicas, nodes.len() as int, 0)
    }

    /// The nodes of the cluster.
    pub closed spec fn members(self) -> Set<NodeView> {
        node_views(self.nodes@).to_set()
    }

    /// How many points each node has on the ring.
    pub closed spec fn replicas(self) -> nat {
        self.virtual_nodes as nat
    }

    /// The node that this process is.
    pub closed spec fn local(self) -> NodeView {
        node_views(self.nodes@)[self.local_node_index as int]
    }

    /// The number of nodes.
    pub closed spec fn size(self) -> nat {
        self.nodes@.len()
    }

    /// The cluster of a configured membership.
    pub fn new(local_node_id: &str, membership: &str, virtual_nodes: usize) -> (topology: Result<
        Self,
        ConfigError,
    >)
        ensures
            match topology {
                Ok(topology) => {
                    let nodes = topology_of(local_node_id@, membership@, virtual_nodes)->Ok_0;
                    &&& topology_of(local_node_id@, membership@, virtual_nodes) is Ok
                    &&& topology.valid()
                    &&& topology.members() == nodes.to_set()
                    &&& topology.size() == nodes.len()
                    &&& distinct_names(topology.members())
                    &&& topology.replicas() == virtual_nodes
                    &&& topology.members().contains(topology.local())
                    &&& topology.local().id == local_node_id@
                },
                Err(error) => topology_of(local_node_id@, membership@, virtual_nodes) == Err::<
                    Seq<NodeView>,
                    ConfigErrorView,
                >(error@),
            },
    {
        if virtual_nodes < 1 || virtual_nodes > MAX_VIRTUAL_NODES {
            return Err(
                ConfigError::InvalidCombination(
                    "cluster virtual node count must be in 1..=4096".to_owned(),
                ),
            );
        }
        match validate_node_id(chars_of(local_node_id).as_slice()) {
            Ok(_) => {},
            Err(error) => return Err(error),
        }
        let listed: Vec<ClusterNode> = match read_membership(membership) {
            Ok(listed) => listed,
            Err(error) => return Err(error),
        };
        let ghost parsed = node_views(listed@);
        proof {
            lemma_members(pieces(membership@, ','));
            lemma_pieces(membership@, ',');
        }
        let nodes: Vec<ClusterNode> = sort_nodes(listed);
        let ghost sorted = node_views(nodes@);
        proof {
            assert(has_id(parsed, local_node_id@) == has_id(sorted, local_node_id@)) by {
                lemma_same_ids(parsed, sorted, local_node_id@);
            }
        }
        let local_node_index: usize = match find_node(&nodes, local_node_id) {
            Some(index) => index,
            None => return Err(
                ConfigError::InvalidCombination(
                    "FORGEKV_CLUSTER_NODE_ID must appear in FORGEKV_CLUSTER_NODES".to_owned(),
                ),
            ),
        };
        let ring: Vec<(u64, usize)> = build_ring(&nodes, virtual_nodes);
        let topology: ClusterTopology = Self { local_node_index, nodes, ring, virtual_nodes };
        proof {
            assert(sorted[local_node_index as int].id == local_node_id@);
            assert(sorted.to_set().contains(sorted[local_node_index as int]));
            lemma_distinct_names(parsed);
        }
        Ok(topology)
    }

    /// The place of the node that owns a key.
    fn owner_index(&self, key: &Bytes) -> (index: usize)
        requires
            self.valid(),
        ensures
            index < self.nodes@.len(),
            owns(
                self.members(),
                self.replicas(),
                fnv1a_of(contents(*key)),
                node_views(self.nodes@)[index as int],
            ),
    {
        let hash: u64 = fnv1a(as_slice(key));
        let ghost nodes = node_views(self.nodes@);
        let ghost ring = self.ring@;
        proof {
            let first = point(nodes[0].id, 0);
            assert(ring.contains((first, 0usize)));
        }
        let mut low: usize = 0;
        let mut high: usize = self.ring.len();
        while low < high
            invariant
                low <= high <= self.ring@.len(),
                ordered_pairs(self.ring@),
                forall|i: int| 0 <= i < low ==> (#[trigger] self.ring@[i]).0 < hash,
                forall|i: int| high <= i < self.ring@.len() ==> (#[trigger] self.ring@[i]).0 >= hash,
            decreases high - low,
        {
            let middle: usize = low + (high - low) / 2;
            if self.ring[middle].0 < hash {
                low = middle + 1;
            } else {
                high = middle;
            }
        }
        let place: usize = if low == self.ring.len() {
            0
        } else {
            low
        };
        proof {
            let pair = ring[place as int];
            let node = nodes[pair.1 as int];
            let replica = choose|r: nat| ring_point(nodes, self.virtual_nodes as nat, pair, r);
            assert(some_point(nodes, self.virtual_nodes as nat, pair));
            assert(self.members().contains(node));
            assert forall|other: NodeView, r: nat|
                #![trigger self.members().contains(other), point(other.id, r)]
                self.members().contains(other) && r < self.replicas() implies {
                &&& !earlier(point(other.id, r), point(node.id, replica), hash)
                &&& point(other.id, r) == point(node.id, replica) ==> other.id == node.id
                    || id_before(node.id, other.id)
            } by {
                let i = choose|i: int| 0 <= i < nodes.len() && nodes[i] == other;
                assert(nodes[i] == other);
                let q = point(nodes[i].id, r);
                assert(ring.contains((q, i as usize)));
                let j = choose|j: int| 0 <= j < ring.len() && ring[j] == (q, i as usize);
                assert(ring[j] == (q, i as usize));
                if j < place {
                    assert(ring[j].0 < hash);
                } else if j > place {
                    assert(pair.0 < q || (pair.0 == q && pair.1 <= i));
                }
                if q == pair.0 && i != pair.1 {
                    assert(pair.1 < i);
                    assert(id_before(nodes[pair.1 as int].id, nodes[i].id));
                }
            }
            assert(met_first(self.members(), self.replicas(), hash, node, replica));
        }
        self.ring[place].1
    }

    /// The node that owns a key.
    pub fn owner(&self, key: &Bytes) -> (node: &ClusterNode)
        requires
            self.valid(),
        ensures
            owns(self.members(), self.replicas(), fnv1a_of(contents(*key)), node@),
            node@ == owner_of(self.members(), self.replicas(), fnv1a_of(contents(*key))),
    {
        let index: usize = self.owner_index(key);
        proof {
            let hash = fnv1a_of(contents(*key));
            self.lemma_names();
            law_one_owner(
                self.members(),
                self.replicas(),
                hash,
                node_views(self.nodes@)[index as int],
                owner_of(self.members(), self.replicas(), hash),
            );
        }
        &self.nodes[index]
    }

    /// Whether this process owns a key.
    pub fn is_local(&self, key: &Bytes) -> (local: bool)
        requires
            self.valid(),
        ensures
            local == owns(
                self.members(),
                self.replicas(),
                fnv1a_of(contents(*key)),
                self.local(),
            ),
            local == (owner_of(self.members(), self.replicas(), fnv1a_of(contents(*key)))
                == self.local()),
    {
        let index: usize = self.owner_index(key);
        proof {
            let nodes = node_views(self.nodes@);
            let hash = fnv1a_of(contents(*key));
            self.lemma_names();
            law_one_owner(
                self.members(),
                self.replicas(),
                hash,
                nodes[index as int],
                owner_of(self.members(), self.replicas(), hash),
            );
            if owns(self.members(), self.replicas(), hash, self.local()) {
                law_one_owner(
                    self.members(),
                    self.replicas(),
                    hash,
                    self.local(),
                    nodes[index as int],
                );
                if index < self.local_node_index {
                    lemma_precedes_strict(
                        encode_utf8(nodes[index as int].id),
                        encode_utf8(self.local().id),
                    );
                }
                if self.local_node_index < index {
                    lemma_precedes_strict(
                        encode_utf8(self.local().id),
                        encode_utf8(nodes[index as int].id),
                    );
                }
            }
        }
        index == self.local_node_index
    }

    /// Members of a cluster have different names.
    proof fn lemma_names(self)
        requires
            self.valid(),
        ensures
            distinct_names(self.members()),
    {
        let nodes = node_views(self.nodes@);
        assert forall|i: int, j: int|
            #![trigger nodes[i], nodes[j]]
            0 <= i < j < nodes.len() implies nodes[i].id != nodes[j].id by {
            lemma_precedes_strict(encode_utf8(nodes[i].id), encode_utf8(nodes[j].id));
        }
        lemma_distinct_names(nodes);
    }

    /// The node that this process is.
    pub fn local_node(&self) -> (node: &ClusterNode)
        requires
            self.valid(),
        ensures
            node@ == self.local(),
    {
        &self.nodes[self.local_node_index]
    }

    /// The number of nodes.
    pub fn node_count(&self) -> (count: usize)
        ensures
            count == self.size(),
    {
        self.nodes.len()
    }

    /// How many points each node has on the ring.
    pub fn virtual_nodes(&self) -> (count: usize)
        ensures
            count == self.replicas(),
    {
        self.virtual_nodes
    }
}

proof fn lemma_distinct_names(nodes: Seq<NodeView>)
    requires
        distinct_ids(nodes),
    ensures
        distinct_names(nodes.to_set()),
{
    let members = nodes.to_set();
    assert forall|a: NodeView, b: NodeView|
        #![trigger members.contains(a), members.contains(b)]
        members.contains(a) && members.contains(b) && a.id == b.id implies a == b by {
        let i = choose|i: int| 0 <= i < nodes.len() && nodes[i] == a;
        let j = choose|j: int| 0 <= j < nodes.len() && nodes[j] == b;
        assert(nodes[i] == a && nodes[j] == b);
        if i < j {
            assert(nodes[i].id != nodes[j].id);
        }
        if j < i {
            assert(nodes[j].id != nodes[i].id);
        }
    }
}

proof fn lemma_same_ids(first: Seq<NodeView>, second: Seq<NodeView>, id: Seq<char>)
    requires
        first.to_set() == second.to_set(),
    ensures
        has_id(first, id) == has_id(second, id),
{
    if has_id(first, id) {
        let i = choose|i: int| 0 <= i < first.len() && (#[trigger] first[i]).id == id;
        assert(first.to_set().contains(first[i]));
        assert(second.contains(first[i]));
    }
    if has_id(second, id) {
        let i = choose|i: int| 0 <= i < second.len() && (#[trigger] second[i]).id == id;
        assert(second.to_set().contains(second[i]));
        assert(first.contains(second[i]));
    }
}

proof fn lemma_id_bytes(a: Seq<char>, b: Seq<char>)
    ensures
        encode_utf8(a) == encode_utf8(b) ==> a == b,
{
    broadcast use vstd::utf8::encode_utf8_decode_utf8;

    assert(vstd::utf8::decode_utf8(encode_utf8(a)) == a);
    assert(vstd::utf8::decode_utf8(encode_utf8(b)) == b);
}

/// The nodes in the order of their names.
fn sort_nodes(listed: Vec<ClusterNode>) -> (nodes: Vec<ClusterNode>)
    requires
        distinct_ids(node_views(listed@)),
    ensures
        ordered_ids(node_views(nodes@)),
        nodes@.len() == listed@.len(),
        node_views(nodes@).to_set() == node_views(listed@).to_set(),
{
    let ghost all = node_views(listed@);
    let mut waiting: Vec<ClusterNode> = listed;
    let mut nodes: Vec<ClusterNode> = Vec::new();
    proof {
        assert(all.take(all.len() as int) =~= all);
        assert(node_views(nodes@).to_set() =~= all.skip(all.len() as int).to_set());
    }
    while waiting.len() > 0
        invariant
            distinct_ids(all),
            waiting@.len() <= all.len(),
            node_views(waiting@) == all.take(waiting@.len() as int),
            ordered_ids(node_views(nodes@)),
            nodes@.len() + waiting@.len() == all.len(),
            node_views(nodes@).to_set() == all.skip(waiting@.len() as int).to_set(),
        decreases waiting@.len(),
    {
        let ghost before = node_views(nodes@);
        let ghost left = waiting@.len() as int;
        let node: ClusterNode = waiting.pop().unwrap();
        let ghost view = node@;
        proof {
            assert(node_views(waiting@) =~= all.take(left - 1));
            assert(all.take(left)[left - 1] == view);
            assert(view == all[left - 1]);
            assert forall|i: int| 0 <= i < before.len() implies (#[trigger] before[i]).id
                != view.id by {
                assert(before.to_set().contains(before[i]));
                let rest = all.skip(left);
                assert(rest.contains(before[i]));
                let j = choose|j: int| 0 <= j < rest.len() && rest[j] == before[i];
                assert(all[left + j] == before[i]);
                assert(all[left - 1].id != all[left + j].id);
            }
        }
        let place: usize = node_place(&nodes, &node);
        nodes.insert(place, node);
        proof {
            let after = node_views(nodes@);
            assert(after =~= before.insert(place as int, view));
            lemma_ordered_insert(before, place as int, view);
            let rest = all.skip(left - 1);
            assert(rest =~= seq![view] + all.skip(left));
            assert forall|n: NodeView| after.to_set().contains(n) <==> rest.to_set().contains(
                n,
            ) by {
                if after.contains(n) {
                    let i = choose|i: int| 0 <= i < after.len() && after[i] == n;
                    if i == place {
                        assert(rest[0] == n);
                    } else {
                        let k = if i < place {
                            i
                        } else {
                            i - 1
                        };
                        assert(before[k] == n);
                        assert(before.to_set().contains(n));
                        assert(all.skip(left).contains(n));
                        let j = choose|j: int|
                            0 <= j < all.skip(left).len() && all.skip(left)[j] == n;
                        assert(rest[j + 1] == n);
                    }
                }
                if rest.contains(n) {
                    let j = choose|j: int| 0 <= j < rest.len() && rest[j] == n;
                    if j == 0 {
                        assert(after[place as int] == n);
                    } else {
                        assert(all.skip(left)[j - 1] == n);
                        assert(all.skip(left).to_set().contains(n));
                        assert(before.contains(n));
                        let i = choose|i: int| 0 <= i < before.len() && before[i] == n;
                        if i < place {
                            assert(after[i] == n);
                        } else {
                            assert(after[i + 1] == n);
                        }
                    }
                }
            }
            assert(after.to_set() =~= rest.to_set());
        }
    }
    assert(all.skip(0) =~= all);
    nodes
}

/// Where a node goes among nodes in the order of their names.
fn node_place(nodes: &Vec<ClusterNode>, node: &ClusterNode) -> (place: usize)
    requires
        ordered_ids(node_views(nodes@)),
        forall|i: int|
            0 <= i < nodes@.len() ==> (#[trigger] node_views(nodes@)[i]).id != node@.id,
    ensures
        place <= nodes@.len(),
        forall|i: int|
            0 <= i < place ==> id_before((#[trigger] node_views(nodes@)[i]).id, node@.id),
        forall|i: int|
            place <= i < nodes@.len() ==> id_before(
                node@.id,
                (#[trigger] node_views(nodes@)[i]).id,
            ),
{
    let ghost views = node_views(nodes@);
    let mut place: usize = 0;
    while place < nodes.len()
        invariant
            views == node_views(nodes@),
            ordered_ids(views),
            place <= nodes@.len(),
            forall|i: int| 0 <= i < views.len() ==> (#[trigger] views[i]).id != node@.id,
            forall|i: int| 0 <= i < place ==> id_before((#[trigger] views[i]).id, node@.id),
        decreases nodes@.len() - place,
    {
        match order_of(nodes[place].id().as_bytes(), node.id().as_bytes()) {
            Order::Before => {
                assert(id_before(views[place as int].id, node@.id));
                place += 1;
            },
            _ => {
                proof {
                    lemma_id_bytes(views[place as int].id, node@.id);
                    assert(id_before(node@.id, views[place as int].id));
                    assert forall|i: int| place <= i < nodes@.len() implies id_before(
                        node@.id,
                        (#[trigger] views[i]).id,
                    ) by {
                        if place < i {
                            lemma_precedes_transitive(
                                encode_utf8(node@.id),
                                encode_utf8(views[place as int].id),
                                encode_utf8(views[i].id),
                            );
                        }
                    }
                }
                return place;
            },
        }
    }
    place
}

proof fn lemma_ordered_insert(nodes: Seq<NodeView>, place: int, node: NodeView)
    requires
        ordered_ids(nodes),
        0 <= place <= nodes.len(),
        forall|i: int| 0 <= i < place ==> id_before((#[trigger] nodes[i]).id, node.id),
        forall|i: int| place <= i < nodes.len() ==> id_before(node.id, (#[trigger] nodes[i]).id),
    ensures
        ordered_ids(nodes.insert(place, node)),
{
    let after = nodes.insert(place, node);
    assert forall|i: int, j: int|
        #![trigger after[i], after[j]]
        0 <= i < j < after.len() implies id_before(after[i].id, after[j].id) by {
        let a = if i < place {
            i
        } else {
            i - 1
        };
        let b = if j < place {
            j
        } else {
            j - 1
        };
        if i != place {
            assert(after[i] == nodes[a]);
        }
        if j != place {
            assert(after[j] == nodes[b]);
        }
    }
}

/// The points of all nodes, in increasing order.
fn build_ring(nodes: &Vec<ClusterNode>, virtual_nodes: usize) -> (ring: Vec<(u64, usize)>)
    ensures
        ordered_pairs(ring@),
        ring_sound(node_views(nodes@), virtual_nodes as nat, ring@),
        ring_has(node_views(nodes@), ring@, virtual_nodes as nat, nodes@.len() as int, 0),
{
    let ghost views = node_views(nodes@);
    let ghost replicas = virtual_nodes as nat;
    let mut ring: Vec<(u64, usize)> = Vec::new();
    for index in 0..nodes.len()
        invariant
            views == node_views(nodes@),
            replicas == virtual_nodes,
            ring_sound(views, replicas, ring@),
            ring_has(views, ring@, replicas, index as int, 0),
    {
        for replica in 0..virtual_nodes
            invariant
                views == node_views(nodes@),
                replicas == virtual_nodes,
                index < nodes@.len(),
                ring_sound(views, replicas, ring@),
                ring_has(views, ring@, replicas, index as int, replica as nat),
        {
            let ghost before = ring@;
            let mut name: String = nodes[index].id().to_owned();
            name.push('#');
            push_decimal(&mut name, replica as u64);
            let ghost id = views[index as int].id;
            assert(name@ =~= id + seq!['#'] + decimal(replica as nat));
            let hash: u64 = fnv1a(name.as_str().as_bytes());
            ring.push((hash, index));
            proof {
                let pair = (hash, index);
                assert(ring_point(views, replicas, pair, replica as nat));
                assert(some_point(views, replicas, pair));
                assert forall|i: int| 0 <= i < ring@.len() implies some_point(
                    views,
                    replicas,
                    #[trigger] ring@[i],
                ) by {
                    if i < before.len() {
                        assert(ring@[i] == before[i]);
                    }
                }
                assert forall|i: int, r: nat|
                    #![trigger views[i], point(views[i].id, r)]
                    0 <= i < views.len() && r < replicas && (i < index || i == index && r < replica
                        + 1) implies ring@.contains((point(views[i].id, r), i as usize)) by {
                    let wanted = (point(views[i].id, r), i as usize);
                    if i == index && r == replica {
                        assert(ring@[before.len() as int] == wanted);
                    } else {
                        assert(before.contains(wanted));
                        let j = choose|j: int| 0 <= j < before.len() && before[j] == wanted;
                        assert(ring@[j] == wanted);
                    }
                }
            }
        }
        assert forall|i: int, r: nat|
            #![trigger views[i], point(views[i].id, r)]
            0 <= i < views.len() && r < replicas && (i < index + 1 || i == index + 1 && r
                < 0) implies ring@.contains((point(views[i].id, r), i as usize)) by {}
    }
    let ghost before = ring@;
    sort_pairs(&mut ring);
    proof {
        broadcast use vstd::seq_lib::group_to_multiset_ensures;

        assert forall|i: int| 0 <= i < ring@.len() implies some_point(
            views,
            replicas,
            #[trigger] ring@[i],
        ) by {
            assert(ring@.contains(ring@[i]));
            assert(ring@.to_multiset().count(ring@[i]) > 0);
            assert(before.contains(ring@[i]));
            let j = choose|j: int| 0 <= j < before.len() && before[j] == ring@[i];
            assert(before[j] == ring@[i]);
        }
        assert forall|i: int, r: nat|
            #![trigger views[i], point(views[i].id, r)]
            0 <= i < views.len() && r < replicas && (i < views.len() || i == views.len() && r
                < 0) implies ring@.contains((point(views[i].id, r), i as usize)) by {
            let wanted = (point(views[i].id, r), i as usize);
            assert(before.contains(wanted));
            assert(before.to_multiset().count(wanted) > 0);
        }
    }
    ring
}

/// A key has one owner at most.
pub proof fn law_one_owner(
    members: Set<NodeView>,
    replicas: nat,
    hash: u64,
    first: NodeView,
    second: NodeView,
)
    requires
        distinct_names(members),
        owns(members, replicas, hash, first),
        owns(members, replicas, hash, second),
    ensures
        first == second,
{
    let r = choose|r: nat| r < replicas && #[trigger] met_first(members, replicas, hash, first, r);
    let s = choose|s: nat| s < replicas && #[trigger] met_first(members, replicas, hash, second, s);
    let (p, q) = (point(first.id, r), point(second.id, s));
    assert(!earlier(p, q, hash) && !earlier(q, p, hash));
    assert(p == q);
    if first.id != second.id {
        assert(id_before(first.id, second.id));
        assert(id_before(second.id, first.id));
        lemma_precedes_strict(encode_utf8(first.id), encode_utf8(second.id));
    }
}

/// The order in which a membership lists its nodes makes no difference: where two lists name the
/// same nodes, a key has the same owner under both.
pub proof fn law_order_of_membership_is_irrelevant(
    first: Seq<NodeView>,
    second: Seq<NodeView>,
    replicas: nat,
    hash: u64,
    node: NodeView,
)
    requires
        first.to_multiset() == second.to_multiset(),
    ensures
        owns(first.to_set(), replicas, hash, node) == owns(second.to_set(), replicas, hash, node),
{
    broadcast use vstd::seq_lib::group_to_multiset_ensures;

    assert forall|n: NodeView| first.to_set().contains(n) <==> second.to_set().contains(n) by {
        assert(first.contains(n) <==> first.to_multiset().count(n) > 0);
        assert(second.contains(n) <==> second.to_multiset().count(n) > 0);
    }
    assert(first.to_set() =~= second.to_set());
}

/// A node that joins takes keys over, and no key moves between the nodes that were there.
pub proof fn law_joining_only_moves_keys_to_the_new_node(
    members: Set<NodeView>,
    added: NodeView,
    replicas: nat,
    hash: u64,
    before: NodeView,
    after: NodeView,
)
    requires
        distinct_names(members),
        owns(members, replicas, hash, before),
        owns(members.insert(added), replicas, hash, after),
    ensures
        after == before || after == added,
{
    if after != added {
        let grown = members.insert(added);
        let r = choose|r: nat| r < replicas && #[trigger] met_first(grown, replicas, hash, after, r);
        assert forall|other: NodeView, s: nat|
            #![trigger members.contains(other), point(other.id, s)]
            members.contains(other) && s < replicas implies {
            &&& !earlier(point(other.id, s), point(after.id, r), hash)
            &&& point(other.id, s) == point(after.id, r) ==> other.id == after.id || id_before(
                after.id,
                other.id,
            )
        } by {
            assert(grown.contains(other));
        }
        assert(met_first(members, replicas, hash, after, r));
        law_one_owner(members, replicas, hash, before, after);
    }
}

/// Whether a walk up the ring from `hash` meets the first replica no later than the second.
spec fn no_later(a: NodeView, r: nat, b: NodeView, s: nat, hash: u64) -> bool {
    &&& !earlier(point(b.id, s), point(a.id, r), hash)
    &&& point(b.id, s) == point(a.id, r) ==> b.id == a.id || id_before(a.id, b.id)
}

proof fn lemma_no_later_total(a: NodeView, r: nat, b: NodeView, s: nat, hash: u64)
    ensures
        no_later(a, r, b, s, hash) || no_later(b, s, a, r, hash),
{
    if a.id != b.id {
        vstd::utf8::encode_utf8_decode_utf8(a.id);
        vstd::utf8::encode_utf8_decode_utf8(b.id);
        lemma_precedes_total(encode_utf8(a.id), encode_utf8(b.id));
    }
}

proof fn lemma_no_later_transitive(
    a: NodeView,
    r: nat,
    b: NodeView,
    s: nat,
    c: NodeView,
    t: nat,
    hash: u64,
)
    requires
        no_later(a, r, b, s, hash),
        no_later(b, s, c, t, hash),
    ensures
        no_later(a, r, c, t, hash),
{
    if id_before(a.id, b.id) && id_before(b.id, c.id) {
        lemma_precedes_transitive(encode_utf8(a.id), encode_utf8(b.id), encode_utf8(c.id));
    }
}

/// One of a node's replicas is met first.
proof fn lemma_first_replica(node: NodeView, replicas: nat, hash: u64) -> (first: nat)
    requires
        replicas > 0,
    ensures
        first < replicas,
        forall|s: nat| s < replicas ==> #[trigger] no_later(node, first, node, s, hash),
    decreases replicas,
{
    if replicas == 1 {
        0
    } else {
        let last = (replicas - 1) as nat;
        let before = lemma_first_replica(node, last, hash);
        if no_later(node, before, node, last, hash) {
            before
        } else {
            assert forall|s: nat| s < replicas implies #[trigger] no_later(
                node,
                last,
                node,
                s,
                hash,
            ) by {
                if s < last {
                    assert(no_later(node, before, node, s, hash));
                }
            }
            last
        }
    }
}

/// One of the replicas of finitely many nodes is met first.
proof fn lemma_first_node(members: Set<NodeView>, replicas: nat, hash: u64) -> (first: (
    NodeView,
    nat,
))
    requires
        members.finite(),
        members.len() > 0,
        replicas > 0,
    ensures
        members.contains(first.0),
        first.1 < replicas,
        forall|other: NodeView, s: nat|
            members.contains(other) && s < replicas ==> #[trigger] no_later(
                first.0,
                first.1,
                other,
                s,
                hash,
            ),
    decreases members.len(),
{
    let node = members.choose();
    let replica = lemma_first_replica(node, replicas, hash);
    let rest = members.remove(node);
    if rest.len() == 0 {
        assert forall|other: NodeView, s: nat|
            members.contains(other) && s < replicas implies #[trigger] no_later(
            node,
            replica,
            other,
            s,
            hash,
        ) by {
            if other != node {
                assert(rest.contains(other));
            }
        }
        (node, replica)
    } else {
        let (best, at) = lemma_first_node(rest, replicas, hash);
        lemma_no_later_total(best, at, node, replica, hash);
        let winner = if no_later(best, at, node, replica, hash) {
            (best, at)
        } else {
            (node, replica)
        };
        assert forall|other: NodeView, s: nat|
            members.contains(other) && s < replicas implies #[trigger] no_later(
            winner.0,
            winner.1,
            other,
            s,
            hash,
        ) by {
            if other == node {
                assert(no_later(node, replica, other, s, hash));
                if winner == (best, at) {
                    lemma_no_later_transitive(best, at, node, replica, other, s, hash);
                }
            } else {
                assert(rest.contains(other));
                assert(no_later(best, at, other, s, hash));
                if winner == (node, replica) {
                    lemma_no_later_transitive(node, replica, best, at, other, s, hash);
                }
            }
        }
        winner
    }
}

/// Every key has an owner.
pub proof fn law_every_key_has_an_owner(members: Set<NodeView>, replicas: nat, hash: u64)
    requires
        members.finite(),
        members.len() > 0,
        replicas > 0,
    ensures
        owns(members, replicas, hash, owner_of(members, replicas, hash)),
{
    let (node, replica) = lemma_first_node(members, replicas, hash);
    assert forall|other: NodeView, r: nat|
        #![trigger members.contains(other), point(other.id, r)]
        members.contains(other) && r < replicas implies {
        &&& !earlier(point(other.id, r), point(node.id, replica), hash)
        &&& point(other.id, r) == point(node.id, replica) ==> other.id == node.id || id_before(
            node.id,
            other.id,
        )
    } by {
        assert(no_later(node, replica, other, r, hash));
    }
    assert(met_first(members, replicas, hash, node, replica));
    assert(owns(members, replicas, hash, node));
}

/// How far a walk up the ring goes from a hash to a point, around its end where that is on the way.
pub open spec fn way_up(hash: u64, point: u64) -> int {
    if point >= hash {
        point - hash
    } else {
        0x1_0000_0000_0000_0000 - (hash - point)
    }
}

/// The hash of a node's name with a number sign and an index behind it.
pub open spec fn numbered_hash(id: Seq<char>, index: nat) -> u64 {
    fnv1a_of(encode_utf8(id.push('#') + decimal(index)))
}

/// Whether nothing is closer up the ring from a hash than this point of a node: neither another
/// point of it nor one of another node. Where two nodes share the point, the name that comes first
/// in the order of its bytes decides.
pub open spec fn closest(
    members: Set<NodeView>,
    replicas: nat,
    hash: u64,
    node: NodeView,
    index: nat,
) -> bool {
    forall|other: NodeView, other_index: nat|
        #![trigger members.contains(other), numbered_hash(other.id, other_index)]
        members.contains(other) && other_index < replicas ==> {
            let (own, theirs) = (
                way_up(hash, numbered_hash(node.id, index)),
                way_up(hash, numbered_hash(other.id, other_index)),
            );
            own < theirs || (own == theirs && (other.id == node.id || precedes(
                encode_utf8(node.id),
                encode_utf8(other.id),
            )))
        }
}

proof fn lemma_numbered(id: Seq<char>, index: nat)
    ensures
        point(id, index) == numbered_hash(id, index),
{
    assert(id.push('#') + decimal(index) =~= id + seq!['#'] + decimal(index));
}

proof fn lemma_closest(
    members: Set<NodeView>,
    replicas: nat,
    hash: u64,
    node: NodeView,
    index: nat,
)
    ensures
        closest(members, replicas, hash, node, index) <==> met_first(
            members,
            replicas,
            hash,
            node,
            index,
        ),
{
    lemma_numbered(node.id, index);
    if closest(members, replicas, hash, node, index) {
        assert forall|other: NodeView, r: nat|
            #![trigger members.contains(other), point(other.id, r)]
            members.contains(other) && r < replicas implies {
            &&& !earlier(point(other.id, r), point(node.id, index), hash)
            &&& point(other.id, r) == point(node.id, index) ==> other.id == node.id || id_before(
                node.id,
                other.id,
            )
        } by {
            lemma_numbered(other.id, r);
            assert(members.contains(other) && numbered_hash(other.id, r) == point(other.id, r));
        }
    }
    if met_first(members, replicas, hash, node, index) {
        assert forall|other: NodeView, r: nat|
            #![trigger members.contains(other), numbered_hash(other.id, r)]
            members.contains(other) && r < replicas implies {
            let (own, theirs) = (
                way_up(hash, numbered_hash(node.id, index)),
                way_up(hash, numbered_hash(other.id, r)),
            );
            own < theirs || (own == theirs && (other.id == node.id || precedes(
                encode_utf8(node.id),
                encode_utf8(other.id),
            )))
        } by {
            lemma_numbered(other.id, r);
            assert(members.contains(other) && point(other.id, r) == numbered_hash(other.id, r));
        }
    }
}

/// A key belongs to the node with the closest point up the ring from its hash, and every node has
/// a point for each index below the number of virtual nodes: the hash of its name, a number sign
/// and the digits of the index.
pub proof fn law_closest_point_owns(
    members: Set<NodeView>,
    replicas: nat,
    hash: u64,
    node: NodeView,
    index: nat,
)
    requires
        distinct_names(members),
        members.finite(),
        members.contains(node),
        index < replicas,
        closest(members, replicas, hash, node, index),
    ensures
        owner_of(members, replicas, hash) == node,
{
    lemma_closest(members, replicas, hash, node, index);
    assert(owns(members, replicas, hash, node));
    law_one_owner(members, replicas, hash, node, owner_of(members, replicas, hash));
}

/// The owner of a key is a member, and one of its points is the closest.
pub proof fn law_owners_have_the_closest_point(members: Set<NodeView>, replicas: nat, hash: u64)
    requires
        members.finite(),
        members.len() > 0,
        replicas > 0,
    ensures
        members.contains(owner_of(members, replicas, hash)),
        exists|index: nat|
            index < replicas && #[trigger] closest(
                members,
                replicas,
                hash,
                owner_of(members, replicas, hash),
                index,
            ),
{
    law_every_key_has_an_owner(members, replicas, hash);
    let node = owner_of(members, replicas, hash);
    let index = choose|index: nat|
        index < replicas && #[trigger] met_first(members, replicas, hash, node, index);
    lemma_closest(members, replicas, hash, node, index);
}

/// Every point of a node is its own: a key whose hash is a point of a node belongs to that node,
/// for each index, unless another node has the same point.
pub proof fn law_points_belong_to_their_nodes(
    members: Set<NodeView>,
    replicas: nat,
    node: NodeView,
    index: nat,
)
    requires
        distinct_names(members),
        members.finite(),
        members.contains(node),
        index < replicas,
        forall|other: NodeView, other_index: nat|
            #![trigger members.contains(other), numbered_hash(other.id, other_index)]
            members.contains(other) && other != node && other_index < replicas ==> numbered_hash(
                other.id,
                other_index,
            ) != numbered_hash(node.id, index),
    ensures
        owner_of(
            members,
            replicas,
            fnv1a_of(encode_utf8(node.id + seq!['#'] + decimal(index))),
        ) == node,
{
    lemma_numbered(node.id, index);
    let hash = numbered_hash(node.id, index);
    assert forall|other: NodeView, r: nat|
        #![trigger members.contains(other), numbered_hash(other.id, r)]
        members.contains(other) && r < replicas implies {
        let (own, theirs) = (way_up(hash, hash), way_up(hash, numbered_hash(other.id, r)));
        own < theirs || (own == theirs && (other.id == node.id || precedes(
            encode_utf8(node.id),
            encode_utf8(other.id),
        )))
    } by {}
    assert(closest(members, replicas, hash, node, index));
    law_closest_point_owns(members, replicas, hash, node, index);
}

/// The members of a cluster are those that its membership lists, in a cluster that the local name
/// belongs to, with a number of virtual nodes that is allowed.
pub proof fn law_clusters_are_what_was_configured(
    local_id: Seq<char>,
    membership: Seq<char>,
    virtual_nodes: usize,
)
    ensures
        topology_of(local_id, membership, virtual_nodes) is Ok <==> {
            let nodes = members_of(pieces(membership, ','));
            &&& 1 <= virtual_nodes <= 4096
            &&& nodes is Ok
            &&& exists|i: int| 0 <= i < nodes->Ok_0.len() && (#[trigger] nodes->Ok_0[i]).id
                == local_id
        },
        topology_of(local_id, membership, virtual_nodes) is Ok ==> topology_of(
            local_id,
            membership,
            virtual_nodes,
        ) == members_of(pieces(membership, ',')),
{
    let nodes = members_of(pieces(membership, ','));
    if nodes is Ok && has_id(nodes->Ok_0, local_id) {
        let i = choose|i: int| 0 <= i < nodes->Ok_0.len() && (#[trigger] nodes->Ok_0[i]).id
            == local_id;
        lemma_members(pieces(membership, ','));
        crate::cluster::membership::law_members_are_well_formed(pieces(membership, ','), i);
    }
}

/// The owner of a key is the node with the closest point up the ring from the key's hash, and a node
/// takes a key for its own exactly where it is that node.
pub proof fn law_owners_are_found(
    topology: ClusterTopology,
    key: Bytes,
    node: &ClusterNode,
    local: bool,
    other: NodeView,
    index: nat,
)
    requires
        topology.valid(),
        call_ensures(ClusterTopology::owner, (&topology, &key), node),
        call_ensures(ClusterTopology::is_local, (&topology, &key), local),
        topology.members().contains(other),
        index < topology.replicas(),
        closest(topology.members(), topology.replicas(), fnv1a_of(contents(key)), other, index),
    ensures
        node@ == other,
        local <==> topology.local() == other,
{
    topology.lemma_names();
    vstd::seq_lib::seq_to_set_is_finite(node_views(topology.nodes@));
    law_closest_point_owns(
        topology.members(),
        topology.replicas(),
        fnv1a_of(contents(key)),
        other,
        index,
    );
}

} // verus!
