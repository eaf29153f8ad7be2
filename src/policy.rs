use vstd::prelude::*;

use crate::rotation::{compute_rotation, rotate_left, rotation_of, slice_rotated_left};
use vstd::arithmetic::div_mod::{lemma_fundamental_div_mod, lemma_fundamental_div_mod_converse};
use vstd::seq_lib::{lemma_multiset_commutative, to_multiset_build};

verus! {

/// A node of the cluster: its address, and the datacenter and rack it
/// reported, if any.
#[derive(Debug)]
pub struct Node {
    pub address: String,
    pub datacenter: Option<String>,
    pub rack: Option<String>,
}

/// An immutable snapshot of the cluster: every known node, in global ring
/// order. Plans refer to a node by its position in `nodes`.
#[derive(Debug)]
pub struct ClusterData {
    pub nodes: Vec<Node>,
}

/// A node is local iff its datacenter label is exactly `dc`; a node without a
/// label never is.
pub open spec fn is_local(n: Node, dc: Seq<char>) -> bool {
    match n.datacenter {
        Some(d) => d@ == dc,
        None => false,
    }
}

/// The positions `0..n`: the global ring of a snapshot of `n` nodes.
pub open spec fn ring(n: nat) -> Seq<usize> {
    Seq::new(n, |i: int| i as usize)
}

/// Whether the node at `id` is local (`want == true`) or remote.
pub open spec fn in_group(nodes: Seq<Node>, dc: Seq<char>, want: bool) -> spec_fn(usize) -> bool {
    |id: usize| id < nodes.len() && is_local(nodes[id as int], dc) == want
}

/// The local nodes among `ids`, in their order.
pub open spec fn local_part(ids: Seq<usize>, nodes: Seq<Node>, dc: Seq<char>) -> Seq<usize> {
    ids.filter(in_group(nodes, dc, true))
}

/// The remote nodes among `ids`, in their order.
pub open spec fn remote_part(ids: Seq<usize>, nodes: Seq<Node>, dc: Seq<char>) -> Seq<usize> {
    ids.filter(in_group(nodes, dc, false))
}

/// The order in which a datacenter-aware round robin with counter value
/// `index` visits the nodes `ids`: the rotated local nodes, then, if remote
/// nodes are included, the rotated remote nodes.
pub open spec fn dc_plan(
    ids: Seq<usize>,
    nodes: Seq<Node>,
    dc: Seq<char>,
    include_remote: bool,
    index: usize,
) -> Seq<usize> {
    let l = local_part(ids, nodes, dc);
    let r = remote_part(ids, nodes, dc);
    let rl = rotate_left(l, rotation_of(index, l.len()));
    if include_remote {
        rl + rotate_left(r, rotation_of(index, r.len()))
    } else {
        rl
    }
}

impl ClusterData {
    pub fn new(nodes: Vec<Node>) -> (r: ClusterData)
        ensures
            r.nodes@ == nodes@,
    {
        ClusterData { nodes }
    }

    /// The positions of the nodes of datacenter `dc`, in ring order.
    pub fn unique_nodes_in_datacenter_ring(&self, dc: &String) -> (r: Vec<usize>)
        ensures
            r@ == local_part(ring(self.nodes@.len()), self.nodes@, dc@),
    {
        let ids = self.unique_nodes_in_global_ring();
        select_group(&self.nodes, &ids, dc, true)
    }

    /// The positions of all nodes, in ring order.
    pub fn unique_nodes_in_global_ring(&self) -> (r: Vec<usize>)
        ensures
            r@ == ring(self.nodes@.len()),
    {
        let mut r: Vec<usize> = Vec::new();
        let mut i: usize = 0;
        while i < self.nodes.len()
            invariant
                i <= self.nodes@.len(),
                r@ =~= ring(i as nat),
            decreases self.nodes@.len() - i,
        {
            r.push(i);
            i = i + 1;
        }
        r
    }
}

/// The members of `ids` in the local group (`want == true`) or the remote
/// group, in their order.
fn select_group(nodes: &Vec<Node>, ids: &Vec<usize>, dc: &String, want: bool) -> (r: Vec<usize>)
    ensures
        r@ == ids@.filter(in_group(nodes@, dc@, want)),
{
    let mut r: Vec<usize> = Vec::new();
    let mut i: usize = 0;
    while i < ids.len()
        invariant
            i <= ids@.len(),
            r@ == ids@.subrange(0, i as int).filter(in_group(nodes@, dc@, want)),
        decreases ids@.len() - i,
    {
        let id = ids[i];
        proof {
            assert(ids@.subrange(0, i + 1).drop_last() =~= ids@.subrange(0, i as int));
            reveal(Seq::filter);
        }
        if id < nodes.len() && DcAwareRoundRobinPolicy::is_local_node(&nodes[id], dc) == want {
            r.push(id);
        }
        i = i + 1;
    }
    assert(ids@.subrange(0, ids@.len() as int) =~= ids@);
    r
}

/// A routing plan: node positions handed out once each, in order.
#[derive(Debug)]
pub struct Plan {
    nodes: Vec<usize>,
    next: usize,
}

impl Plan {
    /// The nodes not handed out yet.
    pub closed spec fn remaining(&self) -> Seq<usize> {
        self.nodes@.subrange(self.next as int, self.nodes@.len() as int)
    }

    pub closed spec fn wf(&self) -> bool {
        self.next <= self.nodes@.len()
    }

    pub fn new(nodes: Vec<usize>) -> (r: Plan)
        ensures
            r.wf(),
            r.remaining() == nodes@,
    {
        let r = Plan { nodes, next: 0 };
        assert(r.remaining() =~= r.nodes@);
        r
    }

    /// Hands out the next node, or nothing once all have been.
    pub fn next(&mut self) -> (r: Option<usize>)
        requires
            old(self).wf(),
        ensures
            final(self).wf(),
            old(self).remaining().len() == 0 ==> r is None && final(self).remaining() == old(self).remaining(),
            old(self).remaining().len() > 0 ==> r == Some(old(self).remaining()[0])
                && final(self).remaining() == old(self).remaining().drop_first(),
    {
        if self.next >= self.nodes.len() {
            return None;
        }
        let id = self.nodes[self.next];
        self.next = self.next + 1;
        assert(self.remaining() =~= old(self).remaining().drop_first());
        Some(id)
    }
}

/// A datacenter-aware round-robin load balancing policy. Its counter is
/// atomic, so concurrent planning calls each take a value of their own.
#[derive(Debug)]
pub struct DcAwareRoundRobinPolicy {
    index: std::sync::atomic::AtomicUsize,
    local_dc: String,
    include_remote_nodes: bool,
}

impl DcAwareRoundRobinPolicy {
    /// The local datacenter's name.
    pub closed spec fn local_dc_view(&self) -> Seq<char> {
        self.local_dc@
    }

    /// Whether plans go on to remote nodes.
    pub closed spec fn includes_remote(&self) -> bool {
        self.include_remote_nodes
    }

    pub fn new(local_dc: String) -> (r: Self)
        ensures
            r.local_dc_view() == local_dc@,
            r.includes_remote(),
    {
        DcAwareRoundRobinPolicy {
            index: std::sync::atomic::AtomicUsize::new(0),
            local_dc,
            include_remote_nodes: true,
        }
    }

    pub fn set_include_remote_nodes(&mut self, val: bool)
        ensures
            final(self).includes_remote() == val,
            final(self).local_dc_view() == old(self).local_dc_view(),
    {
        self.include_remote_nodes = val;
    }

    pub fn local_dc(&self) -> (r: &String)
        ensures
            r@ == self.local_dc_view(),
    {
        &self.local_dc
    }

    pub fn include_remote_nodes(&self) -> (r: bool)
        ensures
            r == self.includes_remote(),
    {
        self.include_remote_nodes
    }

    pub fn is_local_node(node: &Node, local_dc: &String) -> (r: bool)
        ensures
            r == is_local(*node, local_dc@),
    {
        match &node.datacenter {
            Some(d) => *d == *local_dc,
            None => false,
        }
    }

    fn retrieve_local_nodes(&self, cluster: &ClusterData) -> (r: Vec<usize>)
        ensures
            r@ == local_part(ring(cluster.nodes@.len()), cluster.nodes@, self.local_dc@),
    {
        cluster.unique_nodes_in_datacenter_ring(&self.local_dc)
    }

    fn retrieve_remote_nodes(&self, cluster: &ClusterData) -> (r: Vec<usize>)
        ensures
            r@ == remote_part(ring(cluster.nodes@.len()), cluster.nodes@, self.local_dc@),
    {
        let ids = cluster.unique_nodes_in_global_ring();
        select_group(&cluster.nodes, &ids, &self.local_dc, false)
    }

    /// Takes the next value of the shared counter. Which value a call gets
    /// depends on the calls made before it, from any thread; the counter wraps
    /// around at the top.
    fn next_counter(&self) -> usize {
        self.index.fetch_add(1, std::sync::atomic::Ordering::Relaxed)
    }

    /// Rotates the two groups by the counter value `index` and joins them.
    fn rotate_groups(&self, local: &Vec<usize>, remote: &Vec<usize>, index: usize) -> (r: Vec<usize>)
        ensures
            r@ == ({
                let rl = rotate_left(local@, rotation_of(index, local@.len()));
                if self.include_remote_nodes {
                    rl + rotate_left(remote@, rotation_of(index, remote@.len()))
                } else {
                    rl
                }
            }),
    {
        let local_rotation = compute_rotation(index, local.len());
        let mut r = slice_rotated_left(local, local_rotation);
        if self.include_remote_nodes {
            let remote_rotation = compute_rotation(index, remote.len());
            let mut rr = slice_rotated_left(remote, remote_rotation);
            r.append(&mut rr);
        }
        r
    }

    /// The plan for the counter value `index`, as positions in
    /// `cluster.nodes`: local nodes first, then remote ones if included, each
    /// group rotated by `index`.
    pub fn plan_at(&self, index: usize, cluster: &ClusterData) -> (r: Vec<usize>)
        ensures
            r@ == dc_plan(
                ring(cluster.nodes@.len()),
                cluster.nodes@,
                self.local_dc_view(),
                self.includes_remote(),
                index,
            ),
    {
        let local = self.retrieve_local_nodes(cluster);
        let remote = self.retrieve_remote_nodes(cluster);
        self.rotate_groups(&local, &remote, index)
    }

    /// The nodes to contact for the next statement: the plan for the value
    /// that this call takes from the shared counter.
    pub fn plan(&self, cluster: &ClusterData) -> (r: Vec<usize>)
        ensures
            exists|index: usize|
                r@ == dc_plan(
                    ring(cluster.nodes@.len()),
                    cluster.nodes@,
                    self.local_dc_view(),
                    self.includes_remote(),
                    index,
                ),
    {
        let index = self.next_counter();
        self.plan_at(index, cluster)
    }

    pub fn name(&self) -> (r: String)
        ensures
            r@ == "DcAwareRoundRobinPolicy"@,
    {
        String::from_str("DcAwareRoundRobinPolicy")
    }

    /// Re-orders an already produced list of nodes (positions in
    /// `cluster.nodes`) with the same split and rotation as `plan_at` for the
    /// counter value `index`. Positions outside the snapshot are dropped.
    pub fn apply_child_policy_at(&self, index: usize, cluster: &ClusterData, plan: Vec<usize>) -> (r: Vec<usize>)
        ensures
            r@ == dc_plan(plan@, cluster.nodes@, self.local_dc_view(), self.includes_remote(), index),
    {
        let local = select_group(&cluster.nodes, &plan, &self.local_dc, true);
        let remote = select_group(&cluster.nodes, &plan, &self.local_dc, false);
        self.rotate_groups(&local, &remote, index)
    }

    /// Re-orders an already produced list of nodes as `apply_child_policy_at`
    /// does, for the value that this call takes from the same counter as
    /// `plan`.
    pub fn apply_child_policy(&self, cluster: &ClusterData, plan: Vec<usize>) -> (r: Vec<usize>)
        ensures
            exists|index: usize|
                r@ == dc_plan(plan@, cluster.nodes@, self.local_dc_view(), self.includes_remote(), index),
    {
        let index = self.next_counter();
        self.apply_child_policy_at(index, cluster, plan)
    }
}

/// How many of the counter values `start..start + n` put `id` first in the
/// plan.
pub open spec fn first_count(
    ids: Seq<usize>,
    nodes: Seq<Node>,
    dc: Seq<char>,
    include_remote: bool,
    id: usize,
    start: nat,
    n: nat,
) -> nat
    decreases n,
{
    if n == 0 {
        0
    } else {
        let p = dc_plan(ids, nodes, dc, include_remote, (start + n - 1) as usize);
        first_count(ids, nodes, dc, include_remote, id, start, (n - 1) as nat) + if p.len() > 0
            && p[0] == id {
            1nat
        } else {
            0nat
        }
    }
}

/// How many of `start..start + n` leave the remainder `j` when divided by `k`.
pub open spec fn residue_count(k: nat, j: nat, start: nat, n: nat) -> nat
    decreases n,
{
    if n == 0 {
        0
    } else {
        residue_count(k, j, start, (n - 1) as nat) + if ((start + n - 1) as nat) % k == j {
            1nat
        } else {
            0nat
        }
    }
}

pub open spec fn strictly_increasing(s: Seq<usize>) -> bool {
    forall|a: int, b: int| 0 <= a < b < s.len() ==> s[a] < s[b]
}

proof fn lemma_residue_count(k: nat, j: nat, n: nat)
    requires
        k > 0,
        j < k,
    ensures
        residue_count(k, j, 0, n) == n / k + if j < n % k {
            1nat
        } else {
            0nat
        },
    decreases n,
{
    if n == 0 {
        lemma_fundamental_div_mod_converse(0, k as int, 0, 0);
    } else {
        let m = (n - 1) as nat;
        lemma_residue_count(k, j, m);
        let q = m / k;
        let r = m % k;
        lemma_fundamental_div_mod(m as int, k as int);
        assert(m == q * k + r) by (nonlinear_arith)
            requires
                m == k * q + r,
        ;
        if r + 1 < k {
            lemma_fundamental_div_mod_converse(n as int, k as int, q as int, (r + 1) as int);
            assert(n % k == r + 1);
            assert(n / k == q);
            assert(residue_count(k, j, 0, n) == residue_count(k, j, 0, m) + if r == j {
                1nat
            } else {
                0nat
            });
        } else {
            assert(n == (q + 1) * k + 0) by (nonlinear_arith)
                requires
                    m == q * k + r,
                    r + 1 == k,
                    n == m + 1,
            ;
            lemma_fundamental_div_mod_converse(n as int, k as int, (q + 1) as int, 0);
            assert(n % k == 0);
            assert(n / k == q + 1);
        }
    }
}

proof fn lemma_filter_increasing(s: Seq<usize>, p: spec_fn(usize) -> bool)
    requires
        strictly_increasing(s),
    ensures
        strictly_increasing(s.filter(p)),
        s.len() > 0 ==> forall|i: int| 0 <= i < s.filter(p).len() ==> s.filter(p)[i] <= s.last(),
    decreases s.len(),
{
    reveal(Seq::filter);
    if s.len() > 0 {
        let d = s.drop_last();
        lemma_filter_increasing(d, p);
        if d.len() > 0 {
            assert(d.last() < s.last());
        }
    }
}

proof fn lemma_ring_increasing(n: nat)
    requires
        n <= usize::MAX + 1,
    ensures
        strictly_increasing(ring(n)),
{
}

/// The element at position `j` of a rotation, as a position of the original.
proof fn lemma_rotate_index<A>(s: Seq<A>, k: nat, j: int)
    requires
        k <= s.len(),
        0 <= j < s.len(),
    ensures
        rotate_left(s, k).len() == s.len(),
        rotate_left(s, k)[j] == s[if j < s.len() - k {
            k + j
        } else {
            j - (s.len() - k)
        }],
{
}

/// Every node in the local segment of a plan (its first `local_part` many
/// entries) is local, and every node after it is remote.
pub proof fn lemma_locality(
    ids: Seq<usize>,
    nodes: Seq<Node>,
    dc: Seq<char>,
    include_remote: bool,
    index: usize,
)
    ensures
        ({
            let p = dc_plan(ids, nodes, dc, include_remote, index);
            let lc = local_part(ids, nodes, dc).len();
            &&& lc <= p.len()
            &&& forall|j: int|
                0 <= j < lc ==> #[trigger] p[j] < nodes.len() && is_local(nodes[p[j] as int], dc)
            &&& forall|j: int|
                lc <= j < p.len() ==> #[trigger] p[j] < nodes.len() && !is_local(
                    nodes[p[j] as int],
                    dc,
                )
        }),
{
    let p = dc_plan(ids, nodes, dc, include_remote, index);
    let l = local_part(ids, nodes, dc);
    let r = remote_part(ids, nodes, dc);
    let kl = rotation_of(index, l.len());
    let kr = rotation_of(index, r.len());
    assert forall|j: int| 0 <= j < l.len() implies #[trigger] p[j] < nodes.len() && is_local(
        nodes[p[j] as int],
        dc,
    ) by {
        lemma_rotate_index(l, kl, j);
        let t = if j < l.len() - kl {
            kl + j
        } else {
            j - (l.len() - kl)
        };
        ids.lemma_filter_pred(in_group(nodes, dc, true), t);
    }
    if include_remote {
        assert forall|j: int| l.len() <= j < p.len() implies #[trigger] p[j] < nodes.len()
            && !is_local(nodes[p[j] as int], dc) by {
            let jj = j - l.len();
            lemma_rotate_index(r, kr, jj);
            let t = if jj < r.len() - kr {
                kr + jj
            } else {
                jj - (r.len() - kr)
            };
            ids.lemma_filter_pred(in_group(nodes, dc, false), t);
        }
    }
}

proof fn lemma_residue_split(k: nat, j: nat, a: nat, b: nat)
    ensures
        residue_count(k, j, 0, a + b) == residue_count(k, j, 0, a) + residue_count(k, j, a, b),
    decreases b,
{
    if b > 0 {
        lemma_residue_split(k, j, a, (b - 1) as nat);
        assert(residue_count(k, j, 0, a + b) == residue_count(k, j, 0, (a + b - 1) as nat) + if ((a
            + b - 1) as nat) % k == j {
            1nat
        } else {
            0nat
        });
    }
}

/// Any `n` consecutive integers hold `n / k` or `n / k + 1` of remainder `j`.
proof fn lemma_residue_window(k: nat, j: nat, c0: nat, n: nat)
    requires
        k > 0,
        j < k,
    ensures
        ({
            let c = residue_count(k, j, c0, n);
            c == n / k || (c == n / k + 1 && n % k != 0)
        }),
{
    lemma_residue_split(k, j, c0, n);
    lemma_residue_count(k, j, c0);
    lemma_residue_count(k, j, c0 + n);
    let q = c0 / k;
    let r = c0 % k;
    let p = n / k;
    let t = n % k;
    lemma_fundamental_div_mod(c0 as int, k as int);
    lemma_fundamental_div_mod(n as int, k as int);
    if r + t < k {
        assert(c0 + n == (q + p) * k + (r + t)) by (nonlinear_arith)
            requires
                c0 == k * q + r,
                n == k * p + t,
        ;
        lemma_fundamental_div_mod_converse((c0 + n) as int, k as int, (q + p) as int, (r + t) as int);
    } else {
        assert(c0 + n == (q + p + 1) * k + (r + t - k)) by (nonlinear_arith)
            requires
                c0 == k * q + r,
                n == k * p + t,
        ;
        lemma_fundamental_div_mod_converse(
            (c0 + n) as int,
            k as int,
            (q + p + 1) as int,
            (r + t - k) as int,
        );
    }
}

/// Fairness: over any `n` consecutive counter values from `c0` (without
/// wrapping), each local node comes first in `n / k` or `n / k + 1` plans,
/// where `k` is the number of local nodes (the latter only when `k` does not
/// divide `n`); so in any `k` consecutive calls each comes first exactly once.
pub proof fn lemma_fairness(
    nodes: Seq<Node>,
    dc: Seq<char>,
    include_remote: bool,
    c0: nat,
    n: nat,
    j: int,
)
    requires
        c0 + n <= usize::MAX + 1,
        nodes.len() <= usize::MAX,
        0 <= j < local_part(ring(nodes.len()), nodes, dc).len(),
    ensures
        ({
            let l = local_part(ring(nodes.len()), nodes, dc);
            let k = l.len();
            let c = first_count(ring(nodes.len()), nodes, dc, include_remote, l[j], c0, n);
            &&& c == n / k || (c == n / k + 1 && n % k != 0)
            &&& n == k ==> c == 1
        }),
{
    let ids = ring(nodes.len());
    let l = local_part(ids, nodes, dc);
    let k = l.len();
    lemma_ring_increasing(nodes.len());
    lemma_filter_increasing(ids, in_group(nodes, dc, true));
    lemma_first_count_residue(nodes, dc, include_remote, c0, n, j);
    lemma_residue_window(k, j as nat, c0, n);
    if n == k {
        lemma_fundamental_div_mod_converse(n as int, k as int, 1, 0);
    }
}

proof fn lemma_first_count_residue(
    nodes: Seq<Node>,
    dc: Seq<char>,
    include_remote: bool,
    c0: nat,
    n: nat,
    j: int,
)
    requires
        c0 + n <= usize::MAX + 1,
        0 <= j < local_part(ring(nodes.len()), nodes, dc).len(),
        strictly_increasing(local_part(ring(nodes.len()), nodes, dc)),
    ensures
        ({
            let l = local_part(ring(nodes.len()), nodes, dc);
            first_count(ring(nodes.len()), nodes, dc, include_remote, l[j], c0, n)
                == residue_count(l.len(), j as nat, c0, n)
        }),
    decreases n,
{
    if n > 0 {
        let ids = ring(nodes.len());
        let l = local_part(ids, nodes, dc);
        let k = l.len();
        let m = (c0 + n - 1) as nat;
        lemma_first_count_residue(nodes, dc, include_remote, c0, (n - 1) as nat, j);
        let i = m as usize;
        assert(i as nat == m);
        let rot = rotation_of(i, k);
        assert(rot == m % k);
        lemma_rotate_index(l, rot, 0);
        let p = dc_plan(ids, nodes, dc, include_remote, i);
        assert(p[0] == l[rot as int]);
        if rot != j {
            assert(l[rot as int] != l[j]);
        }
    }
}

/// Composition: re-ordering a list whose local and remote parts are those of
/// a snapshot gives exactly the plan over that snapshot at the same counter
/// value, with the local segment before the remote one.
pub proof fn lemma_child_policy_consistent(
    ids: Seq<usize>,
    nodes: Seq<Node>,
    dc: Seq<char>,
    include_remote: bool,
    index: usize,
)
    requires
        local_part(ids, nodes, dc) == local_part(ring(nodes.len()), nodes, dc),
        remote_part(ids, nodes, dc) == remote_part(ring(nodes.len()), nodes, dc),
    ensures
        dc_plan(ids, nodes, dc, include_remote, index) == dc_plan(
            ring(nodes.len()),
            nodes,
            dc,
            include_remote,
            index,
        ),
        ({
            let p = dc_plan(ids, nodes, dc, include_remote, index);
            let lc = local_part(ids, nodes, dc).len();
            &&& forall|j: int| 0 <= j < lc ==> #[trigger] p[j] < nodes.len() && is_local(nodes[p[j] as int], dc)
            &&& forall|j: int| lc <= j < p.len() ==> #[trigger] p[j] < nodes.len() && !is_local(nodes[p[j] as int], dc)
        }),
{
    lemma_locality(ids, nodes, dc, include_remote, index);
}

proof fn lemma_filter_all(s: Seq<usize>, p: spec_fn(usize) -> bool)
    requires
        forall|i: int| 0 <= i < s.len() ==> p(#[trigger] s[i]),
    ensures
        s.filter(p) == s,
    decreases s.len(),
{
    reveal(Seq::filter);
    if s.len() > 0 {
        let d = s.drop_last();
        assert forall|i: int| 0 <= i < d.len() implies p(#[trigger] d[i]) by {
            assert(d[i] == s[i]);
        }
        lemma_filter_all(d, p);
        assert(d.push(s.last()) =~= s);
    }
}

/// With no local node among `ids`, all of them inside the snapshot, the
/// empty local group rotates to nothing: the plan is `ids` rotated when
/// remote nodes are included, and empty otherwise.
pub proof fn lemma_no_local_nodes(
    ids: Seq<usize>,
    nodes: Seq<Node>,
    dc: Seq<char>,
    include_remote: bool,
    index: usize,
)
    requires
        forall|i: int| 0 <= i < ids.len() ==> #[trigger] ids[i] < nodes.len(),
        local_part(ids, nodes, dc).len() == 0,
    ensures
        dc_plan(ids, nodes, dc, include_remote, index) == if include_remote {
            rotate_left(ids, rotation_of(index, ids.len()))
        } else {
            Seq::<usize>::empty()
        },
{
    let l = local_part(ids, nodes, dc);
    assert forall|i: int| 0 <= i < ids.len() implies #[trigger] in_group(nodes, dc, false)(ids[i]) by {
        if is_local(nodes[ids[i] as int], dc) {
            ids.lemma_filter_contains(in_group(nodes, dc, true), i);
        }
    }
    lemma_filter_all(ids, in_group(nodes, dc, false));
    assert(l =~= Seq::<usize>::empty());
    assert(rotate_left(l, rotation_of(index, l.len())) =~= Seq::<usize>::empty());
    if include_remote {
        assert(dc_plan(ids, nodes, dc, include_remote, index) =~= rotate_left(
            ids,
            rotation_of(index, ids.len()),
        ));
    }
}

proof fn lemma_rotate_multiset(s: Seq<usize>, k: nat)
    ensures
        rotate_left(s, k).to_multiset() == s.to_multiset(),
{
    if k <= s.len() {
        let a = s.subrange(0, k as int);
        let b = s.subrange(k as int, s.len() as int);
        assert(a + b =~= s);
        lemma_multiset_commutative(b, a);
        lemma_multiset_commutative(a, b);
        assert(b.to_multiset().add(a.to_multiset()) =~= a.to_multiset().add(b.to_multiset()));
    }
}

proof fn lemma_partition_multiset(ids: Seq<usize>, nodes: Seq<Node>, dc: Seq<char>)
    requires
        forall|i: int| 0 <= i < ids.len() ==> #[trigger] ids[i] < nodes.len(),
    ensures
        local_part(ids, nodes, dc).to_multiset().add(remote_part(ids, nodes, dc).to_multiset())
            == ids.to_multiset(),
    decreases ids.len(),
{
    reveal(Seq::filter);
    broadcast use vstd::multiset::group_multiset_axioms, vstd::seq_lib::group_to_multiset_ensures;

    if ids.len() == 0 {
        assert(ids.to_multiset().len() == 0);
        assert(local_part(ids, nodes, dc).to_multiset().len() == 0);
        assert(remote_part(ids, nodes, dc).to_multiset().len() == 0);
        assert(ids.to_multiset() =~= vstd::multiset::Multiset::<usize>::empty());
        assert(local_part(ids, nodes, dc).to_multiset() =~= vstd::multiset::Multiset::<usize>::empty());
        assert(remote_part(ids, nodes, dc).to_multiset() =~= vstd::multiset::Multiset::<usize>::empty());
    } else {
        let d = ids.drop_last();
        assert forall|i: int| 0 <= i < d.len() implies #[trigger] d[i] < nodes.len() by {
            assert(d[i] == ids[i]);
        }
        lemma_partition_multiset(d, nodes, dc);
        assert(d.push(ids.last()) =~= ids);
        to_multiset_build(d, ids.last());
        to_multiset_build(local_part(d, nodes, dc), ids.last());
        to_multiset_build(remote_part(d, nodes, dc), ids.last());
        assert(local_part(ids, nodes, dc).to_multiset().add(remote_part(ids, nodes, dc).to_multiset())
            =~= ids.to_multiset());
    }
}

/// With remote nodes included, a plan holds exactly the nodes it was made
/// from, each as often: it only re-orders them.
pub proof fn lemma_plan_is_permutation(ids: Seq<usize>, nodes: Seq<Node>, dc: Seq<char>, index: usize)
    requires
        forall|i: int| 0 <= i < ids.len() ==> #[trigger] ids[i] < nodes.len(),
    ensures
        dc_plan(ids, nodes, dc, true, index).to_multiset() == ids.to_multiset(),
{
    let l = local_part(ids, nodes, dc);
    let r = remote_part(ids, nodes, dc);
    let rl = rotate_left(l, rotation_of(index, l.len()));
    let rr = rotate_left(r, rotation_of(index, r.len()));
    lemma_rotate_multiset(l, rotation_of(index, l.len()));
    lemma_rotate_multiset(r, rotation_of(index, r.len()));
    lemma_multiset_commutative(rl, rr);
    lemma_partition_multiset(ids, nodes, dc);
}

/// A plan over a snapshot holds each of its nodes once, when remote nodes are
/// included.
pub proof fn lemma_snapshot_plan_is_permutation(nodes: Seq<Node>, dc: Seq<char>, index: usize)
    requires
        nodes.len() <= usize::MAX,
    ensures
        dc_plan(ring(nodes.len()), nodes, dc, true, index).to_multiset() == ring(nodes.len()).to_multiset(),
{
    lemma_plan_is_permutation(ring(nodes.len()), nodes, dc, index);
}

} // verus!
