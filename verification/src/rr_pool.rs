//! Round-robin pool: the sorted list of known nodes of one type,
//! with a rotating cursor that hands out the next node in turn.

use vstd::prelude::*;
use vstd::relations::sorted_by;
use crate::node_types::{RegisterNode, NodeView, node_le, node_le_ff, node_le_exec, clone_node,
    views_of, lemma_node_le_connected, lemma_node_le_transitive};
use crate::order::{lemma_lex_lt_irreflexive, lemma_lex_lt_asymmetric, str_cmp};

verus! {

broadcast use vstd::seq_lib::group_to_multiset_ensures;

/// Round-robin pool over the nodes of a single node type.
pub struct RegisterNodeRR {
    node: Vec<RegisterNode>,
    rr: usize,
}

/// Mathematical value of a pool: the node views in order, plus the
/// cursor position.
#[verifier::ext_equal]
pub ghost struct PoolView {
    pub nodes: Seq<NodeView>,
    pub cursor: nat,
}

impl View for RegisterNodeRR {
    type V = PoolView;

    closed spec fn view(&self) -> PoolView {
        PoolView { nodes: views_of(self.node@), cursor: self.rr as nat }
    }
}

/// The pool keeps its nodes sorted by the registry order.
pub open spec fn pool_sorted(p: PoolView) -> bool {
    sorted_by(p.nodes, node_le_ff())
}

/// The cursor a `get` call actually reads: an out-of-range cursor is
/// corrected to 0 lazily, at the start of the call.
pub open spec fn wrapped_cursor(p: PoolView) -> nat {
    if p.cursor >= p.nodes.len() {
        0
    } else {
        p.cursor
    }
}

/// What `get` returns in state `p`: nothing from an empty pool, else
/// the entry under the (corrected) cursor.
pub open spec fn spec_get_result(p: PoolView) -> Option<NodeView> {
    if p.nodes.len() == 0 {
        None
    } else {
        Some(p.nodes[wrapped_cursor(p) as int])
    }
}

/// The pool state after one `get`: nodes unchanged, cursor advanced
/// past the entry handed out (or reset to 0 on an empty pool).
pub open spec fn spec_get_next(p: PoolView) -> PoolView {
    if p.nodes.len() == 0 {
        PoolView { nodes: p.nodes, cursor: 0 }
    } else {
        PoolView { nodes: p.nodes, cursor: wrapped_cursor(p) + 1 }
    }
}

/// Pool state after `k` successive `get` calls.
pub open spec fn nth_get_state(p: PoolView, k: nat) -> PoolView
    decreases k,
{
    if k == 0 {
        p
    } else {
        spec_get_next(nth_get_state(p, (k - 1) as nat))
    }
}

/// Result of the `get` call made in the state reached after `k`
/// earlier `get` calls (so `k == 0` is the first call).
pub open spec fn nth_get_result(p: PoolView, k: nat) -> Option<NodeView> {
    spec_get_result(nth_get_state(p, k))
}

impl RegisterNodeRR {
    pub fn new() -> (r: Self)
        ensures
            r@.nodes.len() == 0,
            r@.cursor == 0,
    {
        RegisterNodeRR { node: Vec::new(), rr: 0 }
    }

    /// Hand out the next node in rotation, advancing the cursor.
    /// Returns nothing when the pool is empty.
    pub fn get(&mut self) -> (r: Option<RegisterNode>)
        ensures
            final(self)@ == spec_get_next(old(self)@),
            r is Some <==> old(self)@.nodes.len() > 0,
            r matches Some(n) ==> Some(n@) == spec_get_result(old(self)@),
    {
        if self.rr >= self.node.len() {
            self.rr = 0;
        }
        if self.node.len() == 0 {
            assert(self@ =~= spec_get_next(old(self)@));
            return None;
        }
        let idx = self.rr;
        let picked = clone_node(&self.node[idx]);
        self.rr = self.rr + 1;
        proof {
            assert(self@ =~= spec_get_next(old(self)@));
        }
        Some(picked)
    }

    /// Replace the pool's contents with a sorted copy of `vv`.
    /// The cursor is left unchanged; out-of-range correction happens
    /// lazily on the next `get`.
    pub fn update(&mut self, vv: &Vec<RegisterNode>)
        ensures
            final(self)@.cursor == old(self)@.cursor,
            pool_sorted(final(self)@),
            final(self)@.nodes.to_multiset() == views_of(vv@).to_multiset(),
    {
        self.node = sort_nodes(vv);
    }

    /// A fresh pool holding a sorted copy of `vv` but keeping this
    /// pool's cursor, as a refresh does for a type that already had a
    /// pool.
    pub fn refreshed(&self, vv: &Vec<RegisterNode>) -> (r: RegisterNodeRR)
        ensures
            r@.cursor == self@.cursor,
            pool_sorted(r@),
            r@.nodes.to_multiset() == views_of(vv@).to_multiset(),
    {
        RegisterNodeRR { node: sort_nodes(vv), rr: self.rr }
    }

    /// Remove every entry carrying `uid` and re-sort the rest.
    pub fn erase(&mut self, uid: String)
        ensures
            final(self)@.cursor == old(self)@.cursor,
            pool_sorted(final(self)@),
            final(self)@.nodes.to_multiset() == old(self)@.nodes.filter(
                |n: NodeView| n.uid != uid@,
            ).to_multiset(),
    {
        let mut kept: Vec<RegisterNode> = Vec::new();
        let mut i: usize = 0;
        while i < self.node.len()
            invariant
                i <= self.node.len(),
                *self == *old(self),
                views_of(kept@) == views_of(self.node@.take(i as int)).filter(
                    |n: NodeView| n.uid != uid@,
                ),
            decreases self.node.len() - i,
        {
            let ghost pred = |n: NodeView| n.uid != uid@;
            let ghost prefix = views_of(self.node@.take(i as int));
            let c = str_cmp(self.node[i].uid.as_str(), uid.as_str());
            proof {
                lemma_lex_lt_irreflexive(self.node@[i as int].uid@);
                assert(self.node@.take(i as int + 1) =~= self.node@.take(i as int).push(
                    self.node@[i as int],
                ));
                lemma_views_of_push(self.node@.take(i as int), self.node@[i as int]);
            }
            if c != 1 {
                kept.push(clone_node(&self.node[i]));
                proof {
                    lemma_filter_push_keep(prefix, self.node@[i as int]@, pred);
                    assert(views_of(kept@) =~= prefix.filter(pred).push(self.node@[i as int]@));
                }
            } else {
                proof {
                    lemma_filter_push_drop(prefix, self.node@[i as int]@, pred);
                }
            }
            i = i + 1;
        }
        proof {
            assert(self.node@.take(self.node@.len() as int) =~= self.node@);
        }
        let sorted = sort_nodes(&kept);
        self.node = sorted;
    }
}

/// Stepping the remainder: adding one either advances it or wraps it
/// to zero.
proof fn lemma_mod_succ(m: int, n: int)
    requires
        m >= 0,
        n > 0,
    ensures
        0 <= m % n < n,
        (m + 1) % n == if m % n + 1 == n {
            0int
        } else {
            m % n + 1
        },
{
    vstd::arithmetic::div_mod::lemma_mod_division_less_than_divisor(m, n);
    vstd::arithmetic::div_mod::lemma_mod_division_less_than_divisor(m + 1, n);
    vstd::arithmetic::div_mod::lemma_add_mod_noop(m, 1, n);
    if n == 1 {
        vstd::arithmetic::div_mod::lemma_mod_self_0(n);
    } else {
        vstd::arithmetic::div_mod::lemma_small_mod(1nat, n as nat);
        if m % n + 1 == n {
            vstd::arithmetic::div_mod::lemma_mod_self_0(n);
        } else {
            vstd::arithmetic::div_mod::lemma_small_mod((m % n + 1) as nat, n as nat);
        }
    }
}

/// Strict round-robin rotation: starting from cursor 0 on a non-empty
/// pool, the `k`-th `get` (counting from 0) hands out entry
/// `k mod n`, for every `k` — the pool cycles through its entries in
/// order, forever.
pub proof fn lemma_round_robin_rotation(p: PoolView, k: nat)
    requires
        p.nodes.len() > 0,
        p.cursor == 0,
    ensures
        nth_get_state(p, k).nodes == p.nodes,
        nth_get_state(p, k).cursor == if k == 0 {
            0nat
        } else {
            ((((k - 1) as nat) % p.nodes.len()) + 1) as nat
        },
        nth_get_result(p, k) == Some(p.nodes[(k % p.nodes.len()) as int]),
    decreases k,
{
    let n = p.nodes.len() as int;
    if k == 0 {
        assert(nth_get_state(p, 0) == p);
        vstd::arithmetic::div_mod::lemma_small_mod(0nat, n as nat);
    } else {
        lemma_round_robin_rotation(p, (k - 1) as nat);
        let prev = nth_get_state(p, (k - 1) as nat);
        assert(nth_get_state(p, k) == spec_get_next(prev));
        if k == 1 {
            vstd::arithmetic::div_mod::lemma_small_mod(0nat, n as nat);
            lemma_mod_succ(0, n);
        } else {
            lemma_mod_succ((k - 2) as int, n);
            lemma_mod_succ((k - 1) as int, n);
        }
        lemma_mod_succ((k - 1) as int, n);
    }
}

/// After `update` with the empty list the pool hands out nothing and
/// the `get` leaves the cursor at 0; `update` never moves the cursor,
/// so a later `update` with a non-empty list resumes rotation from
/// entry 0 of the new sorted contents.
pub proof fn lemma_update_empty_then_refill(nodes: Seq<NodeView>, cursor: nat, q: Seq<NodeView>, k: nat)
    requires
        nodes.to_multiset() == Seq::<NodeView>::empty().to_multiset(),
        q.len() > 0,
    ensures
        nodes == Seq::<NodeView>::empty(),
        spec_get_result(PoolView { nodes, cursor }) is None,
        spec_get_next(PoolView { nodes, cursor }).cursor == 0,
        nth_get_result(PoolView { nodes: q, cursor: 0 }, k) == Some(q[(k % q.len()) as int]),
{
    lemma_empty_multiset_empty_seq(nodes);
    lemma_round_robin_rotation(PoolView { nodes: q, cursor: 0 }, k);
}

/// A sequence whose multiset is empty is the empty sequence; an
/// `update` whose incoming list is empty therefore empties the pool.
pub proof fn lemma_empty_multiset_empty_seq(nodes: Seq<NodeView>)
    requires
        nodes.to_multiset() == Seq::<NodeView>::empty().to_multiset(),
    ensures
        nodes == Seq::<NodeView>::empty(),
{
    assert(nodes.len() == nodes.to_multiset().len());
    assert(Seq::<NodeView>::empty().len() == Seq::<NodeView>::empty().to_multiset().len());
    assert(nodes =~= Seq::<NodeView>::empty());
}

/// `filter` keeps an appended element that satisfies the predicate.
pub proof fn lemma_filter_push_keep(s: Seq<NodeView>, x: NodeView, pred: spec_fn(NodeView) -> bool)
    requires
        pred(x),
    ensures
        s.push(x).filter(pred) == s.filter(pred).push(x),
{
    reveal_with_fuel(Seq::<_>::filter, 2);
    assert(s.push(x).drop_last() =~= s);
    assert(s.push(x).last() == x);
}

/// `filter` drops an appended element that fails the predicate.
pub proof fn lemma_filter_push_drop(s: Seq<NodeView>, x: NodeView, pred: spec_fn(NodeView) -> bool)
    requires
        !pred(x),
    ensures
        s.push(x).filter(pred) == s.filter(pred),
{
    reveal_with_fuel(Seq::<_>::filter, 2);
    assert(s.push(x).drop_last() =~= s);
    assert(s.push(x).last() == x);
}

/// `views_of` commutes with `push`.
pub proof fn lemma_views_of_push(s: Seq<RegisterNode>, n: RegisterNode)
    ensures
        views_of(s.push(n)) =~= views_of(s).push(n@),
{
}

/// Return a copy of `vv` sorted by the registry order.
pub fn sort_nodes(vv: &Vec<RegisterNode>) -> (r: Vec<RegisterNode>)
    ensures
        sorted_by(views_of(r@), node_le_ff()),
        views_of(r@).to_multiset() == views_of(vv@).to_multiset(),
{
    let mut out: Vec<RegisterNode> = Vec::new();
    let mut i: usize = 0;
    while i < vv.len()
        invariant
            i <= vv.len(),
            sorted_by(views_of(out@), node_le_ff()),
            views_of(out@).to_multiset() == views_of(vv@.take(i as int)).to_multiset(),
        decreases vv.len() - i,
    {
        let x = clone_node(&vv[i]);
        proof {
            assert(vv@.take(i as int + 1) =~= vv@.take(i as int).push(vv@[i as int]));
            lemma_views_of_push(vv@.take(i as int), vv@[i as int]);
        }
        insert_sorted(&mut out, x);
        i = i + 1;
    }
    proof {
        assert(vv@.take(vv@.len() as int) =~= vv@);
    }
    out
}

/// Insert `x` into the sorted vector `v`, keeping it sorted.
fn insert_sorted(v: &mut Vec<RegisterNode>, x: RegisterNode)
    requires
        sorted_by(views_of(old(v)@), node_le_ff()),
    ensures
        sorted_by(views_of(final(v)@), node_le_ff()),
        views_of(final(v)@).to_multiset() == views_of(old(v)@).to_multiset().insert(x@),
{
    let mut idx: usize = 0;
    while idx < v.len() && node_le_exec(&v[idx], &x)
        invariant
            idx <= v.len(),
            *v == *old(v),
            forall|j: int| 0 <= j < idx ==> node_le(#[trigger] views_of(v@)[j], x@),
        decreases v.len() - idx,
    {
        idx = idx + 1;
    }
    let ghost before = views_of(v@);
    proof {
        if idx < v@.len() {
            lemma_node_le_connected(before[idx as int], x@);
        }
        assert forall|j: int| idx <= j < before.len() implies node_le(x@, #[trigger] before[j]) by {
            if j > idx {
                assert(node_le_ff()(before[idx as int], before[j]));
            }
            lemma_node_le_transitive(x@, before[idx as int], before[j]);
        }
    }
    v.insert(idx, x);
    proof {
        before.insert_ensures(idx as int, x@);
        assert(views_of(v@) =~= before.insert(idx as int, x@));
        assert forall|a: int, b: int|
            0 <= a < b < views_of(v@).len() implies node_le_ff()(
            views_of(v@)[a],
            views_of(v@)[b],
        ) by {
            let s = views_of(v@);
            let i = idx as int;
            if a < i && b == i {
            } else if a == i && b > i {
            } else if a < i && b > i {
                lemma_node_le_transitive(s[a], x@, s[b]);
            }
        }
        vstd::seq_lib::to_multiset_insert(before, idx as int, x@);
    }
}

} // verus!
