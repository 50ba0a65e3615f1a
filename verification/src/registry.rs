//! The registry: every round-robin pool keyed by node type, plus the
//! uid index, rebuilt wholesale from each successful peer query.
//!
//! The registry itself is a plain value; the caller that shares it
//! between tasks must wrap it in one exclusive section so that readers
//! only ever observe a complete snapshot (one writer rebuilds it in a
//! single critical section; reads never interleave with a rebuild).

use vstd::prelude::*;
use crate::node_types::{RegisterNode, NodeView, views_of, clone_node};
use crate::order::str_eq;
use crate::rr_pool::{RegisterNodeRR, PoolView, pool_sorted, spec_get_next,
    lemma_filter_push_keep, lemma_filter_push_drop};

verus! {

broadcast use {vstd::seq_lib::group_to_multiset_ensures, vstd::seq_lib::group_filter_ensures};

/// One pool together with the node type it serves.
pub struct TypedPool {
    pub node_type: String,
    pub pool: RegisterNodeRR,
}

/// The registry: per-type pools and the uid index.
pub struct Registry {
    pools: Vec<TypedPool>,
    by_uid: Vec<RegisterNode>,
}

/// Mathematical value of a registry: both indexes as maps.
#[verifier::ext_equal]
pub ghost struct RegistryView {
    pub pools: Map<Seq<char>, PoolView>,
    pub by_uid: Map<Seq<char>, NodeView>,
}

/// The uid index that a node list denotes: entries are added in
/// order, so a later entry with the same uid overwrites an earlier
/// one.
pub open spec fn uid_index(s: Seq<NodeView>) -> Map<Seq<char>, NodeView>
    decreases s.len(),
{
    if s.len() == 0 {
        Map::empty()
    } else {
        uid_index(s.drop_last()).insert(s.last().uid, s.last())
    }
}

/// The pool map that a pool list denotes.
pub open spec fn pools_map_of(s: Seq<TypedPool>) -> Map<Seq<char>, PoolView>
    decreases s.len(),
{
    if s.len() == 0 {
        Map::empty()
    } else {
        pools_map_of(s.drop_last()).insert(s.last().node_type@, s.last().pool@)
    }
}

pub open spec fn uids_distinct(s: Seq<NodeView>) -> bool {
    forall|i: int, j: int| 0 <= i < j < s.len() ==> s[i].uid != s[j].uid
}

pub open spec fn types_distinct(s: Seq<TypedPool>) -> bool {
    forall|i: int, j: int| 0 <= i < j < s.len() ==> s[i].node_type@ != s[j].node_type@
}

/// Some entry of `s` carries this uid.
pub open spec fn has_uid(s: Seq<NodeView>, u: Seq<char>) -> bool {
    exists|i: int| 0 <= i < s.len() && s[i].uid == u
}

/// Some entry of `s` carries this node type.
pub open spec fn has_type(s: Seq<NodeView>, t: Seq<char>) -> bool {
    exists|i: int| 0 <= i < s.len() && s[i].node_type == t
}

/// Some pool of `s` serves this node type.
pub open spec fn has_pool_type(s: Seq<TypedPool>, t: Seq<char>) -> bool {
    exists|i: int| 0 <= i < s.len() && s[i].node_type@ == t
}

impl View for Registry {
    type V = RegistryView;

    closed spec fn view(&self) -> RegistryView {
        RegistryView {
            pools: pools_map_of(self.pools@),
            by_uid: uid_index(views_of(self.by_uid@)),
        }
    }
}

/// The registry's cross-index consistency: every uid-index entry sits
/// in the pool of its type, and every pooled node is reachable
/// through the uid index. Concurrent readers can therefore never see
/// one index referencing a node absent from the other, in any state a
/// well-formed registry reaches.
pub open spec fn consistent(v: RegistryView) -> bool {
    &&& forall|u: Seq<char>| #[trigger] v.by_uid.contains_key(u) ==> {
        let n = v.by_uid[u];
        &&& n.uid == u
        &&& v.pools.contains_key(n.node_type)
        &&& v.pools[n.node_type].nodes.contains(n)
    }
    &&& forall|t: Seq<char>| #[trigger] v.pools.contains_key(t) ==> {
        let pv = v.pools[t];
        &&& pv.nodes.len() > 0
        &&& forall|i: int|
            0 <= i < pv.nodes.len() ==> (#[trigger] pv.nodes[i]).node_type == t
                && v.by_uid.contains_key(pv.nodes[i].uid)
    }
}

// ---------------------------------------------------------------
// Facts about the uid index of a list with pairwise-distinct uids.
// ---------------------------------------------------------------

/// The domain of the uid index is exactly the uids of the list.
pub proof fn lemma_uid_index_dom(s: Seq<NodeView>)
    ensures
        forall|u: Seq<char>| #[trigger] uid_index(s).contains_key(u) <==> has_uid(s, u),
    decreases s.len(),
{
    if s.len() > 0 {
        lemma_uid_index_dom(s.drop_last());
        assert forall|u: Seq<char>| #[trigger] uid_index(s).contains_key(u) implies has_uid(
            s,
            u,
        ) by {
            if u == s.last().uid {
                assert(s[s.len() - 1].uid == u);
            } else {
                assert(uid_index(s.drop_last()).contains_key(u));
                let i = choose|i: int| 0 <= i < s.drop_last().len() && s.drop_last()[i].uid == u;
                assert(s[i].uid == u);
            }
        }
        assert forall|u: Seq<char>| has_uid(s, u) implies #[trigger] uid_index(s).contains_key(
            u,
        ) by {
            let i = choose|i: int| 0 <= i < s.len() && s[i].uid == u;
            if i < s.len() - 1 {
                assert(s.drop_last()[i].uid == u);
                assert(has_uid(s.drop_last(), u));
                assert(uid_index(s.drop_last()).contains_key(u));
            }
        }
    }
}

/// Every value stored in the uid index is an entry of the list.
pub proof fn lemma_uid_index_values(s: Seq<NodeView>)
    ensures
        forall|u: Seq<char>| #[trigger] uid_index(s).contains_key(u) ==> uid_index(s)[u].uid == u
            && s.contains(uid_index(s)[u]),
    decreases s.len(),
{
    if s.len() > 0 {
        lemma_uid_index_values(s.drop_last());
        assert forall|u: Seq<char>| #[trigger] uid_index(s).contains_key(u) implies uid_index(
            s,
        )[u].uid == u && s.contains(uid_index(s)[u]) by {
            if u == s.last().uid {
                assert(s[s.len() - 1] == s.last());
            } else {
                assert(uid_index(s.drop_last()).contains_key(u));
                let n = uid_index(s.drop_last())[u];
                let i = choose|i: int| 0 <= i < s.drop_last().len() && s.drop_last()[i] == n;
                assert(s[i] == n);
            }
        }
    }
}

/// With pairwise-distinct uids, the index maps each entry's uid to
/// that entry.
pub proof fn lemma_uid_index_at(s: Seq<NodeView>, i: int)
    requires
        uids_distinct(s),
        0 <= i < s.len(),
    ensures
        uid_index(s).contains_key(s[i].uid),
        uid_index(s)[s[i].uid] == s[i],
    decreases s.len(),
{
    if i == s.len() - 1 {
    } else {
        assert(s.drop_last()[i] == s[i]);
        lemma_uid_index_at(s.drop_last(), i);
        assert(s[i].uid != s.last().uid);
    }
}

/// Overwriting the entry at `j` with a node of the same uid updates
/// the index exactly as a map insert does.
pub proof fn lemma_uid_index_update(s: Seq<NodeView>, j: int, n: NodeView)
    requires
        uids_distinct(s),
        0 <= j < s.len(),
        s[j].uid == n.uid,
    ensures
        uid_index(s.update(j, n)) == uid_index(s).insert(n.uid, n),
        uids_distinct(s.update(j, n)),
    decreases s.len(),
{
    let su = s.update(j, n);
    assert forall|a: int, b: int| 0 <= a < b < su.len() implies su[a].uid != su[b].uid by {
        assert(su[a].uid == s[a].uid);
        assert(su[b].uid == s[b].uid);
    }
    if j == s.len() - 1 {
        assert(su.drop_last() =~= s.drop_last());
        assert(su.last() == n);
        assert(uid_index(s.drop_last()).insert(s.last().uid, s.last()).insert(n.uid, n)
            =~= uid_index(s.drop_last()).insert(n.uid, n));
    } else {
        assert(su.drop_last() =~= s.drop_last().update(j, n));
        assert(su.last() == s.last());
        assert(s.drop_last()[j] == s[j]);
        lemma_uid_index_update(s.drop_last(), j, n);
        assert(s.last().uid != n.uid);
        assert(uid_index(s.drop_last()).insert(n.uid, n).insert(s.last().uid, s.last())
            =~= uid_index(s.drop_last()).insert(s.last().uid, s.last()).insert(n.uid, n));
    }
}

/// Appending a node with a fresh uid extends the index.
pub proof fn lemma_uid_index_push(s: Seq<NodeView>, n: NodeView)
    requires
        !has_uid(s, n.uid),
        uids_distinct(s),
    ensures
        uid_index(s.push(n)) == uid_index(s).insert(n.uid, n),
        uids_distinct(s.push(n)),
{
    assert(s.push(n).drop_last() =~= s);
    assert(s.push(n).last() == n);
    assert forall|a: int, b: int|
        0 <= a < b < s.push(n).len() implies s.push(n)[a].uid != s.push(n)[b].uid by {
        if b == s.len() {
            assert(s[a].uid != n.uid);
        }
    }
}

// ---------------------------------------------------------------
// The same facts for the pool map.
// ---------------------------------------------------------------

pub proof fn lemma_pools_map_dom(s: Seq<TypedPool>)
    ensures
        forall|t: Seq<char>| #[trigger] pools_map_of(s).contains_key(t) <==> has_pool_type(s, t),
    decreases s.len(),
{
    if s.len() > 0 {
        lemma_pools_map_dom(s.drop_last());
        assert forall|t: Seq<char>| #[trigger] pools_map_of(s).contains_key(t) implies
            has_pool_type(s, t) by {
            if t == s.last().node_type@ {
                assert(s[s.len() - 1].node_type@ == t);
            } else {
                assert(pools_map_of(s.drop_last()).contains_key(t));
                let i = choose|i: int|
                    0 <= i < s.drop_last().len() && s.drop_last()[i].node_type@ == t;
                assert(s[i].node_type@ == t);
            }
        }
        assert forall|t: Seq<char>| has_pool_type(s, t) implies #[trigger] pools_map_of(
            s,
        ).contains_key(t) by {
            let i = choose|i: int| 0 <= i < s.len() && s[i].node_type@ == t;
            if i < s.len() - 1 {
                assert(s.drop_last()[i].node_type@ == t);
                assert(has_pool_type(s.drop_last(), t));
                assert(pools_map_of(s.drop_last()).contains_key(t));
            }
        }
    }
}

pub proof fn lemma_pools_map_at(s: Seq<TypedPool>, i: int)
    requires
        types_distinct(s),
        0 <= i < s.len(),
    ensures
        pools_map_of(s).contains_key(s[i].node_type@),
        pools_map_of(s)[s[i].node_type@] == s[i].pool@,
    decreases s.len(),
{
    if i == s.len() - 1 {
    } else {
        assert(s.drop_last()[i] == s[i]);
        lemma_pools_map_at(s.drop_last(), i);
        assert(s[i].node_type@ != s.last().node_type@);
    }
}

/// Replacing the pool at `j`, keeping its type, updates the pool map
/// exactly as a map insert does.
pub proof fn lemma_pools_map_update(s: Seq<TypedPool>, j: int, tp: TypedPool)
    requires
        types_distinct(s),
        0 <= j < s.len(),
        s[j].node_type@ == tp.node_type@,
    ensures
        pools_map_of(s.update(j, tp)) == pools_map_of(s).insert(tp.node_type@, tp.pool@),
        types_distinct(s.update(j, tp)),
    decreases s.len(),
{
    let su = s.update(j, tp);
    assert forall|a: int, b: int|
        0 <= a < b < su.len() implies su[a].node_type@ != su[b].node_type@ by {
    }
    if j == s.len() - 1 {
        assert(su.drop_last() =~= s.drop_last());
        assert(su.last() == tp);
        assert(pools_map_of(s.drop_last()).insert(s.last().node_type@, s.last().pool@).insert(
            tp.node_type@,
            tp.pool@,
        ) =~= pools_map_of(s.drop_last()).insert(tp.node_type@, tp.pool@));
    } else {
        assert(su.drop_last() =~= s.drop_last().update(j, tp));
        assert(su.last() == s.last());
        assert(s.drop_last()[j] == s[j]);
        lemma_pools_map_update(s.drop_last(), j, tp);
        assert(s.last().node_type@ != tp.node_type@);
        assert(pools_map_of(s.drop_last()).insert(tp.node_type@, tp.pool@).insert(
            s.last().node_type@,
            s.last().pool@,
        ) =~= pools_map_of(s.drop_last()).insert(s.last().node_type@, s.last().pool@).insert(
            tp.node_type@,
            tp.pool@,
        ));
    }
}

/// One pool entry is in shape: sorted, non-empty, and all of its
/// nodes carry the entry's type.
pub open spec fn pool_entry_ok(tp: TypedPool) -> bool {
    &&& pool_sorted(tp.pool@)
    &&& tp.pool@.nodes.len() > 0
    &&& forall|i: int|
        0 <= i < tp.pool@.nodes.len() ==> (#[trigger] tp.pool@.nodes[i]).node_type
            == tp.node_type@
}

/// The address handed out by a `get` on a non-empty pool state.
pub open spec fn pool_pick(pv: PoolView) -> Seq<char> {
    pv.nodes[crate::rr_pool::wrapped_cursor(pv) as int].api_root
}

impl Registry {
    /// Internal well-formedness: both association lists have distinct
    /// keys, every pool entry is in shape, and the two indexes are
    /// mutually consistent.
    pub closed spec fn wf(self) -> bool {
        &&& uids_distinct(views_of(self.by_uid@))
        &&& types_distinct(self.pools@)
        &&& forall|j: int| 0 <= j < self.pools@.len() ==> pool_entry_ok(#[trigger] self.pools@[j])
        &&& consistent(self@)
    }

    /// A well-formed registry is consistent (the shape of every state
    /// a reader can observe).
    pub proof fn lemma_wf_implies_consistent(&self)
        requires
            self.wf(),
        ensures
            consistent(self@),
    {
    }

    pub fn new() -> (r: Self)
        ensures
            r.wf(),
            r@.pools == Map::<Seq<char>, PoolView>::empty(),
            r@.by_uid == Map::<Seq<char>, NodeView>::empty(),
    {
        let r = Registry { pools: Vec::new(), by_uid: Vec::new() };
        proof {
            assert(views_of(r.by_uid@) =~= Seq::<NodeView>::empty());
        }
        r
    }

    /// Exact-match lookup in the uid index.
    pub fn lookup_by_uid(&self, uid: &str) -> (r: Option<String>)
        requires
            self.wf(),
        ensures
            r is Some <==> self@.by_uid.contains_key(uid@),
            r matches Some(s) ==> s@ == self@.by_uid[uid@].api_root,
    {
        match find_uid_index(&self.by_uid, uid) {
            Some(j) => {
                proof {
                    lemma_uid_index_at(views_of(self.by_uid@), j as int);
                }
                Some(self.by_uid[j].api_root.clone())
            },
            None => {
                proof {
                    lemma_uid_index_dom(views_of(self.by_uid@));
                }
                None
            },
        }
    }

    /// Round-robin selection from the pool serving `node_type`: hands
    /// out that pool's next address and advances its cursor; absent
    /// when no such pool exists.
    pub fn lookup_by_type(&mut self, node_type: &str) -> (r: Option<String>)
        requires
            old(self).wf(),
        ensures
            final(self).wf(),
            final(self)@.by_uid == old(self)@.by_uid,
            !old(self)@.pools.contains_key(node_type@) ==> r is None && final(self)@ == old(
                self,
            )@,
            old(self)@.pools.contains_key(node_type@) ==> {
                let pv = old(self)@.pools[node_type@];
                &&& r is Some
                &&& (r matches Some(s) ==> s@ == pool_pick(pv))
                &&& final(self)@.pools == old(self)@.pools.insert(node_type@, spec_get_next(pv))
            },
    {
        proof {
            lemma_pools_map_dom(self.pools@);
        }
        match find_pool_index(&self.pools, node_type) {
            None => {
                assert(!self@.pools.contains_key(node_type@));
                None
            },
            Some(j) => {
                let ghost pools0 = self.pools@;
                let ghost pv = pools0[j as int].pool@;
                proof {
                    lemma_pools_map_at(pools0, j as int);
                    assert(pool_entry_ok(pools0[j as int]));
                }
                let entry = pool_entry_mut(&mut self.pools, j);
                let picked = entry.pool.get();
                let ghost tp1 = self.pools@[j as int];
                proof {
                    assert(self.pools@ =~= pools0.update(j as int, tp1));
                    assert(tp1.node_type@ == node_type@);
                    assert(tp1.pool@ == spec_get_next(pv));
                    lemma_pools_map_update(pools0, j as int, tp1);
                    assert forall|k: int| 0 <= k < self.pools@.len() implies pool_entry_ok(
                        #[trigger] self.pools@[k],
                    ) by {
                        if k != j {
                            assert(self.pools@[k] == pools0[k]);
                            assert(pool_entry_ok(pools0[k]));
                        }
                    }
                    lemma_consistent_after_cursor_move(
                        old(self)@,
                        self@,
                        node_type@,
                        pv,
                    );
                }
                match picked {
                    Some(n) => Some(n.api_root),
                    None => None,
                }
            },
        }
    }

    /// Pick a destination: a non-empty `uid` found in the uid index
    /// wins (uid-pinned routing); otherwise fall back to per-type
    /// round robin; absent when neither resolves.
    pub fn select(&mut self, uid: &str, node_type: &str) -> (r: Option<String>)
        requires
            old(self).wf(),
        ensures
            final(self).wf(),
            uid@.len() > 0 && old(self)@.by_uid.contains_key(uid@) ==> final(self)@ == old(self)@
                && r is Some && (r matches Some(s) ==> s@ == old(self)@.by_uid[uid@].api_root),
            !(uid@.len() > 0 && old(self)@.by_uid.contains_key(uid@)) ==> {
                &&& final(self)@.by_uid == old(self)@.by_uid
                &&& !old(self)@.pools.contains_key(node_type@) ==> r is None && final(self)@
                    == old(self)@
                &&& old(self)@.pools.contains_key(node_type@) ==> {
                    let pv = old(self)@.pools[node_type@];
                    &&& r is Some
                    &&& (r matches Some(s) ==> s@ == pool_pick(pv))
                    &&& final(self)@.pools == old(self)@.pools.insert(
                        node_type@,
                        spec_get_next(pv),
                    )
                }
            },
    {
        if !uid.is_empty() {
            let hit = self.lookup_by_uid(uid);
            match hit {
                Some(s) => {
                    return Some(s);
                },
                None => {
                },
            }
        }
        self.lookup_by_type(node_type)
    }
}

/// Moving a pool's cursor does not disturb the cross-index
/// consistency: the nodes of every pool and the uid index itself are
/// untouched.
proof fn lemma_consistent_after_cursor_move(
    pre: RegistryView,
    post: RegistryView,
    t: Seq<char>,
    pv: PoolView,
)
    requires
        consistent(pre),
        pre.pools.contains_key(t),
        pre.pools[t] == pv,
        post.by_uid == pre.by_uid,
        post.pools == pre.pools.insert(t, spec_get_next(pv)),
    ensures
        consistent(post),
{
    assert(spec_get_next(pv).nodes == pv.nodes);
    assert forall|u: Seq<char>| #[trigger] post.by_uid.contains_key(u) implies {
        let n = post.by_uid[u];
        &&& n.uid == u
        &&& post.pools.contains_key(n.node_type)
        &&& post.pools[n.node_type].nodes.contains(n)
    } by {
        let n = pre.by_uid[u];
        assert(pre.pools.contains_key(n.node_type));
        if n.node_type == t {
            assert(post.pools[n.node_type].nodes == pv.nodes);
        }
    }
    assert forall|t2: Seq<char>| #[trigger] post.pools.contains_key(t2) implies {
        let pw = post.pools[t2];
        &&& pw.nodes.len() > 0
        &&& forall|i: int|
            0 <= i < pw.nodes.len() ==> (#[trigger] pw.nodes[i]).node_type == t2
                && post.by_uid.contains_key(pw.nodes[i].uid)
    } by {
        assert(pre.pools.contains_key(t2));
        if t2 == t {
            assert(post.pools[t2].nodes == pv.nodes);
        } else {
            assert(post.pools[t2] == pre.pools[t2]);
        }
    }
}

/// Whatever `filter` keeps was in the sequence it was applied to,
/// and satisfies the predicate.
pub proof fn lemma_filter_mem(s: Seq<NodeView>, pred: spec_fn(NodeView) -> bool, x: NodeView)
    requires
        s.filter(pred).contains(x),
    ensures
        s.contains(x),
        pred(x),
    decreases s.len(),
{
    reveal_with_fuel(Seq::<_>::filter, 2);
    let i = choose|i: int| 0 <= i < s.filter(pred).len() && s.filter(pred)[i] == x;
    assert(pred(s.filter(pred)[i]));
    if s.len() > 0 {
        let dl = s.drop_last();
        if pred(s.last()) && x == s.last() {
            assert(s[s.len() - 1] == x);
        } else {
            assert(dl.filter(pred).contains(x)) by {
                if pred(s.last()) {
                    assert(s.filter(pred) == dl.filter(pred).push(s.last()));
                    assert(i < dl.filter(pred).len());
                    assert(dl.filter(pred)[i] == x);
                } else {
                    assert(s.filter(pred) == dl.filter(pred));
                }
            }
            lemma_filter_mem(dl, pred, x);
            let m = choose|m: int| 0 <= m < dl.len() && dl[m] == x;
            assert(s[m] == x);
        }
    }
}

/// A type string occurs in the collected type list.
pub open spec fn type_in_list(ts: Seq<String>, t: Seq<char>) -> bool {
    exists|k: int| 0 <= k < ts.len() && ts[k]@ == t
}

/// Does the list of collected type strings contain `s`?
fn str_in_vec(v: &Vec<String>, s: &str) -> (r: bool)
    ensures
        r == type_in_list(v@, s@),
{
    let mut i: usize = 0;
    while i < v.len()
        invariant
            i <= v@.len(),
            forall|k: int| 0 <= k < i ==> v@[k]@ != s@,
        decreases v@.len() - i,
    {
        if str_eq(v[i].as_str(), s) {
            return true;
        }
        i = i + 1;
    }
    false
}

/// Overwrite the entry at `j`.
fn set_node(v: &mut Vec<RegisterNode>, j: usize, n: RegisterNode)
    requires
        j < old(v)@.len(),
    ensures
        final(v)@ == old(v)@.update(j as int, n),
{
    let slot = &mut v[j];
    *slot = n;
}

/// What `replace_all` does to the registry, as a relation between the
/// state before (`pre`), the response's node views, and the state
/// after (`post`): a fresh uid index, one pool per response type
/// holding exactly the response's nodes of that type in sorted
/// order, with the cursor kept for a type that already had a pool and
/// 0 for a new one.
pub open spec fn replace_rel(pre: RegistryView, resp: Seq<NodeView>, post: RegistryView) -> bool {
    &&& post.by_uid == uid_index(resp)
    &&& (forall|t: Seq<char>| #[trigger] post.pools.contains_key(t) <==> has_type(resp, t))
    &&& forall|t: Seq<char>| #[trigger] post.pools.contains_key(t) ==> {
        let pv = post.pools[t];
        &&& pool_sorted(pv)
        &&& pv.nodes.to_multiset() == resp.filter(
            |n: NodeView| n.node_type == t,
        ).to_multiset()
        &&& pv.cursor == if pre.pools.contains_key(t) {
            pre.pools[t].cursor
        } else {
            0nat
        }
    }
}

/// `replace_all` is idempotent: replacing twice with the same
/// response leaves the registry exactly where one replacement left
/// it — same uid index, same pool contents and cursors — so every
/// later `select` output is the same.
pub proof fn lemma_replace_all_idempotent(
    s0: RegistryView,
    s1: RegistryView,
    s2: RegistryView,
    resp: Seq<NodeView>,
)
    requires
        replace_rel(s0, resp, s1),
        replace_rel(s1, resp, s2),
    ensures
        s2 == s1,
{
    crate::node_types::lemma_node_le_total_ordering();
    assert(s2.by_uid =~= s1.by_uid);
    assert forall|t: Seq<char>| #[trigger] s1.pools.contains_key(t) implies s2.pools.contains_key(
        t,
    ) && s2.pools[t] == s1.pools[t] by {
        assert(has_type(resp, t));
        assert(s2.pools.contains_key(t));
        let p1 = s1.pools[t];
        let p2 = s2.pools[t];
        vstd::seq_lib::lemma_sorted_unique(p1.nodes, p2.nodes, crate::node_types::node_le_ff());
        assert(p2.nodes =~= p1.nodes);
        assert(p2.cursor == p1.cursor);
        assert(p2 =~= p1);
    }
    assert forall|t: Seq<char>| #[trigger] s2.pools.contains_key(t) implies s1.pools.contains_key(
        t,
    ) by {
        assert(has_type(resp, t));
    }
    assert(s2.pools =~~= s1.pools);
    assert(s2 =~~= s1);
}

impl Registry {
    /// The core write path: rebuild both indexes, wholesale, from one
    /// query response. Every pool holds exactly the response's nodes
    /// of its type, sorted; a type that already had a pool keeps that
    /// pool's cursor, a new type starts at 0; the uid index maps each
    /// uid to the response's last entry carrying it. An empty
    /// response is not an error: it simply leaves the registry empty.
    ///
    /// The caller must run this under its single exclusive section so
    /// that no reader observes a partially rebuilt registry.
    pub fn replace_all(&mut self, response: &Vec<RegisterNode>)
        requires
            old(self).wf(),
        ensures
            final(self).wf(),
            replace_rel(old(self)@, views_of(response@), final(self)@),
            consistent(final(self)@),
    {
        let ghost resp = views_of(response@);

        // Rebuild the uid index: scan the response in order, a later
        // duplicate uid overwriting the earlier entry.
        let mut new_uid: Vec<RegisterNode> = Vec::new();
        let mut i: usize = 0;
        while i < response.len()
            invariant
                i <= response@.len(),
                resp == views_of(response@),
                uids_distinct(views_of(new_uid@)),
                uid_index(views_of(new_uid@)) == uid_index(resp.take(i as int)),
            decreases response@.len() - i,
        {
            let ghost prev = views_of(new_uid@);
            let n = clone_node(&response[i]);
            proof {
                assert(resp.take(i as int + 1).drop_last() =~= resp.take(i as int));
                assert(resp.take(i as int + 1).last() == resp[i as int]);
            }
            match find_uid_index(&new_uid, response[i].uid.as_str()) {
                Some(j) => {
                    set_node(&mut new_uid, j, n);
                    proof {
                        assert(views_of(new_uid@) =~= prev.update(j as int, resp[i as int]));
                        lemma_uid_index_update(prev, j as int, resp[i as int]);
                    }
                },
                None => {
                    new_uid.push(n);
                    proof {
                        assert(views_of(new_uid@) =~= prev.push(resp[i as int]));
                        lemma_uid_index_push(prev, resp[i as int]);
                    }
                },
            }
            i = i + 1;
        }
        proof {
            assert(resp.take(resp.len() as int) =~= resp);
        }

        // Collect the distinct node types of the response, in order of
        // first occurrence.
        let mut types: Vec<String> = Vec::new();
        let mut i: usize = 0;
        while i < response.len()
            invariant
                i <= response@.len(),
                resp == views_of(response@),
                forall|a: int, b: int| 0 <= a < b < types@.len() ==> types@[a]@ != types@[b]@,
                forall|k: int| 0 <= k < types@.len() ==> has_type(resp, #[trigger] types@[k]@),
                forall|j: int|
                    0 <= j < i ==> type_in_list(types@, (#[trigger] resp[j]).node_type),
            decreases response@.len() - i,
        {
            let ghost ts0 = types@;
            if !str_in_vec(&types, response[i].node_type.as_str()) {
                types.push(response[i].node_type.clone());
                proof {
                    assert(has_type(resp, resp[i as int].node_type));
                    assert(types@[types@.len() - 1]@ == resp[i as int].node_type);
                    assert forall|j: int| 0 <= j < i implies type_in_list(
                        types@,
                        (#[trigger] resp[j]).node_type,
                    ) by {
                        let kk = choose|k: int| 0 <= k < ts0.len() && ts0[k]@ == resp[j].node_type;
                        assert(types@[kk]@ == resp[j].node_type);
                    }
                    assert forall|k: int| 0 <= k < types@.len() implies has_type(
                        resp,
                        #[trigger] types@[k]@,
                    ) by {
                        if k < ts0.len() {
                            assert(types@[k] == ts0[k]);
                        }
                    }
                }
            }
            proof {
                assert(type_in_list(types@, resp[i as int].node_type));
            }
            i = i + 1;
        }

        // Build the new pool list: one pool per collected type,
        // holding exactly the response's nodes of that type.
        let ghost pools0 = self.pools@;
        let mut new_pools: Vec<TypedPool> = Vec::new();
        let mut k: usize = 0;
        while k < types.len()
            invariant
                k <= types@.len(),
                resp == views_of(response@),
                pools0 == self.pools@,
                old(self).wf(),
                *self == *old(self),
                forall|a: int, b: int| 0 <= a < b < types@.len() ==> types@[a]@ != types@[b]@,
                forall|kk: int| 0 <= kk < types@.len() ==> has_type(resp, #[trigger] types@[kk]@),
                new_pools@.len() == k,
                forall|m: int|
                    0 <= m < k ==> (#[trigger] new_pools@[m]).node_type@ == types@[m]@,
                forall|m: int|
                    0 <= m < k ==> {
                        let tp = #[trigger] new_pools@[m];
                        &&& pool_sorted(tp.pool@)
                        &&& tp.pool@.nodes.to_multiset() == resp.filter(
                            |n: NodeView| n.node_type == tp.node_type@,
                        ).to_multiset()
                        &&& tp.pool@.cursor == if pools_map_of(pools0).contains_key(
                            tp.node_type@,
                        ) {
                            pools_map_of(pools0)[tp.node_type@].cursor
                        } else {
                            0nat
                        }
                    },
            decreases types@.len() - k,
        {
            let ty = types[k].clone();
            let ghost pred = |n: NodeView| n.node_type == ty@;

            // The run: the response's nodes of this type, in order.
            let mut run: Vec<RegisterNode> = Vec::new();
            let mut i: usize = 0;
            while i < response.len()
                invariant
                    i <= response@.len(),
                    resp == views_of(response@),
                    pred == (|n: NodeView| n.node_type == ty@),
                    views_of(run@) == resp.take(i as int).filter(pred),
                decreases response@.len() - i,
            {
                let ghost prefix = resp.take(i as int);
                proof {
                    assert(resp.take(i as int + 1) =~= prefix.push(resp[i as int]));
                }
                if str_eq(response[i].node_type.as_str(), ty.as_str()) {
                    let ghost run0 = views_of(run@);
                    run.push(clone_node(&response[i]));
                    proof {
                        assert(views_of(run@) =~= run0.push(resp[i as int]));
                        lemma_filter_push_keep(prefix, resp[i as int], pred);
                    }
                } else {
                    proof {
                        lemma_filter_push_drop(prefix, resp[i as int], pred);
                    }
                }
                i = i + 1;
            }
            proof {
                assert(resp.take(resp.len() as int) =~= resp);
            }

            // A type that already had a pool keeps its cursor; a new
            // type starts at 0.
            let pool = match find_pool_index(&self.pools, ty.as_str()) {
                Some(j) => {
                    proof {
                        lemma_pools_map_at(pools0, j as int);
                    }
                    self.pools[j].pool.refreshed(&run)
                },
                None => {
                    proof {
                        lemma_pools_map_dom(pools0);
                    }
                    let mut p = RegisterNodeRR::new();
                    p.update(&run);
                    p
                },
            };
            new_pools.push(TypedPool { node_type: ty, pool });
            k = k + 1;
        }

        self.pools = new_pools;
        self.by_uid = new_uid;

        proof {
            self.lemma_replace_all_shape(resp, Ghost(types@), Ghost(pools0), old(self)@);
        }
    }

    /// The shape of the state `replace_all` builds, derived from the
    /// loop invariants it establishes.
    proof fn lemma_replace_all_shape(
        &self,
        resp: Seq<NodeView>,
        types: Ghost<Seq<String>>,
        pools0: Ghost<Seq<TypedPool>>,
        pre: RegistryView,
    )
        requires
            uids_distinct(views_of(self.by_uid@)),
            uid_index(views_of(self.by_uid@)) == uid_index(resp),
            forall|a: int, b: int|
                0 <= a < b < types@.len() ==> types@[a]@ != types@[b]@,
            forall|kk: int| 0 <= kk < types@.len() ==> has_type(resp, #[trigger] types@[kk]@),
            forall|j: int| 0 <= j < resp.len() ==> type_in_list(types@, (#[trigger] resp[j]).node_type),
            self.pools@.len() == types@.len(),
            forall|m: int|
                0 <= m < self.pools@.len() ==> (#[trigger] self.pools@[m]).node_type@
                    == types@[m]@,
            forall|m: int|
                0 <= m < self.pools@.len() ==> {
                    let tp = #[trigger] self.pools@[m];
                    &&& pool_sorted(tp.pool@)
                    &&& tp.pool@.nodes.to_multiset() == resp.filter(
                        |n: NodeView| n.node_type == tp.node_type@,
                    ).to_multiset()
                    &&& tp.pool@.cursor == if pools_map_of(pools0@).contains_key(tp.node_type@) {
                        pools_map_of(pools0@)[tp.node_type@].cursor
                    } else {
                        0nat
                    }
                },
            pre.pools == pools_map_of(pools0@),
        ensures
            self.wf(),
            self@.by_uid == uid_index(resp),
            forall|t: Seq<char>| #[trigger] self@.pools.contains_key(t) <==> has_type(resp, t),
            forall|t: Seq<char>| #[trigger] self@.pools.contains_key(t) ==> {
                let pv = self@.pools[t];
                &&& pool_sorted(pv)
                &&& pv.nodes.to_multiset() == resp.filter(
                    |n: NodeView| n.node_type == t,
                ).to_multiset()
                &&& pv.cursor == if pre.pools.contains_key(t) {
                    pre.pools[t].cursor
                } else {
                    0nat
                }
            },
            consistent(self@),
    {
        let pools = self.pools@;
        let ts = types@;

        assert(types_distinct(pools));
        lemma_pools_map_dom(pools);

        // Domain: a type has a pool exactly when the response has it.
        assert forall|t: Seq<char>| #[trigger] self@.pools.contains_key(t) implies has_type(
            resp,
            t,
        ) by {
            assert(has_pool_type(pools, t));
            let m = choose|m: int| 0 <= m < pools.len() && pools[m].node_type@ == t;
            assert(has_type(resp, ts[m]@));
        }
        assert forall|t: Seq<char>| has_type(resp, t) implies #[trigger] self@.pools.contains_key(
            t,
        ) by {
            let j = choose|j: int| 0 <= j < resp.len() && resp[j].node_type == t;
            assert(type_in_list(ts, resp[j].node_type));
            let m = choose|m: int| 0 <= m < ts.len() && ts[m]@ == t;
            assert(pools[m].node_type@ == t);
            assert(has_pool_type(pools, t));
        }

        // Per-type contents and cursor.
        assert forall|t: Seq<char>| #[trigger] self@.pools.contains_key(t) implies {
            let pv = self@.pools[t];
            &&& pool_sorted(pv)
            &&& pv.nodes.to_multiset() == resp.filter(
                |n: NodeView| n.node_type == t,
            ).to_multiset()
            &&& pv.cursor == if pre.pools.contains_key(t) {
                pre.pools[t].cursor
            } else {
                0nat
            }
        } by {
            assert(has_pool_type(pools, t));
            let m = choose|m: int| 0 <= m < pools.len() && pools[m].node_type@ == t;
            lemma_pools_map_at(pools, m);
            assert(self@.pools[t] == pools[m].pool@);
        }

        // Every pool entry is in shape: sorted (given), non-empty and
        // type-homogeneous (via the filter multiset).
        assert forall|m: int| 0 <= m < pools.len() implies pool_entry_ok(
            #[trigger] pools[m],
        ) by {
            let tp = pools[m];
            let t = tp.node_type@;
            let pred = |n: NodeView| n.node_type == t;
            let flt = resp.filter(pred);
            assert(has_type(resp, ts[m]@));
            let j = choose|j: int| 0 <= j < resp.len() && resp[j].node_type == t;
            assert(flt.contains(resp[j]));
            assert(flt.to_multiset().contains(resp[j]));
            assert(tp.pool@.nodes.to_multiset().len() == flt.to_multiset().len());
            assert(tp.pool@.nodes.len() > 0);
            assert forall|i: int|
                0 <= i < tp.pool@.nodes.len() implies (#[trigger] tp.pool@.nodes[i]).node_type
                == t by {
                let x = tp.pool@.nodes[i];
                assert(tp.pool@.nodes.contains(x));
                assert(tp.pool@.nodes.to_multiset().contains(x));
                assert(flt.to_multiset().contains(x));
                assert(flt.contains(x));
                lemma_filter_mem(resp, pred, x);
            }
        }

        // Cross-index consistency.
        lemma_uid_index_dom(resp);
        lemma_uid_index_values(resp);
        assert forall|u: Seq<char>| #[trigger] self@.by_uid.contains_key(u) implies {
            let n = self@.by_uid[u];
            &&& n.uid == u
            &&& self@.pools.contains_key(n.node_type)
            &&& self@.pools[n.node_type].nodes.contains(n)
        } by {
            let nd = self@.by_uid[u];
            assert(resp.contains(nd));
            let j = choose|j: int| 0 <= j < resp.len() && resp[j] == nd;
            assert(resp[j].node_type == nd.node_type);
            assert(has_type(resp, nd.node_type));
            let t = nd.node_type;
            assert(self@.pools.contains_key(t));
            let pred = |n: NodeView| n.node_type == t;
            assert(resp.filter(pred).contains(resp[j]));
            assert(resp.filter(pred).to_multiset().contains(nd));
            let pv = self@.pools[t];
            assert(pv.nodes.to_multiset() == resp.filter(pred).to_multiset());
            assert(pv.nodes.to_multiset().contains(nd));
            assert(pv.nodes.contains(nd));
        }
        assert forall|t: Seq<char>| #[trigger] self@.pools.contains_key(t) implies {
            let pv = self@.pools[t];
            &&& pv.nodes.len() > 0
            &&& forall|i: int|
                0 <= i < pv.nodes.len() ==> (#[trigger] pv.nodes[i]).node_type == t
                    && self@.by_uid.contains_key(pv.nodes[i].uid)
        } by {
            assert(has_pool_type(pools, t));
            let m = choose|m: int| 0 <= m < pools.len() && pools[m].node_type@ == t;
            lemma_pools_map_at(pools, m);
            assert(pool_entry_ok(pools[m]));
            let pv = self@.pools[t];
            assert forall|i: int|
                0 <= i < pv.nodes.len() implies (#[trigger] pv.nodes[i]).node_type == t
                && self@.by_uid.contains_key(pv.nodes[i].uid) by {
                let x = pv.nodes[i];
                assert(pv.nodes.contains(x));
                assert(pv.nodes.to_multiset().contains(x));
                let pred = |n: NodeView| n.node_type == t;
                assert(resp.filter(pred).to_multiset().contains(x));
                assert(resp.filter(pred).contains(x));
                lemma_filter_mem(resp, pred, x);
                let j = choose|j: int| 0 <= j < resp.len() && resp[j] == x;
                assert(resp[j].uid == x.uid);
                assert(has_uid(resp, x.uid));
            }
        }
    }
}

/// Mutable access to one pool entry, with the surrounding vector
/// related to the borrow.
fn pool_entry_mut(v: &mut Vec<TypedPool>, j: usize) -> (p: &mut TypedPool)
    requires
        j < old(v)@.len(),
    ensures
        *p == old(v)@[j as int],
        final(v)@ == old(v)@.update(j as int, *final(p)),
{
    &mut v[j]
}

// ---------------------------------------------------------------
// Executable search helpers over the two association lists.
// ---------------------------------------------------------------

/// Index of the entry carrying `uid`, if any.
fn find_uid_index(v: &Vec<RegisterNode>, uid: &str) -> (r: Option<usize>)
    ensures
        r matches Some(j) ==> j < v@.len() && v@[j as int]@.uid == uid@,
        r is None ==> !has_uid(views_of(v@), uid@),
{
    let mut i: usize = 0;
    while i < v.len()
        invariant
            i <= v@.len(),
            forall|j: int| 0 <= j < i ==> views_of(v@)[j].uid != uid@,
        decreases v@.len() - i,
    {
        if str_eq(v[i].uid.as_str(), uid) {
            return Some(i);
        }
        i = i + 1;
    }
    None
}

/// Index of the pool serving `node_type`, if any.
fn find_pool_index(v: &Vec<TypedPool>, node_type: &str) -> (r: Option<usize>)
    ensures
        r matches Some(j) ==> j < v@.len() && v@[j as int].node_type@ == node_type@,
        r is None ==> forall|i: int| 0 <= i < v@.len() ==> v@[i].node_type@ != node_type@,
    decreases v@.len(),
{
    let mut i: usize = 0;
    while i < v.len()
        invariant
            i <= v@.len(),
            forall|j: int| 0 <= j < i ==> v@[j].node_type@ != node_type@,
        decreases v@.len() - i,
    {
        if str_eq(v[i].node_type.as_str(), node_type) {
            return Some(i);
        }
        i = i + 1;
    }
    None
}

} // verus!
