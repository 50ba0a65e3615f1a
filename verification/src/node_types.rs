//! Wire contracts exchanged with the lookup service, and the total order
//! on registry entries.
//!
//! These are plain data types. On the wire they travel as JSON objects
//! with kebab-case field names; the (unverified) transport layer is
//! responsible for that encoding, so the types here carry no encoding
//! logic of their own.

use vstd::prelude::*;
use crate::order::{lex_lt, lemma_lex_lt_irreflexive, lemma_lex_lt_asymmetric,
    lemma_lex_lt_connected, lemma_lex_lt_transitive, str_cmp};

verus! {

/// Node type string under which the lookup replicas themselves register;
/// peer queries exclude it so lookups are never discovered as peers.
pub const TYPES_NODE_TYPE_LOOKUP_NODE: &'static str = "lookup";

/// Outbound registration payload: how this node announces itself.
/// `scheme` is empty or "http"; empty means the transport default.
pub struct ServiceNode {
    pub uid: String,
    pub node_type: String,
    pub api_root: String,
    pub scheme: String,
}

/// A registry entry as learned from the lookup service.
pub struct RegisterNode {
    pub uid: String,
    pub node_type: String,
    pub api_root: String,
    pub service_lookup_uid: String,
    pub create_time: String,
}

/// Mathematical value of a [`RegisterNode`]: its five fields as
/// character sequences.
#[verifier::ext_equal]
pub ghost struct NodeView {
    pub uid: Seq<char>,
    pub node_type: Seq<char>,
    pub api_root: Seq<char>,
    pub service_lookup_uid: Seq<char>,
    pub create_time: Seq<char>,
}

impl View for RegisterNode {
    type V = NodeView;

    open spec fn view(&self) -> NodeView {
        NodeView {
            uid: self.uid@,
            node_type: self.node_type@,
            api_root: self.api_root@,
            service_lookup_uid: self.service_lookup_uid@,
            create_time: self.create_time@,
        }
    }
}

/// The sequence of views of a sequence of nodes.
pub open spec fn views_of(s: Seq<RegisterNode>) -> Seq<NodeView> {
    s.map_values(|n: RegisterNode| n@)
}

/// Total order on registry entries: lexicographic over
/// (uid, node_type, api_root, service_lookup_uid, create_time).
/// It exists purely to give pools a stable order; it carries no
/// business meaning.
pub open spec fn node_le(a: NodeView, b: NodeView) -> bool {
    if a.uid != b.uid {
        lex_lt(a.uid, b.uid)
    } else if a.node_type != b.node_type {
        lex_lt(a.node_type, b.node_type)
    } else if a.api_root != b.api_root {
        lex_lt(a.api_root, b.api_root)
    } else if a.service_lookup_uid != b.service_lookup_uid {
        lex_lt(a.service_lookup_uid, b.service_lookup_uid)
    } else if a.create_time != b.create_time {
        lex_lt(a.create_time, b.create_time)
    } else {
        true
    }
}

/// The order above as a first-class relation, for the sorting lemmas.
pub open spec fn node_le_ff() -> spec_fn(NodeView, NodeView) -> bool {
    |a: NodeView, b: NodeView| node_le(a, b)
}

/// `node_le` is a total ordering: reflexive, transitive, antisymmetric
/// and strongly connected.
pub proof fn lemma_node_le_total_ordering()
    ensures
        vstd::relations::total_ordering(node_le_ff()),
{
    let leq = node_le_ff();
    assert forall|a: NodeView| #[trigger] leq(a, a) by {
    }
    assert forall|a: NodeView, b: NodeView| #[trigger] leq(a, b) && #[trigger] leq(b, a)
        implies a == b by {
        lemma_node_le_antisymmetric(a, b);
    }
    assert forall|a: NodeView, b: NodeView| !(#[trigger] leq(a, b)) implies #[trigger] leq(b, a) by {
        lemma_node_le_connected(a, b);
    }
    assert forall|a: NodeView, b: NodeView, c: NodeView|
        #[trigger] leq(a, b) && #[trigger] leq(b, c) implies leq(a, c) by {
        lemma_node_le_transitive(a, b, c);
    }
}

pub proof fn lemma_node_le_connected(a: NodeView, b: NodeView)
    ensures
        node_le(a, b) || node_le(b, a),
{
    lemma_lex_lt_connected(a.uid, b.uid);
    lemma_lex_lt_connected(a.node_type, b.node_type);
    lemma_lex_lt_connected(a.api_root, b.api_root);
    lemma_lex_lt_connected(a.service_lookup_uid, b.service_lookup_uid);
    lemma_lex_lt_connected(a.create_time, b.create_time);
}

pub proof fn lemma_node_le_antisymmetric(a: NodeView, b: NodeView)
    ensures
        node_le(a, b) && node_le(b, a) ==> a == b,
{
    if node_le(a, b) && node_le(b, a) {
        lemma_lex_lt_asymmetric(a.uid, b.uid);
        lemma_lex_lt_asymmetric(a.node_type, b.node_type);
        lemma_lex_lt_asymmetric(a.api_root, b.api_root);
        lemma_lex_lt_asymmetric(a.service_lookup_uid, b.service_lookup_uid);
        lemma_lex_lt_asymmetric(a.create_time, b.create_time);
        assert(a =~= b);
    }
}

pub proof fn lemma_node_le_transitive(a: NodeView, b: NodeView, c: NodeView)
    ensures
        node_le(a, b) && node_le(b, c) ==> node_le(a, c),
{
    if node_le(a, b) && node_le(b, c) {
        lemma_lex_lt_transitive(a.uid, b.uid, c.uid);
        lemma_lex_lt_transitive(a.node_type, b.node_type, c.node_type);
        lemma_lex_lt_transitive(a.api_root, b.api_root, c.api_root);
        lemma_lex_lt_transitive(a.service_lookup_uid, b.service_lookup_uid, c.service_lookup_uid);
        lemma_lex_lt_transitive(a.create_time, b.create_time, c.create_time);
        lemma_lex_lt_asymmetric(a.uid, b.uid);
        lemma_lex_lt_asymmetric(a.node_type, b.node_type);
        lemma_lex_lt_asymmetric(a.api_root, b.api_root);
        lemma_lex_lt_asymmetric(a.service_lookup_uid, b.service_lookup_uid);
        lemma_lex_lt_asymmetric(a.create_time, b.create_time);
        lemma_lex_lt_irreflexive(a.uid);
        lemma_lex_lt_irreflexive(a.node_type);
        lemma_lex_lt_irreflexive(a.api_root);
        lemma_lex_lt_irreflexive(a.service_lookup_uid);
        lemma_lex_lt_transitive(a.uid, c.uid, b.uid);
        lemma_lex_lt_transitive(b.uid, a.uid, c.uid);
        lemma_lex_lt_transitive(b.node_type, a.node_type, c.node_type);
        lemma_lex_lt_transitive(a.node_type, c.node_type, b.node_type);
        lemma_lex_lt_transitive(b.api_root, a.api_root, c.api_root);
        lemma_lex_lt_transitive(a.api_root, c.api_root, b.api_root);
        lemma_lex_lt_transitive(b.service_lookup_uid, a.service_lookup_uid, c.service_lookup_uid);
        lemma_lex_lt_transitive(a.service_lookup_uid, c.service_lookup_uid, b.service_lookup_uid);
        lemma_lex_lt_transitive(b.create_time, a.create_time, c.create_time);
        lemma_lex_lt_transitive(a.create_time, c.create_time, b.create_time);
    }
}

/// Executable decision procedure for [`node_le`].
pub fn node_le_exec(a: &RegisterNode, b: &RegisterNode) -> (r: bool)
    ensures
        r == node_le(a@, b@),
{
    proof {
        lemma_lex_lt_irreflexive(a.uid@);
        lemma_lex_lt_irreflexive(a.node_type@);
        lemma_lex_lt_irreflexive(a.api_root@);
        lemma_lex_lt_irreflexive(a.service_lookup_uid@);
        lemma_lex_lt_irreflexive(a.create_time@);
        lemma_lex_lt_asymmetric(a.uid@, b.uid@);
        lemma_lex_lt_asymmetric(a.node_type@, b.node_type@);
        lemma_lex_lt_asymmetric(a.api_root@, b.api_root@);
        lemma_lex_lt_asymmetric(a.service_lookup_uid@, b.service_lookup_uid@);
        lemma_lex_lt_asymmetric(a.create_time@, b.create_time@);
    }
    let c = str_cmp(a.uid.as_str(), b.uid.as_str());
    if c != 1 {
        return c == 0;
    }
    let c = str_cmp(a.node_type.as_str(), b.node_type.as_str());
    if c != 1 {
        return c == 0;
    }
    let c = str_cmp(a.api_root.as_str(), b.api_root.as_str());
    if c != 1 {
        return c == 0;
    }
    let c = str_cmp(a.service_lookup_uid.as_str(), b.service_lookup_uid.as_str());
    if c != 1 {
        return c == 0;
    }
    let c = str_cmp(a.create_time.as_str(), b.create_time.as_str());
    c != 2
}

/// Field-by-field copy; the result has the same mathematical value.
pub fn clone_node(n: &RegisterNode) -> (r: RegisterNode)
    ensures
        r@ == n@,
{
    RegisterNode {
        uid: n.uid.clone(),
        node_type: n.node_type.clone(),
        api_root: n.api_root.clone(),
        service_lookup_uid: n.service_lookup_uid.clone(),
        create_time: n.create_time.clone(),
    }
}

/// A node record is valid when its uid, type and reachable address are
/// all non-empty. The collaborator filling these structures enforces
/// it; the registry itself trusts well-formed input.
pub open spec fn spec_node_fields_valid(uid: Seq<char>, node_type: Seq<char>, api_root: Seq<char>) -> bool {
    uid.len() > 0 && node_type.len() > 0 && api_root.len() > 0
}

impl ServiceNode {
    pub fn new() -> (r: Self)
        ensures
            r.uid@ == Seq::<char>::empty(),
            r.node_type@ == Seq::<char>::empty(),
            r.api_root@ == Seq::<char>::empty(),
            r.scheme@ == Seq::<char>::empty(),
    {
        ServiceNode {
            uid: String::new(),
            node_type: String::new(),
            api_root: String::new(),
            scheme: String::new(),
        }
    }

    pub fn valid(self) -> (r: bool)
        ensures
            r == spec_node_fields_valid(self.uid@, self.node_type@, self.api_root@),
    {
        !self.uid.as_str().is_empty() && !self.node_type.as_str().is_empty()
            && !self.api_root.as_str().is_empty()
    }
}

impl RegisterNode {
    pub fn new() -> (r: Self)
        ensures
            r@.uid == Seq::<char>::empty(),
            r@.node_type == Seq::<char>::empty(),
            r@.api_root == Seq::<char>::empty(),
            r@.service_lookup_uid == Seq::<char>::empty(),
            r@.create_time == Seq::<char>::empty(),
    {
        RegisterNode {
            uid: String::new(),
            node_type: String::new(),
            api_root: String::new(),
            service_lookup_uid: String::new(),
            create_time: String::new(),
        }
    }

    pub fn valid(self) -> (r: bool)
        ensures
            r == spec_node_fields_valid(self@.uid, self@.node_type, self@.api_root),
    {
        !self.uid.as_str().is_empty() && !self.node_type.as_str().is_empty()
            && !self.api_root.as_str().is_empty()
    }
}

/// Peer-query response body: the full list of currently registered
/// nodes. An absent `nodes` field on the wire decodes as the empty
/// list.
pub struct HttpRegisterNodes {
    pub nodes: Vec<RegisterNode>,
}

impl HttpRegisterNodes {
    pub fn new() -> (r: Self)
        ensures
            r.nodes@.len() == 0,
    {
        HttpRegisterNodes { nodes: Vec::new() }
    }
}

/// Include/exclude lists used by the peer-query request.
pub struct NodeQueryFilter {
    pub exclude: Vec<String>,
    pub included: Vec<String>,
}

impl NodeQueryFilter {
    pub fn new() -> (r: Self)
        ensures
            r.exclude@.len() == 0,
            r.included@.len() == 0,
    {
        NodeQueryFilter { exclude: Vec::new(), included: Vec::new() }
    }
}

/// Peer-query request body.
pub struct HttpServiceQueryRequest {
    pub from_uid: String,
    pub uid_filter: NodeQueryFilter,
    pub type_filter: NodeQueryFilter,
}

impl HttpServiceQueryRequest {
    pub fn new() -> (r: Self)
        ensures
            r.from_uid@ == Seq::<char>::empty(),
            r.uid_filter.exclude@.len() == 0,
            r.uid_filter.included@.len() == 0,
            r.type_filter.exclude@.len() == 0,
            r.type_filter.included@.len() == 0,
    {
        HttpServiceQueryRequest {
            from_uid: String::new(),
            uid_filter: NodeQueryFilter::new(),
            type_filter: NodeQueryFilter::new(),
        }
    }
}

/// Liveness-probe request between peers.
pub struct HttpPingRequest {
    pub from_node_type: String,
    pub from_uid: String,
    pub to_uid: String,
}

impl HttpPingRequest {
    pub fn new() -> (r: Self)
        ensures
            r.from_node_type@ == Seq::<char>::empty(),
            r.from_uid@ == Seq::<char>::empty(),
            r.to_uid@ == Seq::<char>::empty(),
    {
        HttpPingRequest {
            from_node_type: String::new(),
            from_uid: String::new(),
            to_uid: String::new(),
        }
    }
}

/// Liveness-probe response.
pub struct HttpPingResponse {
    pub from_uid: String,
}

impl HttpPingResponse {
    pub fn new() -> (r: Self)
        ensures
            r.from_uid@ == Seq::<char>::empty(),
    {
        HttpPingResponse { from_uid: String::new() }
    }
}

/// A bare reachable address, as some endpoints reply with one.
pub struct HttpApiRoot {
    pub api_root: String,
}

impl HttpApiRoot {
    pub fn new() -> (r: Self)
        ensures
            r.api_root@ == Seq::<char>::empty(),
    {
        HttpApiRoot { api_root: String::new() }
    }
}

/// Application-level event notification between peers.
pub struct HttpServiceEventRequest {
    pub from_uid: String,
    pub event_id: String,
    pub event_args: Vec<String>,
}

impl HttpServiceEventRequest {
    pub fn new() -> (r: Self)
        ensures
            r.from_uid@ == Seq::<char>::empty(),
            r.event_id@ == Seq::<char>::empty(),
            r.event_args@.len() == 0,
    {
        HttpServiceEventRequest {
            from_uid: String::new(),
            event_id: String::new(),
            event_args: Vec::new(),
        }
    }
}

} // verus!
