//! Configuration values the discovery subsystem consumes, and the
//! connection strings derived from them.
//!
//! Reading and decoding the configuration file is the collaborator's
//! job; it hands the parsed plain values over and this module turns
//! them into the endpoint lists the rest of the system uses.

use vstd::prelude::*;
use vstd::string::StringExecFns;

verus! {

/// One Redis endpoint.
pub struct Redis {
    pub host: String,
    pub port: u16,
}

/// One etcd endpoint.
pub struct EtcdEndPoint {
    pub host: String,
}

/// One lookup-service replica.
pub struct NodeLookup {
    pub host: String,
}

/// The parsed configuration.
pub struct ExampleConfig {
    pub redis: Vec<Redis>,
    pub etcd_endpoints: Vec<EtcdEndPoint>,
    pub node_lookup_nodes: Vec<NodeLookup>,
    pub esl_inbound_addr: String,
    pub esl_inbound_password: String,
    pub esl_inbound_gw: String,
}

/// The decimal digit characters.
pub open spec fn dec_digit(d: nat) -> char {
    if d == 0 {
        '0'
    } else if d == 1 {
        '1'
    } else if d == 2 {
        '2'
    } else if d == 3 {
        '3'
    } else if d == 4 {
        '4'
    } else if d == 5 {
        '5'
    } else if d == 6 {
        '6'
    } else if d == 7 {
        '7'
    } else if d == 8 {
        '8'
    } else {
        '9'
    }
}

/// The decimal notation of `n`, without leading zeros.
pub open spec fn dec_str(n: nat) -> Seq<char>
    decreases n,
{
    if n < 10 {
        seq![dec_digit(n)]
    } else {
        dec_str(n / 10) + seq![dec_digit(n % 10)]
    }
}

/// One decimal digit as a string slice.
fn digit_str(d: u16) -> (r: &'static str)
    requires
        d < 10,
    ensures
        r@ == seq![dec_digit(d as nat)],
{
    proof {
        reveal_strlit("0");
        reveal_strlit("1");
        reveal_strlit("2");
        reveal_strlit("3");
        reveal_strlit("4");
        reveal_strlit("5");
        reveal_strlit("6");
        reveal_strlit("7");
        reveal_strlit("8");
        reveal_strlit("9");
    }
    let r = match d {
        0 => "0",
        1 => "1",
        2 => "2",
        3 => "3",
        4 => "4",
        5 => "5",
        6 => "6",
        7 => "7",
        8 => "8",
        _ => "9",
    };
    proof {
        assert(r@ =~= seq![dec_digit(d as nat)]);
    }
    r
}

/// Render a port number in decimal.
pub fn u16_to_string(n: u16) -> (r: String)
    ensures
        r@ == dec_str(n as nat),
    decreases n,
{
    if n < 10 {
        digit_str(n).to_owned()
    } else {
        let mut s = u16_to_string(n / 10);
        s.append(digit_str(n % 10));
        proof {
            assert(s@ =~= dec_str(n as nat));
        }
        s
    }
}

impl ExampleConfig {
    pub fn new() -> (r: Self)
        ensures
            r.redis@.len() == 0,
            r.etcd_endpoints@.len() == 0,
            r.node_lookup_nodes@.len() == 0,
            r.esl_inbound_addr@ == Seq::<char>::empty(),
            r.esl_inbound_password@ == Seq::<char>::empty(),
            r.esl_inbound_gw@ == Seq::<char>::empty(),
    {
        ExampleConfig {
            redis: Vec::new(),
            etcd_endpoints: Vec::new(),
            node_lookup_nodes: Vec::new(),
            esl_inbound_addr: String::new(),
            esl_inbound_password: String::new(),
            esl_inbound_gw: String::new(),
        }
    }

    /// The Redis connection URLs: `redis://host:port` for each
    /// configured endpoint, in order.
    pub fn get_redis_config(&self) -> (r: Vec<String>)
        ensures
            r@.len() == self.redis@.len(),
            forall|i: int|
                0 <= i < r@.len() ==> (#[trigger] r@[i])@ == "redis://"@ + self.redis@[i].host@
                    + ":"@ + dec_str(self.redis@[i].port as nat),
    {
        let mut out: Vec<String> = Vec::new();
        let mut i: usize = 0;
        while i < self.redis.len()
            invariant
                i <= self.redis@.len(),
                out@.len() == i,
                forall|k: int|
                    0 <= k < i ==> (#[trigger] out@[k])@ == "redis://"@ + self.redis@[k].host@
                        + ":"@ + dec_str(self.redis@[k].port as nat),
            decreases self.redis@.len() - i,
        {
            let mut s = String::from_str("redis://");
            s.append(self.redis[i].host.as_str());
            s.append(":");
            let port = u16_to_string(self.redis[i].port);
            s.append(port.as_str());
            proof {
                assert(s@ =~= "redis://"@ + self.redis@[i as int].host@ + ":"@ + dec_str(
                    self.redis@[i as int].port as nat,
                ));
            }
            out.push(s);
            i = i + 1;
        }
        out
    }

    /// The etcd endpoint URLs: `http://host` for each configured
    /// endpoint, in order.
    pub fn get_etcd_endpoints(&self) -> (r: Vec<String>)
        ensures
            r@.len() == self.etcd_endpoints@.len(),
            forall|i: int|
                0 <= i < r@.len() ==> (#[trigger] r@[i])@ == "http://"@
                    + self.etcd_endpoints@[i].host@,
    {
        let mut out: Vec<String> = Vec::new();
        let mut i: usize = 0;
        while i < self.etcd_endpoints.len()
            invariant
                i <= self.etcd_endpoints@.len(),
                out@.len() == i,
                forall|k: int|
                    0 <= k < i ==> (#[trigger] out@[k])@ == "http://"@
                        + self.etcd_endpoints@[k].host@,
            decreases self.etcd_endpoints@.len() - i,
        {
            let mut s = String::from_str("http://");
            s.append(self.etcd_endpoints[i].host.as_str());
            out.push(s);
            i = i + 1;
        }
        out
    }

    /// The lookup replica hosts, in their configured order — the
    /// order the fan-out tries them in.
    pub fn get_node_lookup_nodes(&self) -> (r: Vec<String>)
        ensures
            r@.len() == self.node_lookup_nodes@.len(),
            forall|i: int|
                0 <= i < r@.len() ==> (#[trigger] r@[i])@ == self.node_lookup_nodes@[i].host@,
    {
        let mut out: Vec<String> = Vec::new();
        let mut i: usize = 0;
        while i < self.node_lookup_nodes.len()
            invariant
                i <= self.node_lookup_nodes@.len(),
                out@.len() == i,
                forall|k: int|
                    0 <= k < i ==> (#[trigger] out@[k])@ == self.node_lookup_nodes@[k].host@,
            decreases self.node_lookup_nodes@.len() - i,
        {
            out.push(self.node_lookup_nodes[i].host.clone());
            i = i + 1;
        }
        out
    }

    /// The inbound event-socket settings as one tuple:
    /// (address, password, gateway).
    pub fn get_esl_inbound_info(&self) -> (r: (String, String, String))
        ensures
            r.0@ == self.esl_inbound_addr@,
            r.1@ == self.esl_inbound_password@,
            r.2@ == self.esl_inbound_gw@,
    {
        (
            self.esl_inbound_addr.clone(),
            self.esl_inbound_password.clone(),
            self.esl_inbound_gw.clone(),
        )
    }
}

} // verus!
