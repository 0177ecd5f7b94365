//! The content-delivery load balancer: the client-to-server affinity table,
//! the upstream selection policy and the answer it synthesizes for the one
//! hostname it serves. Reading the affinity file from disk happens outside
//! the library; the parsed pairs are handed in.

use vstd::prelude::*;
use vstd::string::StrSliceExecFns;
use vstd::string::StringExecFns;

use crate::dns_header::{header_new, DnsHeader, ResultCode};
use crate::dns_message::{qs_view, recs_view, str_eq, DnsMessage, QueryType};
use crate::dns_question::DnsQuestion;
use crate::dns_record::{DnsRecord, RecordDataV, RecordV};

verus! {

/// One affinity pair: queries from `client` prefer `server`.
#[derive(Clone, Debug)]
pub struct Connection {
    pub client: String,
    pub server: String,
}

/// The mathematical value of an affinity pair.
pub struct ConnectionV {
    pub client: Seq<char>,
    pub server: Seq<char>,
}

impl View for Connection {
    type V = ConnectionV;

    open spec fn view(&self) -> ConnectionV {
        ConnectionV { client: self.client@, server: self.server@ }
    }
}

/// The values of a sequence of affinity pairs.
pub open spec fn conns_view(cs: Seq<Connection>) -> Seq<ConnectionV> {
    cs.map_values(|c: Connection| c@)
}

/// The values of a sequence of strings.
pub open spec fn strs_view(ss: Seq<String>) -> Seq<Seq<char>> {
    ss.map_values(|s: String| s@)
}

/// The servers of the pairs whose client is `client`, in table order.
pub open spec fn servers_for(cs: Seq<ConnectionV>, client: Seq<char>) -> Seq<Seq<char>>
    decreases cs.len(),
{
    if cs.len() == 0 {
        Seq::empty()
    } else if cs[0].client == client {
        seq![cs[0].server] + servers_for(cs.drop_first(), client)
    } else {
        servers_for(cs.drop_first(), client)
    }
}

/// The balancer's choice: the first affine server for `client`, else the
/// first fallback upstream, else nothing.
pub open spec fn balance_spec(cs: Seq<ConnectionV>, client: Seq<char>, ups: Seq<Seq<char>>) -> Option<
    Seq<char>,
> {
    let affine = servers_for(cs, client);
    if affine.len() > 0 {
        Some(affine[0])
    } else if ups.len() > 0 {
        Some(ups[0])
    } else {
        None
    }
}

/// An ordered affinity table, as read from the connections file.
pub struct ConnectionList {
    pub connections: Vec<Connection>,
}

impl View for ConnectionList {
    type V = Seq<ConnectionV>;

    open spec fn view(&self) -> Seq<ConnectionV> {
        conns_view(self.connections@)
    }
}

impl ConnectionList {
    /// An empty table.
    pub fn new() -> (r: Self)
        ensures
            r@ == Seq::<ConnectionV>::empty(),
    {
        let r = Self { connections: vec![] };
        proof {
            assert(conns_view(r.connections@) =~= Seq::<ConnectionV>::empty());
        }
        r
    }

    /// The servers preferred by `client`, in table order.
    pub fn iter_servers(&self, client: &str) -> (r: Vec<String>)
        ensures
            strs_view(r@) == servers_for(self@, client@),
    {
        iter_servers_of(&self.connections, client)
    }
}

impl From<Vec<Connection>> for ConnectionList {
    /// The table holding exactly the given pairs.
    fn from(value: Vec<Connection>) -> (r: Self) {
        Self { connections: value }
    }
}

impl vstd::std_specs::convert::FromSpecImpl<Vec<Connection>> for ConnectionList {
    open spec fn obeys_from_spec() -> bool {
        true
    }

    open spec fn from_spec(v: Vec<Connection>) -> Self {
        ConnectionList { connections: v }
    }
}

/// An affinity table held directly by the balancer.
pub struct LoadBalancer {
    pub connections: Vec<Connection>,
}

impl View for LoadBalancer {
    type V = Seq<ConnectionV>;

    open spec fn view(&self) -> Seq<ConnectionV> {
        conns_view(self.connections@)
    }
}

impl LoadBalancer {
    /// A balancer with an empty table.
    pub fn new() -> (r: Self)
        ensures
            r@ == Seq::<ConnectionV>::empty(),
    {
        let r = Self { connections: vec![] };
        proof {
            assert(conns_view(r.connections@) =~= Seq::<ConnectionV>::empty());
        }
        r
    }

    /// The servers preferred by `client`, in table order.
    pub fn iter_servers(&self, client: &str) -> (r: Vec<String>)
        ensures
            strs_view(r@) == servers_for(self@, client@),
    {
        iter_servers_of(&self.connections, client)
    }
}

impl From<Vec<Connection>> for LoadBalancer {
    /// The balancer over exactly the given pairs.
    fn from(value: Vec<Connection>) -> (r: Self) {
        Self { connections: value }
    }
}

impl vstd::std_specs::convert::FromSpecImpl<Vec<Connection>> for LoadBalancer {
    open spec fn obeys_from_spec() -> bool {
        true
    }

    open spec fn from_spec(v: Vec<Connection>) -> Self {
        LoadBalancer { connections: v }
    }
}

/// The servers of the pairs in `connections` whose client is `client`.
fn iter_servers_of(connections: &Vec<Connection>, client: &str) -> (r: Vec<String>)
    ensures
        strs_view(r@) == servers_for(conns_view(connections@), client@),
{
    let ghost cv = conns_view(connections@);
    let n = connections.len();
    let mut out: Vec<String> = Vec::new();
    proof {
        assert(cv.skip(0) =~= cv);
        assert(strs_view(out@) =~= Seq::<Seq<char>>::empty());
        assert(Seq::<Seq<char>>::empty() + servers_for(cv, client@) =~= servers_for(cv, client@));
    }
    let mut i: usize = 0;
    while i < n
        invariant
            i <= n,
            n == connections@.len(),
            cv == conns_view(connections@),
            servers_for(cv, client@) == strs_view(out@) + servers_for(
                cv.skip(i as int),
                client@,
            ),
        decreases n - i,
    {
        let ghost pre = cv.skip(i as int);
        let ghost out_before = out@;
        if str_eq(connections[i].client.as_str(), client) {
            let server = connections[i].server.clone();
            out.push(server);
        }
        proof {
            assert(pre[0] == cv[i as int]);
            assert(pre.drop_first() =~= cv.skip(i + 1));
            if cv[i as int].client == client@ {
                assert(strs_view(out@) =~= strs_view(out_before) + seq![cv[i as int].server]);
                assert(strs_view(out_before) + (seq![cv[i as int].server] + servers_for(
                    cv.skip(i + 1),
                    client@,
                )) =~= strs_view(out@) + servers_for(cv.skip(i + 1), client@));
            } else {
                assert(strs_view(out@) =~= strs_view(out_before));
            }
        }
        i = i + 1;
    }
    proof {
        assert(cv.skip(n as int) =~= Seq::<ConnectionV>::empty());
        assert(strs_view(out@) + Seq::<Seq<char>>::empty() =~= strs_view(out@));
    }
    out
}

/// Selects the server that answers a query from `client`: the first affine
/// pair's server, else the first fallback upstream, else nothing — the
/// balancer is then down.
pub fn select_upstream(connections: &ConnectionList, client: &str, up_servers: &Vec<String>) -> (r:
    Option<String>)
    ensures
        match balance_spec(connections@, client@, strs_view(up_servers@)) {
            Some(s) => r is Some && r->0@ == s,
            None => r is None,
        },
{
    let affine = connections.iter_servers(client);
    if affine.len() > 0 {
        let s = affine[0].clone();
        proof {
            assert(strs_view(affine@)[0] == affine@[0]@);
        }
        Some(s)
    } else if up_servers.len() > 0 {
        proof {
            assert(strs_view(affine@).len() == 0);
            assert(strs_view(up_servers@)[0] == up_servers@[0]@);
        }
        Some(up_servers[0].clone())
    } else {
        proof {
            assert(strs_view(affine@).len() == 0);
            assert(strs_view(up_servers@).len() == 0);
        }
        None
    }
}

/// Whether `c` is a decimal digit.
pub open spec fn is_digit(c: char) -> bool {
    48 <= c as int <= 57
}

/// The dotted-quad scan: from index `i` with the current octet's value and
/// digit count and the finished octets, the parsed 32-bit address. An octet
/// is one to three digits without a leading zero, at most 255; exactly four
/// octets separated by single dots make an address.
pub open spec fn spec_parse_ipv4_loop(
    s: Seq<char>,
    i: int,
    acc: int,
    digits: int,
    parts: Seq<int>,
) -> Option<u32>
    decreases s.len() - i,
{
    if !(0 <= i <= s.len()) {
        None
    } else if i == s.len() {
        if digits >= 1 && parts.len() == 3 {
            Some(((((parts[0] * 256 + parts[1]) * 256 + parts[2]) * 256) + acc) as u32)
        } else {
            None
        }
    } else {
        let c = s[i];
        if c == '.' {
            if digits >= 1 && parts.len() < 3 {
                spec_parse_ipv4_loop(s, i + 1, 0, 0, parts.push(acc))
            } else {
                None
            }
        } else if is_digit(c) {
            if digits >= 1 && acc == 0 {
                None
            } else if acc * 10 + (c as int - 48) <= 255 {
                spec_parse_ipv4_loop(s, i + 1, acc * 10 + (c as int - 48), digits + 1, parts)
            } else {
                None
            }
        } else {
            None
        }
    }
}

/// The 32-bit value of a dotted-quad IPv4 address, or nothing when `s` is
/// not one.
pub open spec fn spec_parse_ipv4(s: Seq<char>) -> Option<u32> {
    spec_parse_ipv4_loop(s, 0, 0, 0, Seq::empty())
}

/// The finished octets as mathematical values.
pub open spec fn parts_view(ps: Seq<u32>) -> Seq<int> {
    ps.map_values(|x: u32| x as int)
}

/// Parses a dotted-quad IPv4 address into its 32-bit network-order value.
pub fn parse_ipv4(s: &str) -> (r: Option<u32>)
    ensures
        r == spec_parse_ipv4(s@),
{
    let n = s.unicode_len();
    let mut acc: u32 = 0;
    let mut digits: usize = 0;
    let mut parts: Vec<u32> = Vec::new();
    proof {
        assert(parts_view(parts@) =~= Seq::<int>::empty());
    }
    let mut i: usize = 0;
    while i < n
        invariant
            i <= n,
            n == s@.len(),
            acc <= 255,
            digits <= i,
            parts@.len() <= 3,
            forall|k: int| 0 <= k < parts@.len() ==> parts@[k] <= 255,
            spec_parse_ipv4(s@) == spec_parse_ipv4_loop(
                s@,
                i as int,
                acc as int,
                digits as int,
                parts_view(parts@),
            ),
        decreases n - i,
    {
        let c = s.get_char(i);
        let d = c as u32;
        if d == 46 {
            if digits >= 1 && parts.len() < 3 {
                let ghost before = parts@;
                parts.push(acc);
                proof {
                    assert(parts_view(parts@) =~= parts_view(before).push(acc as int));
                    assert(c == '.') by {
                        assert(c as int == 46);
                    }
                }
                acc = 0;
                digits = 0;
            } else {
                proof {
                    assert(c == '.') by {
                        assert(c as int == 46);
                    }
                }
                return None;
            }
        } else if 48 <= d && d <= 57 {
            proof {
                assert(c != '.') by {
                    assert(c as int != 46);
                }
            }
            if digits >= 1 && acc == 0 {
                return None;
            }
            let acc2 = acc * 10 + (d - 48);
            if acc2 > 255 {
                return None;
            }
            acc = acc2;
            digits = digits + 1;
        } else {
            proof {
                assert(c != '.') by {
                    assert(c as int != 46);
                }
            }
            return None;
        }
        i = i + 1;
    }
    if digits >= 1 && parts.len() == 3 {
        let p0 = parts[0];
        let p1 = parts[1];
        let p2 = parts[2];
        Some(((p0 * 256 + p1) * 256 + p2) * 256 + acc)
    } else {
        None
    }
}

/// The index of the first colon in `s`, or `s.len()` when there is none.
pub open spec fn first_colon(s: Seq<char>) -> int
    decreases s.len(),
{
    if s.len() == 0 {
        0
    } else if s[0] == ':' {
        0
    } else {
        1 + first_colon(s.drop_first())
    }
}

/// `first_colon` is the scan that stops at the first colon.
proof fn lemma_first_colon_at(s: Seq<char>, i: int)
    requires
        0 <= i <= s.len(),
        forall|k: int| 0 <= k < i ==> s[k] != ':',
        i < s.len() ==> s[i] == ':',
    ensures
        first_colon(s) == i,
    decreases i,
{
    if i > 0 {
        assert(s[0] != ':');
        assert forall|k: int| 0 <= k < i - 1 implies s.drop_first()[k] != ':' by {
            assert(s.drop_first()[k] == s[k + 1]);
        }
        if i - 1 < s.drop_first().len() {
            assert(s.drop_first()[i - 1] == s[i]);
        }
        lemma_first_colon_at(s.drop_first(), i - 1);
    }
}

/// The client half of a `host:port` source address: everything before the
/// first colon, or the whole string when it has none.
pub fn client_ip<'a>(src: &'a str) -> (r: &'a str)
    ensures
        r@ == src@.subrange(0, first_colon(src@)),
        first_colon(src@) <= src@.len(),
{
    let n = src.unicode_len();
    let mut i: usize = 0;
    while i < n && src.get_char(i) != ':'
        invariant
            i <= n,
            n == src@.len(),
            forall|k: int| 0 <= k < i ==> src@[k] != ':',
        decreases n - i,
    {
        i = i + 1;
    }
    proof {
        lemma_first_colon_at(src@, i as int);
    }
    src.substring_char(0, i)
}

/// The answer record the balancer synthesizes: an A record for its hostname
/// pointing at `addr`, with a short life so affinity updates take hold.
pub open spec fn balancer_answer(hostname: Seq<char>, addr: u32) -> RecordV {
    RecordV {
        domain: hostname,
        qtype: QueryType::A,
        class: 1,
        ttl: 30,
        data_len: 0,
        data: RecordDataV::A { addr },
    }
}

/// Builds the balancer's response to one query: the request's id and
/// recursion flag under a response header; `FORMERR` without a question;
/// `SERVFAIL` for a name this balancer does not serve, for an exhausted
/// upstream pool, and for a selected server that is not a dotted-quad
/// address; otherwise the one synthesized A answer for the client's chosen
/// server.
pub fn balancer_response(
    request_id: u16,
    rd: bool,
    question: Option<DnsQuestion>,
    hostname: &str,
    src: &str,
    connections: &ConnectionList,
    up_servers: &Vec<String>,
) -> (r: DnsMessage)
    ensures
        r.header.wf(),
        r@.header == (DnsHeader {
            id: request_id,
            recursion_desired: rd,
            response: true,
            rescode: r@.header.rescode,
            ..header_new()
        }),
        r@.authorities.len() == 0,
        r@.resources.len() == 0,
        match question {
            None => {
                &&& r@.header.rescode == ResultCode::FORMERR
                &&& r@.questions.len() == 0
                &&& r@.answers.len() == 0
            },
            Some(q) => if q.qname@ != hostname@ {
                &&& r@.header.rescode == ResultCode::SERVFAIL
                &&& r@.questions.len() == 0
                &&& r@.answers.len() == 0
            } else {
                &&& r@.questions == seq![q@]
                &&& match balance_spec(
                    connections@,
                    src@.subrange(0, first_colon(src@)),
                    strs_view(up_servers@),
                ) {
                    Some(srv) => match spec_parse_ipv4(srv) {
                        Some(addr) => r@.header.rescode == ResultCode::NOERROR && r@.answers
                            == seq![balancer_answer(hostname@, addr)],
                        None => r@.header.rescode == ResultCode::SERVFAIL && r@.answers.len()
                            == 0,
                    },
                    None => r@.header.rescode == ResultCode::SERVFAIL && r@.answers.len() == 0,
                }
            },
        },
{
    let mut message = DnsMessage::new();
    message.header.id = request_id;
    message.header.recursion_desired = rd;
    message.header.response = true;

    match question {
        Some(q) => {
            if str_eq(q.qname.as_str(), hostname) {
                let ghost qv = q@;
                message.questions.push(q);
                proof {
                    assert(qs_view(message.questions@) =~= seq![qv]);
                }
                message.header.rescode = ResultCode::NOERROR;
                let client = client_ip(src);
                match select_upstream(connections, client, up_servers) {
                    Some(server) => match parse_ipv4(server.as_str()) {
                        Some(addr) => {
                            let rec = DnsRecord::new_a(addr, String::from_str(hostname), 30);
                            let ghost rv = rec@;
                            message.answers.push(rec);
                            proof {
                                assert(recs_view(message.answers@) =~= seq![rv]);
                                assert(rv == balancer_answer(hostname@, addr));
                            }
                        },
                        None => {
                            message.header.rescode = ResultCode::SERVFAIL;
                        },
                    },
                    None => {
                        message.header.rescode = ResultCode::SERVFAIL;
                    },
                }
            } else {
                message.header.rescode = ResultCode::SERVFAIL;
            }
        },
        None => {
            message.header.rescode = ResultCode::FORMERR;
        },
    }
    message
}

} // verus!
