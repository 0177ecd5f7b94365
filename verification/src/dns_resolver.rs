//! The recursive resolver's per-step decision and the response envelope it
//! hands back to a client. The socket work around them — sending one
//! upstream query and awaiting one datagram — lives outside the library and
//! feeds each upstream response back in.

use vstd::prelude::*;

use crate::dns_header::{header_new, DnsHeader, ResultCode};
use crate::dns_message::{
    first_ns_host, qs_view, resolved_ns, DnsMessage, MessageV, QueryType,
};
use crate::dns_question::DnsQuestion;
use crate::errors::DnsError;

verus! {

/// What the resolver does next after one upstream response: accept the
/// response as the final one, query a new server by address, or first chase
/// an unglued name server by name.
pub enum ResolveStep {
    Accept,
    UseServer { ip: u32 },
    Chase { host: String },
}

/// Whether an upstream response is final for the resolver: it carries
/// answers with a clean code, or it denies the name's existence.
pub open spec fn step_accept(m: MessageV) -> bool {
    (m.answers.len() > 0 && m.header.rescode == ResultCode::NOERROR) || m.header.rescode
        == ResultCode::NXDOMAIN
}

/// Decides one step of the iterative walk from an upstream response, as the
/// delegation rules order them. Every response leads to exactly one of the
/// three steps: a final response is accepted; otherwise a covering name
/// server with glue is queried by address; otherwise an unglued covering name
/// server is chased by name; and with no covering name server left, the
/// response is accepted as the last referral obtained.
pub fn resolve_step(response: &DnsMessage, qname: &str) -> (r: ResolveStep)
    ensures
        step_accept(response@) ==> r is Accept,
        !step_accept(response@) ==> match resolved_ns(
            response@.authorities,
            response@.resources,
            qname@,
        ) {
            Some(ip) => r == (ResolveStep::UseServer { ip }),
            None => match first_ns_host(response@.authorities, qname@) {
                Some(h) => r is Chase && r->Chase_host@ == h,
                None => r is Accept,
            },
        },
{
    if !response.answers.is_empty() && response.header.rescode == ResultCode::NOERROR {
        return ResolveStep::Accept;
    }
    if response.header.rescode == ResultCode::NXDOMAIN {
        return ResolveStep::Accept;
    }
    match response.get_resolved_ns(qname) {
        Some(ip) => ResolveStep::UseServer { ip },
        None => match response.get_unresolved_ns(qname) {
            Some(host) => ResolveStep::Chase { host: String::from_str(host) },
            None => ResolveStep::Accept,
        },
    }
}

/// Builds the response sent back to the client: the request's id and
/// recursion flag under a response header offering recursion, the question
/// echoed and the lookup result's code and sections on success, `SERVFAIL`
/// when the recursion failed, and `FORMERR` when the request carried no
/// question.
pub fn resolver_response(
    request_id: u16,
    rd: bool,
    question: Option<DnsQuestion>,
    result: Option<DnsMessage>,
) -> (r: DnsMessage)
    ensures
        r.header.wf(),
        r@.header == (DnsHeader {
            id: request_id,
            recursion_desired: rd,
            recursion_available: true,
            response: true,
            rescode: r@.header.rescode,
            ..header_new()
        }),
        match question {
            None => {
                &&& r@.header.rescode == ResultCode::FORMERR
                &&& r@.questions.len() == 0
                &&& r@.answers.len() == 0
                &&& r@.authorities.len() == 0
                &&& r@.resources.len() == 0
            },
            Some(q) => match result {
                None => {
                    &&& r@.header.rescode == ResultCode::SERVFAIL
                    &&& r@.questions.len() == 0
                    &&& r@.answers.len() == 0
                    &&& r@.authorities.len() == 0
                    &&& r@.resources.len() == 0
                },
                Some(res) => {
                    &&& r@.header.rescode == res@.header.rescode
                    &&& r@.questions == seq![q@]
                    &&& r@.answers == res@.answers
                    &&& r@.authorities == res@.authorities
                    &&& r@.resources == res@.resources
                },
            },
        },
{
    let mut message = DnsMessage::new();
    message.header.id = request_id;
    message.header.recursion_desired = rd;
    message.header.recursion_available = true;
    message.header.response = true;

    match question {
        Some(q) => match result {
            Some(res) => {
                message.questions.push(q);
                message.header.rescode = res.header.rescode;
                message.answers = res.answers;
                message.authorities = res.authorities;
                message.resources = res.resources;
                proof {
                    assert(qs_view(message.questions@) =~= seq![q@]);
                }
            },
            None => {
                message.header.rescode = ResultCode::SERVFAIL;
            },
        },
        None => {
            message.header.rescode = ResultCode::FORMERR;
        },
    }
    message
}

/// Accepts a resolution request; the network walk itself is driven outside
/// the library, step by step through [`resolve_step`].
pub fn resolve(qname: &str, qtype: QueryType) -> (r: Result<(), DnsError>)
    ensures
        r is Ok,
{
    Ok(())
}

} // verus!
