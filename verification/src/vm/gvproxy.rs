//! Forwarding ports through gvproxy's HTTP API.

use crate::path::{lossy_text, text_from_utf8_lossy};
use crate::text::{
    concat, concat3, decimal, decimal_text, first_line, first_line_of, law_first_line, law_words,
    lemma_parse_of_decimal, nth_word, owned, parsed_number, pieces, same_text, second_word,
    split_all, texts, white_space,
};
use vstd::prelude::*;
use vstd::utf8::*;

verus! {

/// Address of the guest on gvproxy's network.
pub const GUEST_IP: &'static str = "192.168.127.2";

/// The host port and the guest port of a mapping `host:guest`, or of a single
/// port that stands for both; none where there are more parts.
pub open spec fn mapping_ports(mapping: Seq<char>) -> Option<(Seq<char>, Seq<char>)> {
    let parts = pieces(mapping, ':');
    if parts.len() == 2 {
        Some((parts[0], parts[1]))
    } else if parts.len() == 1 {
        Some((parts[0], parts[0]))
    } else {
        None
    }
}

/// The host port and the guest port of a mapping.
pub fn parse_port_mapping(mapping: &str) -> (r: Option<(String, String)>)
    ensures
        match r {
            Some((host, guest)) => mapping_ports(mapping@) == Some((host@, guest@)),
            None => mapping_ports(mapping@) is None,
        },
{
    let parts: Vec<String> = split_all(mapping, ':');
    proof {
        assert(texts(parts@).len() == parts@.len());
        assert(forall|i: int| 0 <= i < parts@.len() ==> texts(parts@)[i] == parts@[i]@);
    }
    if parts.len() == 2 {
        Some((parts[0].clone(), parts[1].clone()))
    } else if parts.len() == 1 {
        Some((parts[0].clone(), parts[0].clone()))
    } else {
        None
    }
}

/// The host port that a mapping is announced with: what stands before its first
/// colon.
pub fn announced_port(mapping: &str) -> (r: String)
    ensures
        r@ == pieces(mapping@, ':')[0],
{
    let parts: Vec<String> = split_all(mapping, ':');
    proof {
        crate::text::lemma_pieces(mapping@, ':');
        assert(texts(parts@)[0] == parts@[0]@);
    }
    parts[0].clone()
}

/// The JSON object that asks for a forwarding.
pub open spec fn expose_json(host_port: Seq<char>, guest_port: Seq<char>) -> Seq<char> {
    "{\"local\":\":"@ + host_port + "\",\"remote\":\""@ + GUEST_IP@ + ":"@ + guest_port
        + "\",\"protocol\":\"tcp\"}"@
}

/// The JSON object that asks for a forwarding.
pub fn expose_body(host_port: &str, guest_port: &str) -> (r: String)
    ensures
        r@ == expose_json(host_port@, guest_port@),
{
    let mut body: String = owned("{\"local\":\":");
    body.append(host_port);
    body.append("\",\"remote\":\"");
    body.append(GUEST_IP);
    body.append(":");
    body.append(guest_port);
    body.append("\",\"protocol\":\"tcp\"}");
    body
}

/// The HTTP request with the given body.
pub open spec fn expose_http(body: Seq<char>) -> Seq<char> {
    "POST /services/forwarder/expose HTTP/1.1\r\nHost: localhost\r\nContent-Type: application/json\r\nContent-Length: "@
        + decimal(encode_utf8(body).len()) + "\r\nConnection: close\r\n\r\n"@ + body
}

/// The HTTP request with the given body.
pub fn expose_request(body: &str) -> (r: String)
    ensures
        r@ == expose_http(body@),
{
    let mut request: String = owned(
        "POST /services/forwarder/expose HTTP/1.1\r\nHost: localhost\r\nContent-Type: application/json\r\nContent-Length: ",
    );
    request.append(decimal_text(body.as_bytes().len() as u64).as_str());
    request.append("\r\nConnection: close\r\n\r\n");
    request.append(body);
    request
}

/// What came of a request.
#[derive(Debug)]
pub enum ExposeReply {
    ConnectFailed { error: String },
    WriteFailed { error: String },
    ReadFailed { error: String },
    /// The beginning of the response.
    Response { bytes: Vec<u8> },
}

/// The status code of an HTTP response; `0` where there is none.
pub open spec fn response_status(response: Seq<char>) -> Seq<char> {
    match first_line_of(response) {
        Some(line) => match nth_word(line, 1) {
            Some(word) => word,
            None => "0"@,
        },
        None => "0"@,
    }
}

/// Why a request failed, if it did.
pub open spec fn expose_fault(reply: ExposeReply) -> Option<Seq<char>> {
    match reply {
        ExposeReply::ConnectFailed { error } => Some("connect to gvproxy API socket: "@ + error@),
        ExposeReply::WriteFailed { error } => Some("write to gvproxy API: "@ + error@),
        ExposeReply::ReadFailed { error } => Some("read from gvproxy API: "@ + error@),
        ExposeReply::Response { bytes } => {
            let response = lossy_text(bytes@);
            let status = response_status(response);
            if status == "200"@ || status == "204"@ {
                None
            } else {
                Some(
                    "gvproxy API: "@ + (match first_line_of(response) {
                        Some(line) => line,
                        None => "<empty>"@,
                    }),
                )
            }
        },
    }
}

/// Whether a request was granted: its response has status 200 or 204.
pub fn gvproxy_expose(reply: &ExposeReply) -> (r: Result<(), String>)
    ensures
        match r {
            Ok(_) => expose_fault(*reply) is None,
            Err(e) => expose_fault(*reply) == Some(e@),
        },
{
    match reply {
        ExposeReply::ConnectFailed { error } => Err(
            concat("connect to gvproxy API socket: ", error.as_str()),
        ),
        ExposeReply::WriteFailed { error } => Err(concat("write to gvproxy API: ", error.as_str())),
        ExposeReply::ReadFailed { error } => Err(concat("read from gvproxy API: ", error.as_str())),
        ExposeReply::Response { bytes } => {
            let response: String = text_from_utf8_lossy(bytes);
            let line: Option<String> = first_line(response.as_str());
            let status: String = match &line {
                Some(l) => match second_word(l.as_str()) {
                    Some(word) => word,
                    None => owned("0"),
                },
                None => owned("0"),
            };
            if same_text(status.as_str(), "200") || same_text(status.as_str(), "204") {
                return Ok(());
            }
            match line {
                Some(l) => Err(concat("gvproxy API: ", l.as_str())),
                None => Err(concat("gvproxy API: ", "<empty>")),
            }
        },
    }
}

/// How one port mapping is forwarded.
#[derive(Debug, PartialEq, Eq)]
pub enum Forward {
    /// Ask for it with this request.
    Expose { host_port: String, guest_port: String, request: String },
    /// It is no mapping.
    Skip { mapping: String },
}

/// Whether a forwarding is that of a mapping.
pub open spec fn forwards(forward: Forward, mapping: Seq<char>) -> bool {
    match mapping_ports(mapping) {
        Some((host, guest)) => forward matches Forward::Expose { host_port, guest_port, request }
            && host_port@ == host && guest_port@ == guest && request@ == expose_http(
            expose_json(host, guest),
        ),
        None => forward matches Forward::Skip { mapping: m } && m@ == mapping,
    }
}

/// How a port mapping is forwarded.
pub fn forward_port(mapping: &str) -> (r: Forward)
    ensures
        forwards(r, mapping@),
{
    match parse_port_mapping(mapping) {
        Some((host_port, guest_port)) => {
            let body: String = expose_body(host_port.as_str(), guest_port.as_str());
            let request: String = expose_request(body.as_str());
            Forward::Expose { host_port, guest_port, request }
        },
        None => Forward::Skip { mapping: owned(mapping) },
    }
}

impl Forward {
    /// The line that tells of a forwarding, as text. `fault` is why its request
    /// failed, if it did.
    pub open spec fn line_text(self, fault: Option<String>) -> Seq<char> {
        match self {
            Forward::Expose { host_port, guest_port, .. } => match fault {
                None => "  port "@ + host_port@ + " -> "@ + GUEST_IP@ + ":"@ + guest_port@,
                Some(e) => "  port "@ + host_port@ + ": "@ + e@,
            },
            Forward::Skip { mapping } => "  skipping invalid port mapping: "@ + mapping@,
        }
    }

    /// The line that tells of a forwarding.
    pub fn line(&self, fault: &Option<String>) -> (r: String)
        ensures
            r@ == self.line_text(*fault),
    {
        match self {
            Forward::Expose { host_port, guest_port, request: _ } => match fault {
                None => {
                    let mut line: String = concat3("  port ", host_port.as_str(), " -> ");
                    line.append(GUEST_IP);
                    line.append(":");
                    line.append(guest_port.as_str());
                    line
                },
                Some(e) => {
                    let mut line: String = concat3("  port ", host_port.as_str(), ": ");
                    line.append(e.as_str());
                    line
                },
            },
            Forward::Skip { mapping } => concat(
                "  skipping invalid port mapping: ",
                mapping.as_str(),
            ),
        }
    }
}

/// A mapping of two ports without a colon in either forwards the first to the
/// second, and a single port forwards to itself.
pub proof fn law_mapping_ports(host: Seq<char>, guest: Seq<char>)
    requires
        !host.contains(':'),
        !guest.contains(':'),
    ensures
        mapping_ports(host + ":"@ + guest) == Some((host, guest)),
        mapping_ports(host) == Some((host, host)),
{
    reveal_strlit(":");
    let two = seq![host, guest];
    assert(two.drop_last() =~= seq![host]);
    assert(crate::text::joined(seq![host], ':') == host);
    assert(crate::text::joined(two, ':') =~= host + ":"@ + guest);
    crate::text::lemma_pieces_of_joined(two, ':');
    let one = seq![host];
    assert(crate::text::joined(one, ':') =~= host);
    crate::text::lemma_pieces_of_joined(one, ':');
}

/// A mapping of more than two parts is none, and is told as it was given.
pub proof fn law_too_many_ports(a: Seq<char>, b: Seq<char>, rest: Seq<char>, forward: Forward)
    ensures
        mapping_ports(a + seq![':'] + b + seq![':'] + rest) is None,
        forwards(forward, a + seq![':'] + b + seq![':'] + rest) ==> (forward matches Forward::Skip {
            mapping,
        } && mapping@ == a + seq![':'] + b + seq![':'] + rest),
{
    let whole = a + seq![':'] + b + seq![':'] + rest;
    assert(whole =~= a.push(':') + (b.push(':') + rest));
    crate::text::lemma_pieces_of_concat(a, ':', b.push(':') + rest);
    crate::text::lemma_pieces_of_concat(b, ':', rest);
    crate::text::lemma_pieces(a, ':');
    crate::text::lemma_pieces(b, ':');
    crate::text::lemma_pieces(rest, ':');
}

/// What gvproxy is asked for: the host's port on every interface, forwarded to
/// the guest's port at the guest's address, over TCP. The request is a POST whose
/// stated length is the number of bytes of its body, and the body is all that
/// follows the blank line.
pub proof fn law_expose_request(host_port: Seq<char>, guest_port: Seq<char>)
    ensures
        expose_json(host_port, guest_port) == "{\"local\":\":"@ + host_port
            + "\",\"remote\":\"192.168.127.2:"@ + guest_port + "\",\"protocol\":\"tcp\"}"@,
        ({
            let body = expose_json(host_port, guest_port);
            exists|length: Seq<char>|
                expose_http(body)
                    == "POST /services/forwarder/expose HTTP/1.1\r\nHost: localhost\r\nContent-Type: application/json\r\nContent-Length: "@
                    + length + "\r\nConnection: close\r\n\r\n"@ + body && #[trigger] parsed_number(
                    length,
                ) == Some(encode_utf8(body).len())
        }),
{
    reveal_strlit("\",\"remote\":\"");
    reveal_strlit("192.168.127.2");
    reveal_strlit(":");
    reveal_strlit("\",\"remote\":\"192.168.127.2:");
    assert("\",\"remote\":\""@ + GUEST_IP@ + ":"@ =~= "\",\"remote\":\"192.168.127.2:"@);
    assert(expose_json(host_port, guest_port) =~= "{\"local\":\":"@ + host_port
        + "\",\"remote\":\"192.168.127.2:"@ + guest_port + "\",\"protocol\":\"tcp\"}"@);
    let body = expose_json(host_port, guest_port);
    lemma_parse_of_decimal(encode_utf8(body).len());
}

/// A mapping is forwarded with a request for its own two ports; a single port
/// goes to the same port of the guest; anything else is told and not asked for.
pub proof fn law_forward(forward: Forward, host: Seq<char>, guest: Seq<char>)
    requires
        !host.contains(':'),
        !guest.contains(':'),
    ensures
        forwards(forward, host + ":"@ + guest) ==> (forward matches Forward::Expose {
            host_port,
            guest_port,
            request,
        } && host_port@ == host && guest_port@ == guest && request@ == expose_http(
            expose_json(host, guest),
        )),
        forwards(forward, host) ==> (forward matches Forward::Expose { request, .. } && request@
            == expose_http(expose_json(host, host))),
{
    law_mapping_ports(host, guest);
}

/// The status of a response is the second word of its first line, whatever
/// follows.
pub proof fn law_response_status(
    version: Seq<char>,
    code: Seq<char>,
    reason: Seq<char>,
    rest: Seq<char>,
)
    requires
        version.len() > 0,
        code.len() > 0,
        forall|k: int| 0 <= k < version.len() ==> !white_space(#[trigger] version[k]),
        forall|k: int| 0 <= k < code.len() ==> !white_space(#[trigger] code[k]),
        reason.len() == 0 || white_space(reason[0]),
        !reason.contains('\n'),
    ensures
        response_status(version + seq![' '] + code + reason + seq!['\r', '\n'] + rest) == code,
        first_line_of(version + seq![' '] + code + reason + seq!['\r', '\n'] + rest) == Some(
            version + seq![' '] + code + reason,
        ),
        response_status(version) == "0"@,
        response_status(Seq::<char>::empty()) == "0"@,
{
    let gap = seq![' '];
    let none = Seq::<char>::empty();
    let line = version + gap + code + reason;
    assert(!line.contains('\n')) by {
        if line.contains('\n') {
            let i = choose|i: int| 0 <= i < line.len() && line[i] == '\n';
            let n = version.len() as int;
            if i < n {
                assert(version[i] == '\n');
            } else if i > n && i < n + 1 + code.len() {
                assert(code[i - n - 1] == '\n');
            } else if i > n {
                assert(reason[i - n - 1 - code.len()] == '\n');
            }
        }
    }
    law_first_line(line, rest);
    assert(none + version + gap + code + reason =~= line);
    law_words(none, version, gap, code, reason);
    assert(!version.contains('\n')) by {
        if version.contains('\n') {
            let i = choose|i: int| 0 <= i < version.len() && version[i] == '\n';
            assert(!white_space(version[i]));
        }
    }
    law_first_line(version, rest);
    assert(none + version =~= version);
}

/// A request was granted exactly where gvproxy answered with status 200 or 204;
/// every other outcome has a reason, which ends with what went wrong or with the
/// first line of the answer.
pub proof fn law_expose_outcome(reply: ExposeReply)
    ensures
        expose_fault(reply) is None <==> (reply matches ExposeReply::Response { bytes } && (
        response_status(lossy_text(bytes@)) == "200"@ || response_status(lossy_text(bytes@))
            == "204"@)),
        expose_fault(reply) matches Some(text) ==> match reply {
            ExposeReply::ConnectFailed { error } => error@.is_suffix_of(text),
            ExposeReply::WriteFailed { error } => error@.is_suffix_of(text),
            ExposeReply::ReadFailed { error } => error@.is_suffix_of(text),
            ExposeReply::Response { bytes } => match first_line_of(lossy_text(bytes@)) {
                Some(line) => line.is_suffix_of(text),
                None => "<empty>"@.is_suffix_of(text),
            },
        },
{
    match expose_fault(reply) {
        Some(text) => {
            let end = match reply {
                ExposeReply::ConnectFailed { error } => error@,
                ExposeReply::WriteFailed { error } => error@,
                ExposeReply::ReadFailed { error } => error@,
                ExposeReply::Response { bytes } => match first_line_of(lossy_text(bytes@)) {
                    Some(line) => line,
                    None => "<empty>"@,
                },
            };
            assert(end =~= text.subrange(text.len() - end.len(), text.len() as int));
        },
        None => {},
    }
}

/// The line that tells of a forwarding holds its host port, and ends with the
/// guest's address and port, with the reason of the failure, or with the mapping
/// that is none.
pub proof fn law_forward_line(forward: Forward, fault: Option<String>)
    ensures
        forward matches Forward::Expose { host_port, guest_port, .. } ==> ("  port "@
            + host_port@).is_prefix_of(forward.line_text(fault)) && (match fault {
            None => ("192.168.127.2"@ + ":"@ + guest_port@).is_suffix_of(forward.line_text(fault)),
            Some(e) => e@.is_suffix_of(forward.line_text(fault)),
        }),
        forward matches Forward::Skip { mapping } ==> mapping@.is_suffix_of(
            forward.line_text(fault),
        ),
{
    let t = forward.line_text(fault);
    match forward {
        Forward::Expose { host_port, guest_port, .. } => {
            let front = "  port "@ + host_port@;
            assert(front =~= t.subrange(0, front.len() as int));
            match fault {
                None => {
                    let end = "192.168.127.2"@ + ":"@ + guest_port@;
                    assert(end =~= t.subrange(t.len() - end.len(), t.len() as int));
                },
                Some(e) => {
                    assert(e@ =~= t.subrange(t.len() - e@.len(), t.len() as int));
                },
            }
        },
        Forward::Skip { mapping } => {
            assert(mapping@ =~= t.subrange(t.len() - mapping@.len(), t.len() as int));
        },
    }
}

} // verus!
