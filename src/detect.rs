use vstd::prelude::*;
use vstd::string::StringSliceAdditionalSpecFns;
use crate::text::{
    dec_digits, hex_byte, hex_preview, hex_preview_text, push_decimal, push_hex_byte, push_text,
    safe_text, string_from_chars, to_safe_string,
};
use crate::types::Protocol;

verus! {

/// `SSH-`
pub open spec fn ssh_magic() -> Seq<u8> {
    seq![0x53, 0x53, 0x48, 0x2d]
}

/// `220 `
pub open spec fn smtp_magic() -> Seq<u8> {
    seq![0x32, 0x32, 0x30, 0x20]
}

/// `HTTP/`
pub open spec fn http_magic() -> Seq<u8> {
    seq![0x48, 0x54, 0x54, 0x50, 0x2f]
}

/// `login:`
pub open spec fn login_prompt() -> Seq<u8> {
    seq![0x6c, 0x6f, 0x67, 0x69, 0x6e, 0x3a]
}

/// `username:`
pub open spec fn username_prompt() -> Seq<u8> {
    seq![0x75, 0x73, 0x65, 0x72, 0x6e, 0x61, 0x6d, 0x65, 0x3a]
}

/// `password:`
pub open spec fn password_prompt() -> Seq<u8> {
    seq![0x70, 0x61, 0x73, 0x73, 0x77, 0x6f, 0x72, 0x64, 0x3a]
}

/// The Telnet "interpret as command" byte.
pub const TELNET_IAC: u8 = 0xff;

/// The record type of a TLS handshake record.
pub const TLS_HANDSHAKE: u8 = 0x16;

/// The major version byte of every TLS record.
pub const TLS_MAJOR: u8 = 0x03;

pub open spec fn starts_with(b: Seq<u8>, p: Seq<u8>) -> bool {
    p.len() <= b.len() && b.take(p.len() as int) == p
}

/// ASCII upper-case letters mapped to lower case; every other byte unchanged.
pub open spec fn ascii_lower(b: u8) -> u8 {
    if 65 <= b && b <= 90 {
        (b + 32) as u8
    } else {
        b
    }
}

/// The window of `h` at `i` equals `n`, ASCII case ignored.
pub open spec fn window_matches(h: Seq<u8>, n: Seq<u8>, i: int) -> bool {
    &&& 0 <= i
    &&& i + n.len() <= h.len()
    &&& forall|m: int| 0 <= m < n.len() ==> ascii_lower(#[trigger] h[i + m]) == ascii_lower(n[m])
}

/// `n` occurs in `h`, ASCII case ignored; the empty needle occurs everywhere.
pub open spec fn contains_ci(h: Seq<u8>, n: Seq<u8>) -> bool {
    n.len() == 0 || exists|i: int| window_matches(h, n, i)
}

pub open spec fn is_telnet_reply(b: Seq<u8>) -> bool {
    ||| (b.len() > 0 && b[0] == TELNET_IAC)
    ||| contains_ci(b, login_prompt())
    ||| contains_ci(b, username_prompt())
    ||| contains_ci(b, password_prompt())
}

pub open spec fn is_tls_record(b: Seq<u8>) -> bool {
    b.len() >= 2 && b[0] == TLS_HANDSHAKE && b[1] == TLS_MAJOR
}

/// Bytes shaped like a length-prefixed DNS message whose QR bit marks a response.
pub open spec fn is_dns_response(b: Seq<u8>) -> bool {
    b.len() >= 14 && b[4] >= 0x80
}

/// The protocol usually found on a well-known port.
pub open spec fn port_hint(port: u16) -> Protocol {
    if port == 80 || port == 8080 || port == 8000 || port == 8888 {
        Protocol::Http
    } else if port == 443 || port == 8443 {
        Protocol::Https
    } else if port == 22 {
        Protocol::Ssh
    } else if port == 23 {
        Protocol::Telnet
    } else if port == 25 || port == 587 || port == 465 {
        Protocol::Smtp
    } else if port == 53 {
        Protocol::Dns
    } else {
        Protocol::Unknown
    }
}

/// The classification table for received bytes, first matching rule first;
/// the banner is present when the bytes themselves gave the protocol away.
pub open spec fn classify(b: Seq<u8>, port: u16) -> (Protocol, Option<Seq<char>>) {
    if starts_with(b, ssh_magic()) {
        (Protocol::Ssh, Some(safe_text(b)))
    } else if starts_with(b, smtp_magic()) {
        (Protocol::Smtp, Some(safe_text(b)))
    } else if starts_with(b, http_magic()) {
        (Protocol::Http, Some(safe_text(b)))
    } else if is_telnet_reply(b) {
        (Protocol::Telnet, Some(safe_text(b)))
    } else if is_tls_record(b) {
        (Protocol::Tls, Some(hex_preview_text(b)))
    } else if is_dns_response(b) && port == 53 {
        (Protocol::Dns, Some(hex_preview_text(b)))
    } else {
        (port_hint(port), None)
    }
}

pub open spec fn text_opt(o: Option<String>) -> Option<Seq<char>> {
    match o {
        Some(s) => Some(s@),
        None => None,
    }
}

fn has_prefix(b: &[u8], p: &[u8]) -> (r: bool)
    ensures
        r == starts_with(b@, p@),
{
    if p.len() > b.len() {
        return false;
    }
    let mut i: usize = 0;
    while i < p.len()
        invariant
            p.len() <= b.len(),
            i <= p.len(),
            forall|k: int| 0 <= k < i ==> b@[k] == p@[k],
        decreases p.len() - i,
    {
        if b[i] != p[i] {
            assert(b@.take(p.len() as int)[i as int] != p@[i as int]);
            return false;
        }
        i += 1;
    }
    assert(b@.take(p.len() as int) =~= p@);
    true
}

fn lower_byte(b: u8) -> (r: u8)
    ensures
        r == ascii_lower(b),
{
    if 65 <= b && b <= 90 {
        b + 32
    } else {
        b
    }
}

/// Whether `needle` occurs in `haystack`, ASCII letters compared without case.
pub fn tw_contains_ci(haystack: &[u8], needle: &[u8]) -> (r: bool)
    ensures
        r == contains_ci(haystack@, needle@),
{
    if needle.len() == 0 {
        return true;
    }
    if needle.len() > haystack.len() {
        assert forall|i: int| !window_matches(haystack@, needle@, i) by {}
        return false;
    }
    let last = haystack.len() - needle.len();
    let mut i: usize = 0;
    while i <= last
        invariant
            last == haystack.len() - needle.len(),
            needle.len() <= haystack.len(),
            forall|j: int| 0 <= j < i ==> !window_matches(haystack@, needle@, j),
        decreases last + 1 - i,
    {
        let mut k: usize = 0;
        let mut same = true;
        while k < needle.len() && same
            invariant
                i <= last,
                last == haystack.len() - needle.len(),
                k <= needle.len(),
                same ==> forall|m: int|
                    0 <= m < k ==> ascii_lower(#[trigger] haystack@[i + m]) == ascii_lower(
                        needle@[m],
                    ),
                !same ==> !window_matches(haystack@, needle@, i as int),
            decreases needle.len() - k,
        {
            if lower_byte(haystack[i + k]) != lower_byte(needle[k]) {
                same = false;
                assert(ascii_lower(haystack@[i + k]) != ascii_lower(needle@[k as int]));
            }
            k += 1;
        }
        if same {
            assert(window_matches(haystack@, needle@, i as int));
            return true;
        }
        i += 1;
    }
    assert forall|j: int| !window_matches(haystack@, needle@, j) by {
        if 0 <= j < i {
        }
    }
    false
}

fn is_telnet_bytes(buf: &[u8]) -> (r: bool)
    ensures
        r == is_telnet_reply(buf@),
{
    let login: [u8; 6] = [0x6c, 0x6f, 0x67, 0x69, 0x6e, 0x3a];
    let username: [u8; 9] = [0x75, 0x73, 0x65, 0x72, 0x6e, 0x61, 0x6d, 0x65, 0x3a];
    let password: [u8; 9] = [0x70, 0x61, 0x73, 0x73, 0x77, 0x6f, 0x72, 0x64, 0x3a];
    assert(login@ =~= login_prompt());
    assert(username@ =~= username_prompt());
    assert(password@ =~= password_prompt());
    (buf.len() > 0 && buf[0] == TELNET_IAC) || tw_contains_ci(buf, &login) || tw_contains_ci(
        buf,
        &username,
    ) || tw_contains_ci(buf, &password)
}

fn is_tls_bytes(buf: &[u8]) -> (r: bool)
    ensures
        r == is_tls_record(buf@),
{
    buf.len() >= 2 && buf[0] == TLS_HANDSHAKE && buf[1] == TLS_MAJOR
}

/// Classifies a service from bytes it sent: the protocol, and a banner when
/// the bytes themselves identified it (`None` when only the port hinted).
pub fn detect_from_bytes(buf: &[u8], port_hint: u16) -> (r: (Protocol, Option<String>))
    ensures
        r.0 == classify(buf@, port_hint).0,
        text_opt(r.1) == classify(buf@, port_hint).1,
{
    let ssh: [u8; 4] = [0x53, 0x53, 0x48, 0x2d];
    let smtp: [u8; 4] = [0x32, 0x32, 0x30, 0x20];
    let http: [u8; 5] = [0x48, 0x54, 0x54, 0x50, 0x2f];
    assert(ssh@ =~= ssh_magic());
    assert(smtp@ =~= smtp_magic());
    assert(http@ =~= http_magic());
    if has_prefix(buf, &ssh) {
        return (Protocol::Ssh, Some(to_safe_string(buf)));
    }
    if has_prefix(buf, &smtp) {
        return (Protocol::Smtp, Some(to_safe_string(buf)));
    }
    if has_prefix(buf, &http) {
        return (Protocol::Http, Some(to_safe_string(buf)));
    }
    if is_telnet_bytes(buf) {
        return (Protocol::Telnet, Some(to_safe_string(buf)));
    }
    if is_tls_bytes(buf) {
        return (Protocol::Tls, Some(hex_preview(buf)));
    }
    if buf.len() >= 14 {
        let is_response = buf[4] >= 0x80;
        if is_response && port_hint == 53 {
            return (Protocol::Dns, Some(hex_preview(buf)));
        }
    }
    let p = if port_hint == 80 || port_hint == 8080 || port_hint == 8000 || port_hint == 8888 {
        Protocol::Http
    } else if port_hint == 443 || port_hint == 8443 {
        Protocol::Https
    } else if port_hint == 22 {
        Protocol::Ssh
    } else if port_hint == 23 {
        Protocol::Telnet
    } else if port_hint == 25 || port_hint == 587 || port_hint == 465 {
        Protocol::Smtp
    } else if port_hint == 53 {
        Protocol::Dns
    } else {
        Protocol::Unknown
    };
    (p, None)
}


/// Classification keeps no hidden state: any two results that
/// `detect_from_bytes` may give for the same bytes and port are the same
/// protocol with the same banner.
pub proof fn lemma_detect_repeatable(
    buf: Seq<u8>,
    port: u16,
    first: (Protocol, Option<String>),
    second: (Protocol, Option<String>),
)
    requires
        first.0 == classify(buf, port).0,
        text_opt(first.1) == classify(buf, port).1,
        second.0 == classify(buf, port).0,
        text_opt(second.1) == classify(buf, port).1,
    ensures
        first.0 == second.0,
        text_opt(first.1) == text_opt(second.1),
{
}

/// The stages of classifying one live connection, in the order they run.
#[derive(Clone, Copy, Debug, PartialEq, Eq, Structural)]
pub enum ProbeStage {
    /// Read what the service sends unprompted.
    Passive,
    /// DNS-over-TCP query (port 53 only).
    Dns,
    /// `HEAD /` request.
    Http,
    /// A bare CRLF.
    Telnet,
    /// A minimal TLS 1.2 ClientHello.
    Tls,
}

/// What to do after a stage's reply: run another probe, or report.
#[derive(Debug)]
pub enum DetectStep {
    Probe(ProbeStage),
    Done(Protocol, Option<String>),
}

/// `DetectStep` with the banner as text.
pub enum StepModel {
    Probe(ProbeStage),
    Done(Protocol, Option<Seq<char>>),
}

impl View for DetectStep {
    type V = StepModel;

    open spec fn view(&self) -> StepModel {
        match self {
            DetectStep::Probe(s) => StepModel::Probe(*s),
            DetectStep::Done(p, b) => StepModel::Done(*p, text_opt(*b)),
        }
    }
}

/// The query ID of the DNS probe (`OS`).
pub const DNS_QUERY_ID: u16 = 0x4f53;

/// A number below 65536 as two big-endian bytes.
pub open spec fn be16_bytes(n: nat) -> Seq<u8> {
    seq![(n / 256) as u8, (n % 256) as u8]
}

pub open spec fn be16(hi: u8, lo: u8) -> nat {
    hi as nat * 256 + lo as nat
}

/// A DNS name label: its length, then its bytes.
pub open spec fn dns_label(l: Seq<u8>) -> Seq<u8> {
    seq![l.len() as u8] + l
}

/// A DNS query with recursion desired, for the A record of `example.com`
/// in class IN, and no other records.
pub open spec fn dns_query_message() -> Seq<u8> {
    be16_bytes(DNS_QUERY_ID as nat) + be16_bytes(0x0100) + be16_bytes(1) + be16_bytes(0)
        + be16_bytes(0) + be16_bytes(0) + dns_label(seq![0x65, 0x78, 0x61, 0x6d, 0x70, 0x6c, 0x65])
        + dns_label(seq![0x63, 0x6f, 0x6d]) + seq![0u8] + be16_bytes(1) + be16_bytes(1)
}

/// The DNS query as sent over TCP: a two-byte big-endian length, then the message.
pub open spec fn dns_query_frame() -> Seq<u8> {
    be16_bytes(dns_query_message().len()) + dns_query_message()
}

/// A TLS 1.2 ClientHello in a TLS 1.0 record: no session, no SNI, two
/// cipher suites (AES-128-CBC-SHA and AES-256-CBC-SHA), null compression,
/// no extensions.
pub open spec fn client_hello_bytes() -> Seq<u8> {
    seq![
        0x16, 0x03, 0x01, 0x00, 0x31,
        0x01, 0x00, 0x00, 0x2d,
        0x03, 0x03,
        0x53, 0x43, 0x4e, 0x52, 0x00, 0x01, 0x02, 0x03,
        0x04, 0x05, 0x06, 0x07, 0x08, 0x09, 0x0a, 0x0b,
        0x0c, 0x0d, 0x0e, 0x0f, 0x10, 0x11, 0x12, 0x13,
        0x14, 0x15, 0x16, 0x17, 0x18, 0x19, 0x1a, 0x1b,
        0x00,
        0x00, 0x04, 0x00, 0x2f, 0x00, 0x35,
        0x01, 0x00,
        0x00, 0x00,
    ]
}

/// The HTTP probe request.
pub const HTTP_PROBE: &'static str = "HEAD / HTTP/1.0\r\nHost: localhost\r\nUser-Agent: ospine\r\nConnection: close\r\n\r\n";

/// The bytes a stage sends before it reads: nothing for the passive read.
pub open spec fn request_bytes(stage: ProbeStage) -> Seq<u8> {
    match stage {
        ProbeStage::Passive => Seq::empty(),
        ProbeStage::Dns => dns_query_frame(),
        ProbeStage::Http => HTTP_PROBE.spec_bytes(),
        ProbeStage::Telnet => seq![0x0d, 0x0a],
        ProbeStage::Tls => client_hello_bytes(),
    }
}

/// The summary of a DNS reply: response ID, question and answer counts,
/// response code, and whether the whole framed message arrived; `None`
/// unless it is a response with a full header.
pub open spec fn dns_summary(b: Seq<u8>) -> Option<Seq<char>> {
    if b.len() < 14 || b[4] < 0x80 {
        None
    } else {
        let complete = if b.len() >= 2 + be16(b[0], b[1]) { " complete"@ } else { Seq::empty() };
        Some(
            "dns id=0x"@ + hex_byte(b[2]) + hex_byte(b[3]) + " qd="@ + dec_digits(be16(b[6], b[7]))
                + " an="@ + dec_digits(be16(b[8], b[9])) + " rcode="@ + dec_digits(
                (b[5] % 16) as nat,
            ) + complete,
        )
    }
}

/// The decision after a stage's reply (`reply` empty when nothing came,
/// the exchange timed out or failed).
pub open spec fn after_reply(stage: ProbeStage, port: u16, passive: bool, reply: Seq<u8>) -> StepModel {
    match stage {
        ProbeStage::Passive => {
            if reply.len() > 0 {
                let c = classify(reply, port);
                StepModel::Done(
                    c.0,
                    Some(
                        match c.1 {
                            Some(t) => t,
                            None => safe_text(reply),
                        },
                    ),
                )
            } else if passive {
                StepModel::Done(Protocol::Unknown, None)
            } else if port == 53 {
                StepModel::Probe(ProbeStage::Dns)
            } else {
                StepModel::Probe(ProbeStage::Http)
            }
        },
        ProbeStage::Dns => match dns_summary(reply) {
            Some(t) => StepModel::Done(Protocol::Dns, Some(t)),
            None => StepModel::Probe(ProbeStage::Http),
        },
        ProbeStage::Http => if starts_with(reply, http_magic()) {
            StepModel::Done(Protocol::Http, Some(safe_text(reply)))
        } else {
            StepModel::Probe(ProbeStage::Telnet)
        },
        ProbeStage::Telnet => if is_telnet_reply(reply) {
            StepModel::Done(Protocol::Telnet, Some(safe_text(reply)))
        } else {
            StepModel::Probe(ProbeStage::Tls)
        },
        ProbeStage::Tls => if is_tls_record(reply) {
            StepModel::Done(Protocol::Tls, Some(hex_preview_text(reply)))
        } else {
            StepModel::Done(Protocol::Unknown, None)
        },
    }
}

/// The position of a stage in the probe order.
pub open spec fn stage_rank(stage: ProbeStage) -> nat {
    match stage {
        ProbeStage::Passive => 0,
        ProbeStage::Dns => 1,
        ProbeStage::Http => 2,
        ProbeStage::Telnet => 3,
        ProbeStage::Tls => 4,
    }
}

/// Stages run in strict order and none runs twice: whatever the reply, the
/// next stage comes later in the order, so at most five exchanges classify
/// a connection. The DNS probe runs only on port 53, and in passive mode no
/// probe runs at all.
pub proof fn lemma_probes_advance(stage: ProbeStage, port: u16, passive: bool, reply: Seq<u8>)
    ensures
        after_reply(stage, port, passive, reply) matches StepModel::Probe(next) ==> stage_rank(next)
            > stage_rank(stage),
        after_reply(stage, port, passive, reply) == StepModel::Probe(ProbeStage::Dns) ==> port == 53,
        passive && stage == ProbeStage::Passive ==> after_reply(stage, port, passive, reply) is Done,
{
}

fn push_be16(out: &mut Vec<u8>, n: u16)
    ensures
        final(out)@ == old(out)@ + be16_bytes(n as nat),
{
    out.push((n / 256) as u8);
    out.push((n % 256) as u8);
    assert(final(out)@ =~= old(out)@ + be16_bytes(n as nat));
}

fn push_label(out: &mut Vec<u8>, label: &[u8])
    requires
        label@.len() < 64,
    ensures
        final(out)@ == old(out)@ + dns_label(label@),
{
    out.push(label.len() as u8);
    let ghost start = out@;
    let mut i: usize = 0;
    while i < label.len()
        invariant
            i <= label.len(),
            out@ == start + label@.take(i as int),
        decreases label.len() - i,
    {
        out.push(label[i]);
        i += 1;
        assert(out@ =~= start + label@.take(i as int));
    }
    assert(label@.take(i as int) =~= label@);
    assert(final(out)@ =~= old(out)@ + dns_label(label@));
}

/// The framed DNS query that the DNS probe sends.
pub fn dns_query() -> (r: Vec<u8>)
    ensures
        r@ == dns_query_frame(),
{
    let mut dns: Vec<u8> = Vec::new();
    push_be16(&mut dns, DNS_QUERY_ID);
    push_be16(&mut dns, 0x0100);
    push_be16(&mut dns, 1);
    push_be16(&mut dns, 0);
    push_be16(&mut dns, 0);
    push_be16(&mut dns, 0);
    let example: [u8; 7] = [0x65, 0x78, 0x61, 0x6d, 0x70, 0x6c, 0x65];
    let com: [u8; 3] = [0x63, 0x6f, 0x6d];
    push_label(&mut dns, &example);
    push_label(&mut dns, &com);
    dns.push(0);
    push_be16(&mut dns, 1);
    push_be16(&mut dns, 1);
    assert(example@ =~= seq![0x65u8, 0x78, 0x61, 0x6d, 0x70, 0x6c, 0x65]);
    assert(com@ =~= seq![0x63u8, 0x6f, 0x6d]);
    assert(dns@ =~= dns_query_message());
    let mut msg: Vec<u8> = Vec::new();
    push_be16(&mut msg, dns.len() as u16);
    let mut i: usize = 0;
    while i < dns.len()
        invariant
            i <= dns.len(),
            dns@ == dns_query_message(),
            msg@ == be16_bytes(dns@.len()) + dns@.take(i as int),
        decreases dns.len() - i,
    {
        msg.push(dns[i]);
        i += 1;
        assert(msg@ =~= be16_bytes(dns@.len()) + dns@.take(i as int));
    }
    assert(dns@.take(i as int) =~= dns@);
    msg
}

/// The bytes that a stage sends before it reads.
pub fn probe_request(stage: ProbeStage) -> (r: Vec<u8>)
    ensures
        r@ == request_bytes(stage),
{
    match stage {
        ProbeStage::Passive => Vec::new(),
        ProbeStage::Dns => dns_query(),
        ProbeStage::Http => vstd::slice::slice_to_vec(HTTP_PROBE.as_bytes()),
        ProbeStage::Telnet => {
            let crlf: [u8; 2] = [0x0d, 0x0a];
            assert(crlf@ =~= seq![0x0du8, 0x0a]);
            vstd::slice::slice_to_vec(&crlf)
        },
        ProbeStage::Tls => {
            let hello: [u8; 54] = [
                0x16, 0x03, 0x01, 0x00, 0x31,
                0x01, 0x00, 0x00, 0x2d,
                0x03, 0x03,
                0x53, 0x43, 0x4e, 0x52, 0x00, 0x01, 0x02, 0x03,
                0x04, 0x05, 0x06, 0x07, 0x08, 0x09, 0x0a, 0x0b,
                0x0c, 0x0d, 0x0e, 0x0f, 0x10, 0x11, 0x12, 0x13,
                0x14, 0x15, 0x16, 0x17, 0x18, 0x19, 0x1a, 0x1b,
                0x00,
                0x00, 0x04, 0x00, 0x2f, 0x00, 0x35,
                0x01, 0x00,
                0x00, 0x00,
            ];
            assert(hello@ =~= client_hello_bytes());
            vstd::slice::slice_to_vec(&hello)
        },
    }
}

/// How many bytes to read for a stage's reply: the DNS reply may carry its
/// two-byte length prefix on top of the banner limit.
pub fn probe_read_len(stage: ProbeStage, max_bytes: usize) -> (r: usize)
    ensures
        stage == ProbeStage::Dns ==> r == if max_bytes <= usize::MAX - 2 { max_bytes + 2 } else { usize::MAX as int },
        stage != ProbeStage::Dns ==> r == max_bytes,
{
    match stage {
        ProbeStage::Dns => max_bytes.saturating_add(2),
        _ => max_bytes,
    }
}

/// Summarises a reply to the DNS probe, or `None` when it is not a DNS response.
pub fn dns_reply_summary(buf: &[u8]) -> (r: Option<String>)
    ensures
        text_opt(r) == dns_summary(buf@),
{
    if buf.len() < 14 || buf[4] < 0x80 {
        return None;
    }
    let total = buf[0] as usize * 256 + buf[1] as usize;
    let mut out: Vec<char> = Vec::new();
    push_text(&mut out, "dns id=0x");
    push_hex_byte(&mut out, buf[2]);
    push_hex_byte(&mut out, buf[3]);
    push_text(&mut out, " qd=");
    push_decimal(&mut out, buf[6] as u64 * 256 + buf[7] as u64);
    push_text(&mut out, " an=");
    push_decimal(&mut out, buf[8] as u64 * 256 + buf[9] as u64);
    push_text(&mut out, " rcode=");
    push_decimal(&mut out, (buf[5] % 16) as u64);
    if buf.len() - 2 >= total {
        push_text(&mut out, " complete");
    }
    assert(out@ =~= dns_summary(buf@)->0);
    Some(string_from_chars(&out))
}

/// Decides what follows a stage's reply (`reply` empty when nothing came):
/// a classification to report, or the next probe to run. A passive read that
/// brings bytes always ends the search; in passive mode nothing is sent.
pub fn next_step(stage: ProbeStage, port: u16, passive: bool, reply: &[u8]) -> (r: DetectStep)
    ensures
        r@ == after_reply(stage, port, passive, reply@),
{
    match stage {
        ProbeStage::Passive => {
            if reply.len() > 0 {
                let (proto, banner) = detect_from_bytes(reply, port);
                let text = match banner {
                    Some(t) => t,
                    None => to_safe_string(reply),
                };
                DetectStep::Done(proto, Some(text))
            } else if passive {
                DetectStep::Done(Protocol::Unknown, None)
            } else if port == 53 {
                DetectStep::Probe(ProbeStage::Dns)
            } else {
                DetectStep::Probe(ProbeStage::Http)
            }
        },
        ProbeStage::Dns => match dns_reply_summary(reply) {
            Some(t) => DetectStep::Done(Protocol::Dns, Some(t)),
            None => DetectStep::Probe(ProbeStage::Http),
        },
        ProbeStage::Http => {
            let http: [u8; 5] = [0x48, 0x54, 0x54, 0x50, 0x2f];
            assert(http@ =~= http_magic());
            if has_prefix(reply, &http) {
                DetectStep::Done(Protocol::Http, Some(to_safe_string(reply)))
            } else {
                DetectStep::Probe(ProbeStage::Telnet)
            }
        },
        ProbeStage::Telnet => {
            if is_telnet_bytes(reply) {
                DetectStep::Done(Protocol::Telnet, Some(to_safe_string(reply)))
            } else {
                DetectStep::Probe(ProbeStage::Tls)
            }
        },
        ProbeStage::Tls => {
            if is_tls_bytes(reply) {
                DetectStep::Done(Protocol::Tls, Some(hex_preview(reply)))
            } else {
                DetectStep::Done(Protocol::Unknown, None)
            }
        },
    }
}

} // verus!
