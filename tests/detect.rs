use ospine::detect::{
    dns_query, dns_reply_summary, next_step, probe_read_len, probe_request, DetectStep, ProbeStage,
};
use ospine::{detect_from_bytes, tw_contains_ci, Protocol};

fn done(step: DetectStep) -> (Protocol, Option<String>) {
    match step {
        DetectStep::Done(p, b) => (p, b),
        DetectStep::Probe(s) => panic!("expected a classification, got probe {:?}", s),
    }
}

fn probe(step: DetectStep) -> ProbeStage {
    match step {
        DetectStep::Probe(s) => s,
        DetectStep::Done(p, _) => panic!("expected a probe, got {:?}", p),
    }
}

#[test]
fn ssh_banner_is_classified() {
    let (p, b) = detect_from_bytes(b"SSH-2.0-OpenSSH_8.2p1\r\n", 22);
    assert_eq!(p, Protocol::Ssh);
    assert_eq!(b.as_deref(), Some("SSH-2.0-OpenSSH_8.2p1\r\n"));
}

#[test]
fn smtp_banner_is_classified() {
    let (p, b) = detect_from_bytes(b"220 mail.example.com ESMTP\r\n", 25);
    assert_eq!(p, Protocol::Smtp);
    assert_eq!(b.as_deref(), Some("220 mail.example.com ESMTP\r\n"));
}

#[test]
fn http_reply_is_classified() {
    let (p, b) = detect_from_bytes(b"HTTP/1.1 200 OK\r\n", 8080);
    assert_eq!(p, Protocol::Http);
    assert_eq!(b.as_deref(), Some("HTTP/1.1 200 OK\r\n"));
}

#[test]
fn empty_bytes_fall_back_to_port_hint() {
    assert_eq!(detect_from_bytes(b"", 22), (Protocol::Ssh, None));
}

#[test]
fn port_hints() {
    assert_eq!(detect_from_bytes(b"zz", 8443), (Protocol::Https, None));
    assert_eq!(detect_from_bytes(b"zz", 587), (Protocol::Smtp, None));
    assert_eq!(detect_from_bytes(b"zz", 8888), (Protocol::Http, None));
    assert_eq!(detect_from_bytes(b"zz", 23), (Protocol::Telnet, None));
    assert_eq!(detect_from_bytes(b"zz", 53), (Protocol::Dns, None));
    assert_eq!(detect_from_bytes(b"zz", 9999), (Protocol::Unknown, None));
}

#[test]
fn telnet_by_iac_and_by_prompt() {
    let (p, b) = detect_from_bytes(&[0xff, 0xfb, 0x01], 2323);
    assert_eq!(p, Protocol::Telnet);
    assert!(b.is_some());
    let (p, b) = detect_from_bytes(b"Ubuntu 20.04\r\nLOGIN: ", 2323);
    assert_eq!(p, Protocol::Telnet);
    assert_eq!(b.as_deref(), Some("Ubuntu 20.04\r\nLOGIN: "));
    assert_eq!(detect_from_bytes(b"PassWord:", 1).0, Protocol::Telnet);
}

#[test]
fn tls_record_gives_hex_preview() {
    let (p, b) = detect_from_bytes(&[0x16, 0x03, 0x03, 0x00, 0x2a], 443);
    assert_eq!(p, Protocol::Tls);
    assert_eq!(b.as_deref(), Some("hex:160303002a"));
}

#[test]
fn dns_response_only_on_port_53() {
    let mut reply = vec![0u8; 14];
    reply[4] = 0x81;
    let (p, b) = detect_from_bytes(&reply, 53);
    assert_eq!(p, Protocol::Dns);
    assert_eq!(b.as_deref(), Some("hex:0000000081000000000000000000"));
    assert_eq!(detect_from_bytes(&reply, 54), (Protocol::Unknown, None));
    reply[4] = 0x01;
    assert_eq!(detect_from_bytes(&reply, 53), (Protocol::Dns, None));
}

#[test]
fn detection_is_repeatable() {
    let buf = b"SSH-2.0-dropbear\r\n\0\0";
    let first = detect_from_bytes(buf, 2222);
    let second = detect_from_bytes(buf, 2222);
    assert_eq!(first, second);
    assert_eq!(first.1.as_deref(), Some("SSH-2.0-dropbear\r\n"));
}

#[test]
fn contains_ignores_ascii_case() {
    assert!(tw_contains_ci(b"xxUserName:yy", b"username:"));
    assert!(tw_contains_ci(b"abc", b""));
    assert!(!tw_contains_ci(b"log", b"login:"));
    assert!(!tw_contains_ci(b"login", b"login:"));
    assert!(tw_contains_ci(b"login:", b"LOGIN:"));
}

#[test]
fn passive_bytes_end_the_search_with_a_banner() {
    let (p, b) = done(next_step(ProbeStage::Passive, 9999, false, b"hello\0"));
    assert_eq!(p, Protocol::Unknown);
    assert_eq!(b.as_deref(), Some("hello"));
}

#[test]
fn silent_service_runs_probes_in_order() {
    assert_eq!(probe(next_step(ProbeStage::Passive, 22, false, b"")), ProbeStage::Http);
    assert_eq!(probe(next_step(ProbeStage::Passive, 53, false, b"")), ProbeStage::Dns);
    assert_eq!(probe(next_step(ProbeStage::Dns, 53, false, b"")), ProbeStage::Http);
    assert_eq!(probe(next_step(ProbeStage::Http, 22, false, b"")), ProbeStage::Telnet);
    assert_eq!(probe(next_step(ProbeStage::Telnet, 22, false, b"")), ProbeStage::Tls);
    assert_eq!(done(next_step(ProbeStage::Tls, 22, false, b"")), (Protocol::Unknown, None));
}

#[test]
fn passive_mode_sends_no_probe() {
    assert_eq!(done(next_step(ProbeStage::Passive, 80, true, b"")), (Protocol::Unknown, None));
}

#[test]
fn probe_replies_classify() {
    let (p, b) = done(next_step(ProbeStage::Http, 80, false, b"HTTP/1.0 404 Not Found\r\n"));
    assert_eq!(p, Protocol::Http);
    assert_eq!(b.as_deref(), Some("HTTP/1.0 404 Not Found\r\n"));
    assert_eq!(probe(next_step(ProbeStage::Http, 80, false, b"SSH-2.0-x")), ProbeStage::Telnet);
    let (p, _) = done(next_step(ProbeStage::Telnet, 23, false, b"Password: "));
    assert_eq!(p, Protocol::Telnet);
    let (p, b) = done(next_step(ProbeStage::Tls, 443, false, &[0x16, 0x03, 0x01]));
    assert_eq!(p, Protocol::Tls);
    assert_eq!(b.as_deref(), Some("hex:160301"));
    assert_eq!(done(next_step(ProbeStage::Tls, 443, false, &[0x15, 0x03])), (Protocol::Unknown, None));
}

#[test]
fn dns_query_bytes() {
    let q = dns_query();
    let mut expected = vec![0x00, 0x1d, 0x4f, 0x53, 0x01, 0x00, 0x00, 0x01, 0, 0, 0, 0, 0, 0, 7];
    expected.extend_from_slice(b"example");
    expected.push(3);
    expected.extend_from_slice(b"com");
    expected.extend_from_slice(&[0, 0, 1, 0, 1]);
    assert_eq!(q, expected);
    assert_eq!(probe_request(ProbeStage::Dns), expected);
}

#[test]
fn probe_payloads() {
    assert_eq!(probe_request(ProbeStage::Passive), Vec::<u8>::new());
    assert_eq!(probe_request(ProbeStage::Telnet), b"\r\n".to_vec());
    assert_eq!(
        probe_request(ProbeStage::Http),
        b"HEAD / HTTP/1.0\r\nHost: localhost\r\nUser-Agent: ospine\r\nConnection: close\r\n\r\n".to_vec()
    );
    let hello = probe_request(ProbeStage::Tls);
    assert_eq!(hello.len(), 54);
    assert_eq!(&hello[..5], &[0x16, 0x03, 0x01, 0x00, 0x31]);
    assert_eq!(&hello[46..], &[0x00, 0x2f, 0x00, 0x35, 0x01, 0x00, 0x00, 0x00]);
}

#[test]
fn dns_read_len_leaves_room_for_prefix() {
    assert_eq!(probe_read_len(ProbeStage::Dns, 512), 514);
    assert_eq!(probe_read_len(ProbeStage::Dns, usize::MAX), usize::MAX);
    assert_eq!(probe_read_len(ProbeStage::Http, 512), 512);
}

#[test]
fn dns_reply_summaries() {
    let reply = [0x00, 0x0c, 0x4f, 0x53, 0x81, 0x83, 0x00, 0x01, 0x01, 0x02, 0, 0, 0, 0];
    assert_eq!(
        dns_reply_summary(&reply).as_deref(),
        Some("dns id=0x4f53 qd=1 an=258 rcode=3 complete")
    );
    let mut short = reply;
    short[1] = 0x40;
    assert_eq!(dns_reply_summary(&short).as_deref(), Some("dns id=0x4f53 qd=1 an=258 rcode=3"));
    let mut query = reply;
    query[4] = 0x01;
    assert_eq!(dns_reply_summary(&query), None);
    assert_eq!(dns_reply_summary(&reply[..13]), None);
    let (p, b) = done(next_step(ProbeStage::Dns, 53, false, &reply));
    assert_eq!(p, Protocol::Dns);
    assert_eq!(b.as_deref(), Some("dns id=0x4f53 qd=1 an=258 rcode=3 complete"));
}
