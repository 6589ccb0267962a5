use ospine::budget::ConnectionBudget;
use ospine::journal::{journal_line, ResultsFramer};
use ospine::rate::{Admission, WINDOW_NANOS};
use ospine::scan::{
    attempt_result, result_line, retain_open, sort_by_port, target_concurrency,
    task_failure_result, ConnectOutcome,
};
use ospine::{Protocol, RateLimiter, ScanResult};

fn result(port: u16, open: bool) -> ScanResult {
    ScanResult {
        target: "h".to_string(),
        port,
        open,
        protocol: None,
        banner: None,
        error: if open { None } else { Some("refused".to_string()) },
    }
}

#[test]
fn rate_burst_then_wait() {
    for rate in [1u64, 2, 5, 100] {
        let mut l = RateLimiter::new(rate, 1_000);
        for _ in 0..rate {
            assert_eq!(l.acquire(1_250), Admission::Granted);
        }
        assert_eq!(l.acquire(1_250), Admission::Wait(WINDOW_NANOS - 250));
    }
}

#[test]
fn rate_window_resets_after_a_second() {
    let mut l = RateLimiter::new(2, 0);
    assert_eq!(l.acquire(0), Admission::Granted);
    assert_eq!(l.acquire(10), Admission::Granted);
    assert_eq!(l.acquire(999_999_999), Admission::Wait(1));
    assert_eq!(l.acquire(1_000_000_000), Admission::Granted);
    assert_eq!(l.window_start, 1_000_000_000);
    assert_eq!(l.count_in_window, 1);
}

#[test]
fn rate_zero_counts_as_one() {
    let mut l = RateLimiter::new(0, 0);
    assert_eq!(l.rate_per_sec, 1);
    assert_eq!(l.acquire(0), Admission::Granted);
    assert_eq!(l.acquire(0), Admission::Wait(WINDOW_NANOS));
}

#[test]
fn budget_never_grants_more_than_capacity() {
    let mut b = ConnectionBudget::new(3);
    let granted: Vec<bool> = (0..5).map(|_| b.try_acquire()).collect();
    assert_eq!(granted, vec![true, true, true, false, false]);
    assert_eq!(b.in_use, 3);
    assert_eq!(b.available(), 0);
    b.release();
    assert_eq!(b.available(), 1);
    assert!(b.try_acquire());
    assert!(!b.try_acquire());
}

#[test]
fn budget_of_zero_grants_nothing() {
    let mut b = ConnectionBudget::new(0);
    assert!(!b.try_acquire());
}

#[test]
fn results_ordered_by_port_whatever_the_arrival_order() {
    let orders: [[u16; 3]; 3] = [[443, 22, 80], [80, 443, 22], [22, 80, 443]];
    for order in orders {
        let list: Vec<ScanResult> = order.iter().map(|&p| result(p, true)).collect();
        let ports: Vec<u16> = sort_by_port(list).iter().map(|r| r.port).collect();
        assert_eq!(ports, vec![22, 80, 443]);
    }
}

#[test]
fn results_ordered_by_port() {
    let sorted = sort_by_port(vec![result(443, true), result(22, true), result(80, false)]);
    let ports: Vec<u16> = sorted.iter().map(|r| r.port).collect();
    assert_eq!(ports, vec![22, 80, 443]);
    assert!(sorted[1].error.is_some());
}

#[test]
fn ordering_keeps_equal_ports_in_arrival_order() {
    let mut a = result(5, true);
    a.target = "a".into();
    let mut b = result(5, true);
    b.target = "b".into();
    let sorted = sort_by_port(vec![result(9, true), a, result(1, true), b]);
    let keys: Vec<(u16, String)> = sorted.iter().map(|r| (r.port, r.target.clone())).collect();
    assert_eq!(
        keys,
        vec![(1, "h".into()), (5, "a".into()), (5, "b".into()), (9, "h".into())]
    );
}

#[test]
fn ordering_of_nothing_is_nothing() {
    assert!(sort_by_port(Vec::new()).is_empty());
}

#[test]
fn open_only_filter() {
    let kept = retain_open(vec![result(1, true), result(2, false), result(3, true)]);
    let ports: Vec<u16> = kept.iter().map(|r| r.port).collect();
    assert_eq!(ports, vec![1, 3]);
}

#[test]
fn attempt_outcomes() {
    let t = attempt_result("h".into(), 81, ConnectOutcome::TimedOut);
    assert!(!t.open);
    assert_eq!(t.error.as_deref(), Some("timeout"));
    assert_eq!((t.protocol, t.banner), (None, None));
    let f = attempt_result("h".into(), 82, ConnectOutcome::Failed("connection refused".into()));
    assert!(!f.open);
    assert_eq!(f.error.as_deref(), Some("connection refused"));
    let c = attempt_result(
        "h".into(),
        22,
        ConnectOutcome::Connected(Protocol::Ssh, Some("SSH-2.0-x".into())),
    );
    assert!(c.open);
    assert_eq!(c.error, None);
    assert_eq!(c.protocol, Some(Protocol::Ssh));
    assert_eq!(c.banner.as_deref(), Some("SSH-2.0-x"));
    assert_eq!(c.port, 22);
}

#[test]
fn task_failure_keeps_its_port() {
    let r = task_failure_result("h".into(), 0, "panicked");
    assert_eq!(r.port, 0);
    assert!(!r.open);
    assert_eq!(r.error.as_deref(), Some("task error: panicked"));
}

#[test]
fn target_concurrency_bounds() {
    assert_eq!(target_concurrency(0), 1);
    assert_eq!(target_concurrency(7), 7);
    assert_eq!(target_concurrency(1000), 1000);
    assert_eq!(target_concurrency(65534), 1000);
}

#[test]
fn human_readable_lines() {
    let mut r = result(22, true);
    r.protocol = Some(Protocol::Ssh);
    r.banner = Some("SSH-2.0\r\n".into());
    assert_eq!(result_line(&r, false), "h:22 open [ssh]");
    assert_eq!(result_line(&r, true), "h:22 open [ssh] \u{2014} SSH-2.0\\r\\n");
    assert_eq!(result_line(&result(8080, false), true), "h:8080 closed");
}

fn frame(lines: &[&str]) -> String {
    let (mut framer, mut out) = ResultsFramer::open();
    for l in lines {
        out.push_str(&framer.push(l));
    }
    out.push_str(&framer.close());
    out
}

#[test]
fn empty_artifact() {
    assert_eq!(frame(&[]), "{\"results\":[]}");
}

#[test]
fn journal_round_trip() {
    let objs = [
        "{\"target\":\"h\",\"port\":22,\"open\":true,\"protocol\":\"ssh\",\"banner\":null,\"error\":null}",
        "{\"target\":\"h\",\"port\":23,\"open\":false,\"protocol\":null,\"banner\":null,\"error\":\"timeout\"}",
    ];
    let mut journal = String::new();
    for o in objs {
        journal.push_str(&journal_line(o));
    }
    assert_eq!(journal.matches('\n').count(), 2);
    let read_back: Vec<&str> = journal.split('\n').collect();
    let assembled = frame(&read_back);
    assert_eq!(assembled, format!("{{\"results\":[{},{}]}}", objs[0], objs[1]));
}

#[test]
fn framer_skips_empty_lines() {
    assert_eq!(frame(&["", "{}", "", "{\"a\":1}"]), "{\"results\":[{},{\"a\":1}]}");
}
