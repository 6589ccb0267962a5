use vstd::prelude::*;
use vstd::seq_lib::group_to_multiset_ensures;
use vstd::string::StringExecFns;
use crate::detect::text_opt;
use crate::text::{dec_digits, escape_nonprintable, escaped, push_decimal, push_text, string_from_chars};
use crate::types::protocol_tag;
use crate::types::{Protocol, ScanResult};

verus! {

broadcast use group_to_multiset_ensures;

/// How one connection attempt ended.
#[derive(Debug)]
pub enum ConnectOutcome {
    /// The connect timeout elapsed first.
    TimedOut,
    /// The connect failed; the cause, as text.
    Failed(String),
    /// The connection was made and classified.
    Connected(Protocol, Option<String>),
}

/// The error text of an attempt whose connect timed out.
pub const TIMEOUT_ERROR: &'static str = "timeout";

/// The prefix of the error text of an attempt that ended abnormally.
pub const TASK_ERROR_PREFIX: &'static str = "task error: ";

/// The result of one attempt on `port` of `target`: closed with the cause
/// when the connect did not succeed, open with the classification when it did.
pub fn attempt_result(target: String, port: u16, outcome: ConnectOutcome) -> (r: ScanResult)
    ensures
        r.wf(),
        r.target@ == target@,
        r.port == port,
        r.open == (outcome is Connected),
        outcome is TimedOut ==> text_opt(r.error) == Some(TIMEOUT_ERROR@),
        outcome matches ConnectOutcome::Failed(e) ==> text_opt(r.error) == Some(e@),
        outcome matches ConnectOutcome::Connected(p, b) ==> r.protocol == Some(p) && text_opt(r.banner) == text_opt(b),
{
    match outcome {
        ConnectOutcome::TimedOut => ScanResult {
            target,
            port,
            open: false,
            protocol: None,
            banner: None,
            error: Some(TIMEOUT_ERROR.to_owned()),
        },
        ConnectOutcome::Failed(e) => ScanResult {
            target,
            port,
            open: false,
            protocol: None,
            banner: None,
            error: Some(e),
        },
        ConnectOutcome::Connected(p, b) => ScanResult {
            target,
            port,
            open: true,
            protocol: Some(p),
            banner: b,
            error: None,
        },
    }
}

/// The result that stands for an attempt that ended abnormally instead of
/// reporting an outcome: closed, on the port it was for, with the cause.
pub fn task_failure_result(target: String, port: u16, cause: &str) -> (r: ScanResult)
    ensures
        r.wf(),
        r.target@ == target@,
        r.port == port,
        !r.open,
        text_opt(r.error) == Some(TASK_ERROR_PREFIX@ + cause@),
{
    let msg = TASK_ERROR_PREFIX.to_owned().concat(cause);
    ScanResult { target, port, open: false, protocol: None, banner: None, error: Some(msg) }
}

pub open spec fn sorted_by_port(s: Seq<ScanResult>) -> bool {
    forall|i: int, j: int| 0 <= i < j < s.len() ==> #[trigger] s[i].port <= #[trigger] s[j].port
}

pub open spec fn distinct_ports(s: Seq<ScanResult>) -> bool {
    forall|i: int, j: int| 0 <= i < s.len() && 0 <= j < s.len() && i != j ==> #[trigger] s[i].port != #[trigger] s[j].port
}

/// The results on one port.
pub open spec fn on_port(p: u16) -> spec_fn(ScanResult) -> bool {
    |r: ScanResult| r.port == p
}

/// The same results in ascending port order, whatever order they came in;
/// results on the same port keep their order.
pub fn sort_by_port(results: Vec<ScanResult>) -> (r: Vec<ScanResult>)
    ensures
        sorted_by_port(r@),
        r@.to_multiset() == results@.to_multiset(),
        forall|p: u16| #[trigger] r@.filter(on_port(p)) == results@.filter(on_port(p)),
{
    let ghost orig = results@;
    let ghost n = results@.len();
    let mut input = results;
    let mut pending: Vec<ScanResult> = Vec::new();
    while input.len() > 0
        invariant
            n == orig.len(),
            input@ == orig.take(input@.len() as int),
            input@.len() + pending@.len() == n,
            forall|k: int| 0 <= k < pending@.len() ==> #[trigger] pending@[k] == orig[n - 1 - k],
            input@.to_multiset().add(pending@.to_multiset()) == orig.to_multiset(),
        decreases input.len(),
    {
        let ghost before = input@;
        let x = input.pop().unwrap();
        assert(before == input@.push(x));
        pending.push(x);
        assert(input@ =~= orig.take(input@.len() as int));
    }
    assert(input@ =~= Seq::<ScanResult>::empty());
    let mut out: Vec<ScanResult> = Vec::new();
    let ghost mut i: int = 0;
    proof {
        reveal(Seq::filter);
        assert forall|p: u16| #[trigger] out@.filter(on_port(p)) == orig.take(i).filter(on_port(p)) by {
            assert(orig.take(0) =~= Seq::<ScanResult>::empty());
        }
    }
    while pending.len() > 0
        invariant
            0 <= i <= n,
            n == orig.len(),
            pending@.len() == n - i,
            forall|k: int| 0 <= k < pending@.len() ==> #[trigger] pending@[k] == orig[n - 1 - k],
            pending@.to_multiset().add(out@.to_multiset()) == orig.to_multiset(),
            sorted_by_port(out@),
            forall|p: u16| #[trigger] out@.filter(on_port(p)) == orig.take(i).filter(on_port(p)),
        decreases pending.len(),
    {
        let ghost before = pending@;
        let x = pending.pop().unwrap();
        assert(before == pending@.push(x));
        assert(x == orig[i]);
        let mut pos = out.len();
        while pos > 0 && out[pos - 1].port > x.port
            invariant
                pos <= out.len(),
                forall|k: int| pos <= k < out.len() ==> #[trigger] out@[k].port > x.port,
            decreases pos,
        {
            pos = pos - 1;
        }
        let ghost old_out = out@;
        out.insert(pos, x);
        assert(out@.remove(pos as int) =~= old_out);
        assert(out@[pos as int] == x);
        assert(sorted_by_port(out@)) by {
            assert forall|i: int, j: int| 0 <= i < j < out@.len() implies #[trigger] out@[i].port
                <= #[trigger] out@[j].port by {
                if j < pos {
                    assert(out@[i] == old_out[i] && out@[j] == old_out[j]);
                } else if j == pos {
                    assert(out@[i] == old_out[i]);
                    if i < pos - 1 {
                        assert(old_out[i].port <= old_out[pos - 1].port);
                    }
                } else if i == pos {
                    assert(out@[j] == old_out[j - 1]);
                } else if i < pos {
                    assert(out@[i] == old_out[i] && out@[j] == old_out[j - 1]);
                } else {
                    assert(out@[i] == old_out[i - 1] && out@[j] == old_out[j - 1]);
                }
            }
        }
        proof {
            assert(out@ == old_out.insert(pos as int, x));
            assert forall|p: u16| #[trigger] out@.filter(on_port(p)) == orig.take(i + 1).filter(
                on_port(p),
            ) by {
                lemma_filter_insert(old_out, pos as int, x, p);
                reveal(Seq::filter);
                assert(orig.take(i + 1).drop_last() =~= orig.take(i));
                assert(orig.take(i + 1).last() == x);
            }
            i = i + 1;
        }
    }
    assert(pending@ =~= Seq::<ScanResult>::empty());
    assert(orig.take(i) =~= orig);
    out
}

/// Inserting `x` before results on higher ports only adds it at the end of
/// its own port's results.
proof fn lemma_filter_insert(s: Seq<ScanResult>, pos: int, x: ScanResult, p: u16)
    requires
        0 <= pos <= s.len(),
        forall|k: int| pos <= k < s.len() ==> #[trigger] s[k].port > x.port,
    ensures
        s.insert(pos, x).filter(on_port(p)) == if x.port == p {
            s.filter(on_port(p)).push(x)
        } else {
            s.filter(on_port(p))
        },
{
    broadcast use Seq::filter_distributes_over_add;

    let head = s.take(pos);
    let tail = s.skip(pos);
    assert(s =~= head + tail);
    assert(s.insert(pos, x) =~= head + (seq![x] + tail));
    reveal(Seq::filter);
    assert(seq![x].drop_last() =~= Seq::<ScanResult>::empty());
    if x.port == p {
        lemma_filter_none(tail, p);
        assert(seq![x] + tail =~= seq![x] + tail);
        assert((seq![x] + tail).filter(on_port(p)) =~= seq![x].filter(on_port(p)) + tail.filter(
            on_port(p),
        ));
        assert(seq![x].filter(on_port(p)) =~= seq![x]);
        assert(s.insert(pos, x).filter(on_port(p)) =~= s.filter(on_port(p)).push(x));
    } else {
        assert(Seq::<ScanResult>::empty().filter(on_port(p)) =~= Seq::<ScanResult>::empty());
        assert(seq![x].last() == x);
        assert(!on_port(p)(x));
        assert(seq![x].filter(on_port(p)) =~= Seq::<ScanResult>::empty());
        assert((seq![x] + tail).filter(on_port(p)) =~= tail.filter(on_port(p)));
    }
}

/// Results all on higher ports than `p` hold none on `p`.
proof fn lemma_filter_none(s: Seq<ScanResult>, p: u16)
    requires
        forall|k: int| 0 <= k < s.len() ==> #[trigger] s[k].port > p,
    ensures
        s.filter(on_port(p)) == Seq::<ScanResult>::empty(),
    decreases s.len(),
{
    reveal(Seq::filter);
    if s.len() > 0 {
        assert forall|k: int| 0 <= k < s.drop_last().len() implies #[trigger] s.drop_last()[k].port > p by {
            assert(s.drop_last()[k] == s[k]);
        }
        lemma_filter_none(s.drop_last(), p);
        assert(s[s.len() - 1].port > p);
    }
}

/// The per-target result list does not depend on the order in which attempts
/// finished: any two orderings of the same results, both by port with no
/// port twice, are the same list.
pub proof fn lemma_port_order_unique(a: Seq<ScanResult>, b: Seq<ScanResult>)
    requires
        sorted_by_port(a),
        sorted_by_port(b),
        distinct_ports(a),
        a.to_multiset() == b.to_multiset(),
    ensures
        a == b,
    decreases a.len(),
{
    broadcast use vstd::multiset::group_multiset_axioms;

    assert(a.to_multiset().len() == a.len());
    assert(b.to_multiset().len() == b.len());
    if a.len() == 0 || b.len() == 0 {
        assert(a =~= b);
    } else {
        assert(a.contains(a[0]));
        assert(a.to_multiset().count(a[0]) > 0);
        assert(b.to_multiset().count(a[0]) > 0);
        assert(b.contains(a[0]));
        assert(b.contains(b[0]));
        assert(b.to_multiset().count(b[0]) > 0);
        assert(a.to_multiset().count(b[0]) > 0);
        assert(a.contains(b[0]));
        let i = choose|i: int| 0 <= i < a.len() && a[i] == b[0];
        let j = choose|j: int| 0 <= j < b.len() && b[j] == a[0];
        if i != 0 {
            assert(a[0].port <= a[i].port);
        }
        if j != 0 {
            assert(b[0].port <= b[j].port);
        }
        assert(a[0].port == a[i].port);
        assert(i == 0);
        assert(a.remove(0).to_multiset() =~= a.to_multiset().remove(a[0]));
        assert(b.remove(0).to_multiset() =~= b.to_multiset().remove(b[0]));
        assert(a.drop_first() =~= a.remove(0));
        assert(b.drop_first() =~= b.remove(0));
        lemma_port_order_unique(a.drop_first(), b.drop_first());
        assert(a =~= seq![a[0]] + a.drop_first());
        assert(b =~= seq![b[0]] + b.drop_first());
    }
}

pub open spec fn is_open(r: ScanResult) -> bool {
    r.open
}

/// The open results only, in their order.
pub fn retain_open(results: Vec<ScanResult>) -> (r: Vec<ScanResult>)
    ensures
        r@ == results@.filter(|x: ScanResult| is_open(x)),
{
    let ghost orig = results@;
    let ghost n = results@.len();
    let mut input = results;
    let mut pending: Vec<ScanResult> = Vec::new();
    while input.len() > 0
        invariant
            input@ == orig.take(input@.len() as int),
            input@.len() + pending@.len() == n,
            n == orig.len(),
            forall|k: int| 0 <= k < pending@.len() ==> #[trigger] pending@[k] == orig[n - 1 - k],
        decreases input.len(),
    {
        let x = input.pop().unwrap();
        pending.push(x);
        assert(input@ =~= orig.take(input@.len() as int));
    }
    let mut out: Vec<ScanResult> = Vec::new();
    let ghost mut i: int = 0;
    while pending.len() > 0
        invariant
            0 <= i <= n,
            n == orig.len(),
            pending@.len() == n - i,
            forall|k: int| 0 <= k < pending@.len() ==> #[trigger] pending@[k] == orig[n - 1 - k],
            out@ == orig.take(i).filter(|x: ScanResult| is_open(x)),
        decreases pending.len(),
    {
        let x = pending.pop().unwrap();
        assert(x == orig[i]);
        assert(orig.take(i + 1).drop_last() =~= orig.take(i));
        reveal(Seq::filter);
        if x.open {
            out.push(x);
        }
        proof {
            i = i + 1;
        }
    }
    assert(orig.take(i) =~= orig);
    out
}

/// The separator between a result and its banner: an em dash between spaces.
pub const BANNER_SEPARATOR: &'static str = " \u{2014} ";

/// The human-readable line of a result: `target:port open|closed`, then
/// ` [protocol]` when one was found, then the banner escaped for a terminal
/// when `raw_banner` is set and there is one.
pub open spec fn result_line_text(r: ScanResult, raw_banner: bool) -> Seq<char> {
    r.target@ + ":"@ + dec_digits(r.port as nat) + (if r.open { " open"@ } else { " closed"@ }) + (
    match r.protocol {
        Some(p) => " ["@ + protocol_tag(p) + "]"@,
        None => Seq::empty(),
    }) + (match r.banner {
        Some(b) => if raw_banner { BANNER_SEPARATOR@ + escaped(b@) } else { Seq::empty() },
        None => Seq::empty(),
    })
}

/// The line that shows a result to a person.
pub fn result_line(r: &ScanResult, raw_banner: bool) -> (line: String)
    ensures
        line@ == result_line_text(*r, raw_banner),
{
    let mut out: Vec<char> = Vec::new();
    push_text(&mut out, r.target.as_str());
    push_text(&mut out, ":");
    push_decimal(&mut out, r.port as u64);
    if r.open {
        push_text(&mut out, " open");
    } else {
        push_text(&mut out, " closed");
    }
    let ghost head = out@;
    match r.protocol {
        Some(p) => {
            push_text(&mut out, " [");
            push_text(&mut out, p.as_str());
            push_text(&mut out, "]");
        },
        None => {},
    }
    let ghost with_proto = out@;
    match &r.banner {
        Some(b) => {
            if raw_banner {
                push_text(&mut out, BANNER_SEPARATOR);
                let safe = escape_nonprintable(b.as_str());
                push_text(&mut out, safe.as_str());
            }
        },
        None => {},
    }
    assert(out@ =~= result_line_text(*r, raw_banner));
    string_from_chars(&out)
}

/// How many targets are scanned at once: one per target, at most `MAX_TARGET_CONCURRENCY`.
pub const MAX_TARGET_CONCURRENCY: usize = 1000;

pub fn target_concurrency(n_targets: usize) -> (r: usize)
    ensures
        r == if n_targets == 0 { 1 } else if n_targets > MAX_TARGET_CONCURRENCY { MAX_TARGET_CONCURRENCY } else { n_targets },
{
    let n = if n_targets == 0 { 1 } else { n_targets };
    if n > MAX_TARGET_CONCURRENCY { MAX_TARGET_CONCURRENCY } else { n }
}

} // verus!
