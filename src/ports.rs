use vstd::prelude::*;
use crate::text::{chars_of, string_from_chars};

verus! {

/// Unicode's White_Space property, which `char::is_whitespace` reports.
pub open spec fn is_ws(c: char) -> bool {
    let u = c as u32;
    ||| (0x09 <= u && u <= 0x0d)
    ||| u == 0x20
    ||| u == 0x85
    ||| u == 0xa0
    ||| u == 0x1680
    ||| (0x2000 <= u && u <= 0x200a)
    ||| u == 0x2028
    ||| u == 0x2029
    ||| u == 0x202f
    ||| u == 0x205f
    ||| u == 0x3000
}

pub open spec fn trim_start(s: Seq<char>) -> Seq<char>
    decreases s.len(),
{
    if s.len() > 0 && is_ws(s[0]) {
        trim_start(s.drop_first())
    } else {
        s
    }
}

pub open spec fn trim_end(s: Seq<char>) -> Seq<char>
    decreases s.len(),
{
    if s.len() > 0 && is_ws(s.last()) {
        trim_end(s.drop_last())
    } else {
        s
    }
}

/// The text without leading and trailing whitespace, as `str::trim` gives it.
pub open spec fn trim(s: Seq<char>) -> Seq<char> {
    trim_end(trim_start(s))
}

/// The pieces of `s` between occurrences of `c`, as `str::split` gives them.
pub open spec fn split_on(s: Seq<char>, c: char) -> Seq<Seq<char>>
    decreases s.len(),
{
    if s.len() == 0 {
        seq![Seq::empty()]
    } else {
        let prev = split_on(s.drop_last(), c);
        if s.last() == c {
            prev.push(Seq::empty())
        } else {
            prev.update(prev.len() - 1, prev.last().push(s.last()))
        }
    }
}

pub open spec fn is_digit(c: char) -> bool {
    48 <= (c as u32) && (c as u32) <= 57
}

pub open spec fn digits_value(s: Seq<char>) -> nat
    decreases s.len(),
{
    if s.len() == 0 {
        0
    } else {
        digits_value(s.drop_last()) * 10 + ((s.last() as u32) - 48) as nat
    }
}

/// The digits of a decimal number: the text after an optional leading `+`.
pub open spec fn unsigned_digits(s: Seq<char>) -> Seq<char> {
    if s.len() > 0 && s[0] == '+' {
        s.drop_first()
    } else {
        s
    }
}

pub open spec fn all_digits(d: Seq<char>) -> bool {
    forall|i: int| 0 <= i < d.len() ==> is_digit(#[trigger] d[i])
}

/// A decimal `u16` as `u16::from_str` reads it: an optional `+`, then one
/// or more digits, of value at most 65535.
pub open spec fn parse_u16(s: Seq<char>) -> Option<u16> {
    let d = unsigned_digits(s);
    if d.len() > 0 && all_digits(d) && digits_value(d) <= 65535 {
        Some(digits_value(d) as u16)
    } else {
        None
    }
}

/// The position of the first `c` in `s`.
pub open spec fn find_char(s: Seq<char>, c: char) -> Option<int>
    decreases s.len(),
{
    if s.len() == 0 {
        None
    } else if s[0] == c {
        Some(0)
    } else {
        match find_char(s.drop_first(), c) {
            Some(k) => Some(k + 1),
            None => None,
        }
    }
}

/// The ports of one non-empty, trimmed part: a single port, or an inclusive
/// range `a-b` in either order. `None` when the part is malformed.
pub open spec fn part_ports(t: Seq<char>) -> Option<Set<u16>> {
    match find_char(t, '-') {
        Some(k) => match (parse_u16(t.take(k)), parse_u16(t.skip(k + 1))) {
            (Some(a), Some(b)) => Some(
                Set::new(
                    |p: u16|
                        (if a <= b { a } else { b }) <= p && p <= (if a <= b { b } else { a }),
                ),
            ),
            _ => None,
        },
        None => match parse_u16(t) {
            Some(p) => Some(set![p]),
            None => None,
        },
    }
}

/// An empty part is skipped; any other must be well formed.
pub open spec fn part_ok(t: Seq<char>) -> bool {
    t.len() == 0 || part_ports(t) is Some
}

pub open spec fn part_set(t: Seq<char>) -> Set<u16> {
    match part_ports(t) {
        Some(s) => if t.len() == 0 { Set::empty() } else { s },
        None => Set::empty(),
    }
}

/// The trimmed, comma-separated parts of a port specification.
pub open spec fn spec_parts(spec: Seq<char>) -> Seq<Seq<char>> {
    split_on(spec, ',').map_values(|p: Seq<char>| trim(p))
}

/// Every port that the parts name.
pub open spec fn ports_of(parts: Seq<Seq<char>>) -> Set<u16>
    decreases parts.len(),
{
    if parts.len() == 0 {
        Set::empty()
    } else {
        ports_of(parts.drop_last()).union(part_set(parts.last()))
    }
}

/// The first malformed part, if any.
pub open spec fn first_bad(parts: Seq<Seq<char>>) -> Option<Seq<char>>
    decreases parts.len(),
{
    if parts.len() == 0 {
        None
    } else {
        match first_bad(parts.drop_last()) {
            Some(t) => Some(t),
            None => if part_ok(parts.last()) {
                None
            } else {
                Some(parts.last())
            },
        }
    }
}

pub open spec fn strictly_ascending(v: Seq<u16>) -> bool {
    forall|i: int, j: int| 0 <= i < j < v.len() ==> #[trigger] v[i] < #[trigger] v[j]
}

/// What reading the port specification `spec` gives: the ports, ascending
/// and each once, when every part is well formed; else the first malformed part.
pub open spec fn ports_result_of(spec: Seq<char>, r: Result<Vec<u16>, PortSpecError>) -> bool {
    &&& (r is Ok <==> first_bad(spec_parts(spec)) is None)
    &&& (r matches Ok(v) ==> strictly_ascending(v@) && forall|p: u16|
        v@.contains(p) <==> ports_of(spec_parts(spec)).contains(p))
    &&& (r matches Err(e) ==> Some(e.part@) == first_bad(spec_parts(spec)))
}

/// A port specification that names a malformed part.
#[derive(Debug)]
pub struct PortSpecError {
    /// The first malformed part, trimmed.
    pub part: String,
}

fn is_ws_char(c: char) -> (r: bool)
    ensures
        r == is_ws(c),
{
    let u = c as u32;
    (0x09 <= u && u <= 0x0d) || u == 0x20 || u == 0x85 || u == 0xa0 || u == 0x1680 || (0x2000
        <= u && u <= 0x200a) || u == 0x2028 || u == 0x2029 || u == 0x202f || u == 0x205f || u
        == 0x3000
}

/// The bounds of `trim(cs[from..to])` within `cs`.
fn trim_bounds(cs: &Vec<char>, from: usize, to: usize) -> (r: (usize, usize))
    requires
        from <= to <= cs@.len(),
    ensures
        from <= r.0 <= r.1 <= to,
        cs@.subrange(r.0 as int, r.1 as int) == trim(cs@.subrange(from as int, to as int)),
{
    let mut lo = from;
    while lo < to && is_ws_char(cs[lo])
        invariant
            from <= lo <= to <= cs@.len(),
            trim_start(cs@.subrange(lo as int, to as int)) == trim_start(
                cs@.subrange(from as int, to as int),
            ),
        decreases to - lo,
    {
        assert(cs@.subrange(lo as int, to as int).drop_first() =~= cs@.subrange(
            lo + 1,
            to as int,
        ));
        lo += 1;
    }
    let ghost ts = cs@.subrange(lo as int, to as int);
    assert(trim_start(ts) == ts);
    let mut hi = to;
    while hi > lo && is_ws_char(cs[hi - 1])
        invariant
            from <= lo <= hi <= to <= cs@.len(),
            trim_start(cs@.subrange(lo as int, to as int)) == trim_start(
                cs@.subrange(from as int, to as int),
            ),
            trim_end(cs@.subrange(lo as int, hi as int)) == trim(
                cs@.subrange(from as int, to as int),
            ),
        decreases hi - lo,
    {
        assert(cs@.subrange(lo as int, hi as int).drop_last() =~= cs@.subrange(
            lo as int,
            hi - 1,
        ));
        hi -= 1;
    }
    (lo, hi)
}

/// `u16::from_str` on `cs[from..to]`.
fn parse_u16_at(cs: &Vec<char>, from: usize, to: usize) -> (r: Option<u16>)
    requires
        from <= to <= cs@.len(),
    ensures
        r == parse_u16(cs@.subrange(from as int, to as int)),
{
    let ghost s = cs@.subrange(from as int, to as int);
    let mut i = from;
    if i < to && cs[i] == '+' {
        i += 1;
    }
    let ghost d = unsigned_digits(s);
    assert(d =~= cs@.subrange(i as int, to as int));
    if i == to {
        return None;
    }
    let start = i;
    let mut v: u32 = 0;
    while i < to
        invariant
            from <= start <= i <= to <= cs@.len(),
            s == cs@.subrange(from as int, to as int),
            d == unsigned_digits(s),
            d == cs@.subrange(start as int, to as int),
            forall|k: int| start <= k < i ==> is_digit(#[trigger] cs@[k]),
            v as nat == if digits_value(cs@.subrange(start as int, i as int)) <= 65536 {
                digits_value(cs@.subrange(start as int, i as int))
            } else {
                65536
            },
        decreases to - i,
    {
        let c = cs[i];
        let u = c as u32;
        if u < 48 || u > 57 {
            assert(d[i - start] == cs@[i as int]);
            assert(!is_digit(d[i - start]));
            assert(!all_digits(d));
            return None;
        }
        assert(cs@.subrange(start as int, i + 1).drop_last() =~= cs@.subrange(
            start as int,
            i as int,
        ));
        let w = v * 10 + (u - 48);
        v = if w > 65536 { 65536 } else { w };
        i += 1;
    }
    assert forall|k: int| 0 <= k < d.len() implies is_digit(#[trigger] d[k]) by {
        assert(d[k] == cs@[start + k]);
    }
    assert(all_digits(d));
    assert(cs@.subrange(start as int, i as int) =~= d);
    if v > 65535 {
        None
    } else {
        Some(v as u16)
    }
}

proof fn lemma_find_char_bounds(s: Seq<char>, c: char)
    ensures
        find_char(s, c) matches Some(k) ==> 0 <= k < s.len() && s[k] == c,
    decreases s.len(),
{
    if s.len() > 0 {
        lemma_find_char_bounds(s.drop_first(), c);
    }
}

fn find_dash(cs: &Vec<char>, from: usize, to: usize) -> (r: Option<usize>)
    requires
        from <= to <= cs@.len(),
    ensures
        match find_char(cs@.subrange(from as int, to as int), '-') {
            Some(k) => r == Some((from + k) as usize),
            None => r is None,
        },
{
    let mut i = to;
    let mut found: Option<usize> = None;
    while i > from
        invariant
            from <= i <= to <= cs@.len(),
            match find_char(cs@.subrange(i as int, to as int), '-') {
                Some(k) => found == Some((i + k) as usize),
                None => found is None,
            },
        decreases i - from,
    {
        i -= 1;
        assert(cs@.subrange(i as int, to as int).drop_first() =~= cs@.subrange(
            i + 1,
            to as int,
        ));
        if cs[i] == '-' {
            found = Some(i);
        }
    }
    found
}

fn copy_range(cs: &Vec<char>, from: usize, to: usize) -> (r: Vec<char>)
    requires
        from <= to <= cs@.len(),
    ensures
        r@ == cs@.subrange(from as int, to as int),
{
    let mut out: Vec<char> = Vec::new();
    let mut i = from;
    while i < to
        invariant
            from <= i <= to <= cs@.len(),
            out@ == cs@.subrange(from as int, i as int),
        decreases to - i,
    {
        out.push(cs[i]);
        i += 1;
        assert(out@ =~= cs@.subrange(from as int, i as int));
    }
    out
}

/// Marks every port of the part `cs[start..end]`, trimmed; returns false
/// when the part is malformed.
fn mark_part(cs: &Vec<char>, start: usize, end: usize, present: &mut Vec<bool>) -> (ok: bool)
    requires
        start <= end <= cs@.len(),
        old(present)@.len() == 65536,
    ensures
        final(present)@.len() == 65536,
        ok == part_ok(trim(cs@.subrange(start as int, end as int))),
        ok ==> forall|p: u16|
            #[trigger] final(present)@[p as int] == (old(present)@[p as int] || part_set(
                trim(cs@.subrange(start as int, end as int)),
            ).contains(p)),
{
    let (lo, hi) = trim_bounds(cs, start, end);
    let ghost t = cs@.subrange(lo as int, hi as int);
    proof {
        lemma_find_char_bounds(t, '-');
    }
    if lo == hi {
        assert(part_set(t) =~= Set::empty());
        return true;
    }
    let (a, b) = match find_dash(cs, lo, hi) {
        Some(k) => {
            assert(t.take(k - lo) =~= cs@.subrange(lo as int, k as int));
            assert(t.skip(k - lo + 1) =~= cs@.subrange(k + 1, hi as int));
            let a = parse_u16_at(cs, lo, k);
            let b = parse_u16_at(cs, k + 1, hi);
            match (a, b) {
                (Some(a), Some(b)) => if a <= b {
                    (a, b)
                } else {
                    (b, a)
                },
                _ => {
                    return false;
                },
            }
        },
        None => match parse_u16_at(cs, lo, hi) {
            Some(p) => (p, p),
            None => {
                return false;
            },
        },
    };
    assert(forall|p: u16| part_set(t).contains(p) <==> a <= p && p <= b);
    let mut p: u32 = a as u32;
    while p <= b as u32
        invariant
            a <= b,
            a as u32 <= p <= b as u32 + 1,
            present@.len() == 65536,
            forall|q: u16|
                #[trigger] present@[q as int] == (old(present)@[q as int] || (a <= q && (q as u32)
                    < p)),
        decreases b as u32 + 1 - p,
    {
        present.set(p as usize, true);
        p += 1;
    }
    true
}

fn bad_part(cs: &Vec<char>, start: usize, end: usize) -> (r: PortSpecError)
    requires
        start <= end <= cs@.len(),
    ensures
        r.part@ == trim(cs@.subrange(start as int, end as int)),
{
    let (lo, hi) = trim_bounds(cs, start, end);
    let v = copy_range(cs, lo, hi);
    PortSpecError { part: string_from_chars(&v) }
}

/// Reads a port specification such as `80,443,8000-8100`: comma-separated
/// single ports and inclusive ranges (either order), whitespace around each
/// part ignored, empty parts skipped. The ports come out ascending, each once.
pub fn parse_ports(spec: &str) -> (r: Result<Vec<u16>, PortSpecError>)
    ensures
        ports_result_of(spec@, r),
{
    let cs = chars_of(spec);
    let mut present: Vec<bool> = vec![false; 65536];
    let ghost mut done: Seq<Seq<char>> = Seq::empty();
    let mut start: usize = 0;
    let mut i: usize = 0;
    assert(cs@.take(0) =~= Seq::<char>::empty());
    assert(cs@.subrange(0, 0) =~= Seq::<char>::empty());
    while i < cs.len()
        invariant
            cs@ == spec@,
            start <= i <= cs@.len(),
            split_on(cs@.take(i as int), ',') == done.push(cs@.subrange(start as int, i as int)),
            present@.len() == 65536,
            first_bad(done.map_values(|p: Seq<char>| trim(p))) is None,
            forall|q: u16|
                #[trigger] present@[q as int] == ports_of(
                    done.map_values(|p: Seq<char>| trim(p)),
                ).contains(q),
        decreases cs@.len() - i,
    {
        assert(cs@.take(i + 1).drop_last() =~= cs@.take(i as int));
        if cs[i] == ',' {
            let ghost before = done.map_values(|p: Seq<char>| trim(p));
            let ghost part = cs@.subrange(start as int, i as int);
            let ghost after = done.push(part).map_values(|p: Seq<char>| trim(p));
            assert(after =~= before.push(trim(part)));
            assert(after.drop_last() =~= before);
            if !mark_part(&cs, start, i, &mut present) {
                let e = bad_part(&cs, start, i);
                proof {
                    lemma_first_bad_prefix(split_on(cs@.take(i as int), ','), cs@, i as int);
                }
                return Err(e);
            }
            proof {
                assert(ports_of(after) =~= ports_of(before).union(part_set(trim(part))));
                assert(cs@.take(i + 1).last() == ',');
                done = done.push(part);
                assert(cs@.subrange(i + 1, i + 1) =~= Seq::<char>::empty());
            }
            start = i + 1;
        } else {
            assert(cs@.subrange(start as int, i + 1) =~= cs@.subrange(start as int, i as int).push(
                cs@[i as int],
            ));
        }
        i += 1;
    }
    assert(cs@.take(i as int) =~= cs@);
    let ghost before = done.map_values(|p: Seq<char>| trim(p));
    let ghost part = cs@.subrange(start as int, i as int);
    let ghost after = done.push(part).map_values(|p: Seq<char>| trim(p));
    assert(after =~= before.push(trim(part)));
    assert(after.drop_last() =~= before);
    assert(after == spec_parts(spec@));
    if !mark_part(&cs, start, i, &mut present) {
        return Err(bad_part(&cs, start, i));
    }
    assert(ports_of(after) =~= ports_of(before).union(part_set(trim(part))));
    let mut out: Vec<u16> = Vec::new();
    let mut p: u32 = 0;
    while p < 65536
        invariant
            present@.len() == 65536,
            p <= 65536,
            forall|k: int| 0 <= k < out@.len() ==> (#[trigger] out@[k] as u32) < p,
            strictly_ascending(out@),
            forall|q: u16| (q as u32) < p ==> (out@.contains(q) <==> #[trigger] present@[q as int]),
        decreases 65536 - p,
    {
        let ghost old_out = out@;
        if present[p as usize] {
            out.push(p as u16);
            assert(out@.last() == p as u16);
        }
        proof {
            assert forall|q: u16| (q as u32) < p + 1 implies (out@.contains(q) <==> #[trigger] present@[q as int]) by {
                if out@.contains(q) {
                    let k = choose|k: int| 0 <= k < out@.len() && out@[k] == q;
                    if k < old_out.len() {
                        assert(old_out[k] == q);
                        assert(old_out.contains(q));
                    }
                }
                if (q as u32) < p && old_out.contains(q) {
                    let k = choose|k: int| 0 <= k < old_out.len() && old_out[k] == q;
                    assert(out@[k] == q);
                }
                if (q as u32) == p && present@[q as int] {
                    assert(out@[out@.len() - 1] == q);
                }
            }
        }
        p += 1;
    }
    assert forall|q: u16| out@.contains(q) <==> ports_of(spec_parts(spec@)).contains(q) by {
        assert((q as u32) < p);
        if out@.contains(q) {
            assert(present@[q as int]);
        }
        if ports_of(spec_parts(spec@)).contains(q) {
            assert(present@[q as int]);
        }
    }
    Ok(out)
}

/// A malformed part found in the last piece of the prefix `s[..i]`, which
/// ends at a comma or the end, is the first malformed part of all of `s`.
proof fn lemma_first_bad_prefix(prefix_parts: Seq<Seq<char>>, s: Seq<char>, i: int)
    requires
        0 <= i < s.len(),
        s[i] == ',',
        prefix_parts == split_on(s.take(i), ','),
        first_bad(prefix_parts.map_values(|p: Seq<char>| trim(p))) is Some,
    ensures
        first_bad(spec_parts(s)) == first_bad(prefix_parts.map_values(|p: Seq<char>| trim(p))),
{
    lemma_split_extends(s, i);
    let pre = prefix_parts.map_values(|p: Seq<char>| trim(p));
    let all = spec_parts(s);
    assert(all.subrange(0, pre.len() as int) =~= pre);
    lemma_first_bad_of_prefix(all, pre.len() as int);
}

/// The parts of a prefix that ends before a comma are the first parts of the whole.
proof fn lemma_split_extends(s: Seq<char>, i: int)
    requires
        0 <= i < s.len(),
        s[i] == ',',
    ensures
        split_on(s, ',').len() > split_on(s.take(i), ',').len(),
        split_on(s, ',').subrange(0, split_on(s.take(i), ',').len() as int) == split_on(
            s.take(i),
            ',',
        ),
    decreases s.len(),
{
    if s.len() == i + 1 {
        assert(s.drop_last() =~= s.take(i));
        assert(split_on(s, ',') == split_on(s.take(i), ',').push(Seq::empty()));
        assert(split_on(s, ',').subrange(0, split_on(s.take(i), ',').len() as int) =~= split_on(
            s.take(i),
            ',',
        ));
    } else {
        let t = s.drop_last();
        assert(t.take(i) =~= s.take(i));
        lemma_split_extends(t, i);
        lemma_split_nonempty(t);
        let prev = split_on(t, ',');
        let n = split_on(s.take(i), ',').len() as int;
        if s.last() == ',' {
            assert(split_on(s, ',').subrange(0, n) =~= prev.subrange(0, n));
        } else {
            assert(split_on(s, ',').subrange(0, n) =~= prev.subrange(0, n));
        }
    }
}

proof fn lemma_split_nonempty(s: Seq<char>)
    ensures
        split_on(s, ',').len() >= 1,
    decreases s.len(),
{
    if s.len() > 0 {
        lemma_split_nonempty(s.drop_last());
    }
}

/// A malformed part among the first `n` parts is the first malformed part of all.
proof fn lemma_first_bad_of_prefix(parts: Seq<Seq<char>>, n: int)
    requires
        0 <= n <= parts.len(),
        first_bad(parts.subrange(0, n)) is Some,
    ensures
        first_bad(parts) == first_bad(parts.subrange(0, n)),
    decreases parts.len(),
{
    if n < parts.len() {
        assert(parts.drop_last().subrange(0, n) =~= parts.subrange(0, n));
        lemma_first_bad_of_prefix(parts.drop_last(), n);
    } else {
        assert(parts.subrange(0, n) =~= parts);
    }
}

} // verus!
