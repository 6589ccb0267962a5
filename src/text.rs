use vstd::prelude::*;
use vstd::std_specs::iter::IteratorSpec;

verus! {

/// What `String::from_utf8_lossy` makes of a byte buffer: valid UTF-8 decoded,
/// each invalid sequence replaced by U+FFFD.
pub uninterp spec fn lossy_utf8(b: Seq<u8>) -> Seq<char>;

/// Relies on `String::from_utf8_lossy`: the decoded text depends on the bytes alone.
#[verifier::external_body]
fn decode_lossy(b: &[u8]) -> (r: String)
    ensures
        r@ == lossy_utf8(b@),
{
    String::from_utf8_lossy(b).into_owned()
}

/// Relies on `String`'s `FromIterator<&char>`: the string holds the characters in order.
#[verifier::external_body]
pub(crate) fn string_from_chars(v: &Vec<char>) -> (r: String)
    ensures
        r@ == v@,
{
    v.iter().collect()
}

/// The characters of `s`, in order.
pub(crate) fn chars_of(s: &str) -> (r: Vec<char>)
    ensures
        r@ == s@,
{
    let mut out: Vec<char> = Vec::new();
    let n = s.unicode_len();
    let mut i: usize = 0;
    let mut it = s.chars();
    while i < n
        invariant
            n == s@.len(),
            i <= n,
            out@ == s@.take(i as int),
            it.remaining() == s@.skip(i as int),
        decreases n - i,
    {
        let c = it.next();
        assert(s@.skip(i as int).len() > 0);
        match c {
            Some(c) => {
                assert(c == s@[i as int]);
                out.push(c);
                i += 1;
                assert(out@ =~= s@.take(i as int));
                assert(it.remaining() =~= s@.skip(i as int));
            },
            None => {
                assert(false);
            },
        }
    }
    assert(out@ =~= s@);
    out
}


/// The lowercase hexadecimal digit of a value below sixteen.
pub open spec fn hex_digit(n: nat) -> char {
    if n < 10 {
        ((48 + n) as u8) as char
    } else {
        ((87 + n) as u8) as char
    }
}

/// A byte as two lowercase hexadecimal digits.
pub open spec fn hex_byte(b: u8) -> Seq<char> {
    seq![hex_digit((b / 16) as nat), hex_digit((b % 16) as nat)]
}

/// Each byte as two lowercase hexadecimal digits, in order.
pub open spec fn hex_of(b: Seq<u8>) -> Seq<char>
    decreases b.len(),
{
    if b.len() == 0 {
        Seq::empty()
    } else {
        hex_of(b.drop_last()) + hex_byte(b.last())
    }
}

/// The decimal digits of a number, without leading zeros.
pub open spec fn dec_digits(n: nat) -> Seq<char>
    decreases n,
{
    if n < 10 {
        seq![hex_digit(n)]
    } else {
        dec_digits(n / 10).push(hex_digit(n % 10))
    }
}

/// How many bytes a hex preview shows before it is cut.
pub const HEX_PREVIEW_MAX: usize = 64;

/// The mark that ends a hex preview of a longer buffer (a horizontal ellipsis).
pub const ELLIPSIS: char = '\u{2026}';

/// `hex:` and the hex digits of at most the first `HEX_PREVIEW_MAX` bytes,
/// followed by `ELLIPSIS` when bytes were left out.
pub open spec fn hex_preview_text(b: Seq<u8>) -> Seq<char> {
    let shown = if b.len() > HEX_PREVIEW_MAX { b.take(HEX_PREVIEW_MAX as int) } else { b };
    let tail = if b.len() > HEX_PREVIEW_MAX { seq![ELLIPSIS] } else { Seq::empty() };
    seq!['h', 'e', 'x', ':'] + hex_of(shown) + tail
}

/// The text with every trailing NUL character removed.
pub open spec fn trim_nul(s: Seq<char>) -> Seq<char>
    decreases s.len(),
{
    if s.len() > 0 && s.last() == '\0' {
        trim_nul(s.drop_last())
    } else {
        s
    }
}

/// The printable form of received bytes: decoded lossily, trailing NULs removed.
pub open spec fn safe_text(b: Seq<u8>) -> Seq<char> {
    trim_nul(lossy_utf8(b))
}

/// Control characters in Unicode's sense (general category Cc).
pub open spec fn is_control(c: char) -> bool {
    (c as u32) <= 0x1f || (0x7f <= (c as u32) && (c as u32) <= 0x9f)
}

/// How one character is shown on a terminal: newline, carriage return and tab
/// as backslash escapes, other control characters as `\xNN`, the rest unchanged.
pub open spec fn escape_char(c: char) -> Seq<char> {
    if c == '\n' {
        seq!['\\', 'n']
    } else if c == '\r' {
        seq!['\\', 'r']
    } else if c == '\t' {
        seq!['\\', 't']
    } else if is_control(c) {
        seq!['\\', 'x'] + hex_byte((c as u32) as u8)
    } else {
        seq![c]
    }
}

/// Every character of the text escaped for a terminal, in order.
pub open spec fn escaped(s: Seq<char>) -> Seq<char>
    decreases s.len(),
{
    if s.len() == 0 {
        Seq::empty()
    } else {
        escaped(s.drop_last()) + escape_char(s.last())
    }
}

pub(crate) fn hex_digit_of(n: u8) -> (c: char)
    requires
        n < 16,
    ensures
        c == hex_digit(n as nat),
{
    if n < 10 {
        (48u8 + n) as char
    } else {
        (87u8 + n) as char
    }
}

/// Appends the two hex digits of `b`.
pub(crate) fn push_hex_byte(out: &mut Vec<char>, b: u8)
    ensures
        final(out)@ == old(out)@ + hex_byte(b),
{
    out.push(hex_digit_of(b / 16));
    out.push(hex_digit_of(b % 16));
    assert(final(out)@ =~= old(out)@ + hex_byte(b));
}

/// Appends the decimal digits of `n`.
pub(crate) fn push_decimal(out: &mut Vec<char>, n: u64)
    ensures
        final(out)@ == old(out)@ + dec_digits(n as nat),
    decreases n,
{
    if n >= 10 {
        push_decimal(out, n / 10);
    }
    out.push(hex_digit_of((n % 10) as u8));
    assert(final(out)@ =~= old(out)@ + dec_digits(n as nat));
}

/// Appends the characters of `s`.
pub(crate) fn push_text(out: &mut Vec<char>, s: &str)
    ensures
        final(out)@ == old(out)@ + s@,
{
    let cs = chars_of(s);
    let ghost start = out@;
    let mut i: usize = 0;
    while i < cs.len()
        invariant
            cs@ == s@,
            i <= cs.len(),
            out@ == start + s@.take(i as int),
        decreases cs.len() - i,
    {
        out.push(cs[i]);
        i += 1;
        assert(out@ =~= start + s@.take(i as int));
    }
    assert(s@.take(i as int) =~= s@);
}

/// The text with every trailing NUL character removed.
pub fn trim_nuls(s: &str) -> (r: String)
    ensures
        r@ == trim_nul(s@),
{
    let mut v = chars_of(s);
    while v.len() > 0 && v[v.len() - 1] == '\0'
        invariant
            trim_nul(v@) == trim_nul(s@),
        decreases v.len(),
    {
        assert(v@.drop_last() =~= v@.take(v.len() - 1));
        v.pop();
    }
    string_from_chars(&v)
}

/// Received bytes as text: decoded lossily, with trailing NUL characters removed.
pub fn to_safe_string(buf: &[u8]) -> (r: String)
    ensures
        r@ == safe_text(buf@),
{
    let decoded = decode_lossy(buf);
    trim_nuls(decoded.as_str())
}

/// `hex:` followed by the hex digits of the first 64 bytes, and an ellipsis
/// when the buffer is longer.
pub fn hex_preview(buf: &[u8]) -> (r: String)
    ensures
        r@ == hex_preview_text(buf@),
{
    let take = if buf.len() > HEX_PREVIEW_MAX { HEX_PREVIEW_MAX } else { buf.len() };
    let mut out: Vec<char> = Vec::new();
    out.push('h');
    out.push('e');
    out.push('x');
    out.push(':');
    let ghost head = seq!['h', 'e', 'x', ':'];
    assert(out@ =~= head);
    let mut i: usize = 0;
    while i < take
        invariant
            take <= buf@.len(),
            i <= take,
            out@ == head + hex_of(buf@.take(i as int)),
        decreases take - i,
    {
        push_hex_byte(&mut out, buf[i]);
        assert(buf@.take(i + 1).drop_last() =~= buf@.take(i as int));
        i += 1;
    }
    if buf.len() > HEX_PREVIEW_MAX {
        out.push(ELLIPSIS);
    } else {
        assert(buf@.take(i as int) =~= buf@);
    }
    assert(out@ =~= hex_preview_text(buf@));
    string_from_chars(&out)
}

/// Makes untrusted text safe to print on a terminal: `\n`, `\r` and `\t`
/// become backslash escapes, other control characters `\xNN`.
pub fn escape_nonprintable(s: &str) -> (r: String)
    ensures
        r@ == escaped(s@),
{
    let cs = chars_of(s);
    let mut out: Vec<char> = Vec::new();
    let mut i: usize = 0;
    while i < cs.len()
        invariant
            cs@ == s@,
            i <= cs.len(),
            out@ == escaped(s@.take(i as int)),
        decreases cs.len() - i,
    {
        let c = cs[i];
        if c == '\n' {
            out.push('\\');
            out.push('n');
        } else if c == '\r' {
            out.push('\\');
            out.push('r');
        } else if c == '\t' {
            out.push('\\');
            out.push('t');
        } else if (c as u32) <= 0x1f || (0x7f <= (c as u32) && (c as u32) <= 0x9f) {
            out.push('\\');
            out.push('x');
            push_hex_byte(&mut out, c as u32 as u8);
        } else {
            out.push(c);
        }
        assert(s@.take(i + 1).drop_last() =~= s@.take(i as int));
        assert(out@ =~= escaped(s@.take(i + 1)));
        i += 1;
    }
    assert(s@.take(i as int) =~= s@);
    string_from_chars(&out)
}

} // verus!
