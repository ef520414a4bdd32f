//! Conversion between native text and the site's legacy GBK encoding, and the
//! percent-escaped form of a search query.

use vstd::prelude::*;

verus! {

/// The GBK bytes of a text, as `encoding_rs` produces them.
pub uninterp spec fn gbk_bytes(s: Seq<char>) -> Seq<u8>;

/// The text that `encoding_rs` decodes from bytes taken as GBK.
pub uninterp spec fn gbk_text(b: Seq<u8>) -> Seq<char>;

pub open spec fn ascii_text(s: Seq<char>) -> bool {
    forall|i: int| 0 <= i < s.len() ==> (s[i] as u32) < 128
}

pub open spec fn ascii_bytes(b: Seq<u8>) -> bool {
    forall|i: int| 0 <= i < b.len() ==> b[i] < 128
}

/// Relies on `encoding_rs::Encoding::encode` with `GBK`: the GBK bytes of `s`
/// (unmappable characters become numeric character references); ASCII-only
/// text is returned as its own bytes.
#[verifier::external_body]
fn gbk_encode(s: &str) -> (r: Vec<u8>)
    ensures
        r@ == gbk_bytes(s@),
        ascii_text(s@) ==> r@ == s@.map_values(|c: char| c as u8),
{
    encoding_rs::GBK.encode(s).0.into_owned()
}

/// Relies on `encoding_rs::Encoding::decode` with `GBK`: the text of `b` read as
/// GBK (a leading byte-order mark selects its encoding, malformed sequences
/// become U+FFFD); ASCII-only bytes are returned as their own characters.
#[verifier::external_body]
pub(crate) fn gbk_decode(b: &[u8]) -> (r: String)
    ensures
        r@ == gbk_text(b@),
        ascii_bytes(b@) ==> r@ == b@.map_values(|x: u8| x as char),
{
    encoding_rs::GBK.decode(b).0.into_owned()
}

/// The upper-case hexadecimal digit of `n` (`n < 16`).
pub open spec fn hex_digit(n: u8) -> char {
    if n == 0 { '0' }
    else if n == 1 { '1' }
    else if n == 2 { '2' }
    else if n == 3 { '3' }
    else if n == 4 { '4' }
    else if n == 5 { '5' }
    else if n == 6 { '6' }
    else if n == 7 { '7' }
    else if n == 8 { '8' }
    else if n == 9 { '9' }
    else if n == 10 { 'A' }
    else if n == 11 { 'B' }
    else if n == 12 { 'C' }
    else if n == 13 { 'D' }
    else if n == 14 { 'E' }
    else { 'F' }
}

/// Each byte of `b` written as `%` and two upper-case hexadecimal digits.
pub open spec fn percent_escape(b: Seq<u8>) -> Seq<char>
    decreases b.len(),
{
    if b.len() == 0 {
        Seq::empty()
    } else {
        let x = b.last();
        percent_escape(b.drop_last()) + seq!['%', hex_digit(x / 16), hex_digit(x % 16)]
    }
}

/// A character that an escaped query may hold: a decimal digit, `A` to `F`, or `%`.
pub open spec fn is_escape_char(c: char) -> bool {
    c == '%' || ('0' as u32 <= c as u32 && c as u32 <= '9' as u32) || ('A' as u32 <= c as u32
        && c as u32 <= 'F' as u32)
}

fn hex_char(n: u8) -> (r: char)
    requires
        n < 16,
    ensures
        r == hex_digit(n),
{
    if n < 8 {
        if n < 4 {
            if n == 0 { '0' } else if n == 1 { '1' } else if n == 2 { '2' } else { '3' }
        } else {
            if n == 4 { '4' } else if n == 5 { '5' } else if n == 6 { '6' } else { '7' }
        }
    } else {
        if n < 12 {
            if n == 8 { '8' } else if n == 9 { '9' } else if n == 10 { 'A' } else { 'B' }
        } else {
            if n == 12 { 'C' } else if n == 13 { 'D' } else if n == 14 { 'E' } else { 'F' }
        }
    }
}

/// An escaped byte string is three characters per byte, drawn from the digits,
/// `A` to `F` and `%`.
pub proof fn lemma_escape_shape(b: Seq<u8>)
    ensures
        percent_escape(b).len() == 3 * b.len(),
        forall|i: int| 0 <= i < percent_escape(b).len() ==> is_escape_char(#[trigger] percent_escape(b)[i]),
    decreases b.len(),
{
    if b.len() > 0 {
        lemma_escape_shape(b.drop_last());
        let x = b.last();
        assert(is_escape_char(hex_digit(x / 16)));
        assert(is_escape_char(hex_digit(x % 16)));
        let e = percent_escape(b);
        let front = percent_escape(b.drop_last());
        assert forall|i: int| 0 <= i < e.len() implies is_escape_char(#[trigger] e[i]) by {
            if i < front.len() {
                assert(e[i] == front[i]);
            }
        }
    }
}

/// The percent-escaped form of a byte string.
pub fn escape_bytes(b: &Vec<u8>) -> (r: Vec<char>)
    ensures
        r@ == percent_escape(b@),
{
    let mut out: Vec<char> = Vec::new();
    let mut i: usize = 0;
    while i < b.len()
        invariant
            i <= b@.len(),
            out@ == percent_escape(b@.subrange(0, i as int)),
        decreases b@.len() - i,
    {
        let x = b[i];
        out.push('%');
        out.push(hex_char(x / 16));
        out.push(hex_char(x % 16));
        proof {
            assert(b@.subrange(0, i + 1).drop_last() =~= b@.subrange(0, i as int));
        }
        i += 1;
    }
    proof {
        assert(b@.subrange(0, b@.len() as int) =~= b@);
    }
    out
}

/// The search-query form of `s`: its GBK bytes, each written as `%` and two
/// upper-case hexadecimal digits, with no separators.
pub fn encode_query(s: &str) -> (r: String)
    ensures
        r@ == percent_escape(gbk_bytes(s@)),
        r@.len() % 3 == 0,
        forall|i: int| 0 <= i < r@.len() ==> is_escape_char(#[trigger] r@[i]),
{
    let bytes = gbk_encode(s);
    let escaped = escape_bytes(&bytes);
    proof {
        lemma_escape_shape(bytes@);
    }
    crate::text::string_of(&escaped)
}

/// The value of an upper-case hexadecimal digit.
pub open spec fn hex_value(c: char) -> Option<u8> {
    if '0' as u32 <= c as u32 && c as u32 <= '9' as u32 {
        Some((c as u32 - '0' as u32) as u8)
    } else if 'A' as u32 <= c as u32 && c as u32 <= 'F' as u32 {
        Some((c as u32 - 'A' as u32 + 10) as u8)
    } else {
        None
    }
}

/// The bytes that a percent-escaped text stands for: it must be a sequence of
/// `%` and two upper-case hexadecimal digits.
pub open spec fn percent_unescape(s: Seq<char>) -> Option<Seq<u8>>
    decreases s.len(),
{
    if s.len() == 0 {
        Some(Seq::empty())
    } else if s.len() < 3 {
        None
    } else {
        let n = s.len() as int;
        match (percent_unescape(s.subrange(0, n - 3)), hex_value(s[n - 2]), hex_value(s[n - 1])) {
            (Some(front), Some(hi), Some(lo)) => if s[n - 3] == '%' {
                Some(front.push((hi * 16 + lo) as u8))
            } else {
                None
            },
            _ => None,
        }
    }
}

fn hex_value_of(c: char) -> (r: Option<u8>)
    ensures
        r == hex_value(c),
{
    let u = c as u32;
    if '0' as u32 <= u && u <= '9' as u32 {
        Some((u - '0' as u32) as u8)
    } else if 'A' as u32 <= u && u <= 'F' as u32 {
        Some((u - 'A' as u32 + 10) as u8)
    } else {
        None
    }
}

/// Unescaping the escaped form of any byte string gives back those bytes.
pub proof fn lemma_unescape_escape(b: Seq<u8>)
    ensures
        percent_unescape(percent_escape(b)) == Some(b),
    decreases b.len(),
{
    if b.len() > 0 {
        let front = b.drop_last();
        let x = b.last();
        lemma_unescape_escape(front);
        lemma_escape_shape(front);
        let e = percent_escape(b);
        let n = e.len() as int;
        assert(e.subrange(0, n - 3) =~= percent_escape(front));
        assert(e[n - 3] == '%');
        assert(hex_value(hex_digit(x / 16)) == Some(x / 16));
        assert(hex_value(hex_digit(x % 16)) == Some(x % 16));
        assert((x / 16) * 16 + x % 16 == x);
        assert(front.push(x) =~= b);
    }
}

/// Decoding the query form of a text gives back exactly the GBK bytes of that
/// text: what `decode_query` returns for the result of `encode_query(s)`.
pub proof fn lemma_query_round_trip(s: Seq<char>)
    ensures
        percent_unescape(percent_escape(gbk_bytes(s))) == Some(gbk_bytes(s)),
{
    lemma_unescape_escape(gbk_bytes(s));
}

/// The bytes that a percent-escaped query stands for, or `None` where `s` is
/// not a sequence of `%` and two upper-case hexadecimal digits.
pub fn decode_query(s: &str) -> (r: Option<Vec<u8>>)
    ensures
        match r {
            Some(v) => percent_unescape(s@) == Some(v@),
            None => percent_unescape(s@) is None,
        },
{
    let t = crate::text::chars_of(s);
    let n = t.len();
    if n % 3 != 0 {
        proof {
            lemma_unescape_len(s@);
        }
        return None;
    }
    let mut out: Vec<u8> = Vec::new();
    let mut i: usize = 0;
    while i < n
        invariant
            n == t@.len(),
            t@ == s@,
            n % 3 == 0,
            i % 3 == 0,
            i <= n,
            percent_unescape(t@.subrange(0, i as int)) == Some(out@),
        decreases n - i,
    {
        let ghost pre = t@.subrange(0, i + 3);
        proof {
            assert(pre.subrange(0, i as int) =~= t@.subrange(0, i as int));
        }
        let hi = hex_value_of(t[i + 1]);
        let lo = hex_value_of(t[i + 2]);
        if t[i] != '%' || hi.is_none() || lo.is_none() {
            proof {
                lemma_unescape_prefix(t@, i as int + 3);
            }
            return None;
        }
        let h = hi.unwrap();
        let l = lo.unwrap();
        out.push(h * 16 + l);
        i += 3;
    }
    proof {
        assert(t@.subrange(0, n as int) =~= t@);
    }
    Some(out)
}

/// Only a text whose length is a multiple of three can be unescaped.
proof fn lemma_unescape_len(s: Seq<char>)
    ensures
        s.len() % 3 != 0 ==> percent_unescape(s) is None,
    decreases s.len(),
{
    if s.len() >= 3 {
        lemma_unescape_len(s.subrange(0, s.len() - 3));
    }
}

/// A text that cannot be unescaped stays so when extended.
proof fn lemma_unescape_prefix(t: Seq<char>, k: int)
    requires
        0 <= k <= t.len(),
        k % 3 == 0,
        t.len() % 3 == 0,
        percent_unescape(t.subrange(0, k)) is None,
    ensures
        percent_unescape(t) is None,
    decreases t.len() - k,
{
    if k < t.len() {
        let p = t.subrange(0, k + 3);
        assert(p.subrange(0, k) =~= t.subrange(0, k));
        lemma_unescape_prefix(t, k + 3);
    } else {
        assert(t.subrange(0, k) =~= t);
    }
}

} // verus!
