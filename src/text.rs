//! Literal search and replacement over character sequences.

use vstd::prelude::*;

verus! {

/// `p` occurs in `t` starting at index `i`.
pub open spec fn occurs_at(t: Seq<char>, p: Seq<char>, i: int) -> bool {
    0 <= i && i + p.len() <= t.len() && t.subrange(i, i + p.len()) == p
}

/// The first index at or after `from` where `p` occurs in `t`.
pub open spec fn first_from(t: Seq<char>, p: Seq<char>, from: int) -> Option<int>
    decreases t.len() - from,
{
    if from < 0 || from + p.len() > t.len() {
        None
    } else if occurs_at(t, p, from) {
        Some(from)
    } else if from >= t.len() {
        None
    } else {
        first_from(t, p, from + 1)
    }
}

/// Replaces every occurrence of `p` in `s` by `r`, scanning left to right
/// without overlap (the rule of `str::replace` for a non-empty pattern).
pub open spec fn replace_all(s: Seq<char>, p: Seq<char>, r: Seq<char>) -> Seq<char>
    decreases s.len(),
{
    if s.len() == 0 {
        s
    } else if p.len() > 0 && p.len() <= s.len() && s.subrange(0, p.len() as int) == p {
        r + replace_all(s.subrange(p.len() as int, s.len() as int), p, r)
    } else {
        seq![s[0]] + replace_all(s.subrange(1, s.len() as int), p, r)
    }
}

pub open spec fn as_pos(r: Option<usize>) -> Option<int> {
    match r {
        Some(i) => Some(i as int),
        None => None,
    }
}

/// The text between the first `open` at or after `from` and the first
/// `close` after that `open`: its start and end index.
pub open spec fn delimited(t: Seq<char>, open: Seq<char>, close: Seq<char>, from: int) -> Option<
    (int, int),
> {
    match first_from(t, open, from) {
        None => None,
        Some(a) => match first_from(t, close, a + open.len()) {
            None => None,
            Some(e) => Some((a + open.len(), e)),
        },
    }
}

/// No line break in `t` from index `s` up to `e`.
pub open spec fn line_free(t: Seq<char>, s: int, e: int) -> bool {
    forall|i: int| s <= i < e ==> t[i] != '\n'
}

/// Like `delimited`, with the text between confined to one line: an `open`
/// whose first `close` is missing or on a later line is passed over for the
/// next `open`.
pub open spec fn delimited_line(t: Seq<char>, open: Seq<char>, close: Seq<char>, from: int) -> Option<
    (int, int),
>
    decreases t.len() - from,
{
    if from < 0 || from > t.len() {
        None
    } else {
        match first_from(t, open, from) {
            None => None,
            Some(a) => if a < from || a >= t.len() {
                None
            } else {
                match first_from(t, close, a + open.len()) {
                    Some(e) => if line_free(t, a + open.len(), e) {
                        Some((a + open.len(), e))
                    } else {
                        delimited_line(t, open, close, a + 1)
                    },
                    None => delimited_line(t, open, close, a + 1),
                }
            },
        }
    }
}

/// After a `lead` found at or after `from`: the first `open` and then the text
/// up to the first `close`, both gaps on one line. A `lead` for which this
/// fails is passed over for the next.
pub open spec fn led_line(
    t: Seq<char>,
    lead: Seq<char>,
    open: Seq<char>,
    close: Seq<char>,
    from: int,
) -> Option<(int, int)>
    decreases t.len() - from,
{
    if from < 0 || from > t.len() {
        None
    } else {
        match first_from(t, lead, from) {
            None => None,
            Some(a) => if a < from || a >= t.len() {
                None
            } else {
                match led_line_at(t, lead, open, close, a) {
                    Some(sp) => Some(sp),
                    None => led_line(t, lead, open, close, a + 1),
                }
            },
        }
    }
}

/// The capture of `led_line` for the `lead` at `a`, if that one succeeds.
pub open spec fn led_line_at(t: Seq<char>, lead: Seq<char>, open: Seq<char>, close: Seq<char>, a: int) -> Option<
    (int, int),
> {
    let s = a + lead.len();
    match first_from(t, open, s) {
        None => None,
        Some(k) => match first_from(t, close, k + open.len()) {
            None => None,
            Some(m) => if line_free(t, s, k) && line_free(t, k + open.len(), m) {
                Some((k + open.len(), m))
            } else {
                None
            },
        },
    }
}

/// What `first_from` finds is an occurrence, at or after `from`.
pub proof fn lemma_first_from(t: Seq<char>, p: Seq<char>, from: int)
    ensures
        match first_from(t, p, from) {
            Some(i) => from <= i && occurs_at(t, p, i) && i + p.len() <= t.len(),
            None => true,
        },
    decreases t.len() - from,
{
    if from >= 0 && from + p.len() <= t.len() && !occurs_at(t, p, from) && from < t.len() {
        lemma_first_from(t, p, from + 1);
    }
}

/// Whether `p` occurs in `t` at index `i`.
pub fn matches_at(t: &Vec<char>, p: &Vec<char>, i: usize) -> (r: bool)
    requires
        i + p@.len() <= t@.len(),
    ensures
        r == occurs_at(t@, p@, i as int),
{
    let tl = t.len();
    let mut k: usize = 0;
    while k < p.len()
        invariant
            tl == t@.len(),
            k <= p@.len(),
            i + p@.len() <= t@.len(),
            forall|j: int| 0 <= j < k ==> t@[i + j] == p@[j],
        decreases p@.len() - k,
    {
        assert(i + k < t@.len());
        if t[i + k] != p[k] {
            proof {
                assert(t@.subrange(i as int, i + p@.len())[k as int] != p@[k as int]);
            }
            return false;
        }
        k += 1;
    }
    proof {
        assert(t@.subrange(i as int, i + p@.len()) =~= p@);
    }
    true
}

/// The first index at or after `from` where `p` occurs in `t`, if any.
pub fn find_from(t: &Vec<char>, p: &Vec<char>, from: usize) -> (r: Option<usize>)
    ensures
        as_pos(r) == first_from(t@, p@, from as int),
{
    let n = t.len();
    let m = p.len();
    if m > n || from > n - m {
        return None;
    }
    let mut i: usize = from;
    while i <= n - m
        invariant
            n == t@.len(),
            m == p@.len(),
            m <= n,
            from <= i <= n - m + 1,
            first_from(t@, p@, from as int) == first_from(t@, p@, i as int),
        decreases n - m + 1 - i,
    {
        if matches_at(t, p, i) {
            return Some(i);
        }
        if i >= n {
            return None;
        }
        i += 1;
    }
    None
}

/// The span of the text between the first `open` at or after `from` and the
/// first `close` after it.
pub fn find_delimited(t: &Vec<char>, open: &Vec<char>, close: &Vec<char>, from: usize) -> (r: Option<
    (usize, usize),
>)
    ensures
        match r {
            Some((s, e)) => delimited(t@, open@, close@, from as int) == Some((s as int, e as int))
                && s <= e <= t@.len(),
            None => delimited(t@, open@, close@, from as int) is None,
        },
{
    let tl = t.len();
    match find_from(t, open, from) {
        None => None,
        Some(a) => {
            proof {
                lemma_first_from(t@, open@, from as int);
            }
            assert(a + open@.len() <= tl);
            let s = a + open.len();
            match find_from(t, close, s) {
                None => None,
                Some(e) => {
                    proof {
                        lemma_first_from(t@, close@, s as int);
                    }
                    Some((s, e))
                },
            }
        },
    }
}

/// Whether `t` holds no line break from index `s` up to `e`.
pub fn no_line_break(t: &Vec<char>, s: usize, e: usize) -> (r: bool)
    requires
        s <= e <= t@.len(),
    ensures
        r == line_free(t@, s as int, e as int),
{
    let mut i: usize = s;
    while i < e
        invariant
            s <= i <= e,
            e <= t@.len(),
            line_free(t@, s as int, i as int),
        decreases e - i,
    {
        if t[i] == '\n' {
            return false;
        }
        i += 1;
    }
    true
}

/// The span of `delimited_line` from `from`.
pub fn find_delimited_line(t: &Vec<char>, open: &Vec<char>, close: &Vec<char>, from: usize) -> (r:
    Option<(usize, usize)>)
    ensures
        match r {
            Some((s, e)) => delimited_line(t@, open@, close@, from as int) == Some(
                (s as int, e as int),
            ) && s <= e <= t@.len(),
            None => delimited_line(t@, open@, close@, from as int) is None,
        },
{
    let tl = t.len();
    if from > tl {
        return None;
    }
    let mut pos: usize = from;
    loop
        invariant
            tl == t@.len(),
            pos <= tl,
            delimited_line(t@, open@, close@, from as int) == delimited_line(
                t@,
                open@,
                close@,
                pos as int,
            ),
        decreases tl - pos,
    {
        let a = match find_from(t, open, pos) {
            None => return None,
            Some(a) => a,
        };
        proof {
            lemma_first_from(t@, open@, pos as int);
        }
        if a >= tl {
            return None;
        }
        let s = a + open.len();
        match find_from(t, close, s) {
            Some(e) => {
                proof {
                    lemma_first_from(t@, close@, s as int);
                }
                if no_line_break(t, s, e) {
                    return Some((s, e));
                }
            },
            None => {},
        }
        pos = a + 1;
    }
}

/// The span of `led_line` from `from`.
pub fn find_led_line(
    t: &Vec<char>,
    lead: &Vec<char>,
    open: &Vec<char>,
    close: &Vec<char>,
    from: usize,
) -> (r: Option<(usize, usize)>)
    ensures
        match r {
            Some((s, e)) => led_line(t@, lead@, open@, close@, from as int) == Some(
                (s as int, e as int),
            ) && s <= e <= t@.len(),
            None => led_line(t@, lead@, open@, close@, from as int) is None,
        },
{
    let tl = t.len();
    if from > tl {
        return None;
    }
    let mut pos: usize = from;
    loop
        invariant
            tl == t@.len(),
            pos <= tl,
            led_line(t@, lead@, open@, close@, from as int) == led_line(
                t@,
                lead@,
                open@,
                close@,
                pos as int,
            ),
        decreases tl - pos,
    {
        let a = match find_from(t, lead, pos) {
            None => return None,
            Some(a) => a,
        };
        proof {
            lemma_first_from(t@, lead@, pos as int);
        }
        if a >= tl {
            return None;
        }
        let s = a + lead.len();
        match find_from(t, open, s) {
            Some(k) => {
                proof {
                    lemma_first_from(t@, open@, s as int);
                }
                let c = k + open.len();
                match find_from(t, close, c) {
                    Some(m) => {
                        proof {
                            lemma_first_from(t@, close@, c as int);
                        }
                        if no_line_break(t, s, k) && no_line_break(t, c, m) {
                            return Some((c, m));
                        }
                    },
                    None => {},
                }
            },
            None => {},
        }
        pos = a + 1;
    }
}

/// The characters of `t` from index `s` up to `e`.
pub fn slice_of(t: &Vec<char>, s: usize, e: usize) -> (r: Vec<char>)
    requires
        s <= e <= t@.len(),
    ensures
        r@ == t@.subrange(s as int, e as int),
{
    let mut out: Vec<char> = Vec::new();
    let mut i: usize = s;
    while i < e
        invariant
            s <= i <= e,
            e <= t@.len(),
            out@ == t@.subrange(s as int, i as int),
        decreases e - i,
    {
        out.push(t[i]);
        i += 1;
        proof {
            assert(t@.subrange(s as int, i as int) =~= t@.subrange(s as int, i - 1) + seq![t@[i - 1]]);
        }
    }
    out
}

/// `s` with every occurrence of the non-empty literal `p` replaced by `r`.
pub fn replace_lit(s: &Vec<char>, p: &str, r: &str) -> (out: Vec<char>)
    requires
        p@.len() > 0,
    ensures
        out@ == replace_all(s@, p@, r@),
{
    let pv = chars_of(p);
    let rv = chars_of(r);
    replace_in(s, &pv, &rv)
}

/// Appends the characters of `r` to `out`.
pub fn push_all(out: &mut Vec<char>, r: &Vec<char>)
    ensures
        final(out)@ == old(out)@ + r@,
{
    let mut k: usize = 0;
    while k < r.len()
        invariant
            k <= r@.len(),
            out@ == old(out)@ + r@.subrange(0, k as int),
        decreases r@.len() - k,
    {
        out.push(r[k]);
        k += 1;
        proof {
            assert(r@.subrange(0, k as int) =~= r@.subrange(0, k - 1) + seq![r@[k - 1]]);
        }
    }
    proof {
        assert(r@.subrange(0, r@.len() as int) =~= r@);
    }
}

/// `s` with every occurrence of the non-empty pattern `p` replaced by `r`.
pub fn replace_in(s: &Vec<char>, p: &Vec<char>, r: &Vec<char>) -> (out: Vec<char>)
    requires
        p@.len() > 0,
    ensures
        out@ == replace_all(s@, p@, r@),
{
    let mut out: Vec<char> = Vec::new();
    let mut i: usize = 0;
    proof {
        assert(s@.subrange(0, s@.len() as int) =~= s@);
        assert(out@ + s@ =~= s@);
    }
    while i < s.len()
        invariant
            i <= s@.len(),
            p@.len() > 0,
            out@ + replace_all(s@.subrange(i as int, s@.len() as int), p@, r@) == replace_all(
                s@,
                p@,
                r@,
            ),
        decreases s@.len() - i,
    {
        let ghost rest = s@.subrange(i as int, s@.len() as int);
        let ghost before = out@;
        if p.len() <= s.len() - i && matches_at(s, p, i) {
            proof {
                assert(rest.subrange(0, p@.len() as int) =~= s@.subrange(i as int, i + p@.len()));
                assert(rest.subrange(p@.len() as int, rest.len() as int) =~= s@.subrange(
                    i + p@.len(),
                    s@.len() as int,
                ));
            }
            push_all(&mut out, r);
            i += p.len();
            proof {
                let tail = replace_all(s@.subrange(i as int, s@.len() as int), p@, r@);
                assert(before + (r@ + tail) =~= (before + r@) + tail);
            }
        } else {
            proof {
                assert(rest.subrange(1, rest.len() as int) =~= s@.subrange(i + 1, s@.len() as int));
                if p@.len() <= rest.len() {
                    assert(rest.subrange(0, p@.len() as int) =~= s@.subrange(
                        i as int,
                        i + p@.len(),
                    ));
                }
            }
            out.push(s[i]);
            i += 1;
            proof {
                let tail = replace_all(s@.subrange(i as int, s@.len() as int), p@, r@);
                assert(before + (seq![rest[0]] + tail) =~= (before + seq![rest[0]]) + tail);
            }
        }
    }
    proof {
        assert(s@.subrange(s@.len() as int, s@.len() as int) =~= Seq::<char>::empty());
        assert(out@ + Seq::<char>::empty() =~= out@);
    }
    out
}

/// Relies on `str::chars` collected into a `Vec`: the characters of `s`, in order.
#[verifier::external_body]
pub(crate) fn chars_of(s: &str) -> (r: Vec<char>)
    ensures
        r@ == s@,
{
    s.chars().collect()
}

/// Relies on `String`'s `FromIterator<&char>`: the string of the characters of `v`, in order.
#[verifier::external_body]
pub(crate) fn string_of(v: &Vec<char>) -> (r: String)
    ensures
        r@ == v@,
{
    v.iter().collect()
}

} // verus!
