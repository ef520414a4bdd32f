//! The three extraction stages over the site's markup: the first record of a
//! search results page, the chapter links of a table of contents, and the
//! readable body of a chapter page. Each region is found by its literal
//! delimiters, the first occurrence of each after the one before. Fields that
//! the markup keeps on one line (links, titles, names) are not read across a
//! line break: a delimiter whose field would cross one is passed over.

use vstd::prelude::*;
use crate::text::{
    chars_of, delimited, delimited_line, find_delimited, find_delimited_line, find_from,
    find_led_line, first_from, led_line, lemma_first_from, line_free, matches_at, no_line_break,
    occurs_at, replace_all, replace_lit, slice_of, string_of,
};
use crate::encoding::{ascii_bytes, gbk_decode, gbk_text};

verus! {

/// The part of `t` that a span marks, or nothing.
pub open spec fn span_text(t: Seq<char>, sp: Option<(int, int)>) -> Seq<char> {
    match sp {
        Some((s, e)) => t.subrange(s, e),
        None => Seq::empty(),
    }
}

/// The text between `open` and `close`, on one line, after the first `lead`.
pub open spec fn led_span(t: Seq<char>, lead: Seq<char>, open: Seq<char>, close: Seq<char>) -> Option<
    (int, int),
> {
    match first_from(t, lead, 0) {
        None => None,
        Some(a) => delimited_line(t, open, close, a + lead.len()),
    }
}

fn find_led(t: &Vec<char>, lead: &Vec<char>, open: &Vec<char>, close: &Vec<char>) -> (r: Option<
    (usize, usize),
>)
    ensures
        match r {
            Some((s, e)) => led_span(t@, lead@, open@, close@) == Some((s as int, e as int)) && s
                <= e <= t@.len(),
            None => led_span(t@, lead@, open@, close@) is None,
        },
{
    let tl = t.len();
    match find_from(t, lead, 0) {
        None => None,
        Some(a) => {
            proof {
                lemma_first_from(t@, lead@, 0);
            }
            assert(a + lead@.len() <= tl);
            find_delimited_line(t, open, close, a + lead.len())
        },
    }
}

fn text_of_span(t: &Vec<char>, sp: Option<(usize, usize)>) -> (r: Vec<char>)
    requires
        match sp {
            Some((s, e)) => s <= e <= t@.len(),
            None => true,
        },
    ensures
        r@ == span_text(
            t@,
            match sp {
                Some((s, e)) => Some((s as int, e as int)),
                None => None,
            },
        ),
{
    match sp {
        Some((s, e)) => slice_of(t, s, e),
        None => Vec::new(),
    }
}

// ---- search results page ----

/// The first result record: from the first `<li>` through the first `</li>`
/// that follows, in order, an `<a target=` and an `<img`.
pub open spec fn item_span(t: Seq<char>) -> Option<(int, int)> {
    match first_from(t, "<li>"@, 0) {
        None => None,
        Some(a) => match first_from(t, "<a target="@, a + 4) {
            None => None,
            Some(b) => match first_from(t, "<img"@, b + 10) {
                None => None,
                Some(c) => match first_from(t, "</li>"@, c + 4) {
                    None => None,
                    Some(d) => Some((a, d + 5)),
                },
            },
        },
    }
}

/// The markup of the first result record, or nothing.
pub open spec fn item_text(page: Seq<char>) -> Seq<char> {
    span_text(page, item_span(page))
}

pub open spec fn link_span(blk: Seq<char>) -> Option<(int, int)> {
    delimited_line(blk, "<a target=\"_blank\" href=\""@, "\" class=\"imgbox\">"@, 0)
}

pub open spec fn title_span(blk: Seq<char>) -> Option<(int, int)> {
    led_line(blk, "<h3><a target=\"_blank\" href=\""@, "\">"@, "</a></h3>"@, 0)
}

pub open spec fn author_span(blk: Seq<char>) -> Option<(int, int)> {
    led_span(blk, "<div class=\"labelbox\">"@, "<label>"@, "</label>"@)
}

/// A title or author name without the highlight wrapper.
pub open spec fn strip_highlight(s: Seq<char>) -> Seq<char> {
    replace_all(replace_all(s, "<span class=\"hottext\">"@, ""@), "</span>"@, ""@)
}

/// A record's link rewritten to the table of contents on the mirror host.
pub open spec fn mirror_location(s: Seq<char>) -> Seq<char> {
    replace_all(replace_all(s, ".htm"@, "/"@), "www.69shuba.com"@, "cooolr.online"@)
}

/// Moves a link to the mirror host.
pub open spec fn mirror_host(s: Seq<char>) -> Seq<char> {
    replace_all(s, "www.69shuba.com"@, "cooolr.online"@)
}

pub open spec fn result_title(page: Seq<char>) -> Seq<char> {
    strip_highlight(span_text(item_text(page), title_span(item_text(page))))
}

pub open spec fn result_author(page: Seq<char>) -> Seq<char> {
    strip_highlight(span_text(item_text(page), author_span(item_text(page))))
}

pub open spec fn result_location(page: Seq<char>) -> Seq<char> {
    mirror_location(span_text(item_text(page), link_span(item_text(page))))
}

/// The record that a search yields. A field that the record does not hold
/// is empty.
pub struct SearchResult {
    pub title: String,
    pub author: String,
    pub document_location: String,
}

impl SearchResult {
    /// Whether the search found a record with a location to continue from.
    pub fn is_found(&self) -> (r: bool)
        ensures
            r == (self.document_location@.len() > 0),
    {
        !self.document_location.as_str().is_empty()
    }
}

fn find_item(t: &Vec<char>) -> (r: Option<(usize, usize)>)
    ensures
        match r {
            Some((s, e)) => item_span(t@) == Some((s as int, e as int)) && s <= e <= t@.len(),
            None => item_span(t@) is None,
        },
{
    proof {
        reveal_strlit("<li>");
        reveal_strlit("<a target=");
        reveal_strlit("<img");
        reveal_strlit("</li>");
    }
    let tl = t.len();
    let li = chars_of("<li>");
    let anchor = chars_of("<a target=");
    let img = chars_of("<img");
    let li_end = chars_of("</li>");
    let a = match find_from(t, &li, 0) {
        None => return None,
        Some(a) => a,
    };
    proof {
        lemma_first_from(t@, li@, 0);
    }
    let b = match find_from(t, &anchor, a + 4) {
        None => return None,
        Some(b) => b,
    };
    proof {
        lemma_first_from(t@, anchor@, a + 4);
    }
    assert(b + 10 <= tl);
    let c = match find_from(t, &img, b + 10) {
        None => return None,
        Some(c) => c,
    };
    proof {
        lemma_first_from(t@, img@, b + 10);
    }
    let d = match find_from(t, &li_end, c + 4) {
        None => return None,
        Some(d) => d,
    };
    proof {
        lemma_first_from(t@, li_end@, c + 4);
    }
    assert(d + 5 <= tl);
    Some((a, d + 5))
}

fn strip_highlight_chars(s: &Vec<char>) -> (r: Vec<char>)
    ensures
        r@ == strip_highlight(s@),
{
    proof {
        reveal_strlit("<span class=\"hottext\">");
        reveal_strlit("</span>");
    }
    let s1 = replace_lit(s, "<span class=\"hottext\">", "");
    replace_lit(&s1, "</span>", "")
}

/// Reads the first result record of a search results page: its title and
/// author, free of highlight markup, and the link to its table of contents
/// on the mirror host. Only the first record is read; a page without one
/// gives three empty fields.
pub fn parse_search_page(page: &str) -> (r: SearchResult)
    ensures
        r.title@ == result_title(page@),
        r.author@ == result_author(page@),
        r.document_location@ == result_location(page@),
{
    let t = chars_of(page);
    let blk = text_of_span(&t, find_item(&t));
    let lead_title = chars_of("<h3><a target=\"_blank\" href=\"");
    let open_title = chars_of("\">");
    let close_title = chars_of("</a></h3>");
    let title = text_of_span(&blk, find_led_line(&blk, &lead_title, &open_title, &close_title, 0));
    let lead_author = chars_of("<div class=\"labelbox\">");
    let open_author = chars_of("<label>");
    let close_author = chars_of("</label>");
    let author = text_of_span(&blk, find_led(&blk, &lead_author, &open_author, &close_author));
    let open_link = chars_of("<a target=\"_blank\" href=\"");
    let close_link = chars_of("\" class=\"imgbox\">");
    let link = text_of_span(&blk, find_delimited_line(&blk, &open_link, &close_link, 0));
    proof {
        reveal_strlit(".htm");
        reveal_strlit("www.69shuba.com");
    }
    let link1 = replace_lit(&link, ".htm", "/");
    let location = replace_lit(&link1, "www.69shuba.com", "cooolr.online");
    SearchResult {
        title: string_of(&strip_highlight_chars(&title)),
        author: string_of(&strip_highlight_chars(&author)),
        document_location: string_of(&location),
    }
}

// ---- table of contents ----

pub open spec fn is_ascii_digit(c: char) -> bool {
    '0' as u32 <= c as u32 && c as u32 <= '9' as u32
}

/// The end of the run of decimal digits that starts at `i`.
pub open spec fn digits_end(t: Seq<char>, i: int) -> int
    decreases t.len() - i,
{
    if 0 <= i < t.len() && is_ascii_digit(t[i]) {
        digits_end(t, i + 1)
    } else {
        i
    }
}

/// A chapter entry whose `<li data-num="` stands at `o`: a run of digits, then
/// `"><a href="` and a link on the origin host's `txt/` path up to the first
/// `">`, then the first `</a></li>`, the last two gaps on one line. Gives the
/// link's span and the entry's end.
pub open spec fn entry_at(t: Seq<char>, o: int) -> Option<(int, int, int)> {
    let d = digits_end(t, o + 14);
    if occurs_at(t, "\"><a href=\""@, d) && occurs_at(t, "https://www.69shuba.com/txt/"@, d + 11) {
        match first_from(t, "\">"@, d + 39) {
            None => None,
            Some(k) => match first_from(t, "</a></li>"@, k + 2) {
                None => None,
                Some(m) => if line_free(t, d + 39, k) && line_free(t, k + 2, m) {
                    Some((d + 11, k, m + 9))
                } else {
                    None
                },
            },
        }
    } else {
        None
    }
}

/// The links of all chapter entries at or after `from`, in the order of the
/// page; the search for the next entry resumes where the last one ended.
pub open spec fn entries_from(t: Seq<char>, from: int) -> Seq<Seq<char>>
    decreases t.len() - from,
{
    if from < 0 || from > t.len() {
        Seq::empty()
    } else {
        match first_from(t, "<li data-num=\""@, from) {
            None => Seq::empty(),
            Some(o) => if o < from || o >= t.len() {
                Seq::empty()
            } else {
                match entry_at(t, o) {
                    Some((s, k, end)) => if o < end <= t.len() && 0 <= s <= k <= t.len() {
                        seq![t.subrange(s, k)] + entries_from(t, end)
                    } else {
                        Seq::empty()
                    },
                    None => entries_from(t, o + 1),
                }
            },
        }
    }
}

/// The chapter links of a table of contents page, moved to the mirror host.
pub open spec fn chapter_links(page: Seq<char>) -> Seq<Seq<char>> {
    entries_from(page, 0).map_values(|u: Seq<char>| mirror_host(u))
}

fn digit_at(t: &Vec<char>, d: usize) -> (r: bool)
    ensures
        r == (d < t@.len() && is_ascii_digit(t@[d as int])),
{
    d < t.len() && '0' as u32 <= t[d] as u32 && t[d] as u32 <= '9' as u32
}

fn entry_at_exec(t: &Vec<char>, o: usize) -> (r: Option<(usize, usize, usize)>)
    requires
        o + 14 <= t@.len(),
    ensures
        match r {
            Some((s, k, end)) => entry_at(t@, o as int) == Some((s as int, k as int, end as int))
                && o < end <= t@.len() && s <= k <= t@.len(),
            None => entry_at(t@, o as int) is None,
        },
{
    proof {
        reveal_strlit("\"><a href=\"");
        reveal_strlit("https://www.69shuba.com/txt/");
        reveal_strlit("\">");
        reveal_strlit("</a></li>");
    }
    let tl = t.len();
    let mut d: usize = o + 14;
    while digit_at(t, d)
        invariant
            tl == t@.len(),
            o + 14 <= d <= tl,
            digits_end(t@, o + 14) == digits_end(t@, d as int),
        decreases tl - d,
    {
        d += 1;
    }
    let glue = chars_of("\"><a href=\"");
    let site = chars_of("https://www.69shuba.com/txt/");
    if tl < 39 || d > tl - 39 || !matches_at(t, &glue, d) || !matches_at(t, &site, d + 11) {
        return None;
    }
    let link_end = chars_of("\">");
    let entry_end = chars_of("</a></li>");
    let k = match find_from(t, &link_end, d + 39) {
        None => return None,
        Some(k) => k,
    };
    proof {
        lemma_first_from(t@, link_end@, d + 39);
    }
    let m = match find_from(t, &entry_end, k + 2) {
        None => return None,
        Some(m) => m,
    };
    proof {
        lemma_first_from(t@, entry_end@, k + 2);
    }
    assert(m + 9 <= tl);
    if !no_line_break(t, d + 39, k) || !no_line_break(t, k + 2, m) {
        return None;
    }
    Some((d + 11, k, m + 9))
}

/// Reads the chapter links of a table of contents page, in the order of the
/// page, each moved from the origin host to the mirror host. A page without
/// entries gives an empty list.
pub fn parse_node_list(page: &str) -> (r: Vec<String>)
    ensures
        r@.len() == chapter_links(page@).len(),
        forall|i: int| 0 <= i < r@.len() ==> #[trigger] r@[i]@ == chapter_links(page@)[i],
{
    proof {
        reveal_strlit("<li data-num=\"");
        reveal_strlit("www.69shuba.com");
    }
    let t = chars_of(page);
    let tl = t.len();
    let open = chars_of("<li data-num=\"");
    let mut out: Vec<String> = Vec::new();
    let ghost mut acc: Seq<Seq<char>> = Seq::empty();
    let mut pos: usize = 0;
    loop
        invariant
            tl == t@.len(),
            t@ == page@,
            open@ == "<li data-num=\""@,
            pos <= tl,
            acc + entries_from(t@, pos as int) == entries_from(t@, 0),
            out@.len() == acc.len(),
            forall|i: int| 0 <= i < out@.len() ==> #[trigger] out@[i]@ == mirror_host(acc[i]),
        decreases tl - pos,
    {
        match find_from(&t, &open, pos) {
            None => {
                proof {
                    assert(acc + Seq::<Seq<char>>::empty() =~= acc);
                    assert(acc =~= entries_from(t@, 0));
                }
                return out;
            },
            Some(o) => {
                proof {
                    lemma_first_from(t@, open@, pos as int);
                    reveal_strlit("<li data-num=\"");
                    reveal_strlit("www.69shuba.com");
                }
                match entry_at_exec(&t, o) {
                    Some((s, k, end)) => {
                        let link = slice_of(&t, s, k);
                        let moved = replace_lit(&link, "www.69shuba.com", "cooolr.online");
                        out.push(string_of(&moved));
                        proof {
                            let item = t@.subrange(s as int, k as int);
                            assert(entries_from(t@, pos as int) == seq![item] + entries_from(
                                t@,
                                end as int,
                            ));
                            assert(acc + (seq![item] + entries_from(t@, end as int)) =~= acc.push(
                                item,
                            ) + entries_from(t@, end as int));
                            acc = acc.push(item);
                        }
                        pos = end;
                    },
                    None => {
                        pos = o + 1;
                    },
                }
            },
        }
    }
}

// ---- chapter page ----

/// The region of a chapter page between the second and the third
/// advertisement slot.
pub open spec fn body_span(page: Seq<char>) -> Option<(int, int)> {
    delimited(page, "<script>loadAdv(2,0);</script>"@, "<script>loadAdv(3,0);</script>"@, 0)
}

/// Chapter text without its cosmetic markup, removed in a fixed order.
pub open spec fn clean_chapter(s: Seq<char>) -> Seq<char> {
    let s1 = replace_all(s, "<div class=\"bottom-ad\">"@, ""@);
    let s2 = replace_all(s1, "</div>"@, ""@);
    let s3 = replace_all(s2, "&nbsp;"@, " "@);
    let s4 = replace_all(s3, "<br />"@, ""@);
    let s5 = replace_all(s4, "<br>"@, ""@);
    let s6 = replace_all(s5, "\r"@, ""@);
    let s7 = replace_all(s6, "&emsp;"@, "  "@);
    replace_all(s7, "(本章完)"@, ""@)
}

/// The readable text of a chapter page: the cleaned region between the two
/// boundary markers, or nothing where either is missing.
pub open spec fn chapter_text(page: Seq<char>) -> Seq<char> {
    match body_span(page) {
        Some((s, e)) => clean_chapter(page.subrange(s, e)),
        None => Seq::empty(),
    }
}

fn clean_chapter_chars(s: &Vec<char>) -> (r: Vec<char>)
    ensures
        r@ == clean_chapter(s@),
{
    proof {
        reveal_strlit("<div class=\"bottom-ad\">");
        reveal_strlit("</div>");
        reveal_strlit("&nbsp;");
        reveal_strlit("<br />");
        reveal_strlit("<br>");
        reveal_strlit("\r");
        reveal_strlit("&emsp;");
        reveal_strlit("(本章完)");
    }
    let s1 = replace_lit(s, "<div class=\"bottom-ad\">", "");
    let s2 = replace_lit(&s1, "</div>", "");
    let s3 = replace_lit(&s2, "&nbsp;", " ");
    let s4 = replace_lit(&s3, "<br />", "");
    let s5 = replace_lit(&s4, "<br>", "");
    let s6 = replace_lit(&s5, "\r", "");
    let s7 = replace_lit(&s6, "&emsp;", "  ");
    replace_lit(&s7, "(本章完)", "")
}

/// The readable text of a decoded chapter page.
pub fn chapter_body(page: &str) -> (r: String)
    ensures
        r@ == chapter_text(page@),
{
    let t = chars_of(page);
    let start = chars_of("<script>loadAdv(2,0);</script>");
    let end = chars_of("<script>loadAdv(3,0);</script>");
    match find_delimited(&t, &start, &end, 0) {
        None => String::new(),
        Some((s, e)) => string_of(&clean_chapter_chars(&slice_of(&t, s, e))),
    }
}

/// The readable text of a chapter page given as the bytes the site sent,
/// which are GBK.
pub fn extract_content(bytes: &[u8]) -> (r: String)
    ensures
        r@ == chapter_text(gbk_text(bytes@)),
        ascii_bytes(bytes@) ==> r@ == chapter_text(bytes@.map_values(|x: u8| x as char)),
{
    let page = gbk_decode(bytes);
    chapter_body(page.as_str())
}

// ---- laws ----

/// A results page without a record gives a search result whose title,
/// author and location are all empty.
pub proof fn lemma_no_record_is_empty(page: Seq<char>)
    requires
        item_span(page) is None,
    ensures
        result_title(page) == Seq::<char>::empty(),
        result_author(page) == Seq::<char>::empty(),
        result_location(page) == Seq::<char>::empty(),
{
    reveal_strlit("<h3><a target=\"_blank\" href=\"");
    reveal_strlit("<div class=\"labelbox\">");
    reveal_strlit("<a target=\"_blank\" href=\"");
    let blk = item_text(page);
    assert(blk.len() == 0);
    assert(title_span(blk) is None);
    assert(author_span(blk) is None);
    assert(link_span(blk) is None);
}

/// Where a pattern occurs nowhere in a text, no search for it succeeds.
proof fn lemma_absent_not_found(t: Seq<char>, p: Seq<char>, from: int)
    requires
        forall|i: int| !occurs_at(t, p, i),
    ensures
        first_from(t, p, from) is None,
{
    lemma_first_from(t, p, from);
}

/// A chapter page that lacks either boundary marker gives empty text.
pub proof fn lemma_missing_marker_is_empty(page: Seq<char>)
    requires
        (forall|i: int| !occurs_at(page, "<script>loadAdv(2,0);</script>"@, i)) || (forall|i: int|
            !occurs_at(page, "<script>loadAdv(3,0);</script>"@, i)),
    ensures
        chapter_text(page) == Seq::<char>::empty(),
{
    let start = "<script>loadAdv(2,0);</script>"@;
    let end = "<script>loadAdv(3,0);</script>"@;
    if forall|i: int| !occurs_at(page, start, i) {
        lemma_absent_not_found(page, start, 0);
    } else {
        match first_from(page, start, 0) {
            Some(a) => lemma_absent_not_found(page, end, a + start.len()),
            None => {},
        }
    }
}

/// A chapter page with a start marker followed, after it, by an end marker
/// gives the cleaned text between the first start marker and the first end
/// marker after it.
pub proof fn lemma_markers_give_between(page: Seq<char>, a: int, e: int)
    requires
        occurs_at(page, "<script>loadAdv(2,0);</script>"@, a),
        forall|i: int| 0 <= i < a ==> !occurs_at(page, "<script>loadAdv(2,0);</script>"@, i),
        occurs_at(page, "<script>loadAdv(3,0);</script>"@, e),
        a + "<script>loadAdv(2,0);</script>"@.len() <= e,
        forall|i: int|
            a + "<script>loadAdv(2,0);</script>"@.len() <= i < e ==> !occurs_at(
                page,
                "<script>loadAdv(3,0);</script>"@,
                i,
            ),
    ensures
        chapter_text(page) == clean_chapter(
            page.subrange(a + "<script>loadAdv(2,0);</script>"@.len(), e),
        ),
{
    let start = "<script>loadAdv(2,0);</script>"@;
    let end = "<script>loadAdv(3,0);</script>"@;
    lemma_first_at(page, start, 0, a);
    lemma_first_at(page, end, a + start.len(), e);
}

/// The first occurrence at or after `from` is the one that no earlier one precedes.
proof fn lemma_first_at(t: Seq<char>, p: Seq<char>, from: int, i: int)
    requires
        0 <= from <= i,
        occurs_at(t, p, i),
        forall|j: int| from <= j < i ==> !occurs_at(t, p, j),
    ensures
        first_from(t, p, from) == Some(i),
    decreases i - from,
{
    if from < i {
        lemma_first_at(t, p, from + 1, i);
    }
}

} // verus!
