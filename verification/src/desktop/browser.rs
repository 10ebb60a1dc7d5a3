//! The HAAVK browser: tabs, bookmarks, history, and turning a fetched page
//! into a title and plain text.
use vstd::prelude::*;

use crate::text::{
    chars_of, concat3, decimal, find_chars, find_seq, has_prefix, idx_of, is_ws, lemma_idx_of, lemma_idx_of_bound, join_seq, join_strings, line_bounds, lines_of,
    owned, prefix_chars, push_char, push_decimal, push_str, str_eq, string_of, take_chars, trim,
    trim_bounds, trim_end_seq, trim_seq, trim_start_seq,
};

verus! {

// ---------------------------------------------------------------------------
// Pages
// ---------------------------------------------------------------------------

/// Scanning `s` from the left: the text outside tags so far, and whether a
/// tag is open. `<` opens a tag; `>` closes it and stands for a line break.
pub open spec fn untag(s: Seq<char>) -> (Seq<char>, bool)
    decreases s.len(),
{
    if s.len() == 0 {
        (seq![], false)
    } else {
        let (out, in_tag) = untag(s.drop_last());
        let c = s.last();
        if c == '<' {
            (out, true)
        } else if c == '>' {
            (out.push('\n'), false)
        } else if !in_tag {
            (out.push(c), in_tag)
        } else {
            (out, in_tag)
        }
    }
}

/// The lines, each trimmed, without those left empty.
pub open spec fn nonblank_lines(ls: Seq<Seq<char>>) -> Seq<Seq<char>>
    decreases ls.len(),
{
    if ls.len() == 0 {
        seq![]
    } else {
        let r = nonblank_lines(ls.drop_last());
        let t = trim_seq(ls.last());
        if t.len() > 0 {
            r.push(t)
        } else {
            r
        }
    }
}

/// The plain text of an HTML document: the text outside tags, its lines
/// trimmed, blank lines dropped, joined by line breaks.
pub open spec fn plain_text(html: Seq<char>) -> Seq<char> {
    join_seq(nonblank_lines(lines_of(untag(html).0)), "\n"@)
}

/// The plain text of an HTML document.
pub fn strip_html(html: &str) -> (r: String)
    ensures
        r@ == plain_text(html@),
{
    let v = chars_of(html);
    let mut out = String::new();
    let mut in_tag = false;
    let mut i: usize = 0;
    assert(v@.take(0) =~= Seq::<char>::empty());
    while i < v.len()
        invariant
            i <= v.len(),
            v@ == html@,
            (out@, in_tag) == untag(v@.take(i as int)),
        decreases v.len() - i,
    {
        assert(v@.take(i as int + 1).drop_last() =~= v@.take(i as int));
        let ch = v[i];
        if ch == '<' {
            in_tag = true;
        } else if ch == '>' {
            in_tag = false;
            push_char(&mut out, '\n');
        } else if !in_tag {
            push_char(&mut out, ch);
        }
        i = i + 1;
    }
    assert(v@.take(i as int) =~= v@);
    let w = chars_of(out.as_str());
    let bounds = line_bounds(&w);
    let ghost ls = lines_of(w@);
    let mut parts: Vec<String> = Vec::new();
    let mut k: usize = 0;
    while k < bounds.len()
        invariant
            k <= bounds.len(),
            ls == lines_of(w@),
            bounds@.len() == ls.len(),
            forall|j: int|
                0 <= j < bounds@.len() ==> {
                    &&& (#[trigger] bounds@[j]).0 <= bounds@[j].1 <= w.len()
                    &&& w@.subrange(bounds@[j].0 as int, bounds@[j].1 as int) == ls[j]
                },
            parts@.map_values(|p: String| p@) == nonblank_lines(ls.take(k as int)),
        decreases bounds.len() - k,
    {
        let (a, e) = bounds[k];
        let (x, y) = trim_bounds(&w, a, e);
        assert(ls.take(k as int + 1).drop_last() =~= ls.take(k as int));
        assert(ls.take(k as int + 1).last() == ls[k as int]);
        if x < y {
            let ghost prev = parts@;
            parts.push(string_of(&w, x, y));
            assert(parts@.map_values(|p: String| p@) =~= prev.map_values(|p: String| p@).push(
                w@.subrange(x as int, y as int),
            ));
        }
        k = k + 1;
    }
    assert(ls.take(k as int) =~= ls);
    join_strings(&parts, "\n")
}

/// No character of `s` is a tag bracket.
pub open spec fn bracket_free(s: Seq<char>) -> bool {
    forall|i: int| 0 <= i < s.len() ==> #[trigger] s[i] != '<' && s[i] != '>'
}

proof fn lemma_untag_bracket_free(s: Seq<char>)
    ensures
        bracket_free(untag(s).0),
    decreases s.len(),
{
    if s.len() > 0 {
        lemma_untag_bracket_free(s.drop_last());
    }
}

proof fn lemma_sub_bracket_free(s: Seq<char>, a: int, b: int)
    requires
        bracket_free(s),
        0 <= a <= b <= s.len(),
    ensures
        bracket_free(s.subrange(a, b)),
{
    assert forall|i: int| 0 <= i < b - a implies #[trigger] s.subrange(a, b)[i] != '<' && s.subrange(a, b)[i] != '>' by {
        assert(s.subrange(a, b)[i] == s[a + i]);
    }
}

proof fn lemma_trim_bracket_free(s: Seq<char>)
    requires
        bracket_free(s),
    ensures
        bracket_free(trim_seq(s)),
{
    lemma_trim_start_bracket_free(s);
    lemma_trim_end_bracket_free(trim_start_seq(s));
}

proof fn lemma_trim_start_bracket_free(s: Seq<char>)
    requires
        bracket_free(s),
    ensures
        bracket_free(trim_start_seq(s)),
    decreases s.len(),
{
    if s.len() > 0 && is_ws(s[0]) {
        lemma_sub_bracket_free(s, 1, s.len() as int);
        assert(s.drop_first() =~= s.subrange(1, s.len() as int));
        lemma_trim_start_bracket_free(s.drop_first());
    }
}

proof fn lemma_trim_end_bracket_free(s: Seq<char>)
    requires
        bracket_free(s),
    ensures
        bracket_free(trim_end_seq(s)),
    decreases s.len(),
{
    if s.len() > 0 && is_ws(s.last()) {
        lemma_sub_bracket_free(s, 0, s.len() - 1);
        assert(s.drop_last() =~= s.subrange(0, s.len() - 1));
        lemma_trim_end_bracket_free(s.drop_last());
    }
}

proof fn lemma_lines_bracket_free(s: Seq<char>)
    requires
        bracket_free(s),
    ensures
        forall|k: int| 0 <= k < lines_of(s).len() ==> bracket_free(#[trigger] lines_of(s)[k]),
    decreases s.len(),
{
    if s.len() > 0 {
        let i = idx_of(s, '\n');
        lemma_idx_of_bound(s, '\n');
        lemma_sub_bracket_free(s, 0, i as int);
        assert(s.take(i as int) =~= s.subrange(0, i as int));
        if i > 0 {
            lemma_sub_bracket_free(s, 0, i - 1);
            assert(s.take(i - 1) =~= s.subrange(0, i - 1));
        }
        if i < s.len() {
            lemma_sub_bracket_free(s, i as int + 1, s.len() as int);
            assert(s.skip(i as int + 1) =~= s.subrange(i as int + 1, s.len() as int));
            lemma_lines_bracket_free(s.skip(i as int + 1));
        }
        let line = if i < s.len() && i > 0 && s[i - 1] == '\r' {
            s.take(i - 1)
        } else {
            s.take(i as int)
        };
        let rest = if i < s.len() {
            lines_of(s.skip(i as int + 1))
        } else {
            seq![]
        };
        assert(lines_of(s) == seq![line] + rest);
        assert forall|k: int| 0 <= k < lines_of(s).len() implies bracket_free(#[trigger] lines_of(s)[k]) by {
            if k > 0 {
                assert(lines_of(s)[k] == rest[k - 1]);
            }
        }
    }
}

proof fn lemma_nonblank_bracket_free(ls: Seq<Seq<char>>)
    requires
        forall|k: int| 0 <= k < ls.len() ==> bracket_free(#[trigger] ls[k]),
    ensures
        forall|k: int| 0 <= k < nonblank_lines(ls).len() ==> bracket_free(#[trigger] nonblank_lines(ls)[k]),
    decreases ls.len(),
{
    if ls.len() > 0 {
        let d = ls.drop_last();
        assert forall|k: int| 0 <= k < d.len() implies bracket_free(#[trigger] d[k]) by {
            assert(d[k] == ls[k]);
        }
        lemma_nonblank_bracket_free(d);
        assert(bracket_free(ls[ls.len() - 1]));
        lemma_trim_bracket_free(ls.last());
        let r = nonblank_lines(d);
        let t = trim_seq(ls.last());
        assert forall|k: int| 0 <= k < nonblank_lines(ls).len() implies bracket_free(#[trigger] nonblank_lines(ls)[k]) by {
            if t.len() > 0 {
                if k < r.len() {
                    assert(nonblank_lines(ls)[k] == r[k]);
                } else {
                    assert(nonblank_lines(ls)[k] == t);
                }
            } else {
                assert(nonblank_lines(ls)[k] == r[k]);
            }
        }
    }
}

proof fn lemma_join_bracket_free(items: Seq<Seq<char>>, sep: Seq<char>)
    requires
        forall|k: int| 0 <= k < items.len() ==> bracket_free(#[trigger] items[k]),
        bracket_free(sep),
    ensures
        bracket_free(join_seq(items, sep)),
    decreases items.len(),
{
    if items.len() > 1 {
        let d = items.drop_last();
        assert forall|k: int| 0 <= k < d.len() implies bracket_free(#[trigger] d[k]) by {
            assert(d[k] == items[k]);
        }
        lemma_join_bracket_free(d, sep);
        let j = join_seq(d, sep);
        let l = items.last();
        assert(bracket_free(items[items.len() - 1]));
        assert forall|i: int| 0 <= i < (j + sep + l).len() implies #[trigger] (j + sep + l)[i] != '<' && (j
            + sep + l)[i] != '>' by {
            if i < j.len() {
                assert((j + sep + l)[i] == j[i]);
            } else if i < j.len() + sep.len() {
                assert((j + sep + l)[i] == sep[i - j.len()]);
            } else {
                assert((j + sep + l)[i] == l[i - j.len() - sep.len()]);
            }
        }
    } else if items.len() == 1 {
        assert(bracket_free(items[0]));
    }
}

/// The plain text of an HTML document holds no tag brackets: every `<` and
/// `>` of the document is gone.
pub proof fn law_plain_text_has_no_tags(html: Seq<char>)
    ensures
        bracket_free(plain_text(html)),
{
    reveal_strlit("\n");
    lemma_untag_bracket_free(html);
    lemma_lines_bracket_free(untag(html).0);
    lemma_nonblank_bracket_free(lines_of(untag(html).0));
    lemma_join_bracket_free(nonblank_lines(lines_of(untag(html).0)), "\n"@);
}

/// No character of `s` is `c`.
pub open spec fn lacks(s: Seq<char>, c: char) -> bool {
    forall|i: int| 0 <= i < s.len() ==> #[trigger] s[i] != c
}

/// A line of plain text: not empty, without line break, and without
/// whitespace at either end.
pub open spec fn clean_line(l: Seq<char>) -> bool {
    &&& l.len() > 0
    &&& !is_ws(l[0])
    &&& !is_ws(l.last())
    &&& lacks(l, '\n')
}

proof fn lemma_trim_start_lacks(s: Seq<char>, c: char)
    requires
        lacks(s, c),
    ensures
        lacks(trim_start_seq(s), c),
        trim_start_seq(s).len() > 0 ==> !is_ws(trim_start_seq(s)[0]),
    decreases s.len(),
{
    if s.len() > 0 && is_ws(s[0]) {
        assert forall|i: int| 0 <= i < s.drop_first().len() implies #[trigger] s.drop_first()[i] != c by {
            assert(s.drop_first()[i] == s[i + 1]);
        }
        lemma_trim_start_lacks(s.drop_first(), c);
    }
}

proof fn lemma_trim_end_lacks(s: Seq<char>, c: char)
    requires
        lacks(s, c),
    ensures
        lacks(trim_end_seq(s), c),
        trim_end_seq(s).len() > 0 ==> !is_ws(trim_end_seq(s).last()),
        trim_end_seq(s).len() > 0 ==> trim_end_seq(s)[0] == s[0],
    decreases s.len(),
{
    if s.len() > 0 && is_ws(s.last()) {
        let d = s.drop_last();
        assert forall|i: int| 0 <= i < d.len() implies #[trigger] d[i] != c by {
            assert(d[i] == s[i]);
        }
        lemma_trim_end_lacks(d, c);
        if trim_end_seq(d).len() > 0 {
            assert(d[0] == s[0]);
        }
    }
}

proof fn lemma_trim_clean(s: Seq<char>)
    requires
        lacks(s, '\n'),
        trim_seq(s).len() > 0,
    ensures
        clean_line(trim_seq(s)),
{
    lemma_trim_start_lacks(s, '\n');
    lemma_trim_end_lacks(trim_start_seq(s), '\n');
}

proof fn lemma_lines_lack_breaks(s: Seq<char>)
    ensures
        forall|k: int| 0 <= k < lines_of(s).len() ==> lacks(#[trigger] lines_of(s)[k], '\n'),
    decreases s.len(),
{
    if s.len() > 0 {
        let i = idx_of(s, '\n');
        lemma_idx_of_bound(s, '\n');
        if i < s.len() {
            lemma_lines_lack_breaks(s.skip(i as int + 1));
        }
        let line = if i < s.len() && i > 0 && s[i - 1] == '\r' {
            s.take(i - 1)
        } else {
            s.take(i as int)
        };
        let rest = if i < s.len() {
            lines_of(s.skip(i as int + 1))
        } else {
            seq![]
        };
        assert(lines_of(s) == seq![line] + rest);
        assert forall|j: int| 0 <= j < line.len() implies #[trigger] line[j] != '\n' by {
            assert(line[j] == s[j]);
        }
        assert forall|k: int| 0 <= k < lines_of(s).len() implies lacks(#[trigger] lines_of(s)[k], '\n') by {
            if k > 0 {
                assert(lines_of(s)[k] == rest[k - 1]);
            } else {
                assert(lines_of(s)[k] == line);
            }
        }
    }
}

proof fn lemma_nonblank_clean(ls: Seq<Seq<char>>)
    requires
        forall|k: int| 0 <= k < ls.len() ==> lacks(#[trigger] ls[k], '\n'),
    ensures
        forall|k: int| 0 <= k < nonblank_lines(ls).len() ==> clean_line(#[trigger] nonblank_lines(ls)[k]),
    decreases ls.len(),
{
    if ls.len() > 0 {
        let d = ls.drop_last();
        assert forall|k: int| 0 <= k < d.len() implies lacks(#[trigger] d[k], '\n') by {
            assert(d[k] == ls[k]);
        }
        lemma_nonblank_clean(d);
        assert(lacks(ls[ls.len() - 1], '\n'));
        let r = nonblank_lines(d);
        let t = trim_seq(ls.last());
        if t.len() > 0 {
            lemma_trim_clean(ls.last());
        }
        assert forall|k: int| 0 <= k < nonblank_lines(ls).len() implies clean_line(#[trigger] nonblank_lines(ls)[k]) by {
            if t.len() > 0 {
                if k < r.len() {
                    assert(nonblank_lines(ls)[k] == r[k]);
                } else {
                    assert(nonblank_lines(ls)[k] == t);
                }
            } else {
                assert(nonblank_lines(ls)[k] == r[k]);
            }
        }
    }
}

proof fn lemma_nonblank_of_clean(ls: Seq<Seq<char>>)
    requires
        forall|k: int| 0 <= k < ls.len() ==> clean_line(#[trigger] ls[k]),
    ensures
        nonblank_lines(ls) == ls,
    decreases ls.len(),
{
    if ls.len() > 0 {
        let d = ls.drop_last();
        assert forall|k: int| 0 <= k < d.len() implies clean_line(#[trigger] d[k]) by {
            assert(d[k] == ls[k]);
        }
        lemma_nonblank_of_clean(d);
        let l = ls.last();
        assert(clean_line(ls[ls.len() - 1]));
        assert(trim_start_seq(l) == l);
        assert(trim_end_seq(l) == l);
        assert(d.push(l) =~= ls);
    }
}

proof fn lemma_join_front(items: Seq<Seq<char>>, sep: Seq<char>)
    requires
        items.len() >= 2,
    ensures
        join_seq(items, sep) == items[0] + sep + join_seq(items.drop_first(), sep),
    decreases items.len(),
{
    let d = items.drop_last();
    let t = items.drop_first();
    assert(join_seq(items, sep) == join_seq(d, sep) + sep + items.last());
    if items.len() > 2 {
        lemma_join_front(d, sep);
        assert(d.drop_first() =~= t.drop_last());
        assert(t.last() == items.last());
        assert(join_seq(t, sep) == join_seq(t.drop_last(), sep) + sep + t.last());
        assert(d[0] == items[0]);
        assert(join_seq(items, sep) =~= items[0] + sep + join_seq(t, sep));
    } else {
        assert(join_seq(d, sep) == d[0]);
        assert(join_seq(t, sep) == t[0]);
        assert(d[0] == items[0] && t[0] == items.last());
        assert(join_seq(items, sep) =~= items[0] + sep + join_seq(t, sep));
    }
}

proof fn lemma_lines_of_join(items: Seq<Seq<char>>)
    requires
        forall|k: int| 0 <= k < items.len() ==> clean_line(#[trigger] items[k]),
    ensures
        lines_of(join_seq(items, "\n"@)) == items,
    decreases items.len(),
{
    reveal_strlit("\n");
    if items.len() == 1 {
        let s = items[0];
        assert(clean_line(items[0]));
        lemma_idx_of(s, '\n', s.len() as int);
        assert(s.take(s.len() as int) =~= s);
        assert(lines_of(s) =~= seq![s]);
        assert(items =~= seq![s]);
    } else if items.len() >= 2 {
        lemma_join_front(items, "\n"@);
        let l0 = items[0];
        assert(clean_line(items[0]));
        let t = items.drop_first();
        assert forall|k: int| 0 <= k < t.len() implies clean_line(#[trigger] t[k]) by {
            assert(t[k] == items[k + 1]);
        }
        lemma_lines_of_join(t);
        let rest = join_seq(t, "\n"@);
        let s = l0 + "\n"@ + rest;
        let i = l0.len() as int;
        assert forall|j: int| 0 <= j < i implies s[j] != '\n' by {
            assert(s[j] == l0[j]);
        }
        assert(s[i] == '\n');
        lemma_idx_of(s, '\n', i);
        assert(s[i - 1] == l0.last());
        assert(is_ws('\r'));
        assert(s.take(i) =~= l0);
        assert(s.skip(i + 1) =~= rest);
        assert(lines_of(s) == seq![l0] + lines_of(rest));
        assert(seq![l0] + t =~= items);
    }
}

proof fn lemma_untag_plain(s: Seq<char>)
    requires
        bracket_free(s),
    ensures
        untag(s) == (s, false),
    decreases s.len(),
{
    if s.len() > 0 {
        lemma_sub_bracket_free(s, 0, s.len() - 1);
        assert(s.drop_last() =~= s.subrange(0, s.len() - 1));
        lemma_untag_plain(s.drop_last());
        assert(s[s.len() - 1] != '<' && s[s.len() - 1] != '>');
        assert(s.drop_last().push(s.last()) =~= s);
    }
}

/// Plain text is its own plain text: stripping the tags of stripped text
/// changes nothing. Its lines are not empty, hold no line break, and have no
/// whitespace at either end.
pub proof fn law_plain_text_idempotent(html: Seq<char>)
    ensures
        plain_text(plain_text(html)) == plain_text(html),
        forall|k: int|
            0 <= k < lines_of(plain_text(html)).len() ==> clean_line(#[trigger] lines_of(plain_text(html))[k]),
{
    reveal_strlit("\n");
    let u = untag(html).0;
    let ls = lines_of(u);
    let l = nonblank_lines(ls);
    let p = plain_text(html);
    law_plain_text_has_no_tags(html);
    lemma_untag_plain(p);
    lemma_lines_lack_breaks(u);
    lemma_nonblank_clean(ls);
    lemma_lines_of_join(l);
    lemma_nonblank_of_clean(l);
}

/// The raw title of a page: what follows its first `<title>`, up to the
/// next `<title>` and then up to `</title>`; `无标题` when there is none.
pub open spec fn raw_title(body: Seq<char>) -> Seq<char> {
    match find_seq(body, "<title>"@) {
        None => "无标题"@,
        Some(i) => {
            let piece = body.skip(i + "<title>"@.len());
            let piece2 = match find_seq(piece, "<title>"@) {
                Some(j) => piece.take(j),
                None => piece,
            };
            match find_seq(piece2, "</title>"@) {
                Some(k) => piece2.take(k),
                None => piece2,
            }
        },
    }
}

/// The title and text shown for a page fetched with HTTP status `status`:
/// the trimmed title, a middle dot and the status; the first 3000
/// characters of its plain text.
pub open spec fn page_view(status: u16, body: Seq<char>) -> (Seq<char>, Seq<char>) {
    (
        trim_seq(raw_title(body)) + " · HTTP "@ + decimal(status as nat),
        take_chars(plain_text(body), 3000),
    )
}

/// The raw title of a page.
fn page_title(body: &Vec<char>) -> (r: String)
    ensures
        r@ == raw_title(body@),
{
    let open = chars_of("<title>");
    let close = chars_of("</title>");
    assert(body@.skip(0) =~= body@);
    match find_chars(body, 0, &open) {
        None => owned("无标题"),
        Some(i) => {
            assert(i <= body.len());
            assert(has_prefix(body@.skip(i as int), open@));
            assert(body@.skip(i as int).len() == body.len() - i);
            let start = i + open.len();
            let end = match find_chars(body, start, &open) {
                Some(j) => j,
                None => body.len(),
            };
            proof {
                let piece = body@.skip(start as int);
                assert(body@.subrange(start as int, body.len() as int) =~= piece);
                if end < body.len() {
                    assert(body@.subrange(start as int, end as int) =~= piece.take(end - start));
                }
            }
            let piece = string_of(body, start, end);
            let pv = chars_of(piece.as_str());
            assert(pv@.skip(0) =~= pv@);
            match find_chars(&pv, 0, &close) {
                Some(k) => {
                    assert(pv@.subrange(0, k as int) =~= pv@.take(k as int));
                    string_of(&pv, 0, k)
                },
                None => piece,
            }
        },
    }
}

/// The title and text shown for a page fetched with HTTP status `status`.
pub fn page_from_response(status: u16, body: &str) -> (r: (String, String))
    ensures
        (r.0@, r.1@) == page_view(status, body@),
{
    let v = chars_of(body);
    let raw = page_title(&v);
    let mut title = trim(raw.as_str());
    push_str(&mut title, " · HTTP ");
    push_decimal(&mut title, status as u64);
    let text = strip_html(body);
    let preview = prefix_chars(text.as_str(), 3000);
    (title, preview)
}

// ---------------------------------------------------------------------------
// Tabs, bookmarks, history
// ---------------------------------------------------------------------------

/// One browser tab.
#[derive(Debug)]
pub struct BrowserTab {
    pub url: String,
    pub title: String,
    pub text: String,
}

/// The value of a tab: URL, title, text.
pub open spec fn tab_view(t: BrowserTab) -> (Seq<char>, Seq<char>, Seq<char>) {
    (t.url@, t.title@, t.text@)
}

/// The browser window's state.
#[derive(Debug)]
pub struct BrowserState {
    pub tabs: Vec<BrowserTab>,
    pub active: usize,
    pub url_input: String,
    pub bookmarks: Vec<String>,
    pub history: Vec<String>,
    pub show_bookmarks: bool,
}

/// The value of a browser state.
pub struct BrowserView {
    pub tabs: Seq<(Seq<char>, Seq<char>, Seq<char>)>,
    pub active: nat,
    pub url_input: Seq<char>,
    pub bookmarks: Seq<Seq<char>>,
    pub history: Seq<Seq<char>>,
    pub show_bookmarks: bool,
}

/// The most history entries a page load keeps.
pub const HISTORY_CAP: usize = 50;

/// The history after a load from the address bar added an entry: the
/// oldest entry goes when there are more than `HISTORY_CAP`.
pub open spec fn capped(h: Seq<Seq<char>>) -> Seq<Seq<char>> {
    if h.len() > HISTORY_CAP {
        h.drop_first()
    } else {
        h
    }
}

/// The text of a tab whose page could not be loaded from the address bar.
pub open spec fn load_error_text(url: Seq<char>, e: Seq<char>) -> Seq<char> {
    "无法访问 "@ + url + ": "@ + e
}

/// The label of a tab with title `title`: its first 14 characters (`新标签`
/// for an empty title) and a close mark.
pub open spec fn tab_label_spec(title: Seq<char>) -> Seq<char> {
    let t = if title.len() == 0 {
        "新标签"@
    } else {
        title
    };
    take_chars(t, 14) + " ✕"@
}

/// `after` is `before` once the active tab's URL has been bookmarked: it is
/// added at the end unless it is empty or already a bookmark.
pub open spec fn bookmarked(before: BrowserView, after: BrowserView) -> bool {
    let u = before.tabs[before.active as int].0;
    if u.len() > 0 && !before.bookmarks.contains(u) {
        after == (BrowserView { bookmarks: before.bookmarks.push(u), ..before })
    } else {
        after == before
    }
}

/// Valid bookmarks: no URL is listed twice, and none is empty.
pub open spec fn bookmarks_valid(b: Seq<Seq<char>>) -> bool {
    &&& b.no_duplicates()
    &&& forall|i: int| 0 <= i < b.len() ==> (#[trigger] b[i]).len() > 0
}

/// Bookmarking keeps the bookmarks valid: they stay as they were or gain
/// the active tab's URL at the end, and no URL is ever listed twice or
/// empty.
pub proof fn law_bookmarks_stay_valid(before: BrowserView, after: BrowserView)
    requires
        bookmarks_valid(before.bookmarks),
        bookmarked(before, after),
    ensures
        bookmarks_valid(after.bookmarks),
        after.bookmarks == before.bookmarks
            || after.bookmarks == before.bookmarks.push(before.tabs[before.active as int].0),
{
    let u = before.tabs[before.active as int].0;
    if u.len() > 0 && !before.bookmarks.contains(u) {
        let b = before.bookmarks;
        let a = after.bookmarks;
        assert forall|i: int, j: int| 0 <= i < a.len() && 0 <= j < a.len() && i != j implies a[i] != a[j] by {
            if i == b.len() {
                assert(b.contains(b[j]));
            } else if j == b.len() {
                assert(b.contains(b[i]));
            }
        }
        assert forall|i: int| 0 <= i < a.len() implies (#[trigger] a[i]).len() > 0 by {
            if i < b.len() {
                assert(a[i] == b[i]);
            }
        }
    }
}

/// A new browser starts with valid bookmarks, an empty history and its one
/// tab active.
pub proof fn law_start_is_valid()
    ensures
        bookmarks_valid(browser_start().bookmarks),
        browser_start().history.len() == 0,
        browser_start().active < browser_start().tabs.len(),
{
    reveal_strlit("https://www.example.com");
    reveal_strlit("https://github.com");
    let b = browser_start().bookmarks;
    assert(b[0].len() != b[1].len());
}

/// A page loaded from the address bar: the URL is the newest history entry,
/// and a history of at most `HISTORY_CAP` entries stays within the cap.
pub proof fn law_load_keeps_history_capped(history: Seq<Seq<char>>, url: Seq<char>)
    requires
        history.len() <= HISTORY_CAP,
    ensures
        capped(history.push(url)).len() <= HISTORY_CAP,
        capped(history.push(url)).len() > 0,
        capped(history.push(url)).last() == url,
{
}

impl BrowserState {
    /// The value of the state.
    pub open spec fn view(&self) -> BrowserView {
        BrowserView {
            tabs: self.tabs@.map_values(|t: BrowserTab| tab_view(t)),
            active: self.active as nat,
            url_input: self.url_input@,
            bookmarks: self.bookmarks@.map_values(|s: String| s@),
            history: self.history@.map_values(|s: String| s@),
            show_bookmarks: self.show_bookmarks,
        }
    }

    /// Well-formedness: there is a tab, and the active one is among them.
    pub open spec fn wf(&self) -> bool {
        self.active < self.tabs.len()
    }

    /// Replaces the active tab.
    fn set_active_tab(&mut self, tab: BrowserTab)
        requires
            old(self).wf(),
        ensures
            final(self)@ == (BrowserView {
                tabs: old(self)@.tabs.update(old(self).active as int, tab_view(tab)),
                ..old(self)@
            }),
            final(self).wf(),
    {
        let a = self.active;
        self.tabs.set(a, tab);
        assert(self@.tabs =~= old(self)@.tabs.update(a as int, tab_view(tab)));
    }

    /// Shows the result of loading `url` from the address bar: on success the
    /// active tab shows the page and the URL joins the history (capped); on
    /// failure the tab says why and keeps its URL.
    pub fn load_result(&mut self, url: &str, page: Result<(String, String), String>)
        requires
            old(self).wf(),
        ensures
            final(self).wf(),
            match page {
                Ok((title, text)) => final(self)@ == (BrowserView {
                    tabs: old(self)@.tabs.update(old(self).active as int, (url@, title@, text@)),
                    history: capped(old(self)@.history.push(url@)),
                    ..old(self)@
                }),
                Err(e) => final(self)@ == (BrowserView {
                    tabs: old(self)@.tabs.update(
                        old(self).active as int,
                        (
                            old(self)@.tabs[old(self).active as int].0,
                            "加载失败"@,
                            load_error_text(url@, e@),
                        ),
                    ),
                    ..old(self)@
                }),
            },
    {
        match page {
            Ok((title, text)) => {
                self.set_active_tab(BrowserTab { url: owned(url), title, text });
                let ghost h = self@.history;
                self.history.push(owned(url));
                assert(self@.history =~= h.push(url@));
                if self.history.len() > HISTORY_CAP {
                    let ghost h2 = self@.history;
                    self.history.remove(0);
                    assert(self@.history =~= h2.drop_first());
                }
            },
            Err(e) => {
                let old_url = owned(self.tabs[self.active].url.as_str());
                let mut text = concat3("无法访问 ", url, ": ");
                push_str(&mut text, e.as_str());
                self.set_active_tab(BrowserTab { url: old_url, title: owned("加载失败"), text });
            },
        }
    }

    /// Shows the result of opening the bookmark `url`: on success the active
    /// tab shows the page and the URL joins the history; on failure the
    /// tab's text says why.
    pub fn bookmark_result(&mut self, url: &str, page: Result<(String, String), String>)
        requires
            old(self).wf(),
        ensures
            final(self).wf(),
            match page {
                Ok((title, text)) => final(self)@ == (BrowserView {
                    tabs: old(self)@.tabs.update(old(self).active as int, (url@, title@, text@)),
                    history: old(self)@.history.push(url@),
                    ..old(self)@
                }),
                Err(e) => final(self)@ == (BrowserView {
                    tabs: old(self)@.tabs.update(
                        old(self).active as int,
                        (
                            old(self)@.tabs[old(self).active as int].0,
                            old(self)@.tabs[old(self).active as int].1,
                            "加载失败: "@ + e@,
                        ),
                    ),
                    ..old(self)@
                }),
            },
    {
        match page {
            Ok((title, text)) => {
                self.set_active_tab(BrowserTab { url: owned(url), title, text });
                let ghost h = self@.history;
                self.history.push(owned(url));
                assert(self@.history =~= h.push(url@));
            },
            Err(e) => {
                let a = self.active;
                let old_url = owned(self.tabs[a].url.as_str());
                let old_title = owned(self.tabs[a].title.as_str());
                let mut text = owned("加载失败: ");
                push_str(&mut text, e.as_str());
                self.set_active_tab(BrowserTab { url: old_url, title: old_title, text });
            },
        }
    }

    /// Adds the active tab's URL to the bookmarks, unless it is empty or
    /// already there.
    #[verifier::loop_isolation(false)]
    pub fn bookmark_current(&mut self)
        requires
            old(self).wf(),
        ensures
            final(self).wf(),
            bookmarked(old(self)@, final(self)@),
    {
        let ghost bm = self@.bookmarks;
        let url = owned(self.tabs[self.active].url.as_str());
        if url.as_str().is_empty() {
            return;
        }
        let mut i: usize = 0;
        while i < self.bookmarks.len()
            invariant
                i <= self.bookmarks.len(),
                *self == *old(self),
                bm == self@.bookmarks,
                forall|j: int| 0 <= j < i ==> bm[j] != url@,
            decreases self.bookmarks.len() - i,
        {
            if str_eq(self.bookmarks[i].as_str(), url.as_str()) {
                assert(bm[i as int] == url@);
                return;
            }
            i = i + 1;
        }
        assert(!bm.contains(url@));
        self.bookmarks.push(url);
        assert(self@.bookmarks =~= bm.push(url@));
    }

    /// Opens a new, empty tab and makes it the active one.
    pub fn new_tab(&mut self)
        requires
            old(self).tabs.len() < usize::MAX,
        ensures
            final(self).wf(),
            final(self)@ == (BrowserView {
                tabs: old(self)@.tabs.push((seq![], "新标签页"@, "新标签页"@)),
                active: old(self)@.tabs.len(),
                ..old(self)@
            }),
    {
        self.tabs.push(BrowserTab { url: String::new(), title: owned("新标签页"), text: owned("新标签页") });
        self.active = self.tabs.len() - 1;
        assert(self@.tabs =~= old(self)@.tabs.push((seq![], "新标签页"@, "新标签页"@)));
    }

    /// Makes tab `i` the active one.
    pub fn select_tab(&mut self, i: usize)
        requires
            i < old(self).tabs.len(),
        ensures
            final(self).wf(),
            final(self)@ == (BrowserView { active: i as nat, ..old(self)@ }),
    {
        self.active = i;
    }

    /// Shows or hides the bookmark bar.
    pub fn toggle_bookmarks(&mut self)
        ensures
            final(self)@ == (BrowserView { show_bookmarks: !old(self).show_bookmarks, ..old(self)@ }),
    {
        self.show_bookmarks = !self.show_bookmarks;
    }

    /// Puts the active tab's URL in the address bar.
    pub fn sync_url_input(&mut self)
        requires
            old(self).wf(),
        ensures
            final(self).wf(),
            final(self)@ == (BrowserView {
                url_input: old(self)@.tabs[old(self).active as int].0,
                ..old(self)@
            }),
    {
        self.url_input = owned(self.tabs[self.active].url.as_str());
    }

    /// The label of tab `i`.
    pub fn tab_label(&self, i: usize) -> (r: String)
        requires
            i < self.tabs.len(),
        ensures
            r@ == tab_label_spec(self@.tabs[i as int].1),
    {
        let t = &self.tabs[i].title;
        let mut r = if t.as_str().is_empty() {
            prefix_chars("新标签", 14)
        } else {
            prefix_chars(t.as_str(), 14)
        };
        push_str(&mut r, " ✕");
        r
    }
}

/// The label of a bookmark: its first 24 characters.
pub fn bookmark_label(url: &str) -> (r: String)
    ensures
        r@ == take_chars(url@, 24),
{
    prefix_chars(url, 24)
}

/// The state a new browser window starts in.
pub open spec fn browser_start() -> BrowserView {
    BrowserView {
        tabs: seq![("https://www.example.com"@, "新标签页"@, "在地址栏输入 URL，按回车访问 HAAVK 全域网络"@)],
        active: 0,
        url_input: "https://www.example.com"@,
        bookmarks: seq!["https://www.example.com"@, "https://github.com"@],
        history: seq![],
        show_bookmarks: false,
    }
}

impl Default for BrowserState {
    fn default() -> (r: Self)
        ensures
            r.wf(),
            r@ == browser_start(),
    {
        let mut tabs: Vec<BrowserTab> = Vec::new();
        tabs.push(
            BrowserTab {
                url: owned("https://www.example.com"),
                title: owned("新标签页"),
                text: owned("在地址栏输入 URL，按回车访问 HAAVK 全域网络"),
            },
        );
        let mut bookmarks: Vec<String> = Vec::new();
        bookmarks.push(owned("https://www.example.com"));
        bookmarks.push(owned("https://github.com"));
        let r = BrowserState {
            tabs,
            active: 0,
            url_input: owned("https://www.example.com"),
            bookmarks,
            history: Vec::new(),
            show_bookmarks: false,
        };
        assert(r@.tabs =~= browser_start().tabs);
        assert(r@.bookmarks =~= browser_start().bookmarks);
        assert(r@.history =~= browser_start().history);
        r
    }
}

} // verus!
