//! Preparation of search results and entity cards for display.
//!
//! Covers HTML-entity unescaping, URL beautification, relative and
//! absolute date wording, thousand-separated numbers, entity abstracts
//! with wiki links spliced in as anchors, and the assembly of displayed
//! web pages and entity cards from retrieved records.

use vstd::prelude::*;
use crate::text::chars_of;
use crate::text::string_of;
use crate::text::extend_chars;
use crate::text::dec_rep;
use crate::text::dec_rep_pad;
use crate::text::to_decimal;
use crate::text::to_decimal_pad;
use crate::sorting::sort_pairs_desc;

verus! {

broadcast use vstd::seq_lib::group_seq_properties,
    vstd::multiset::group_multiset_axioms;

/// What HTML-entity decoding returns; it depends on the characters
/// alone.
pub uninterp spec fn decoded_entities(s: Seq<char>) -> Seq<char>;

/// Relies on `html_escape::decode_html_entities`: decodes HTML entities,
/// a pure function of the characters.
#[verifier::external_body]
fn decode_entities(s: &str) -> (r: String)
    ensures
        r@ == decoded_entities(s@),
{
    html_escape::decode_html_entities(s).to_string()
}

/// What base64 encoding returns; it depends on the bytes alone.
pub uninterp spec fn base64_of(b: Seq<u8>) -> Seq<char>;

/// Relies on `base64::encode`: standard padded base64, four output
/// characters for every three input bytes.
#[verifier::external_body]
fn encode_base64(b: &Vec<u8>) -> (r: String)
    ensures
        r@ == base64_of(b@),
        r@.len() == 4 * ((b@.len() + 2) / 3),
{
    base64::encode(b)
}

/// Relies on `chrono::Utc::now`: the current time as seconds since the
/// epoch. Nothing is promised of the clock's reading.
#[verifier::external_body]
pub fn now_seconds() -> (r: i64)
{
    chrono::Utc::now().timestamp()
}

/// Decodes HTML entities, then strips the markup-significant characters
/// `<`, `>` and `&`.
pub fn html_escape(s: &str) -> (r: String)
    ensures
        r@ == decoded_entities(s@).filter(|c: char| !(c == '<' || c == '>' || c == '&')),
{
    let decoded = decode_entities(s);
    let v = chars_of(decoded.as_str());
    let mut out: Vec<char> = Vec::new();
    let mut i: usize = 0;
    while i < v.len()
        invariant
            i <= v@.len(),
            v@ == decoded_entities(s@),
            out@ == v@.take(i as int).filter(|c: char| !(c == '<' || c == '>' || c == '&')),
        decreases v@.len() - i,
    {
        let c = v[i];
        let ghost p = |c: char| !(c == '<' || c == '>' || c == '&');
        proof {
            assert(v@.take(i + 1) =~= v@.take(i as int).push(c));
            v@.take(i as int).lemma_filter_push(c, p);
        }
        if !(c == '<' || c == '>' || c == '&') {
            out.push(c);
        }
        i = i + 1;
    }
    proof {
        assert(v@.take(v@.len() as int) =~= v@);
    }
    string_of(&out)
}

/// A wiki link into a span of text: a half-open character range and the
/// target article.
pub struct Link {
    pub start: usize,
    pub end: usize,
    pub target: String,
}

/// A text span with its wiki links.
pub struct Span {
    pub text: String,
    pub links: Vec<Link>,
}

/// Links are well-formed: each covers a forward range, and they come in
/// order without overlap.
pub open spec fn links_ordered(links: Seq<Link>) -> bool {
    &&& forall|k: int| #![trigger links[k]] 0 <= k < links.len() ==> links[k].start <= links[k].end
    &&& forall|k: int, j: int| #![trigger links[k], links[j]] 0 <= k < j < links.len()
        ==> links[k].end <= links[j].start
}

/// A slice of `chars`, clamped to the sequence.
pub open spec fn seg(chars: Seq<char>, a: int, b: int) -> Seq<char> {
    let hi = if b > chars.len() { chars.len() as int } else { b };
    let lo = if a < 0 { 0int } else { a };
    if lo > hi {
        Seq::empty()
    } else {
        chars.subrange(lo, hi)
    }
}

/// Spaces become underscores in wiki targets.
pub open spec fn underscored(s: Seq<char>) -> Seq<char> {
    s.map_values(|c: char| if c == ' ' { '_' } else { c })
}

/// The opening anchor tag for a wiki target.
pub open spec fn anchor_open(target: Seq<char>) -> Seq<char> {
    "<a href=\"https://en.wikipedia.org/wiki/"@ + underscored(target) + "\">"@
}

/// The spliced text from link `i` on, with everything before `last`
/// already written.
pub open spec fn splice(chars: Seq<char>, links: Seq<Link>, i: int, last: int) -> Seq<char>
    decreases links.len() - i,
{
    if i < 0 || i >= links.len() || links[i].start > chars.len() {
        seg(chars, last, chars.len() as int)
    } else {
        seg(chars, last, links[i].start as int) + anchor_open(links[i].target@) + seg(
            chars,
            links[i].start as int,
            links[i].end as int,
        ) + "</a>"@ + splice(chars, links, i + 1, links[i].end as int)
    }
}

/// The rendering of a span: its text (truncated to `truncate_to`
/// characters when longer) with each link that starts inside it turned
/// into an anchor, and an ellipsis appended when truncated.
pub open spec fn entity_html(text: Seq<char>, links: Seq<Link>, truncate_to: int) -> Seq<char> {
    let truncated = text.len() > truncate_to;
    let chars = if truncated { text.take(truncate_to) } else { text };
    splice(chars, links, 0, 0) + if truncated { "..."@ } else { Seq::<char>::empty() }
}

/// Appends `chars[a..b]` (clamped) to `out`.
fn push_seg(out: &mut Vec<char>, chars: &Vec<char>, a: usize, b: usize)
    ensures
        final(out)@ == old(out)@ + seg(chars@, a as int, b as int),
{
    let hi = if b > chars.len() { chars.len() } else { b };
    let mut j: usize = a;
    if j > hi {
        proof {
            assert(old(out)@ + seg(chars@, a as int, b as int) =~= old(out)@);
        }
        return ;
    }
    while j < hi
        invariant
            a <= j <= hi,
            hi <= chars@.len(),
            hi == if b > chars@.len() { chars@.len() as int } else { b as int },
            out@ == old(out)@ + seg(chars@, a as int, j as int),
        decreases hi - j,
    {
        out.push(chars[j]);
        proof {
            assert(old(out)@ + seg(chars@, a as int, j + 1) =~= (old(out)@ + seg(
                chars@,
                a as int,
                j as int,
            )).push(chars@[j as int]));
        }
        j = j + 1;
    }
    proof {
        assert(seg(chars@, a as int, j as int) =~= seg(chars@, a as int, b as int));
    }
}

/// Replaces spaces with underscores.
fn underscore_exec(v: &Vec<char>) -> (r: Vec<char>)
    ensures
        r@ == underscored(v@),
{
    let mut out: Vec<char> = Vec::new();
    let mut i: usize = 0;
    while i < v.len()
        invariant
            i <= v@.len(),
            out@ =~= underscored(v@.take(i as int)),
        decreases v@.len() - i,
    {
        let c = v[i];
        if c == ' ' {
            out.push('_');
        } else {
            out.push(c);
        }
        proof {
            assert(out@ =~= underscored(v@.take(i + 1)));
        }
        i = i + 1;
    }
    proof {
        assert(v@.take(v@.len() as int) =~= v@);
    }
    out
}

/// Renders a text span as HTML: the text, truncated to `truncate_to`
/// characters when longer, with every link that starts inside it turned
/// into a wiki anchor, and `...` appended when truncated.
pub fn entity_link_to_html(span: Span, truncate_to: usize) -> (r: String)
    requires
        links_ordered(span.links@),
    ensures
        r@ == entity_html(span.text@, span.links@, truncate_to as int),
{
    entity_link_to_html_ref(&span.text, &span.links, truncate_to)
}

/// [`entity_link_to_html`], borrowing its inputs.
pub fn entity_link_to_html_ref(text: &String, links: &Vec<Link>, truncate_to: usize) -> (r:
    String)
    requires
        links_ordered(links@),
    ensures
        r@ == entity_html(text@, links@, truncate_to as int),
{
    let tchars = chars_of(text.as_str());
    let truncated = tchars.len() > truncate_to;
    let mut chars = tchars;
    if truncated {
        chars.truncate(truncate_to);
    }
    let n = chars.len();
    let ghost cs = chars@;
    let mut res: Vec<char> = Vec::new();
    let mut last: usize = 0;
    let mut i: usize = 0;
    let mut broke = false;
    while i < links.len() && !broke
        invariant
            links_ordered(links@),
            cs == chars@,
            n == cs.len(),
            i <= links@.len(),
            i > 0 && !broke ==> last == links@[i - 1].end,
            i == 0 ==> last == 0,
            !broke ==> last <= n || (i > 0 && links@[i - 1].end > n),
            !broke ==> splice(cs, links@, 0, 0) =~= res@ + splice(
                cs,
                links@,
                i as int,
                last as int,
            ),
            broke ==> splice(cs, links@, 0, 0) =~= res@ + seg(cs, last as int, n as int),
        decreases links@.len() - i, (if broke { 0int } else { 1int }),
    {
        let start = links[i].start;
        let end = links[i].end;
        if start > n {
            broke = true;
        } else {
            let ghost pre = res@;
            push_seg(&mut res, &chars, last, start);
            let open_tag = chars_of("<a href=\"https://en.wikipedia.org/wiki/");
            extend_chars(&mut res, &open_tag);
            let target = chars_of(links[i].target.as_str());
            let under = underscore_exec(&target);
            extend_chars(&mut res, &under);
            let close_quote = chars_of("\">");
            extend_chars(&mut res, &close_quote);
            push_seg(&mut res, &chars, start, end);
            let close_tag = chars_of("</a>");
            extend_chars(&mut res, &close_tag);
            proof {
                assert(res@ =~= pre + seg(cs, last as int, start as int) + anchor_open(
                    links@[i as int].target@,
                ) + seg(cs, start as int, end as int) + "</a>"@);
                assert(splice(cs, links@, i as int, last as int) =~= seg(
                    cs,
                    last as int,
                    start as int,
                ) + anchor_open(links@[i as int].target@) + seg(
                    cs,
                    start as int,
                    end as int,
                ) + "</a>"@ + splice(cs, links@, i + 1, end as int));
            }
            last = end;
            i = i + 1;
        }
    }
    proof {
        if !broke {
            assert(splice(cs, links@, i as int, last as int) =~= seg(
                cs,
                last as int,
                n as int,
            ));
        }
    }
    push_seg(&mut res, &chars, last, n);
    if truncated {
        let dots = chars_of("...");
        extend_chars(&mut res, &dots);
    }
    proof {
        assert(res@ =~= entity_html(text@, links@, truncate_to as int));
    }
    string_of(&res)
}

/// Digits grouped in threes from the right, separated by `'.'`.
pub open spec fn group_thousands(s: Seq<char>) -> Seq<char>
    decreases s.len(),
{
    if s.len() <= 3 {
        s
    } else {
        group_thousands(s.take(s.len() - 3)) + seq!['.'] + s.skip(s.len() - 3)
    }
}

/// Groups a digit string in threes.
fn group_exec(v: Vec<char>) -> (r: Vec<char>)
    ensures
        r@ == group_thousands(v@),
    decreases v@.len(),
{
    if v.len() <= 3 {
        v
    } else {
        let cut = v.len() - 3;
        let mut head: Vec<char> = Vec::new();
        let mut i: usize = 0;
        while i < cut
            invariant
                i <= cut,
                cut < v@.len(),
                head@ == v@.take(i as int),
            decreases cut - i,
        {
            head.push(v[i]);
            proof {
                assert(v@.take(i + 1) =~= v@.take(i as int).push(v@[i as int]));
            }
            i = i + 1;
        }
        let mut r = group_exec(head);
        r.push('.');
        let mut j: usize = cut;
        while j < v.len()
            invariant
                cut <= j <= v@.len(),
                cut == v@.len() - 3,
                r@ == group_thousands(v@.take(cut as int)) + seq!['.'] + v@.subrange(
                    cut as int,
                    j as int,
                ),
            decreases v@.len() - j,
        {
            r.push(v[j]);
            proof {
                assert(group_thousands(v@.take(cut as int)) + seq!['.'] + v@.subrange(
                    cut as int,
                    j + 1,
                ) =~= (group_thousands(v@.take(cut as int)) + seq!['.'] + v@.subrange(
                    cut as int,
                    j as int,
                )).push(v@[j as int]));
            }
            j = j + 1;
        }
        proof {
            assert(v@.subrange(cut as int, v@.len() as int) =~= v@.skip(v@.len() - 3));
            assert(r@ =~= group_thousands(v@));
        }
        r
    }
}

/// Writes a number with `.` as thousands separator.
pub fn thousand_sep_number(num: usize) -> (r: String)
    ensures
        r@ == group_thousands(dec_rep(num as int)),
{
    let digits = to_decimal(num as u64);
    let grouped = group_exec(digits);
    string_of(&grouped)
}


/// A civil date-time: seconds since the epoch alongside its calendar
/// fields.
#[derive(Clone, Copy, Debug, PartialEq, Eq, Structural)]
pub struct CivilDateTime {
    pub secs: i64,
    pub year: u64,
    pub month: u64,
    pub day: u64,
}

/// The three-letter month abbreviation.
pub open spec fn month_abbrev(m: int) -> Seq<char> {
    if m == 1 { "Jan"@ } else if m == 2 { "Feb"@ } else if m == 3 { "Mar"@ }
    else if m == 4 { "Apr"@ } else if m == 5 { "May"@ } else if m == 6 { "Jun"@ }
    else if m == 7 { "Jul"@ } else if m == 8 { "Aug"@ } else if m == 9 { "Sep"@ }
    else if m == 10 { "Oct"@ } else if m == 11 { "Nov"@ } else { "Dec"@ }
}

/// How a date is worded relative to `now`: "N hours ago" within a day
/// (a date in the future counts as one hour ago), "N days ago" within
/// thirty days, else the full date as `dd. Mon. yyyy`.
pub open spec fn pretty_date(secs: int, year: int, month: int, day: int, now: int) -> Seq<char> {
    if secs > now {
        "1 hour ago"@
    } else {
        pretty_past_date(secs, year, month, day, now)
    }
}

/// [`pretty_date`] for a date not in the future.
pub open spec fn pretty_past_date(
    secs: int,
    year: int,
    month: int,
    day: int,
    now: int,
) -> Seq<char> {
    let num_hours = (now - secs) / 3600 + 1;
    if num_hours < 24 {
        if num_hours <= 1 {
            "1 hour ago"@
        } else {
            dec_rep(num_hours) + " hours ago"@
        }
    } else {
        let num_days = (now - secs) / 86400;
        if num_days < 30 {
            if num_days <= 1 {
                "1 day ago"@
            } else {
                dec_rep(num_days) + " days ago"@
            }
        } else {
            dec_rep_pad(day, 2) + ". "@ + month_abbrev(month) + ". "@ + dec_rep_pad(year, 4)
        }
    }
}

/// Words a date relative to `now` (seconds since the epoch).
pub fn prettify_date(date: &CivilDateTime, now: i64) -> (r: String)
    requires
        0 <= date.secs,
        0 <= now,
        1 <= date.month <= 12,
    ensures
        r@ == pretty_date(
            date.secs as int,
            date.year as int,
            date.month as int,
            date.day as int,
            now as int,
        ),
{
    if date.secs > now {
        let t = chars_of("1 hour ago");
        return string_of(&t);
    }
    let diff = now - date.secs;
    let num_hours = diff / 3600 + 1;
    let mut out: Vec<char> = Vec::new();
    if num_hours < 24 {
        if num_hours <= 1 {
            let t = chars_of("1 hour ago");
            extend_chars(&mut out, &t);
        } else {
            let d = to_decimal(num_hours as u64);
            extend_chars(&mut out, &d);
            let t = chars_of(" hours ago");
            extend_chars(&mut out, &t);
        }
    } else {
        let num_days = diff / 86400;
        if num_days < 30 {
            if num_days <= 1 {
                let t = chars_of("1 day ago");
                extend_chars(&mut out, &t);
            } else {
                let d = to_decimal(num_days as u64);
                extend_chars(&mut out, &d);
                let t = chars_of(" days ago");
                extend_chars(&mut out, &t);
            }
        } else {
            let d = to_decimal_pad(date.day, 2);
            extend_chars(&mut out, &d);
            let dot = chars_of(". ");
            extend_chars(&mut out, &dot);
            let mon = month_abbrev_exec(date.month);
            extend_chars(&mut out, &mon);
            let dot2 = chars_of(". ");
            extend_chars(&mut out, &dot2);
            let y = to_decimal_pad(date.year, 4);
            extend_chars(&mut out, &y);
        }
    }
    proof {
        assert(out@ =~= pretty_past_date(
            date.secs as int,
            date.year as int,
            date.month as int,
            date.day as int,
            now as int,
        ));
    }
    string_of(&out)
}

/// The three-letter month abbreviation.
fn month_abbrev_exec(m: u64) -> (r: Vec<char>)
    ensures
        r@ == month_abbrev(m as int),
{
    match m {
        1 => chars_of("Jan"),
        2 => chars_of("Feb"),
        3 => chars_of("Mar"),
        4 => chars_of("Apr"),
        5 => chars_of("May"),
        6 => chars_of("Jun"),
        7 => chars_of("Jul"),
        8 => chars_of("Aug"),
        9 => chars_of("Sep"),
        10 => chars_of("Oct"),
        11 => chars_of("Nov"),
        _ => chars_of("Dec"),
    }
}

/// ASCII whitespace.
pub open spec fn is_ws(c: char) -> bool {
    c == ' ' || c == '\t' || c == '\n' || c == '\r'
}

/// End of the whitespace-free token starting at `i`.
pub open spec fn tok_end(s: Seq<char>, i: int) -> int
    decreases s.len() - i,
{
    if i < 0 || i >= s.len() || is_ws(s[i]) {
        i
    } else {
        tok_end(s, i + 1)
    }
}

/// The whitespace-separated tokens of `s` from position `i` on.
pub open spec fn split_ws_from(s: Seq<char>, i: int) -> Seq<Seq<char>>
    decreases s.len() - i,
{
    if i < 0 || i >= s.len() {
        Seq::empty()
    } else if is_ws(s[i]) {
        split_ws_from(s, i + 1)
    } else {
        let e0 = if tok_end(s, i) > i {
            tok_end(s, i)
        } else {
            i + 1
        };
        let e = if e0 > s.len() {
            s.len() as int
        } else {
            e0
        };
        seq![s.subrange(i, e)] + split_ws_from(s, e)
    }
}

/// The token end lies between `i` and the end of the string, strictly
/// beyond `i` on a non-whitespace character.
proof fn lemma_tok_end(s: Seq<char>, i: int)
    requires
        0 <= i <= s.len(),
    ensures
        i <= tok_end(s, i) <= s.len(),
        i < s.len() && !is_ws(s[i]) ==> tok_end(s, i) > i,
    decreases s.len() - i,
{
    if i < s.len() && !is_ws(s[i]) {
        lemma_tok_end(s, i + 1);
    }
}

/// Splits into whitespace-separated tokens, from position `i`.
fn split_ws_exec(v: &Vec<char>, i: usize) -> (r: Vec<Vec<char>>)
    requires
        i <= v@.len(),
    ensures
        r@.map_values(|t: Vec<char>| t@) == split_ws_from(v@, i as int),
    decreases v@.len() - i,
{
    if i >= v.len() {
        let r: Vec<Vec<char>> = Vec::new();
        proof {
            assert(r@.map_values(|t: Vec<char>| t@) =~= split_ws_from(v@, i as int));
        }
        r
    } else if is_ws_exec(v[i]) {
        split_ws_exec(v, i + 1)
    } else {
        proof {
            lemma_tok_end(v@, i as int);
        }
        let mut e: usize = i;
        while e < v.len() && !is_ws_exec2(v, e)
            invariant
                i <= e <= v@.len(),
                tok_end(v@, i as int) == tok_end(v@, e as int),
                forall|k: int| i <= k < e ==> !is_ws(v@[k]),
            decreases v@.len() - e,
        {
            e = e + 1;
        }
        proof {
            assert(tok_end(v@, e as int) == e);
        }
        let mut token: Vec<char> = Vec::new();
        let mut k: usize = i;
        while k < e
            invariant
                i <= k <= e,
                e <= v@.len(),
                token@ == v@.subrange(i as int, k as int),
            decreases e - k,
        {
            token.push(v[k]);
            proof {
                assert(v@.subrange(i as int, k + 1) =~= v@.subrange(i as int, k as int).push(
                    v@[k as int],
                ));
            }
            k = k + 1;
        }
        let mut rest = split_ws_exec(v, e);
        let mut r: Vec<Vec<char>> = Vec::new();
        let ghost tok_view = token@;
        r.push(token);
        let ghost rest_view = rest@;
        r.append(&mut rest);
        proof {
            let f = |t: Vec<char>| t@;
            assert(r@.map_values(f) =~= seq![tok_view] + rest_view.map_values(f));
            assert(split_ws_from(v@, i as int) =~= seq![v@.subrange(i as int, e as int)]
                + split_ws_from(v@, e as int));
            assert(r@.map_values(f) =~= split_ws_from(v@, i as int));
        }
        r
    }
}

/// ASCII whitespace test.
fn is_ws_exec(c: char) -> (r: bool)
    ensures
        r == is_ws(c),
{
    c == ' ' || c == '\t' || c == '\n' || c == '\r'
}

/// Whitespace test through an index (keeps the loop condition simple).
fn is_ws_exec2(v: &Vec<char>, i: usize) -> (r: bool)
    requires
        i < v@.len(),
    ensures
        r == is_ws(v@[i as int]),
{
    is_ws_exec(v[i])
}


/// All characters are decimal digits (and there is at least one).
pub open spec fn all_digits(s: Seq<char>) -> bool {
    s.len() > 0 && forall|k: int| #![trigger s[k]] 0 <= k < s.len() ==> '0' <= s[k] <= '9'
}

/// The number a digit string denotes.
pub open spec fn num_of(s: Seq<char>) -> int
    decreases s.len(),
{
    if s.len() == 0 {
        0
    } else {
        num_of(s.drop_last()) * 10 + (s.last() as int - '0' as int)
    }
}

/// Gregorian leap year.
pub open spec fn is_leap(y: int) -> bool {
    y % 4 == 0 && (y % 100 != 0 || y % 400 == 0)
}

/// Days in a month.
pub open spec fn days_in_month(y: int, m: int) -> int {
    if m == 2 {
        if is_leap(y) { 29 } else { 28 }
    } else if m == 4 || m == 6 || m == 9 || m == 11 {
        30
    } else {
        31
    }
}

/// A `year month day` token triple parses as a calendar date: all
/// digits, the year up to four digits, month and day up to two, and the
/// date valid in the Gregorian calendar.
pub open spec fn date_tokens_ok(ty: Seq<char>, tm: Seq<char>, td: Seq<char>) -> bool {
    &&& all_digits(ty) && ty.len() <= 4
    &&& all_digits(tm) && tm.len() <= 2
    &&& all_digits(td) && td.len() <= 2
    &&& 1 <= num_of(tm) <= 12
    &&& 1 <= num_of(td) <= days_in_month(num_of(ty), num_of(tm))
}

/// A parsed date formatted as `dd/mm/yyyy`.
pub open spec fn fmt_date(y: int, m: int, d: int) -> Seq<char> {
    dec_rep_pad(d, 2) + "/"@ + dec_rep_pad(m, 2) + "/"@ + dec_rep_pad(y, 4)
}

/// The prettified form of an entity date value: a `year month day`
/// triple becomes `dd/mm/yyyy`; two such triples become
/// `second - first`; anything else stays as it is.
pub open spec fn pretty_entity_date(s: Seq<char>) -> Seq<char> {
    let toks = split_ws_from(s, 0);
    if toks.len() == 3 && date_tokens_ok(toks[0], toks[1], toks[2]) {
        fmt_date(num_of(toks[0]), num_of(toks[1]), num_of(toks[2]))
    } else if toks.len() == 6 && date_tokens_ok(toks[0], toks[1], toks[2]) && date_tokens_ok(
        toks[3],
        toks[4],
        toks[5],
    ) {
        fmt_date(num_of(toks[3]), num_of(toks[4]), num_of(toks[5])) + " - "@ + fmt_date(
            num_of(toks[0]),
            num_of(toks[1]),
            num_of(toks[2]),
        )
    } else {
        s
    }
}

/// Parses a digit token of at most four characters.
fn parse_digits(t: &Vec<char>, max_len: usize) -> (r: Option<u64>)
    requires
        max_len <= 4,
    ensures
        match r {
            Some(n) => all_digits(t@) && t@.len() <= max_len && n == num_of(t@),
            None => !(all_digits(t@) && t@.len() <= max_len),
        },
{
    if t.len() == 0 || t.len() > max_len {
        return None;
    }
    let mut acc: u64 = 0;
    let mut i: usize = 0;
    while i < t.len()
        invariant
            i <= t@.len(),
            t@.len() <= 4,
            forall|k: int| #![trigger t@[k]] 0 <= k < i ==> '0' <= t@[k] <= '9',
            acc == num_of(t@.take(i as int)),
            acc <= 9999,
        decreases t@.len() - i,
    {
        let c = t[i];
        if !('0' <= c && c <= '9') {
            return None;
        }
        proof {
            assert(t@.take(i + 1).drop_last() =~= t@.take(i as int));
            lemma_num_of_bound(t@.take(i + 1));
        }
        acc = acc * 10 + ((c as u32) as u64 - 48);
        i = i + 1;
    }
    proof {
        assert(t@.take(t@.len() as int) =~= t@);
    }
    Some(acc)
}

/// A digit string of at most four digits denotes at most 9999.
proof fn lemma_num_of_bound(s: Seq<char>)
    requires
        forall|k: int| #![trigger s[k]] 0 <= k < s.len() ==> '0' <= s[k] <= '9',
        s.len() <= 4,
    ensures
        0 <= num_of(s) <= 9999,
    decreases s.len(),
{
    if s.len() > 0 {
        assert('0' <= s[s.len() - 1] <= '9');
        lemma_num_of_small(s.drop_last());
    }
}

/// A digit string of at most three digits denotes at most 999.
proof fn lemma_num_of_small(s: Seq<char>)
    requires
        forall|k: int| #![trigger s[k]] 0 <= k < s.len() ==> '0' <= s[k] <= '9',
        s.len() <= 3,
    ensures
        0 <= num_of(s) <= 999,
    decreases s.len(),
{
    if s.len() > 0 {
        assert('0' <= s[s.len() - 1] <= '9');
        lemma_num_of_small2(s.drop_last());
    }
}

/// A digit string of at most two digits denotes at most 99.
proof fn lemma_num_of_small2(s: Seq<char>)
    requires
        forall|k: int| #![trigger s[k]] 0 <= k < s.len() ==> '0' <= s[k] <= '9',
        s.len() <= 2,
    ensures
        0 <= num_of(s) <= 99,
    decreases s.len(),
{
    if s.len() > 0 {
        assert('0' <= s[s.len() - 1] <= '9');
        lemma_num_of_small3(s.drop_last());
    }
}

/// A digit string of at most one digit denotes at most 9.
proof fn lemma_num_of_small3(s: Seq<char>)
    requires
        forall|k: int| #![trigger s[k]] 0 <= k < s.len() ==> '0' <= s[k] <= '9',
        s.len() <= 1,
    ensures
        0 <= num_of(s) <= 9,
{
    if s.len() > 0 {
        assert('0' <= s[s.len() - 1] <= '9');
        assert(s.drop_last().len() == 0);
        assert(num_of(s.drop_last()) == 0);
        assert(num_of(s) == (s.last() as int) - ('0' as int));
    }
}

/// Parses one `year month day` token triple.
fn parse_date_tokens(ty: &Vec<char>, tm: &Vec<char>, td: &Vec<char>) -> (r: Option<
    (u64, u64, u64),
>)
    ensures
        match r {
            Some(p) => date_tokens_ok(ty@, tm@, td@) && p.0 == num_of(ty@) && p.1 == num_of(tm@)
                && p.2 == num_of(td@),
            None => !date_tokens_ok(ty@, tm@, td@),
        },
{
    let y = match parse_digits(ty, 4) {
        Some(v) => v,
        None => { return None; }
    };
    let m = match parse_digits(tm, 2) {
        Some(v) => v,
        None => { return None; }
    };
    let d = match parse_digits(td, 2) {
        Some(v) => v,
        None => { return None; }
    };
    if !(1 <= m && m <= 12) {
        return None;
    }
    let dim: u64 = if m == 2 {
        if y % 4 == 0 && (y % 100 != 0 || y % 400 == 0) {
            29
        } else {
            28
        }
    } else if m == 4 || m == 6 || m == 9 || m == 11 {
        30
    } else {
        31
    };
    if 1 <= d && d <= dim {
        Some((y, m, d))
    } else {
        None
    }
}

/// Writes a parsed date as `dd/mm/yyyy`.
fn fmt_date_exec(y: u64, m: u64, d: u64) -> (r: Vec<char>)
    ensures
        r@ == fmt_date(y as int, m as int, d as int),
{
    let mut out = to_decimal_pad(d, 2);
    let slash = chars_of("/");
    extend_chars(&mut out, &slash);
    let mm = to_decimal_pad(m, 2);
    extend_chars(&mut out, &mm);
    extend_chars(&mut out, &slash);
    let yy = to_decimal_pad(y, 4);
    extend_chars(&mut out, &yy);
    proof {
        assert(out@ =~= fmt_date(y as int, m as int, d as int));
    }
    out
}

/// Rewrites an entity date value: a `year month day` triple becomes
/// `dd/mm/yyyy`, a pair of triples becomes `second - first`, and
/// anything else is returned unchanged.
pub fn maybe_prettify_entity_date(value: String) -> (r: String)
    ensures
        r@ == pretty_entity_date(value@),
{
    let v = chars_of(value.as_str());
    let tokens = split_ws_exec(&v, 0);
    let ghost toks = split_ws_from(v@, 0);
    proof {
        assert(toks.len() == tokens@.len());
        assert forall|k: int| 0 <= k < toks.len() implies toks[k] == tokens@[k]@ by {
            assert(tokens@.map_values(|t: Vec<char>| t@)[k] == tokens@[k]@);
        }
    }
    if tokens.len() == 3 {
        match parse_date_tokens(&tokens[0], &tokens[1], &tokens[2]) {
            Some(p) => {
                let out = fmt_date_exec(p.0, p.1, p.2);
                return string_of(&out);
            }
            None => {
                return value;
            }
        }
    }
    if tokens.len() == 6 {
        let first = parse_date_tokens(&tokens[0], &tokens[1], &tokens[2]);
        let second = parse_date_tokens(&tokens[3], &tokens[4], &tokens[5]);
        match (first, second) {
            (Some(a), Some(b)) => {
                let mut out = fmt_date_exec(b.0, b.1, b.2);
                let sep = chars_of(" - ");
                extend_chars(&mut out, &sep);
                let f = fmt_date_exec(a.0, a.1, a.2);
                extend_chars(&mut out, &f);
                proof {
                    assert(out@ =~= pretty_entity_date(value@));
                }
                return string_of(&out);
            }
            _ => {
                return value;
            }
        }
    }
    value
}


/// The URL up to its query string.
pub open spec fn cut_query(s: Seq<char>) -> Seq<char>
    decreases s.len(),
{
    if s.len() == 0 {
        s
    } else if s[0] == '?' {
        Seq::empty()
    } else {
        seq![s[0]] + cut_query(s.skip(1))
    }
}

/// `'/'` separators replaced by `" › "`.
pub open spec fn crumbed(s: Seq<char>) -> Seq<char>
    decreases s.len(),
{
    if s.len() == 0 {
        s
    } else {
        (if s[0] == '/' { " › "@ } else { seq![s[0]] }) + crumbed(s.skip(1))
    }
}

/// The displayed form of a URL: the query dropped, one trailing slash
/// dropped, and the path after the scheme written as breadcrumbs.
pub open spec fn pretty_url_spec(s: Seq<char>) -> Seq<char> {
    let s1 = cut_query(s);
    let s2 = if s1.len() > 0 && s1.last() == '/' { s1.drop_last() } else { s1 };
    let p = crate::webgraph::scheme_pos(s2, 0);
    if p >= 0 {
        s2.take(p) + "://"@ + crumbed(s2.skip(p + 3))
    } else {
        crumbed(s2)
    }
}

/// Beautifies a URL for display.
#[verifier::rlimit(100)]
pub fn prettify_url(url: &String) -> (r: String)
    ensures
        r@ == pretty_url_spec(url@),
{
    let v = chars_of(url.as_str());
    // keep everything before the query
    let mut s1: Vec<char> = Vec::new();
    let mut i: usize = 0;
    let mut hit_query = false;
    while i < v.len() && !hit_query
        invariant
            i <= v@.len(),
            !hit_query ==> cut_query(v@) =~= s1@ + cut_query(v@.skip(i as int)),
            hit_query ==> cut_query(v@) =~= s1@,
        decreases v@.len() - i, (if hit_query { 0int } else { 1int }),
    {
        let c = v[i];
        proof {
            assert(v@.skip(i as int)[0] == c);
            assert(v@.skip(i as int).skip(1) =~= v@.skip(i + 1));
        }
        if c == '?' {
            hit_query = true;
        } else {
            s1.push(c);
            i = i + 1;
        }
    }
    proof {
        if !hit_query {
            assert(v@.skip(i as int).len() == 0);
        }
        assert(s1@ =~= cut_query(v@));
    }
    // drop one trailing slash
    let mut s2 = s1;
    if s2.len() > 0 {
        let last_c = s2[s2.len() - 1];
        if last_c == '/' {
            s2.pop();
        }
    }
    let ghost s2v = s2@;
    // find the scheme marker
    let n = s2.len();
    let mut j: usize = 0;
    let mut found = false;
    let mut start: usize = 0;
    while !found && n >= 3 && j <= n - 3
        invariant
            s2v == s2@,
            n == s2@.len(),
            j <= n,
            !found ==> crate::webgraph::scheme_pos(s2v, 0) == crate::webgraph::scheme_pos(
                s2v,
                j as int,
            ),
            found ==> crate::webgraph::scheme_pos(s2v, 0) == j - 3 && start == j && j >= 3,
            !found ==> start == 0,
        decreases n - j, (if found { 0int } else { 1int }),
    {
        if s2[j] == ':' && s2[j + 1] == '/' && s2[j + 2] == '/' {
            found = true;
            start = j + 3;
            j = j + 3;
        } else {
            j = j + 1;
        }
    }
    proof {
        if !found {
            assert(crate::webgraph::scheme_pos(s2v, j as int) == -1);
        }
    }
    let mut out: Vec<char> = Vec::new();
    if found {
        let mut k: usize = 0;
        while k < start - 3
            invariant
                found,
                3 <= start <= n,
                n == s2@.len(),
                s2v == s2@,
                k <= start - 3,
                out@ == s2v.take(k as int),
            decreases start - k,
        {
            out.push(s2[k]);
            proof {
                assert(s2v.take(k + 1) =~= s2v.take(k as int).push(s2v[k as int]));
            }
            k = k + 1;
        }
        let marker = chars_of("://");
        extend_chars(&mut out, &marker);
    }
    // breadcrumb the remainder
    let mut k2: usize = start;
    let ghost base = out@;
    while k2 < s2.len()
        invariant
            start <= k2 <= s2@.len(),
            s2v == s2@,
            out@ =~= base + crumbed(s2v.subrange(start as int, k2 as int)),
        decreases s2@.len() - k2,
    {
        let c = s2[k2];
        proof {
            reveal_strlit(" › ");
            let pre = s2v.subrange(start as int, k2 as int);
            let one = seq![s2v[k2 as int]];
            assert(s2v.subrange(start as int, k2 + 1) =~= pre + one);
            lemma_crumbed_concat(pre, one);
            assert(one[0] == c);
            assert(one.skip(1) =~= Seq::<char>::empty());
            assert(crumbed(one.skip(1)) =~= Seq::<char>::empty());
            assert(crumbed(one) =~= (if c == '/' { " › "@ } else { seq![c] })
                + crumbed(one.skip(1)));
            assert(crumbed(one) =~= if c == '/' { " › "@ } else { seq![c] });
        }
        if c == '/' {
            out.push(' ');
            out.push('›');
            out.push(' ');
        } else {
            out.push(c);
        }
        proof {
            assert(out@ =~= base + crumbed(s2v.subrange(start as int, k2 + 1)));
        }
        k2 = k2 + 1;
    }
    proof {
        assert(s2v.subrange(start as int, s2v.len() as int) =~= s2v.skip(start as int));
        if found {
            assert(crate::webgraph::scheme_pos(s2v, 0) == start - 3);
            assert(out@ =~= pretty_url_spec(url@));
        } else {
            assert(s2v.skip(0) =~= s2v);
            assert(out@ =~= pretty_url_spec(url@));
        }
    }
    string_of(&out)
}

/// Breadcrumbing distributes over concatenation.
proof fn lemma_crumbed_concat(x: Seq<char>, y: Seq<char>)
    ensures
        crumbed(x + y) =~= crumbed(x) + crumbed(y),
    decreases x.len(),
{
    if x.len() == 0 {
        assert(x + y =~= y);
    } else {
        assert((x + y)[0] == x[0]);
        assert((x + y).skip(1) =~= x.skip(1) + y);
        lemma_crumbed_concat(x.skip(1), y);
    }
}


/// `'*'` replaced by `'•'`.
pub open spec fn bulleted(s: Seq<char>) -> Seq<char> {
    s.map_values(|c: char| if c == '*' { '•' } else { c })
}

/// Replaces `'*'` with `'•'`.
fn bullet_exec(v: &Vec<char>) -> (r: Vec<char>)
    ensures
        r@ == bulleted(v@),
{
    let mut out: Vec<char> = Vec::new();
    let mut i: usize = 0;
    while i < v.len()
        invariant
            i <= v@.len(),
            out@ =~= bulleted(v@.take(i as int)),
        decreases v@.len() - i,
    {
        let c = v[i];
        if c == '•' || c == '*' {
            out.push('•');
        } else {
            out.push(c);
        }
        proof {
            assert(out@ =~= bulleted(v@.take(i + 1)));
        }
        i = i + 1;
    }
    proof {
        assert(v@.take(v@.len() as int) =~= v@);
    }
    out
}

/// A leading bullet (or newline-bullet) and everything before it
/// dropped.
pub open spec fn bullet_trimmed(s: Seq<char>) -> Seq<char> {
    if s.len() > 0 && s[0] == '•' {
        s.skip(1)
    } else if s.len() > 1 && s[0] == '\n' && s[1] == '•' {
        s.skip(2)
    } else {
        s
    }
}

/// Drops a leading bullet.
fn bullet_trim_exec(v: Vec<char>) -> (r: Vec<char>)
    ensures
        r@ == bullet_trimmed(v@),
{
    if v.len() > 0 {
        let c0 = v[0];
        if c0 == '•' {
            let mut out: Vec<char> = Vec::new();
            let mut i: usize = 1;
            while i < v.len()
                invariant
                    1 <= i <= v@.len(),
                    out@ == v@.subrange(1, i as int),
                decreases v@.len() - i,
            {
                out.push(v[i]);
                proof {
                    assert(v@.subrange(1, i + 1) =~= v@.subrange(1, i as int).push(
                        v@[i as int],
                    ));
                }
                i = i + 1;
            }
            proof {
                assert(v@.subrange(1, v@.len() as int) =~= v@.skip(1));
            }
            return out;
        }
        if v.len() > 1 && c0 == '\n' {
            let c1 = v[1];
            if c1 == '•' {
                let mut out: Vec<char> = Vec::new();
                let mut i: usize = 2;
                while i < v.len()
                    invariant
                        2 <= i <= v@.len(),
                        out@ == v@.subrange(2, i as int),
                    decreases v@.len() - i,
                {
                    out.push(v[i]);
                    proof {
                        assert(v@.subrange(2, i + 1) =~= v@.subrange(2, i as int).push(
                            v@[i as int],
                        ));
                    }
                    i = i + 1;
                }
                proof {
                    assert(v@.subrange(2, v@.len() as int) =~= v@.skip(2));
                }
                return out;
            }
        }
    }
    v
}

/// `'_'` replaced by `' '`.
pub open spec fn despaced(s: Seq<char>) -> Seq<char> {
    s.map_values(|c: char| if c == '_' { ' ' } else { c })
}

/// Replaces `'_'` with `' '`.
fn despace_exec(v: &Vec<char>) -> (r: Vec<char>)
    ensures
        r@ == despaced(v@),
{
    let mut out: Vec<char> = Vec::new();
    let mut i: usize = 0;
    while i < v.len()
        invariant
            i <= v@.len(),
            out@ =~= despaced(v@.take(i as int)),
        decreases v@.len() - i,
    {
        let c = v[i];
        if c == '_' {
            out.push(' ');
        } else {
            out.push(c);
        }
        proof {
            assert(out@ =~= despaced(v@.take(i + 1)));
        }
        i = i + 1;
    }
    proof {
        assert(v@.take(v@.len() as int) =~= v@);
    }
    out
}

/// One attribute of an entity card: its key, its text span, and how
/// often the attribute occurs across the index (for ordering).
pub struct InfoEntry {
    pub key: String,
    pub value: Span,
    pub occurrence: u64,
}

/// Keys never shown on an entity card.
pub open spec fn key_blocked(k: Seq<char>) -> bool {
    ||| k == "caption"@
    ||| k == "image size"@
    ||| k == "label"@
    ||| k == "landscape"@
    ||| k == "signature"@
    ||| k == "name"@
    ||| k == "website"@
    ||| k == "logo"@
    ||| k == "image caption"@
}

/// The displayed value of one attribute: the span rendered to HTML and
/// truncated at 150 characters, stars turned into bullets, a leading
/// bullet dropped, and date values prettified.
pub open spec fn info_value(text: Seq<char>, links: Seq<Link>) -> Seq<char> {
    pretty_entity_date(bullet_trimmed(bulleted(entity_html(text, links, 150))))
}

/// Some input attribute, unblocked, displays as this key/value pair.
pub open spec fn info_entry_ok(info: Seq<InfoEntry>, key: Seq<char>, val: Seq<char>) -> bool {
    exists|k: int|
        #![trigger info[k]]
        0 <= k < info.len() && !key_blocked(despaced(info[k].key@)) && key == despaced(
            info[k].key@,
        ) && val == info_value(info[k].value.text@, info[k].value.links@)
}

/// Tests whether a displayed key is blocked.
fn key_blocked_exec(k: &String) -> (r: bool)
    ensures
        r == key_blocked(k@),
{
    if k.eq(&"caption".to_owned()) {
        return true;
    }
    if k.eq(&"image size".to_owned()) {
        return true;
    }
    if k.eq(&"label".to_owned()) {
        return true;
    }
    if k.eq(&"landscape".to_owned()) {
        return true;
    }
    if k.eq(&"signature".to_owned()) {
        return true;
    }
    if k.eq(&"name".to_owned()) {
        return true;
    }
    if k.eq(&"website".to_owned()) {
        return true;
    }
    if k.eq(&"logo".to_owned()) {
        return true;
    }
    if k.eq(&"image caption".to_owned()) {
        return true;
    }
    false
}

/// Assembles the attribute list of an entity card: attributes in
/// descending order of occurrence, each rendered by [`info_value`],
/// blocked keys dropped, at most five shown.
pub fn prepare_info(info: &Vec<InfoEntry>) -> (r: Vec<(String, String)>)
    requires
        forall|k: int| #![trigger info@[k]] 0 <= k < info@.len()
            ==> links_ordered(info@[k].value.links@),
    ensures
        r@.len() <= 5,
        forall|i: int| #![trigger r@[i]] 0 <= i < r@.len()
            ==> info_entry_ok(info@, r@[i].0@, r@[i].1@),
{
    let mut pairs: Vec<(u64, u64)> = Vec::new();
    let mut i: usize = 0;
    while i < info.len()
        invariant
            i <= info@.len(),
            pairs@.len() == i,
            forall|k: int| #![trigger pairs@[k]] 0 <= k < i
                ==> pairs@[k].1 < info@.len() && pairs@[k].0 == info@[pairs@[k].1 as int].occurrence,
        decreases info@.len() - i,
    {
        pairs.push((info[i].occurrence, i as u64));
        i = i + 1;
    }
    let sorted = sort_pairs_desc(pairs);
    proof {
        assert forall|k: int| 0 <= k < sorted@.len()
            implies sorted@[k].1 < info@.len()
                && sorted@[k].0 == info@[sorted@[k].1 as int].occurrence by {
            sorted@.to_multiset_ensures();
            pairs@.to_multiset_ensures();
            assert(sorted@.contains(sorted@[k]));
            assert(sorted@.to_multiset().count(sorted@[k]) > 0);
            assert(pairs@.contains(sorted@[k]));
            let j = choose|j: int| 0 <= j < pairs@.len() && pairs@[j] == sorted@[k];
            assert(pairs@[j].1 < info@.len());
        }
    }
    let mut r: Vec<(String, String)> = Vec::new();
    let mut s_i: usize = 0;
    while s_i < sorted.len() && r.len() < 5
        invariant
            s_i <= sorted@.len(),
            r@.len() <= 5,
            forall|k: int| #![trigger sorted@[k]] 0 <= k < sorted@.len()
                ==> sorted@[k].1 < info@.len()
                    && sorted@[k].0 == info@[sorted@[k].1 as int].occurrence,
            forall|k: int| #![trigger info@[k]] 0 <= k < info@.len()
                ==> links_ordered(info@[k].value.links@),
            forall|i2: int| #![trigger r@[i2]] 0 <= i2 < r@.len()
                ==> info_entry_ok(info@, r@[i2].0@, r@[i2].1@),
        decreases sorted@.len() - s_i,
    {
        proof {
            assert(sorted@[s_i as int].1 < info@.len());
        }
        let idx = sorted[s_i].1 as usize;
        let entry = &info[idx];
        let key_chars = chars_of(entry.key.as_str());
        let key_sp = despace_exec(&key_chars);
        let key_s = string_of(&key_sp);
        if !key_blocked_exec(&key_s) {
            let html = entity_link_to_html_ref(&entry.value.text, &entry.value.links, 150);
            let html_chars = chars_of(html.as_str());
            let with_bullets = bullet_exec(&html_chars);
            let trimmed = bullet_trim_exec(with_bullets);
            let trimmed_s = string_of(&trimmed);
            let value_s = maybe_prettify_entity_date(trimmed_s);
            let ghost pre_r = r@;
            r.push((key_s, value_s));
            proof {
                assert(key_s@ == despaced(info@[idx as int].key@));
                assert(!key_blocked(despaced(info@[idx as int].key@)));
                assert(r@[pre_r.len() as int].0@ == despaced(info@[idx as int].key@));
                assert(value_s@ == pretty_entity_date(bullet_trimmed(bulleted(entity_html(
                    info@[idx as int].value.text@,
                    info@[idx as int].value.links@,
                    150,
                )))));
                assert(r@[pre_r.len() as int].1@ == info_value(
                    info@[idx as int].value.text@,
                    info@[idx as int].value.links@,
                ));
                assert(info_entry_ok(info@, key_s@, value_s@)) by {
                    assert(0 <= idx < info@.len() && !key_blocked(despaced(
                        info@[idx as int].key@,
                    )) && key_s@ == despaced(info@[idx as int].key@) && value_s@ == info_value(
                        info@[idx as int].value.text@,
                        info@[idx as int].value.links@,
                    ));
                }
                assert forall|i2: int| #![trigger r@[i2]] 0 <= i2 < r@.len()
                    implies info_entry_ok(info@, r@[i2].0@, r@[i2].1@) by {
                    if i2 < pre_r.len() {
                        assert(r@[i2] == pre_r[i2]);
                    } else {
                        assert(r@[i2].0@ == key_s@ && r@[i2].1@ == value_s@);
                    }
                }
            }
        }
        s_i = s_i + 1;
    }
    r
}


/// A web page as retrieved from the index, with its favicon bytes and
/// primary-image presence already resolved by the caller.
pub struct RetrievedWebpage {
    pub title: String,
    pub url: String,
    pub snippet: String,
    pub body: String,
    pub favicon: Option<Vec<u8>>,
    pub primary_image_uuid: Option<String>,
    pub updated_time: Option<CivilDateTime>,
}

/// A web page prepared for display.
pub struct DisplayedWebpage {
    pub title: String,
    pub url: String,
    pub site: String,
    pub favicon_base64: String,
    pub domain: String,
    pub pretty_url: String,
    pub snippet: String,
    pub body: String,
    pub primary_image_uuid: Option<String>,
    pub last_updated: Option<String>,
}

/// The date is one `prettify_date` accepts.
pub open spec fn date_displayable(d: CivilDateTime, now: int) -> bool {
    0 <= d.secs && 0 <= now && 1 <= d.month <= 12
}

/// How a displayed page relates to the retrieved one.
pub open spec fn displayed_ok(w: RetrievedWebpage, now: int, r: DisplayedWebpage) -> bool {
    &&& r.title@ == decoded_entities(w.title@).filter(
        |c: char| !(c == '<' || c == '>' || c == '&'),
    )
    &&& r.url@ == w.url@
    &&& r.site@ == crate::webgraph::host_part(w.url@)
    &&& r.domain@ == crate::webgraph::host_part(w.url@)
    &&& r.favicon_base64@ == base64_of(
        match w.favicon {
            Some(b) => b@,
            None => Seq::<u8>::empty(),
        },
    )
    &&& r.pretty_url@ == pretty_url_spec(w.url@)
    &&& r.snippet@ == w.snippet@
    &&& r.body@ == w.body@
    &&& r.primary_image_uuid == w.primary_image_uuid
    &&& match w.updated_time {
        Some(d) => if date_displayable(d, now) {
            r.last_updated matches Some(t) && t@ == pretty_date(
                d.secs as int,
                d.year as int,
                d.month as int,
                d.day as int,
                now,
            )
        } else {
            r.last_updated is None
        },
        None => r.last_updated is None,
    }
}

impl DisplayedWebpage {
    /// Prepares a retrieved page for display, against the current time
    /// `now` (seconds since the epoch).
    pub fn from(webpage: RetrievedWebpage, now: i64) -> (r: DisplayedWebpage)
        ensures
            displayed_ok(webpage, now as int, r),
    {
        let title = html_escape(webpage.title.as_str());
        let site = crate::webgraph::into_host(&webpage.url);
        let domain = crate::webgraph::into_host(&webpage.url);
        let pretty = prettify_url(&webpage.url);
        let favicon_bytes = match webpage.favicon {
            Some(b) => b,
            None => Vec::new(),
        };
        let favicon_base64 = encode_base64(&favicon_bytes);
        let last_updated = match &webpage.updated_time {
            Some(d) => {
                if 0 <= d.secs && 0 <= now && 1 <= d.month && d.month <= 12 {
                    Some(prettify_date(d, now))
                } else {
                    None
                }
            }
            None => None,
        };
        DisplayedWebpage {
            title,
            url: webpage.url,
            site,
            favicon_base64,
            domain,
            pretty_url: pretty,
            snippet: webpage.snippet,
            body: webpage.body,
            primary_image_uuid: webpage.primary_image_uuid,
            last_updated,
        }
    }
}

/// Prepares retrieved pages for display, in order.
pub fn retrieve(result: Vec<RetrievedWebpage>, now: i64) -> (r: Vec<DisplayedWebpage>)
    ensures
        r@.len() == result@.len(),
        forall|i: int| #![trigger r@[i]] 0 <= i < r@.len()
            ==> displayed_ok(result@[i], now as int, r@[i]),
{
    let mut r: Vec<DisplayedWebpage> = Vec::new();
    let mut rest = result;
    let ghost all = rest@;
    let total = rest.len();
    let mut i: usize = 0;
    while rest.len() > 0
        invariant
            all.len() == total,
            i <= total,
            i + rest@.len() == all.len(),
            r@.len() == i,
            rest@ =~= all.skip(i as int),
            forall|k: int| #![trigger r@[k]] 0 <= k < i ==> displayed_ok(all[k], now as int, r@[k]),
        decreases rest@.len(),
    {
        let w = rest.remove(0);
        proof {
            assert(w == all[i as int]);
            assert(rest@ =~= all.skip(i + 1));
        }
        let d = DisplayedWebpage::from(w, now);
        r.push(d);
        i = i + 1;
    }
    r
}

/// A stored entity with its collaborator lookups already resolved: the
/// image as raw bytes, and each attribute's occurrence count attached.
pub struct StoredEntity {
    pub title: String,
    pub entity_abstract: String,
    pub links: Vec<Link>,
    pub image: Option<Vec<u8>>,
    pub related_entities: Vec<StoredEntity>,
    pub info: Vec<InfoEntry>,
}

/// An entity card prepared for display.
pub struct DisplayedEntity {
    pub title: String,
    pub small_abstract: String,
    pub image_base64: Option<String>,
    pub related_entities: Vec<DisplayedEntity>,
    pub info: Vec<(String, String)>,
}

/// Links of the entity and of all its attributes and related entities
/// are well-formed.
pub open spec fn entity_wf(e: StoredEntity) -> bool
    decreases e,
{
    &&& links_ordered(e.links@)
    &&& forall|k: int| #![trigger e.info@[k]] 0 <= k < e.info@.len()
        ==> links_ordered(e.info@[k].value.links@)
    &&& forall|k: int| #![trigger e.related_entities@[k]] 0 <= k < e.related_entities@.len()
        ==> entity_wf(e.related_entities@[k])
}

/// How a displayed entity card relates to the stored entity.
pub open spec fn displayed_entity_ok(e: StoredEntity, r: DisplayedEntity) -> bool
    decreases e,
{
    &&& r.title@ == e.title@
    &&& r.small_abstract@ == entity_html(e.entity_abstract@, e.links@, 300)
    &&& r.image_base64 matches Some(s) ==> (e.image matches Some(b) && s@ == base64_of(b@))
    &&& (r.image_base64 is Some) == (e.image is Some)
    &&& r.related_entities@.len() == e.related_entities@.len()
    &&& forall|k: int| #![trigger r.related_entities@[k]] 0 <= k < r.related_entities@.len()
        ==> displayed_entity_ok(e.related_entities@[k], r.related_entities@[k])
    &&& r.info@.len() <= 5
    &&& forall|k: int| #![trigger r.info@[k]] 0 <= k < r.info@.len()
        ==> info_entry_ok(e.info@, r.info@[k].0@, r.info@[k].1@)
}

impl DisplayedEntity {
    /// Prepares an entity card for display: the abstract rendered with
    /// its links at 300 characters, the image encoded as base64, related
    /// entities prepared recursively, and the attribute table assembled
    /// by [`prepare_info`].
    pub fn from(entity: &StoredEntity) -> (r: DisplayedEntity)
        requires
            entity_wf(*entity),
        ensures
            displayed_entity_ok(*entity, r),
        decreases *entity,
    {
        let small_abstract = entity_link_to_html_ref(&entity.entity_abstract, &entity.links, 300);
        let image_base64 = match &entity.image {
            Some(b) => Some(encode_base64(b)),
            None => None,
        };
        let mut related: Vec<DisplayedEntity> = Vec::new();
        let mut k: usize = 0;
        while k < entity.related_entities.len()
            invariant
                entity_wf(*entity),
                k <= entity.related_entities@.len(),
                related@.len() == k,
                forall|j: int| #![trigger related@[j]] 0 <= j < k
                    ==> displayed_entity_ok(entity.related_entities@[j], related@[j]),
            decreases entity.related_entities@.len() - k,
        {
            proof {
                assert(entity_wf(entity.related_entities@[k as int]));
            }
            let d = Self::from(&entity.related_entities[k]);
            related.push(d);
            k = k + 1;
        }
        let info = prepare_info(&entity.info);
        DisplayedEntity {
            title: entity.title.clone(),
            small_abstract,
            image_base64,
            related_entities: related,
            info,
        }
    }
}

/// The first response to a query, prepared for display.
pub struct InitialWebsiteResult {
    pub spell_corrected_query: Option<String>,
    pub websites: Vec<crate::collector::WebsitePointer>,
    pub entity: Option<DisplayedEntity>,
}

/// Prepares the first response to a query: the ranked pointers pass
/// through, and the entity card, when there is one, is prepared for
/// display.
pub fn initial(
    spell_corrected_query: Option<String>,
    websites: Vec<crate::collector::WebsitePointer>,
    entity: Option<StoredEntity>,
) -> (r: InitialWebsiteResult)
    requires
        entity matches Some(e) ==> entity_wf(e),
    ensures
        r.spell_corrected_query == spell_corrected_query,
        r.websites == websites,
        (r.entity is Some) == (entity is Some),
        entity matches Some(e) ==> (r.entity matches Some(d) && displayed_entity_ok(e, d)),
{
    let displayed = match &entity {
        Some(e) => Some(DisplayedEntity::from(e)),
        None => None,
    };
    InitialWebsiteResult { spell_corrected_query, websites, entity: displayed }
}

} // verus!
