//! Searching the web and opening pages: what is asked, and what comes of the
//! answers.
use vstd::prelude::*;
use vstd::utf8::{decode_utf8, encode_utf8, valid_utf8};

use crate::agent::{depth_label, plan_of, WebSearchDepth};
use crate::html::{collapse_ws, collapsed, html_to_readable_text, page_text, readable, strip_tags};
use crate::json::{
    array_at, json_at, json_fault, read_array, read_fault, read_text, text_at,
};
use crate::skills::res_view;
use crate::text::{
    byte_len, chars_of, contains, decimal, ends_with, find, find_chars, find_from, join, joined,
    lemma_find, lemma_find_from, lemma_found_behind, lemma_found_later, lemma_occurs_itself,
    lemma_occurs_within, lower, number, occurs, occurs_at, opt_text, position, position_from,
    slice, split, split_on, starts_with, strip_prefix, texts, to_lower, trim, trimmed, utf8_width,
    without_prefix, words_of, Text,
};

verus! {

broadcast use vstd::string::group_string_axioms;

/// How many results of a search are kept.
pub const MAX_SEARCH_RESULTS: usize = 6;

/// How many bytes of a result page are read.
pub const MAX_PAGE_BYTES: u64 = 1_500_000;

/// How far behind the start of a snippet its end is looked for, in bytes.
pub const SNIPPET_BYTES: usize = 1200;

/// A result of a search.
#[derive(Debug)]
pub struct SearchHit {
    pub title: String,
    pub url: String,
    pub snippet: String,
}

/// The view of [`SearchHit`].
#[verifier::ext_equal]
pub struct HitView {
    pub title: Text,
    pub url: Text,
    pub snippet: Text,
}

impl View for SearchHit {
    type V = HitView;

    open spec fn view(&self) -> HitView {
        HitView { title: self.title@, url: self.url@, snippet: self.snippet@ }
    }
}

impl Clone for SearchHit {
    fn clone(&self) -> (r: SearchHit)
        ensures
            r@ == self@,
    {
        SearchHit { title: self.title.clone(), url: self.url.clone(), snippet: self.snippet.clone() }
    }
}

/// The views of results.
pub open spec fn hits(v: Seq<SearchHit>) -> Seq<HitView> {
    v.map_values(|h: SearchHit| h@)
}

/// The value of a hexadecimal digit.
pub open spec fn hex_value(b: u8) -> Option<u8> {
    if '0' <= b && b <= '9' {
        Some((b - 48) as u8)
    } else if 'a' <= b && b <= 'f' {
        Some((b - 87) as u8)
    } else if 'A' <= b && b <= 'F' {
        Some((b - 55) as u8)
    } else {
        None
    }
}

/// The value of a hexadecimal digit.
pub fn from_hex(b: u8) -> (r: Option<u8>)
    ensures
        r == hex_value(b),
        r matches Some(n) ==> n < 16,
{
    if 48 <= b && b <= 57 {
        Some(b - 48)
    } else if 97 <= b && b <= 102 {
        Some(b - 87)
    } else if 65 <= b && b <= 70 {
        Some(b - 55)
    } else {
        None
    }
}

/// The byte that a percent sign and two digits at position `i` stand for.
pub open spec fn escaped_byte(b: Seq<u8>, i: int) -> Option<u8> {
    if b[i] == 37 && i + 2 < b.len() {
        match (hex_value(b[i + 1]), hex_value(b[i + 2])) {
            (Some(h), Some(l)) => Some((h * 16 + l) as u8),
            _ => None,
        }
    } else {
        None
    }
}

/// The bytes from position `i` on, with what is escaped put back.
pub open spec fn decoded_from(b: Seq<u8>, i: int) -> Seq<u8>
    decreases b.len() - i,
{
    if i < 0 || i >= b.len() {
        Seq::empty()
    } else {
        match escaped_byte(b, i) {
            Some(x) => seq![x] + decoded_from(b, i + 3),
            None => seq![
                if b[i] == 43 {
                    32u8
                } else {
                    b[i]
                },
            ] + decoded_from(b, i + 1),
        }
    }
}

fn decode_bytes(b: &[u8]) -> (out: Vec<u8>)
    ensures
        out@ == decoded_from(b@, 0),
{
    let mut out: Vec<u8> = Vec::new();
    let mut i: usize = 0;
    while i < b.len()
        invariant
            i <= b.len(),
            out@ + decoded_from(b@, i as int) == decoded_from(b@, 0),
        decreases b.len() - i,
    {
        let ghost before = out@;
        let mut found: Option<u8> = None;
        if b[i] == 37 && 2 < b.len() - i {
            match (from_hex(b[i + 1]), from_hex(b[i + 2])) {
                (Some(h), Some(l)) => {
                    found = Some(h * 16 + l);
                },
                _ => {},
            }
        }
        proof {
            assert(found == escaped_byte(b@, i as int));
        }
        match found {
            Some(x) => {
                out.push(x);
                proof {
                    let rest = decoded_from(b@, i + 3);
                    assert(before.push(x) + rest =~= before + (seq![x] + rest));
                }
                i = i + 3;
            },
            None => {
                let x: u8 = if b[i] == 43 {
                    32
                } else {
                    b[i]
                };
                out.push(x);
                proof {
                    let rest = decoded_from(b@, i + 1);
                    assert(before.push(x) + rest =~= before + (seq![x] + rest));
                }
                i = i + 1;
            },
        }
    }
    proof {
        assert(out@ + decoded_from(b@, i as int) =~= out@);
    }
    out
}

/// The text that bytes hold, with a mark in place of what is no UTF-8.
pub uninterp spec fn utf8_lossy(b: Seq<u8>) -> Text;

/// `String::from_utf8_lossy`: the text that bytes hold. Claimed is that the
/// same bytes give the same text, and that UTF-8 gives the text it encodes.
#[verifier::external_body]
fn lossy_text(b: &Vec<u8>) -> (out: String)
    ensures
        out@ == utf8_lossy(b@),
        valid_utf8(b@) ==> out@ == decode_utf8(b@),
{
    String::from_utf8_lossy(b).into_owned()
}

/// A part of an address with what is escaped put back.
pub open spec fn percent_decoded(s: Text) -> Text {
    utf8_lossy(decoded_from(encode_utf8(s), 0))
}

/// A part of an address with what is escaped put back: the text that its bytes
/// encode, where they encode one.
pub fn percent_decode(input: &str) -> (out: String)
    ensures
        out@ == percent_decoded(input@),
        valid_utf8(decoded_from(encode_utf8(input@), 0)) ==> out@ == decode_utf8(
            decoded_from(encode_utf8(input@), 0),
        ),
{
    let bytes = decode_bytes(input.as_bytes());
    lossy_text(&bytes)
}

/// Where a link of the search page leads.
pub open spec fn link_target(href: Text) -> Text {
    let full = match without_prefix(href, "//"@) {
        Some(rest) => "https://"@ + rest,
        None => href,
    };
    match find(full, "uddg="@) {
        Some(i) => {
            let start = i + "uddg="@.len();
            percent_decoded(
                match find_from(full, "&"@, start) {
                    Some(end) => full.subrange(start, end),
                    None => full.skip(start),
                },
            )
        },
        None => full,
    }
}

/// Where a link of the search page leads.
pub fn decode_ddg_href(href: &str) -> (out: String)
    ensures
        out@ == link_target(href@),
{
    let full = match strip_prefix(href, "//") {
        Some(rest) => {
            let mut f = "https://".to_owned();
            f.append(rest.as_str());
            f
        },
        None => href.to_owned(),
    };
    let n: usize = full.as_str().unicode_len();
    match position(full.as_str(), "uddg=") {
        Some(i) => {
            proof {
                reveal_strlit("uddg=");
                lemma_find(full@, "uddg="@);
            }
            let start: usize = i + 5;
            match position_from(full.as_str(), "&", start) {
                Some(end) => {
                    proof {
                        lemma_find_from(full@, "&"@, start as int);
                    }
                    percent_decode(slice(full.as_str(), start, end).as_str())
                },
                None => {
                    proof {
                        assert(full@.subrange(start as int, n as int) =~= full@.skip(start as int));
                    }
                    percent_decode(slice(full.as_str(), start, n).as_str())
                },
            }
        },
        None => full,
    }
}

/// What stands between two marks, the first of them from position `p` on.
pub open spec fn between_from(s: Text, open: Text, close: Text, p: int) -> Option<Text> {
    match find_from(s, open, p) {
        Some(a) => match find_from(s, close, a + open.len()) {
            Some(e) => Some(s.subrange(a + open.len(), e)),
            None => None,
        },
        None => None,
    }
}

fn between(s: &Vec<char>, open: &str, close: &str, p: usize) -> (r: Option<String>)
    requires
        p <= s.len(),
    ensures
        opt_text(r) == between_from(s@, open@, close@, p as int),
{
    let o = chars_of(open);
    let c = chars_of(close);
    match find_chars(s, &o, p) {
        Some(a) => {
            let start: usize = a + o.len();
            match find_chars(s, &c, start) {
                Some(e) => Some(range_text(s, start, e)),
                None => None,
            }
        },
        None => None,
    }
}

fn range_text(s: &Vec<char>, a: usize, b: usize) -> (out: String)
    requires
        a <= b <= s.len(),
    ensures
        out@ == s@.subrange(a as int, b as int),
{
    let mut out: String = String::new();
    let mut i: usize = a;
    while i < b
        invariant
            a <= i <= b <= s.len(),
            out@ == s@.subrange(a as int, i as int),
        decreases b - i,
    {
        out.push(s[i]);
        i = i + 1;
        proof {
            assert(out@ =~= s@.subrange(a as int, i as int));
        }
    }
    out
}

/// The end of the characters from position `i` on that fit in a number of
/// bytes.
pub open spec fn fits_to(s: Text, i: int, bytes: nat) -> int
    decreases s.len() - i,
{
    if i < 0 || i >= s.len() || utf8_width(s[i]) > bytes {
        i
    } else {
        fits_to(s, i + 1, (bytes - utf8_width(s[i])) as nat)
    }
}

fn fit(s: &Vec<char>, from: usize, bytes: usize) -> (r: usize)
    requires
        from <= s.len(),
    ensures
        r == fits_to(s@, from as int, bytes as nat),
        from <= r <= s.len(),
{
    let mut i: usize = from;
    let mut left: usize = bytes;
    while i < s.len()
        invariant
            from <= i <= s.len(),
            fits_to(s@, from as int, bytes as nat) == fits_to(s@, i as int, left as nat),
        decreases s.len() - i,
    {
        let w: usize = width(s[i]);
        if w > left {
            return i;
        }
        left = left - w;
        i = i + 1;
    }
    i
}

fn width(c: char) -> (w: usize)
    ensures
        w == utf8_width(c),
{
    let n: u32 = c as u32;
    if n < 0x80 {
        1
    } else if n < 0x800 {
        2
    } else if n < 0x10000 {
        3
    } else {
        4
    }
}

/// The snippet that follows a result, not too far from it.
pub open spec fn snippet_after(s: Text, p: int) -> Text {
    match find_from(s, "result__snippet"@, p) {
        Some(q) => {
            let window = s.subrange(q, fits_to(s, q, SNIPPET_BYTES as nat));
            match between_from(window, ">"@, "</"@, 0) {
                Some(t) => collapsed(page_text(t)),
                None => Seq::empty(),
            }
        },
        None => Seq::empty(),
    }
}

fn snippet(s: &Vec<char>, p: usize) -> (out: String)
    requires
        p <= s.len(),
    ensures
        out@ == snippet_after(s@, p as int),
{
    let mark = chars_of("result__snippet");
    match find_chars(s, &mark, p) {
        Some(q) => {
            let end: usize = fit(s, q, SNIPPET_BYTES);
            let window = chars_of(range_text(s, q, end).as_str());
            match between(&window, ">", "</", 0) {
                Some(t) => collapse_ws(strip_tags(t.as_str()).as_str()),
                None => String::new(),
            }
        },
        None => String::new(),
    }
}

/// The result whose link is marked at position `p`; `None` where its address
/// or its title has no end.
pub open spec fn hit_at(s: Text, p: int) -> Option<HitView> {
    match (between_from(s, "href=\""@, "\""@, p), between_from(s, ">"@, "</a>"@, p)) {
        (Some(href), Some(title)) => Some(
            HitView {
                title: collapsed(page_text(title)),
                url: link_target(href),
                snippet: snippet_after(s, p),
            },
        ),
        _ => None,
    }
}

fn read_hit(s: &Vec<char>, p: usize) -> (r: Option<SearchHit>)
    requires
        p <= s.len(),
    ensures
        match r {
            Some(h) => hit_at(s@, p as int) == Some(h@),
            None => hit_at(s@, p as int) is None,
        },
{
    let href = match between(s, "href=\"", "\"", p) {
        Some(v) => v,
        None => {
            return None;
        },
    };
    let title = match between(s, ">", "</a>", p) {
        Some(v) => v,
        None => {
            return None;
        },
    };
    Some(
        SearchHit {
            title: collapse_ws(strip_tags(title.as_str()).as_str()),
            url: decode_ddg_href(href.as_str()),
            snippet: snippet(s, p),
        },
    )
}

/// Results with one more, where there is one that has a title and leads
/// somewhere.
pub open spec fn with_hit(found: Seq<HitView>, h: Option<HitView>) -> Seq<HitView> {
    match h {
        Some(x) => if x.title.len() > 0 && x.url.len() > 0 {
            found.push(x)
        } else {
            found
        },
        None => found,
    }
}

/// The results of a search page from position `i` on, after those found.
pub open spec fn results_from(s: Text, i: int, found: Seq<HitView>) -> Seq<HitView>
    decreases s.len() - i,
    when 0 <= i
{
    proof {
        lemma_find_from(s, "result__a"@, i);
        reveal_strlit("result__a");
    }
    match find_from(s, "result__a"@, i) {
        None => found,
        Some(p) => {
            let now = with_hit(found, hit_at(s, p));
            if hit_at(s, p) is Some && now.len() >= MAX_SEARCH_RESULTS {
                now
            } else {
                results_from(s, p + 1, now)
            }
        },
    }
}

/// The results of a search page.
pub fn parse_ddg_html(html: &str) -> (out: Vec<SearchHit>)
    ensures
        hits(out@) == results_from(html@, 0, Seq::empty()),
{
    let s = chars_of(html);
    let mark = chars_of("result__a");
    proof {
        reveal_strlit("result__a");
    }
    let mut out: Vec<SearchHit> = Vec::new();
    let mut i: usize = 0;
    proof {
        assert(hits(out@) =~= Seq::<HitView>::empty());
    }
    loop
        invariant
            s@ == html@,
            mark@ == "result__a"@,
            mark.len() > 0,
            i <= s.len(),
            results_from(html@, i as int, hits(out@)) == results_from(html@, 0, Seq::empty()),
        decreases s.len() - i,
    {
        match find_chars(&s, &mark, i) {
            None => {
                return out;
            },
            Some(p) => {
                match read_hit(&s, p) {
                    Some(h) => {
                        let ghost was = hits(out@);
                        if h.title.as_str().unicode_len() > 0 && h.url.as_str().unicode_len() > 0 {
                            out.push(h);
                            proof {
                                assert(hits(out@) =~= was.push(h@));
                            }
                        }
                        if out.len() >= MAX_SEARCH_RESULTS {
                            return out;
                        }
                    },
                    None => {},
                }
                i = p + 1;
            },
        }
    }
}

/// A search page gives no more results than are kept, and each has a title and
/// leads somewhere.
pub proof fn law_results_are_usable(s: Text, i: int, found: Seq<HitView>)
    requires
        0 <= i,
        found.len() < MAX_SEARCH_RESULTS,
        forall|k: int|
            0 <= k < found.len() ==> (#[trigger] found[k]).title.len() > 0 && found[k].url.len() > 0,
    ensures
        results_from(s, i, found).len() <= MAX_SEARCH_RESULTS,
        forall|k: int|
            0 <= k < results_from(s, i, found).len() ==> (#[trigger] results_from(
                s,
                i,
                found,
            )[k]).title.len() > 0 && results_from(s, i, found)[k].url.len() > 0,
    decreases s.len() - i,
{
    lemma_find_from(s, "result__a"@, i);
    reveal_strlit("result__a");
    match find_from(s, "result__a"@, i) {
        None => {},
        Some(p) => {
            let now = with_hit(found, hit_at(s, p));
            if now.len() < MAX_SEARCH_RESULTS {
                law_results_are_usable(s, p + 1, now);
            }
        },
    }
}

/// The endings of files that are no pages.
pub open spec fn skipped_endings() -> Seq<Text> {
    seq![
        ".pdf"@,
        ".zip"@,
        ".gz"@,
        ".tgz"@,
        ".rar"@,
        ".7z"@,
        ".exe"@,
        ".dmg"@,
        ".apk"@,
        ".mp3"@,
        ".mp4"@,
        ".mov"@,
        ".avi"@,
        ".mkv"@,
        ".png"@,
        ".jpg"@,
        ".jpeg"@,
        ".gif"@,
        ".webp"@,
        ".svg"@,
        ".ico"@,
        ".css"@,
        ".js"@,
        ".mjs"@,
        ".json"@,
        ".xml"@,
        ".rss"@,
        ".atom"@,
        ".woff"@,
        ".woff2"@,
        ".ttf"@,
    ]
}

fn endings() -> (out: Vec<&'static str>)
    ensures
        out.len() == skipped_endings().len(),
        forall|i: int| 0 <= i < out.len() ==> (#[trigger] out@[i])@ == skipped_endings()[i],
{
    vec![
        ".pdf",
        ".zip",
        ".gz",
        ".tgz",
        ".rar",
        ".7z",
        ".exe",
        ".dmg",
        ".apk",
        ".mp3",
        ".mp4",
        ".mov",
        ".avi",
        ".mkv",
        ".png",
        ".jpg",
        ".jpeg",
        ".gif",
        ".webp",
        ".svg",
        ".ico",
        ".css",
        ".js",
        ".mjs",
        ".json",
        ".xml",
        ".rss",
        ".atom",
        ".woff",
        ".woff2",
        ".ttf",
    ]
}

/// Whether an address may lead to a page: on the web, and to no file of
/// another kind.
pub open spec fn scrapeable(url: Text) -> bool {
    let low = lower(url);
    let path = split_on(low, '?')[0];
    &&& "http://"@.is_prefix_of(low) || "https://"@.is_prefix_of(low)
    &&& forall|i: int|
        0 <= i < skipped_endings().len() ==> !(#[trigger] skipped_endings()[i]).is_suffix_of(path)
}

/// Whether an address may lead to a page.
pub fn scrapeable_url(url: &str) -> (r: bool)
    ensures
        r == scrapeable(url@),
{
    let low = to_lower(url);
    if !(starts_with(low.as_str(), "http://") || starts_with(low.as_str(), "https://")) {
        return false;
    }
    let parts = split(low.as_str(), '?');
    proof {
        crate::text::lemma_split_some(low@, '?');
        assert(texts(parts@)[0] == parts@[0]@);
    }
    let path: &str = parts[0].as_str();
    let all = endings();
    let mut i: usize = 0;
    while i < all.len()
        invariant
            i <= all.len(),
            low@ == lower(url@),
            path@ == split_on(low@, '?')[0],
            all.len() == skipped_endings().len(),
            forall|k: int| 0 <= k < all.len() ==> (#[trigger] all@[k])@ == skipped_endings()[k],
            forall|k: int| 0 <= k < i ==> !(#[trigger] skipped_endings()[k]).is_suffix_of(path@),
        decreases all.len() - i,
    {
        proof {
            assert(all@[i as int]@ == skipped_endings()[i as int]);
        }
        if ends_with(path, all[i]) {
            return false;
        }
        i = i + 1;
    }
    true
}

/// Checks an address that is to be opened; what is no page is refused.
pub fn fetch_single_url(url: &str) -> (r: Result<String, String>)
    ensures
        res_view(r) == (if scrapeable(url@) {
            Ok(url@)
        } else {
            Err("fetch_url only supports http(s) pages (not files like PDF, images, or archives)."@)
        }),
{
    if scrapeable_url(url) {
        Ok(url.to_owned())
    } else {
        Err(
            "fetch_url only supports http(s) pages (not files like PDF, images, or archives).".to_owned(),
        )
    }
}

/// What the model is told of a page that was opened.
pub open spec fn fetched(url: Text, page: Result<Text, Text>) -> Result<Text, Text> {
    match page {
        Err(e) => Err(e),
        Ok(text) => if trimmed(text).len() == 0 {
            Err("Fetched "@ + url + " but extracted no readable text."@)
        } else {
            Ok("Fetched page text from "@ + url + " (up to 8000 characters):\n"@ + text)
        },
    }
}

/// What the model is told of a page that was opened.
pub fn fetched_page(url: &str, page: Result<String, String>) -> (r: Result<String, String>)
    ensures
        res_view(r) == fetched(url@, res_view(page)),
{
    match page {
        Err(e) => Err(e),
        Ok(text) => {
            if trim(text.as_str()).as_str().unicode_len() == 0 {
                let mut e = "Fetched ".to_owned();
                e.append(url);
                e.append(" but extracted no readable text.");
                Err(e)
            } else {
                let mut out = "Fetched page text from ".to_owned();
                out.append(url);
                out.append(" (up to 8000 characters):\n");
                out.append(text.as_str());
                Ok(out)
            }
        },
    }
}

/// An answer of a web server.
#[derive(Debug)]
pub struct HttpReply {
    pub status: u16,
    /// The status as it is shown.
    pub shown: String,
    pub content_type: String,
    /// The body, or why it cannot be read.
    pub body: Result<String, String>,
}

/// The view of [`HttpReply`].
pub struct HttpView {
    pub status: u16,
    pub shown: Text,
    pub content_type: Text,
    pub body: Result<Text, Text>,
}

impl View for HttpReply {
    type V = HttpView;

    open spec fn view(&self) -> HttpView {
        HttpView {
            status: self.status,
            shown: self.shown@,
            content_type: self.content_type@,
            body: res_view(self.body),
        }
    }
}

/// The view of an answer or of why there is none.
pub open spec fn reply_view(r: Result<HttpReply, String>) -> Result<HttpView, Text> {
    match r {
        Ok(x) => Ok(x@),
        Err(e) => Err(e@),
    }
}

/// Whether a kind of content can be read as text; one that is not given can.
pub open spec fn readable_type(kind: Text) -> bool {
    kind.len() == 0 || occurs(kind, "text/html"@) || occurs(kind, "application/xhtml"@) || occurs(
        kind,
        "text/plain"@,
    ) || occurs(kind, "text/xml"@) || occurs(kind, "application/xml"@)
}

/// What a page says, or why it cannot be read.
pub open spec fn page_of(r: Result<HttpView, Text>, max: nat) -> Result<Text, Text> {
    match r {
        Err(e) => Err(e),
        Ok(a) => if a.status != 200 && a.status != 203 && a.status != 206 {
            Err("HTTP "@ + a.shown)
        } else if !readable_type(lower(a.content_type)) {
            Err("unsupported content-type ("@ + lower(a.content_type) + ")"@)
        } else {
            match a.body {
                Err(e) => Err("read failed: "@ + e),
                Ok(html) => Ok(readable(html, max)),
            }
        },
    }
}

/// What a page says, or why it cannot be read.
pub fn fetch_page_text(reply: &Result<HttpReply, String>, max_chars: usize) -> (r: Result<
    String,
    String,
>)
    ensures
        res_view(r) == page_of(reply_view(*reply), max_chars as nat),
{
    let a = match reply {
        Ok(a) => a,
        Err(e) => {
            return Err(e.clone());
        },
    };
    if a.status != 200 && a.status != 203 && a.status != 206 {
        let mut e = "HTTP ".to_owned();
        e.append(a.shown.as_str());
        return Err(e);
    }
    let kind = to_lower(a.content_type.as_str());
    let k: &str = kind.as_str();
    if !(k.unicode_len() == 0 || contains(k, "text/html") || contains(k, "application/xhtml")
        || contains(k, "text/plain") || contains(k, "text/xml") || contains(k, "application/xml")) {
        let mut e = "unsupported content-type (".to_owned();
        e.append(k);
        e.append(")");
        return Err(e);
    }
    match &a.body {
        Err(why) => {
            let mut e = "read failed: ".to_owned();
            e.append(why.as_str());
            Err(e)
        },
        Ok(html) => Ok(html_to_readable_text(html.as_str(), max_chars)),
    }
}

/// A text in quotes, escaped as Rust shows it.
pub uninterp spec fn debugged(text: Text) -> Text;

/// `Debug` of `str`: a text in quotes with what needs it escaped. Claimed is
/// that the same text is shown alike.
#[verifier::external_body]
fn debug_text(text: &str) -> (out: String)
    ensures
        out@ == debugged(text@),
{
    format!("{text:?}")
}

/// What a search found: the text for the model, and the pages to open.
#[derive(Debug)]
pub struct Found {
    pub text: String,
    pub hits: Vec<SearchHit>,
}

/// The view of [`Found`].
#[verifier::ext_equal]
pub struct FoundView {
    pub text: Text,
    pub hits: Seq<HitView>,
}

impl View for Found {
    type V = FoundView;

    open spec fn view(&self) -> FoundView {
        FoundView { text: self.text@, hits: hits(self.hits@) }
    }
}

/// How a result is listed.
pub open spec fn hit_entry(n: nat, h: HitView) -> Text {
    "\n"@ + decimal(n) + ". "@ + h.title + "\n   URL: "@ + h.url + "\n   "@ + h.snippet + "\n"@
}

/// The results, listed.
pub open spec fn hit_entries(v: Seq<HitView>) -> Text
    decreases v.len(),
{
    if v.len() == 0 {
        Seq::empty()
    } else {
        hit_entries(v.drop_last()) + hit_entry(v.len(), v.last())
    }
}

/// What a search says.
pub open spec fn search_text(query: Text, v: Seq<HitView>) -> Text {
    "Web search results for "@ + debugged(query) + " (DuckDuckGo):\n"@ + hit_entries(v)
}

fn list_hits(query: &str, v: &Vec<SearchHit>) -> (out: String)
    ensures
        out@ == search_text(query@, hits(v@)),
{
    let mut out = "Web search results for ".to_owned();
    out.append(debug_text(query).as_str());
    out.append(" (DuckDuckGo):\n");
    let ghost head = out@;
    let ghost all = hits(v@);
    let mut i: usize = 0;
    proof {
        assert(all.take(0) =~= Seq::<HitView>::empty());
        assert(out@ =~= head + hit_entries(all.take(0)));
    }
    while i < v.len()
        invariant
            i <= v.len(),
            all == hits(v@),
            out@ == head + hit_entries(all.take(i as int)),
        decreases v.len() - i,
    {
        let ghost before = out@;
        proof {
            assert(all.take(i + 1).drop_last() =~= all.take(i as int));
            assert(all.take(i + 1).last() == v@[i as int]@);
        }
        out.append("\n");
        out.append(number(i as u64 + 1).as_str());
        out.append(". ");
        out.append(v[i].title.as_str());
        out.append("\n   URL: ");
        out.append(v[i].url.as_str());
        out.append("\n   ");
        out.append(v[i].snippet.as_str());
        out.append("\n");
        proof {
            let entry = hit_entry((i + 1) as nat, v@[i as int]@);
            assert(out@ =~= before + entry);
            assert(out@ =~= head + (hit_entries(all.take(i as int)) + entry));
        }
        i = i + 1;
    }
    proof {
        assert(all.take(v.len() as int) =~= all);
    }
    out
}

/// What a search found, `None` where the page lists nothing, or why it failed.
pub open spec fn searched(query: Text, r: Result<HttpView, Text>) -> Result<Option<FoundView>, Text> {
    match r {
        Err(e) => Err("DuckDuckGo request failed: "@ + e),
        Ok(a) => if a.status != 200 && a.status != 202 {
            Err("DuckDuckGo returned HTTP "@ + a.shown)
        } else {
            match a.body {
                Err(e) => Err("Failed to read DuckDuckGo body: "@ + e),
                Ok(html) => if occurs(html, "anomaly.js"@) || occurs(
                    html,
                    "Please complete the captcha"@,
                ) {
                    Err("DuckDuckGo blocked the search request (captcha / bot check)."@)
                } else {
                    let v = results_from(html, 0, Seq::empty());
                    if v.len() == 0 {
                        Ok(None)
                    } else {
                        Ok(Some(FoundView { text: search_text(query, v), hits: v }))
                    }
                },
            }
        },
    }
}

/// The view of what a search found.
pub open spec fn found_view(r: Result<Option<Found>, String>) -> Result<Option<FoundView>, Text> {
    match r {
        Ok(Some(f)) => Ok(Some(f@)),
        Ok(None) => Ok(None),
        Err(e) => Err(e@),
    }
}

fn told(text: &str, why: &str) -> (out: String)
    ensures
        out@ == text@ + why@,
{
    let mut out = text.to_owned();
    out.append(why);
    out
}

/// What a search found, from the search page's answer.
pub fn duckduckgo_search(query: &str, reply: &Result<HttpReply, String>) -> (r: Result<
    Option<Found>,
    String,
>)
    ensures
        found_view(r) == searched(query@, reply_view(*reply)),
{
    let a = match reply {
        Ok(a) => a,
        Err(e) => {
            return Err(told("DuckDuckGo request failed: ", e.as_str()));
        },
    };
    if a.status != 200 && a.status != 202 {
        return Err(told("DuckDuckGo returned HTTP ", a.shown.as_str()));
    }
    let html: &str = match &a.body {
        Ok(h) => h.as_str(),
        Err(e) => {
            return Err(told("Failed to read DuckDuckGo body: ", e.as_str()));
        },
    };
    if contains(html, "anomaly.js") || contains(html, "Please complete the captcha") {
        return Err("DuckDuckGo blocked the search request (captcha / bot check).".to_owned());
    }
    let v = parse_ddg_html(html);
    proof {
        assert(hits(v@).len() == v.len());
    }
    if v.len() == 0 {
        return Ok(None);
    }
    let text = list_hits(query, &v);
    Ok(Some(Found { text, hits: v }))
}

/// An instant answer while it is put together.
#[verifier::ext_equal]
pub struct AnswerView {
    pub lines: Seq<Text>,
    pub hits: Seq<HitView>,
    pub count: nat,
}

/// An answer with the topic that stands at a pointer, which says the given
/// text.
pub open spec fn with_topic(a: AnswerView, body: Text, at: Text, text: Text) -> AnswerView {
    let n = a.count + 1;
    let url = match text_at(body, at + "/FirstURL"@) {
        Some(u) => u,
        None => Seq::empty(),
    };
    let told = a.lines.push("\n"@ + decimal(n) + ". "@ + text);
    if url.len() == 0 {
        AnswerView { lines: told, hits: a.hits, count: n }
    } else {
        AnswerView {
            lines: told.push("   URL: "@ + url),
            hits: a.hits.push(
                HitView { title: "Related "@ + decimal(n), url, snippet: text },
            ),
            count: n,
        }
    }
}

/// An answer with the items up to `n` of a group of topics, as far as there is
/// room.
pub open spec fn with_items(a: AnswerView, body: Text, at: Text, n: nat) -> AnswerView
    decreases n,
{
    if n == 0 {
        a
    } else {
        let before = with_items(a, body, at, (n - 1) as nat);
        let item = at + "/"@ + decimal((n - 1) as nat);
        match text_at(body, item + "/Text"@) {
            Some(t) => if before.count >= MAX_SEARCH_RESULTS {
                before
            } else {
                with_topic(before, body, item, t)
            },
            None => before,
        }
    }
}

/// An answer with the topics up to `n`, as far as there is room; a topic
/// without a text may be a group of others.
pub open spec fn with_topics(a: AnswerView, body: Text, n: nat) -> AnswerView
    decreases n,
{
    if n == 0 {
        a
    } else {
        let before = with_topics(a, body, (n - 1) as nat);
        let at = "/RelatedTopics/"@ + decimal((n - 1) as nat);
        if before.count >= MAX_SEARCH_RESULTS {
            before
        } else {
            match text_at(body, at + "/Text"@) {
                Some(t) => with_topic(before, body, at, t),
                None => match array_at(body, at + "/Topics"@) {
                    Some(m) => with_items(before, body, at + "/Topics"@, m),
                    None => before,
                },
            }
        }
    }
}

/// An answer's start: the summary, where there is one, and its source.
pub open spec fn summarised(query: Text, body: Text) -> AnswerView {
    let head = seq![
        "Web search results for "@ + debugged(query) + " (DuckDuckGo Instant Answer):"@,
    ];
    match text_at(body, "/AbstractText"@) {
        Some(text) => if text.len() == 0 {
            AnswerView { lines: head, hits: Seq::empty(), count: 0 }
        } else {
            let url = match text_at(body, "/AbstractURL"@) {
                Some(u) => u,
                None => Seq::empty(),
            };
            let told = head.push("\nSummary: "@ + text);
            if url.len() == 0 {
                AnswerView { lines: told, hits: Seq::empty(), count: 0 }
            } else {
                AnswerView {
                    lines: told.push("Source: "@ + url),
                    hits: seq![HitView { title: "Abstract"@, url, snippet: text }],
                    count: 0,
                }
            }
        },
        None => AnswerView { lines: head, hits: Seq::empty(), count: 0 },
    }
}

/// An instant answer, from a body that is JSON.
pub open spec fn instant(query: Text, body: Text) -> FoundView {
    let start = summarised(query, body);
    let a = match array_at(body, "/RelatedTopics"@) {
        Some(n) => with_topics(start, body, n),
        None => start,
    };
    FoundView {
        text: joined(
            if a.lines.len() == 1 {
                a.lines.push("\nNo results found."@)
            } else {
                a.lines
            },
            "\n"@,
        ),
        hits: a.hits,
    }
}

struct Answer {
    lines: Vec<String>,
    hits: Vec<SearchHit>,
    count: usize,
}

impl View for Answer {
    type V = AnswerView;

    closed spec fn view(&self) -> AnswerView {
        AnswerView {
            lines: texts(self.lines@),
            hits: hits(self.hits@),
            count: self.count as nat,
        }
    }
}

impl Answer {
    fn push_line(&mut self, line: String)
        ensures
            final(self)@ == (AnswerView {
                lines: old(self)@.lines.push(line@),
                ..old(self)@
            }),
    {
        let ghost was = texts(self.lines@);
        self.lines.push(line);
        proof {
            assert(texts(self.lines@) =~= was.push(line@));
        }
    }

    fn push_hit(&mut self, h: SearchHit)
        ensures
            final(self)@ == (AnswerView { hits: old(self)@.hits.push(h@), ..old(self)@ }),
    {
        let ghost was = hits(self.hits@);
        self.hits.push(h);
        proof {
            assert(hits(self.hits@) =~= was.push(h@));
        }
    }

    fn topic(&mut self, body: &str, at: &str, text: &str)
        requires
            old(self)@.count < MAX_SEARCH_RESULTS,
        ensures
            final(self)@ == with_topic(old(self)@, body@, at@, text@),
    {
        self.count = self.count + 1;
        let n = number(self.count as u64);
        let mut line = "\n".to_owned();
        line.append(n.as_str());
        line.append(". ");
        line.append(text);
        self.push_line(line);
        let url = match read_text(body, told(at, "/FirstURL").as_str()) {
            Some(u) => u,
            None => String::new(),
        };
        if url.as_str().unicode_len() > 0 {
            self.push_line(told("   URL: ", url.as_str()));
            let title = told("Related ", n.as_str());
            self.push_hit(SearchHit { title, url, snippet: text.to_owned() });
        }
    }

    fn items(&mut self, body: &str, at: &str, n: usize)
        requires
            old(self)@.count <= MAX_SEARCH_RESULTS,
        ensures
            final(self)@ == with_items(old(self)@, body@, at@, n as nat),
            final(self)@.count <= MAX_SEARCH_RESULTS,
    {
        let ghost start = self@;
        let mut i: usize = 0;
        while i < n
            invariant
                i <= n,
                self@ == with_items(start, body@, at@, i as nat),
                self@.count <= MAX_SEARCH_RESULTS,
            decreases n - i,
        {
            let mut item = told(at, "/");
            item.append(number(i as u64).as_str());
            match read_text(body, told(item.as_str(), "/Text").as_str()) {
                Some(t) => {
                    if self.count < MAX_SEARCH_RESULTS {
                        self.topic(body, item.as_str(), t.as_str());
                    }
                },
                None => {},
            }
            i = i + 1;
        }
    }

    fn topics(&mut self, body: &str, n: usize)
        requires
            old(self)@.count <= MAX_SEARCH_RESULTS,
        ensures
            final(self)@ == with_topics(old(self)@, body@, n as nat),
    {
        let ghost start = self@;
        let mut i: usize = 0;
        while i < n
            invariant
                i <= n,
                self@ == with_topics(start, body@, i as nat),
                self@.count <= MAX_SEARCH_RESULTS,
            decreases n - i,
        {
            if self.count < MAX_SEARCH_RESULTS {
                let at = told("/RelatedTopics/", number(i as u64).as_str());
                match read_text(body, told(at.as_str(), "/Text").as_str()) {
                    Some(t) => {
                        self.topic(body, at.as_str(), t.as_str());
                    },
                    None => {
                        let group = told(at.as_str(), "/Topics");
                        match read_array(body, group.as_str()) {
                            Some(m) => {
                                self.items(body, group.as_str(), m);
                            },
                            None => {},
                        }
                    },
                }
            }
            i = i + 1;
        }
    }
}

fn summary(query: &str, body: &str) -> (a: Answer)
    ensures
        a@ == summarised(query@, body@),
{
    let mut head = told("Web search results for ", debug_text(query).as_str());
    head.append(" (DuckDuckGo Instant Answer):");
    let mut a = Answer { lines: Vec::new(), hits: Vec::new(), count: 0 };
    proof {
        assert(a@.lines =~= Seq::<Text>::empty());
        assert(a@.hits =~= Seq::<HitView>::empty());
    }
    let ghost top = head@;
    a.push_line(head);
    proof {
        assert(a@.lines =~= seq![top]);
    }
    match read_text(body, "/AbstractText") {
        Some(text) => {
            if text.as_str().unicode_len() > 0 {
                let url = match read_text(body, "/AbstractURL") {
                    Some(u) => u,
                    None => String::new(),
                };
                a.push_line(told("\nSummary: ", text.as_str()));
                if url.as_str().unicode_len() > 0 {
                    a.push_line(told("Source: ", url.as_str()));
                    let h = SearchHit { title: "Abstract".to_owned(), url, snippet: text };
                    a.push_hit(h);
                    proof {
                        assert(a@.hits =~= seq![h@]);
                    }
                }
            }
        },
        None => {},
    }
    a
}

/// An instant answer, from the body of the answer; a body that is no JSON is
/// refused.
pub fn duckduckgo_instant_answer(query: &str, body: &str) -> (r: Result<Found, String>)
    ensures
        (r is Ok) == (json_at(body@, ""@) is Some),
        match (r, json_fault(body@)) {
            (Ok(found), None) => found@ == instant(query@, body@),
            (Err(e), Some(fault)) => e@ == "Invalid Instant Answer JSON: json: "@ + fault,
            _ => false,
        },
{
    match read_fault(body) {
        Some(fault) => {
            return Err(told("Invalid Instant Answer JSON: json: ", fault.as_str()));
        },
        None => {},
    }
    let mut a = summary(query, body);
    match read_array(body, "/RelatedTopics") {
        Some(n) => {
            a.topics(body, n);
        },
        None => {},
    }
    proof {
        assert(texts(a.lines@).len() == a.lines.len());
    }
    if a.lines.len() == 1 {
        a.push_line("\nNo results found.".to_owned());
    }
    Ok(Found { text: join(&a.lines, "\n"), hits: a.hits })
}

/// The results that lead to pages.
pub open spec fn pages_among(v: Seq<HitView>) -> Seq<HitView>
    decreases v.len(),
{
    if v.len() == 0 {
        Seq::empty()
    } else if scrapeable(v.last().url) {
        pages_among(v.drop_last()).push(v.last())
    } else {
        pages_among(v.drop_last())
    }
}

/// The results whose pages are opened.
pub open spec fn opened(v: Seq<HitView>, d: WebSearchDepth) -> Seq<HitView> {
    match plan_of(d) {
        None => Seq::empty(),
        Some(p) => {
            let all = pages_among(v);
            if all.len() <= p.0 {
                all
            } else {
                all.take(p.0 as int)
            }
        },
    }
}

proof fn lemma_pages_grow(v: Seq<HitView>, i: int)
    requires
        0 <= i <= v.len(),
    ensures
        pages_among(v.take(i)).is_prefix_of(pages_among(v)),
    decreases v.len(),
{
    if i == v.len() {
        assert(v.take(i) =~= v);
    } else {
        let w = v.drop_last();
        assert(w.take(i) =~= v.take(i));
        lemma_pages_grow(w, i);
    }
}

/// The results whose pages are opened.
pub fn scrape_targets(v: &Vec<SearchHit>, depth: WebSearchDepth) -> (out: Vec<SearchHit>)
    ensures
        hits(out@) == opened(hits(v@), depth),
{
    let mut out: Vec<SearchHit> = Vec::new();
    let ghost all = hits(v@);
    proof {
        assert(hits(out@) =~= Seq::<HitView>::empty());
    }
    let pages: usize = match depth.scrape_plan() {
        Some((n, _)) => n,
        None => {
            return out;
        },
    };
    let mut i: usize = 0;
    proof {
        assert(all.take(0) =~= Seq::<HitView>::empty());
    }
    while i < v.len() && out.len() < pages
        invariant
            i <= v.len(),
            all == hits(v@),
            out.len() <= pages,
            hits(out@) == pages_among(all.take(i as int)),
        decreases v.len() - i,
    {
        let ghost was = hits(out@);
        proof {
            assert(all.take(i + 1).drop_last() =~= all.take(i as int));
            assert(all.take(i + 1).last() == v@[i as int]@);
        }
        if scrapeable_url(v[i].url.as_str()) {
            let h = v[i].clone();
            out.push(h);
            proof {
                assert(hits(out@) =~= was.push(h@));
            }
        }
        i = i + 1;
    }
    proof {
        lemma_pages_grow(all, i as int);
        assert(hits(out@).len() == out.len());
        if i == v.len() {
            assert(all.take(i as int) =~= all);
            assert(pages_among(all).take(out.len() as int) =~= pages_among(all));
        } else {
            assert(hits(out@) =~= pages_among(all).take(pages as int));
        }
    }
    out
}

/// What is shown of an opened page.
pub open spec fn page_section(n: nat, h: HitView, page: Result<Text, Text>) -> Text {
    "\n["@ + decimal(n) + "] "@ + h.title + " ("@ + h.url + ")\n"@ + (match page {
        Ok(t) => if trimmed(t).len() > 0 {
            t
        } else {
            "(no extractable text)"@
        },
        Err(e) => "(fetch failed: "@ + e + ")"@,
    }) + "\n"@
}

/// The views of pages.
pub open spec fn pages_view(v: Seq<Result<String, String>>) -> Seq<Result<Text, Text>> {
    v.map_values(|r: Result<String, String>| res_view(r))
}

/// What is shown of the opened pages.
pub open spec fn page_sections(v: Seq<HitView>, pages: Seq<Result<Text, Text>>) -> Text
    decreases v.len(),
{
    if v.len() == 0 {
        Seq::empty()
    } else {
        page_sections(v.drop_last(), pages) + page_section(
            v.len(),
            v.last(),
            pages[v.len() - 1],
        )
    }
}

/// What a search says with the pages that it opened.
pub open spec fn with_pages(
    out: Text,
    v: Seq<HitView>,
    d: WebSearchDepth,
    pages: Seq<Result<Text, Text>>,
) -> Text {
    match plan_of(d) {
        None => out,
        Some(p) => if v.len() == 0 {
            out
        } else {
            out + "\n--- Fetched page text (depth: "@ + depth_label(d) + ", up to "@ + decimal(
                p.0 as nat,
            ) + " pages) ---\n"@ + page_sections(v, pages)
        },
    }
}

/// Adds the pages that a search opened, in order, to what it says.
pub fn append_scraped_pages(
    out: &mut String,
    targets: &Vec<SearchHit>,
    depth: WebSearchDepth,
    pages: &Vec<Result<String, String>>,
)
    requires
        pages@.len() == targets@.len(),
    ensures
        final(out)@ == with_pages(old(out)@, hits(targets@), depth, pages_view(pages@)),
{
    let count: usize = match depth.scrape_plan() {
        Some((n, _)) => n,
        None => {
            return;
        },
    };
    proof {
        assert(hits(targets@).len() == targets.len());
    }
    if targets.len() == 0 {
        return;
    }
    out.append("\n--- Fetched page text (depth: ");
    out.append(depth.label());
    out.append(", up to ");
    out.append(number(count as u64).as_str());
    out.append(" pages) ---\n");
    let ghost head = out@;
    let ghost all = hits(targets@);
    let ghost seen = pages_view(pages@);
    let mut i: usize = 0;
    proof {
        assert(all.take(0) =~= Seq::<HitView>::empty());
        assert(out@ =~= head + page_sections(all.take(0), seen));
    }
    while i < targets.len()
        invariant
            i <= targets.len(),
            pages@.len() == targets@.len(),
            all == hits(targets@),
            seen == pages_view(pages@),
            out@ == head + page_sections(all.take(i as int), seen),
        decreases targets.len() - i,
    {
        let ghost before = out@;
        proof {
            assert(all.take(i + 1).drop_last() =~= all.take(i as int));
            assert(all.take(i + 1).last() == targets@[i as int]@);
            assert(seen[i as int] == res_view(pages@[i as int]));
        }
        let section = section_text(i, &targets[i], &pages[i]);
        out.append(section.as_str());
        proof {
            assert(out@ =~= head + (page_sections(all.take(i as int), seen) + section@));
        }
        i = i + 1;
    }
    proof {
        assert(all.take(targets.len() as int) =~= all);
    }
}

fn section_text(i: usize, h: &SearchHit, page: &Result<String, String>) -> (out: String)
    requires
        i < usize::MAX,
    ensures
        out@ == page_section((i + 1) as nat, h@, res_view(*page)),
{
    let mut out = "\n[".to_owned();
    out.append(number(i as u64 + 1).as_str());
    out.append("] ");
    out.append(h.title.as_str());
    out.append(" (");
    out.append(h.url.as_str());
    out.append(")\n");
    let ghost head = out@;
    match page {
        Ok(t) => {
            if trim(t.as_str()).as_str().unicode_len() > 0 {
                out.append(t.as_str());
            } else {
                out.append("(no extractable text)");
            }
        },
        Err(e) => {
            out.append("(fetch failed: ");
            out.append(e.as_str());
            out.append(")");
            proof {
                assert(out@ =~= head + ("(fetch failed: "@ + e@ + ")"@));
            }
        },
    }
    out.append("\n");
    out
}

/// A search opens only pages that are among its results, and no more than its
/// depth allows.
pub proof fn law_only_pages_are_opened(v: Seq<HitView>, d: WebSearchDepth)
    ensures
        plan_of(d) is None ==> opened(v, d).len() == 0,
        plan_of(d) matches Some(p) ==> opened(v, d).len() <= p.0,
        forall|i: int|
            0 <= i < opened(v, d).len() ==> scrapeable((#[trigger] opened(v, d)[i]).url)
                && v.contains(opened(v, d)[i]),
{
    lemma_pages_lead_somewhere(v);
}

proof fn lemma_pages_lead_somewhere(v: Seq<HitView>)
    ensures
        forall|i: int|
            0 <= i < pages_among(v).len() ==> scrapeable((#[trigger] pages_among(v)[i]).url)
                && v.contains(pages_among(v)[i]),
    decreases v.len(),
{
    if v.len() > 0 {
        let w = v.drop_last();
        lemma_pages_lead_somewhere(w);
        assert forall|i: int| 0 <= i < pages_among(v).len() implies scrapeable(
            (#[trigger] pages_among(v)[i]).url,
        ) && v.contains(pages_among(v)[i]) by {
            if i < pages_among(w).len() {
                assert(pages_among(v)[i] == pages_among(w)[i]);
                let k = choose|k: int| 0 <= k < w.len() && w[k] == pages_among(w)[i];
                assert(v[k] == w[k]);
            } else {
                assert(v[v.len() - 1] == v.last());
            }
        }
    }
}

proof fn lemma_between_later(a: Text, s: Text, open: Text, close: Text, p: int)
    requires
        0 <= p,
    ensures
        between_from(a + s, open, close, a.len() + p) == between_from(s, open, close, p),
{
    let n = a.len() as int;
    lemma_found_later(a, s, open, p);
    lemma_find_from(s, open, p);
    match find_from(s, open, p) {
        Some(k) => {
            let from = k + open.len();
            lemma_found_later(a, s, close, from);
            lemma_find_from(s, close, from);
            match find_from(s, close, from) {
                Some(e) => {
                    assert((a + s).subrange(n + from, n + e) =~= s.subrange(from, e));
                },
                None => {},
            }
        },
        None => {},
    }
}

proof fn lemma_fits_later(a: Text, s: Text, i: int, bytes: nat)
    requires
        0 <= i <= s.len(),
    ensures
        fits_to(a + s, a.len() + i, bytes) == a.len() + fits_to(s, i, bytes),
        i <= fits_to(s, i, bytes) <= s.len(),
    decreases s.len() - i,
{
    if i < s.len() && utf8_width(s[i]) <= bytes {
        lemma_fits_later(a, s, i + 1, (bytes - utf8_width(s[i])) as nat);
    }
}

/// A result is read from what stands behind its own link: whatever comes before
/// the link in the page, its title, address and snippet are the same.
pub proof fn law_result_is_its_own(a: Text, s: Text, p: int)
    requires
        0 <= p <= s.len(),
    ensures
        hit_at(a + s, a.len() + p) == hit_at(s, p),
{
    let n = a.len() as int;
    lemma_between_later(a, s, "href=\""@, "\""@, p);
    lemma_between_later(a, s, ">"@, "</a>"@, p);
    let mark = "result__snippet"@;
    lemma_found_later(a, s, mark, p);
    lemma_find_from(s, mark, p);
    match find_from(s, mark, p) {
        Some(q) => {
            lemma_fits_later(a, s, q, SNIPPET_BYTES as nat);
            let e = fits_to(s, q, SNIPPET_BYTES as nat);
            assert((a + s).subrange(n + q, n + e) =~= s.subrange(q, e));
        },
        None => {},
    }
}

/// What comes before the place where the reading of a page starts has no part
/// in its results.
pub proof fn law_results_follow_the_page(a: Text, s: Text, i: int, found: Seq<HitView>)
    requires
        0 <= i,
    ensures
        results_from(a + s, a.len() + i, found) == results_from(s, i, found),
    decreases s.len() - i,
{
    let mark = "result__a"@;
    reveal_strlit("result__a");
    lemma_found_later(a, s, mark, i);
    lemma_find_from(s, mark, i);
    lemma_find_from(a + s, mark, a.len() + i);
    match find_from(s, mark, i) {
        None => {},
        Some(p) => {
            law_result_is_its_own(a, s, p);
            let now = with_hit(found, hit_at(s, p));
            if !(hit_at(s, p) is Some && now.len() >= MAX_SEARCH_RESULTS) {
                law_results_follow_the_page(a, s, p + 1, now);
            }
        },
    }
}

proof fn lemma_links_of_results(s: Text, i: int, found: Seq<HitView>) -> (at: Seq<int>)
    requires
        0 <= i,
    ensures
        results_from(s, i, found).len() == found.len() + at.len(),
        results_from(s, i, found).take(found.len() as int) == found,
        forall|k: int|
            0 <= k < at.len() ==> i <= #[trigger] at[k] && occurs_at(s, "result__a"@, at[k])
                && hit_at(s, at[k]) == Some(results_from(s, i, found)[found.len() + k]),
        forall|j: int, k: int| 0 <= j < k < at.len() ==> at[j] < at[k],
    decreases s.len() - i,
{
    let mark = "result__a"@;
    reveal_strlit("result__a");
    lemma_find_from(s, mark, i);
    let all = results_from(s, i, found);
    match find_from(s, mark, i) {
        None => {
            assert(all.take(found.len() as int) =~= found);
            Seq::empty()
        },
        Some(p) => {
            let hit = hit_at(s, p);
            let now = with_hit(found, hit);
            if hit is Some && now.len() >= MAX_SEARCH_RESULTS {
                assert(all == now);
                assert(all.take(found.len() as int) =~= found);
                if now.len() > found.len() {
                    seq![p]
                } else {
                    Seq::empty()
                }
            } else {
                let rest = lemma_links_of_results(s, p + 1, now);
                assert(all.take(now.len() as int) == now);
                assert(all.take(found.len() as int) =~= now.take(found.len() as int));
                assert(now.take(found.len() as int) =~= found);
                if now.len() > found.len() {
                    assert(all[found.len() as int] == now[found.len() as int]) by {
                        assert(all.take(now.len() as int)[found.len() as int]
                            == now[found.len() as int]);
                    }
                    let at = seq![p] + rest;
                    assert forall|k: int| 0 <= k < at.len() implies i <= #[trigger] at[k]
                        && occurs_at(s, mark, at[k]) && hit_at(s, at[k]) == Some(
                        all[found.len() + k],
                    ) by {
                        if k > 0 {
                            assert(at[k] == rest[k - 1]);
                        }
                    }
                    assert forall|j: int, k: int| 0 <= j < k < at.len() implies at[j] < at[k] by {
                        assert(at[k] == rest[k - 1]);
                        if j > 0 {
                            assert(at[j] == rest[j - 1]);
                        }
                    }
                    at
                } else {
                    rest
                }
            }
        },
    }
}

/// Each result of a page is the one at a link of its own, and the results stand
/// in the order of their links.
pub proof fn law_each_result_has_its_link(s: Text)
    ensures
        exists|at: Seq<int>|
            {
                let all = results_from(s, 0, Seq::empty());
                &&& #[trigger] at.len() == all.len()
                &&& forall|k: int|
                    0 <= k < at.len() ==> occurs_at(s, "result__a"@, #[trigger] at[k]) && hit_at(
                        s,
                        at[k],
                    ) == Some(all[k])
                &&& forall|j: int, k: int| 0 <= j < k < at.len() ==> at[j] < at[k]
            },
{
    let all = results_from(s, 0, Seq::empty());
    let at = lemma_links_of_results(s, 0, Seq::empty());
    assert(at.len() == all.len());
    assert forall|k: int| 0 <= k < at.len() implies occurs_at(s, "result__a"@, #[trigger] at[k])
        && hit_at(s, at[k]) == Some(all[k]) by {
        assert(all[0 + k] == all[k]);
    }
}

proof fn lemma_between(a: Text, open: Text, v: Text, close: Text, b: Text)
    requires
        open.len() > 0,
        close.len() > 0,
        !occurs(a, open),
        !occurs(v, close),
        forall|j: int| 0 < j < open.len() ==> #[trigger] open[j] != open[0],
        forall|j: int| 0 < j < close.len() ==> #[trigger] close[j] != close[0],
    ensures
        between_from(a + open + v + close + b, open, close, 0) == Some(v),
{
    let s = a + open + v + close + b;
    assert(s =~= a + open + (v + close + b));
    lemma_found_behind(a, open, v + close + b);
    assert(s =~= (a + open) + (v + close + b));
    lemma_found_behind(v, close, b);
    lemma_found_later(a + open, v + close + b, close, 0);
    let from = (a.len() + open.len()) as int;
    assert(s.subrange(from, from + v.len()) =~= v);
}

proof fn lemma_one_char(a: Text, p: Text)
    requires
        p.len() == 1,
        !a.contains(p[0]),
    ensures
        !occurs(a, p),
{
    if occurs(a, p) {
        let i = choose|i: int| occurs_at(a, p, i);
        assert(a.subrange(i, i + 1)[0] == a[i]);
    }
}

proof fn lemma_bytes_in_front(c: char, s: Text)
    ensures
        byte_len(seq![c] + s) == utf8_width(c) + byte_len(s),
    decreases s.len(),
{
    let t = seq![c] + s;
    if s.len() == 0 {
        assert(t.drop_last() =~= Seq::<char>::empty());
        reveal_with_fuel(byte_len, 2);
    } else {
        lemma_bytes_in_front(c, s.drop_last());
        assert(t.drop_last() =~= seq![c] + s.drop_last());
    }
}

proof fn lemma_fits(s: Text, i: int, k: int, bytes: nat)
    requires
        0 <= i <= k <= s.len(),
        byte_len(s.subrange(i, k)) <= bytes,
    ensures
        k <= fits_to(s, i, bytes) <= s.len(),
    decreases s.len() - i,
{
    if i < k {
        let part = s.subrange(i, k);
        let rest = s.subrange(i + 1, k);
        assert(part =~= seq![s[i]] + rest);
        lemma_bytes_in_front(s[i], rest);
        lemma_fits(s, i + 1, k, (bytes - utf8_width(s[i])) as nat);
    } else if i < s.len() && utf8_width(s[i]) <= bytes {
        lemma_fits(s, i + 1, i + 1, (bytes - utf8_width(s[i])) as nat);
        assert(s.subrange(i + 1, i + 1) =~= Seq::<char>::empty());
    }
}

proof fn lemma_regrouped(p: Text, a: Text, b: Text, c: Text, d: Text, e: Text, w: Text)
    ensures
        p + (a + b + c + d + (e + w)) == p + a + b + c + d + (e + w),
        p + (a + b + c + d + (e + w)) == p + a + b + c + d + e + w,
{
    assert(p + (a + b + c + d + (e + w)) =~= p + a + b + c + d + (e + w));
    assert(p + (a + b + c + d + (e + w)) =~= p + a + b + c + d + e + w);
}

proof fn lemma_no_mark(a: Text, b: Text, c: char)
    requires
        !a.contains(c),
        !b.contains(c),
    ensures
        !(a + b).contains(c),
{
    let s = a + b;
    if s.contains(c) {
        let k = choose|k: int| 0 <= k < s.len() && s[k] == c;
        if k < a.len() {
            assert(a.contains(a[k]));
        } else {
            assert(b.contains(b[k - a.len()]));
        }
    }
}

proof fn lemma_snippet_read(front: Text, attributes: Text, snippet: Text, rest: Text)
    requires
        !occurs(front, "result__snippet"@),
        !attributes.contains('>'),
        !occurs(snippet, "</"@),
        byte_len("result__snippet"@ + attributes + ">"@ + snippet + "</"@) <= 1200,
    ensures
        snippet_after(
            front + ("result__snippet"@ + attributes + ">"@ + snippet + "</"@ + rest),
            0,
        ) == joined(words_of(page_text(snippet)), " "@),
{
    let mark = "result__snippet"@;
    let core = mark + attributes + ">"@ + snippet + "</"@;
    let s = front + (core + rest);
    reveal_strlit(">");
    reveal_strlit("</");
    reveal_strlit("result__snippet");
    let behind = attributes + ">"@ + snippet + "</"@ + rest;
    lemma_found_behind(front, mark, behind);
    assert(core + rest =~= mark + behind);
    assert(s =~= front + mark + behind);
    let q = front.len() as int;
    let k = q + core.len();
    assert(s.subrange(q, k) =~= core);
    lemma_fits(s, q, k, SNIPPET_BYTES as nat);
    let e = fits_to(s, q, SNIPPET_BYTES as nat);
    let extra = s.subrange(k, e);
    assert(s.subrange(q, e) =~= core + extra);
    assert(!mark.contains('>'));
    lemma_no_mark(mark, attributes, '>');
    lemma_one_char(mark + attributes, ">"@);
    lemma_between(mark + attributes, ">"@, snippet, "</"@, extra);
}

proof fn lemma_link_read(link: Text, address: Text, more: Text, title: Text, z: Text, y: Text)
    requires
        !occurs(link, "href=\""@),
        !link.contains('>'),
        !address.contains('"'),
        !address.contains('>'),
        !more.contains('>'),
        !occurs(title, "</a>"@),
    ensures
        between_from(link + "href=\""@ + address + "\""@ + y, "href=\""@, "\""@, 0) == Some(
            address,
        ),
        between_from(
            link + "href=\""@ + address + "\""@ + more + ">"@ + title + "</a>"@ + z,
            ">"@,
            "</a>"@,
            0,
        ) == Some(title),
{
    let four = link + "href=\""@ + address + "\""@;
    let head = four + more;
    assert(!head.contains('>')) by {
        reveal_strlit("href=\"");
        reveal_strlit("\"");
        lemma_no_mark(link, "href=\""@, '>');
        lemma_no_mark(link + "href=\""@, address, '>');
        lemma_no_mark(link + "href=\""@ + address, "\""@, '>');
        lemma_no_mark(four, more, '>');
    }
    reveal_strlit(">");
    reveal_strlit("</a>");
    reveal_strlit("href=\"");
    reveal_strlit("\"");
    lemma_one_char(head, ">"@);
    lemma_between(head, ">"@, title, "</a>"@, z);
    lemma_one_char(address, "\""@);
    lemma_between(link, "href=\""@, address, "\""@, y);
}

/// What a result holds: the address is what its link leads to, the title is what
/// the link says, and the snippet is what its own snippet says.
pub proof fn law_result_is_read(
    link: Text,
    address: Text,
    more: Text,
    title: Text,
    between: Text,
    attributes: Text,
    snippet: Text,
    rest: Text,
)
    requires
        !occurs(link, "href=\""@),
        !link.contains('>'),
        !address.contains('"'),
        !address.contains('>'),
        !more.contains('>'),
        !occurs(title, "</a>"@),
        !occurs(
            link + "href=\""@ + address + "\""@ + more + ">"@ + title + "</a>"@ + between,
            "result__snippet"@,
        ),
        !attributes.contains('>'),
        !occurs(snippet, "</"@),
        byte_len("result__snippet"@ + attributes + ">"@ + snippet + "</"@) <= 1200,
    ensures
        hit_at(
            link + "href=\""@ + address + "\""@ + (more + ">"@ + title + "</a>"@ + (between + (
            "result__snippet"@ + attributes + ">"@ + snippet + "</"@ + rest))),
            0,
        ) == Some(
            HitView {
                title: joined(words_of(page_text(title)), " "@),
                url: link_target(address),
                snippet: joined(words_of(page_text(snippet)), " "@),
            },
        ),
{
    let four = link + "href=\""@ + address + "\""@;
    let head = four + more;
    let front = head + ">"@ + title + "</a>"@ + between;
    let w = "result__snippet"@ + attributes + ">"@ + snippet + "</"@ + rest;
    let y = more + ">"@ + title + "</a>"@ + (between + w);
    let s = four + y;
    lemma_regrouped(four, more, ">"@, title, "</a>"@, between, w);
    lemma_snippet_read(front, attributes, snippet, rest);
    lemma_link_read(link, address, more, title, between + w, y);
}

proof fn lemma_entries_told(v: Seq<HitView>, k: int)
    requires
        0 <= k < v.len(),
    ensures
        occurs(
            hit_entries(v),
            "\n"@ + decimal((k + 1) as nat) + ". "@ + v[k].title + "\n   URL: "@ + v[k].url
                + "\n   "@ + v[k].snippet + "\n"@,
        ),
    decreases v.len(),
{
    let entry = "\n"@ + decimal((k + 1) as nat) + ". "@ + v[k].title + "\n   URL: "@ + v[k].url
        + "\n   "@ + v[k].snippet + "\n"@;
    let before = hit_entries(v.drop_last());
    let last = hit_entry(v.len(), v.last());
    if k == v.len() - 1 {
        lemma_occurs_itself(last);
        lemma_occurs_within(before, last, Seq::empty(), entry);
        assert(before + last + Seq::<char>::empty() =~= before + last);
    } else {
        lemma_entries_told(v.drop_last(), k);
        lemma_occurs_within(Seq::empty(), before, last, entry);
        assert(Seq::<char>::empty() + before + last =~= before + last);
    }
}

/// Every result is told with its number, and with its own title, address and
/// snippet together.
pub proof fn law_every_result_is_told(query: Text, v: Seq<HitView>, k: int)
    requires
        0 <= k < v.len(),
    ensures
        occurs(
            search_text(query, v),
            "\n"@ + decimal((k + 1) as nat) + ". "@ + v[k].title + "\n   URL: "@ + v[k].url
                + "\n   "@ + v[k].snippet + "\n"@,
        ),
        occurs(search_text(query, v), debugged(query)),
{
    let entry = "\n"@ + decimal((k + 1) as nat) + ". "@ + v[k].title + "\n   URL: "@ + v[k].url
        + "\n   "@ + v[k].snippet + "\n"@;
    let head = "Web search results for "@;
    let rest = " (DuckDuckGo):\n"@;
    let all = hit_entries(v);
    lemma_entries_told(v, k);
    lemma_occurs_within(head + debugged(query) + rest, all, Seq::empty(), entry);
    assert(search_text(query, v) =~= (head + debugged(query) + rest) + all + Seq::empty());
    lemma_occurs_itself(debugged(query));
    lemma_occurs_within(head, debugged(query), rest + all, debugged(query));
    assert(search_text(query, v) =~= head + debugged(query) + (rest + all));
}

/// The text of each page that was opened is told beside the title and the
/// address of the result that it was opened for.
pub proof fn law_pages_are_told_beside_their_results(
    v: Seq<HitView>,
    pages: Seq<Result<Text, Text>>,
    k: int,
)
    requires
        0 <= k < v.len(),
    ensures
        pages[k] matches Ok(t) ==> trimmed(t).len() > 0 ==> occurs(
            page_sections(v, pages),
            "\n["@ + decimal((k + 1) as nat) + "] "@ + v[k].title + " ("@ + v[k].url + ")\n"@ + t
                + "\n"@,
        ),
        pages[k] matches Err(e) ==> occurs(
            page_sections(v, pages),
            "\n["@ + decimal((k + 1) as nat) + "] "@ + v[k].title + " ("@ + v[k].url + ")\n"@
                + ("(fetch failed: "@ + e + ")"@) + "\n"@,
        ),
    decreases v.len(),
{
    let before = page_sections(v.drop_last(), pages);
    let last = page_section(v.len(), v.last(), pages[v.len() - 1]);
    if k == v.len() - 1 {
        lemma_occurs_itself(last);
        lemma_occurs_within(before, last, Seq::empty(), last);
        assert(before + last + Seq::<char>::empty() =~= before + last);
    } else {
        law_pages_are_told_beside_their_results(v.drop_last(), pages, k);
        assert(Seq::<char>::empty() + before + last =~= before + last);
        let head = "\n["@ + decimal((k + 1) as nat) + "] "@ + v[k].title + " ("@ + v[k].url
            + ")\n"@;
        match pages[k] {
            Ok(t) => {
                if trimmed(t).len() > 0 {
                    lemma_occurs_within(Seq::empty(), before, last, head + t + "\n"@);
                }
            },
            Err(e) => {
                lemma_occurs_within(
                    Seq::empty(),
                    before,
                    last,
                    head + ("(fetch failed: "@ + e + ")"@) + "\n"@,
                );
            },
        }
    }
}

/// Bytes, each written with a percent sign and two digits.
pub open spec fn percent_encoded(b: Seq<u8>) -> Seq<u8>
    decreases b.len(),
{
    if b.len() == 0 {
        Seq::empty()
    } else {
        seq![
            37u8,
            if b[0] / 16 < 10 {
                (48 + b[0] / 16) as u8
            } else {
                (55 + b[0] / 16) as u8
            },
            if b[0] % 16 < 10 {
                (48 + b[0] % 16) as u8
            } else {
                (55 + b[0] % 16) as u8
            },
        ] + percent_encoded(b.drop_first())
    }
}

pub(crate) proof fn lemma_decoded_later(a: Seq<u8>, b: Seq<u8>, i: int)
    requires
        0 <= i,
    ensures
        decoded_from(a + b, a.len() + i) == decoded_from(b, i),
    decreases b.len() - i,
{
    if i < b.len() {
        assert(escaped_byte(a + b, a.len() + i) == escaped_byte(b, i));
        match escaped_byte(b, i) {
            Some(_) => lemma_decoded_later(a, b, i + 3),
            None => lemma_decoded_later(a, b, i + 1),
        }
    }
}

/// What was written with percent signs is read back.
pub proof fn law_percent_round_trip(b: Seq<u8>)
    ensures
        decoded_from(percent_encoded(b), 0) == b,
    decreases b.len(),
{
    if b.len() > 0 {
        let rest = percent_encoded(b.drop_first());
        let all = percent_encoded(b);
        let first = all.take(3);
        assert(all =~= first + rest);
        law_percent_round_trip(b.drop_first());
        lemma_decoded_later(first, rest, 0);
        assert(escaped_byte(all, 0) == Some(b[0]));
        assert(seq![b[0]] + b.drop_first() =~= b);
    }
}

/// Bytes without percent and plus signs are read as they are, and a plus sign is
/// read as a blank.
pub proof fn law_plain_bytes_stay(b: Seq<u8>)
    requires
        !b.contains(37u8),
    ensures
        decoded_from(b, 0).len() == b.len(),
        forall|i: int|
            0 <= i < b.len() ==> #[trigger] decoded_from(b, 0)[i] == (if b[i] == 43 {
                32u8
            } else {
                b[i]
            }),
    decreases b.len(),
{
    if b.len() > 0 {
        let rest = b.drop_first();
        assert(b.contains(b[0]));
        assert(!rest.contains(37u8)) by {
            if rest.contains(37u8) {
                let k = choose|k: int| 0 <= k < rest.len() && rest[k] == 37u8;
                assert(b[k + 1] == 37u8);
            }
        }
        law_plain_bytes_stay(rest);
        lemma_decoded_later(seq![b[0]], rest, 0);
        assert(seq![b[0]] + rest =~= b);
        assert forall|i: int| 0 <= i < b.len() implies #[trigger] decoded_from(b, 0)[i] == (
        if b[i] == 43 {
            32u8
        } else {
            b[i]
        }) by {
            if i > 0 {
                assert(decoded_from(b, 0)[i] == decoded_from(rest, 0)[i - 1]);
            }
        }
    }
}

/// A link of the search engine leads to the address that it carries; any other
/// link leads where it says, over https where it names no scheme.
pub proof fn law_links_lead_to_their_targets(front: Text, target: Text, rest: Text, plain: Text)
    requires
        !"//"@.is_prefix_of(front + "uddg="@ + target + "&"@ + rest),
        !occurs(front, "uddg="@),
        !target.contains('&'),
        !"//"@.is_prefix_of(plain),
        !occurs(plain, "uddg="@),
        !occurs("https://"@ + plain, "uddg="@),
    ensures
        link_target(front + "uddg="@ + target + "&"@ + rest) == percent_decoded(target),
        link_target(front + "uddg="@ + target) == percent_decoded(target),
        link_target(plain) == plain,
        link_target("//"@ + plain) == "https://"@ + plain,
{
    reveal_strlit("uddg=");
    reveal_strlit("&");
    reveal_strlit("//");
    let mark = "uddg="@;
    let s = front + mark + target + "&"@ + rest;
    lemma_one_char(target, "&"@);
    lemma_found_behind(front, mark, target + "&"@ + rest);
    assert(s =~= front + mark + (target + "&"@ + rest));
    lemma_found_behind(target, "&"@, rest);
    lemma_found_later(front + mark, target + "&"@ + rest, "&"@, 0);
    assert(s =~= (front + mark) + (target + "&"@ + rest));
    let from = (front.len() + mark.len()) as int;
    assert(s.subrange(from, from + target.len()) =~= target);
    let t = front + mark + target;
    lemma_found_behind(front, mark, target);
    lemma_find(target, "&"@);
    lemma_found_later(front + mark, target, "&"@, 0);
    assert(t.skip(from) =~= target);
    assert(!"//"@.is_prefix_of(t)) by {
        if "//"@.is_prefix_of(t) {
            assert(t.take(2) =~= s.take(2));
            assert("//"@ =~= s.take(2));
        }
    }
    lemma_find(plain, mark);
    lemma_find("https://"@ + plain, mark);
    let p = "//"@ + plain;
    assert(p.take(2) =~= "//"@);
    assert(p.skip(2) =~= plain);
    assert("//"@.is_prefix_of(p));
}

/// Pages are opened over http and https only, and no archive, picture, film,
/// style, script or other file that is no page is.
pub proof fn law_files_are_not_opened(url: Text, front: Text, ending: Text)
    requires
        lower(url) == front + ending,
        !lower(url).contains('?'),
        ending == ".pdf"@ || ending == ".zip"@ || ending == ".gz"@ || ending == ".exe"@ || ending
            == ".mp3"@ || ending == ".mp4"@ || ending == ".png"@ || ending == ".jpg"@ || ending
            == ".jpeg"@ || ending == ".gif"@ || ending == ".webp"@ || ending == ".svg"@ || ending
            == ".css"@ || ending == ".js"@ || ending == ".json"@ || ending == ".xml"@,
    ensures
        !scrapeable(url),
{
    let e = skipped_endings();
    crate::text::lemma_split_one(lower(url), '?');
    let path = split_on(lower(url), '?')[0];
    assert(path == front + ending);
    assert(path.skip(path.len() - ending.len()) =~= ending);
    assert(ending.is_suffix_of(path));
    assert(e[0] == ".pdf"@ && e[1] == ".zip"@ && e[2] == ".gz"@ && e[6] == ".exe"@ && e[9]
        == ".mp3"@ && e[10] == ".mp4"@ && e[14] == ".png"@ && e[15] == ".jpg"@ && e[16]
        == ".jpeg"@ && e[17] == ".gif"@ && e[18] == ".webp"@ && e[19] == ".svg"@ && e[21]
        == ".css"@ && e[22] == ".js"@ && e[24] == ".json"@ && e[25] == ".xml"@);
}

} // verus!
