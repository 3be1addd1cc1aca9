//! Readable text out of web pages.
use vstd::prelude::*;

use crate::text::{
    byte_len, byte_length, chars_of, clip, find_chars, find_from, join, joined, lemma_find, lemma_find_from,
    lemma_found_behind, lemma_found_later, lines, lines_of, lower, lower_char, occurs, occurs_at, replace, replaced,
    replaced_from, same, starts_with, string_of, texts, to_lower,
    to_upper, upper, upper_char, words, words_of, Text,
};

verus! {

broadcast use vstd::string::group_string_axioms;

/// What opens a block of the given tag.
pub open spec fn opening(tag: Text) -> Text {
    seq!['<'] + tag
}

/// What closes a block of the given tag.
pub open spec fn closing(tag: Text) -> Text {
    seq!['<', '/'] + tag + seq!['>']
}

/// A page from position `i` on without its blocks of a tag, whatever the case
/// of the letters; a block that nothing closes takes the rest with it.
pub open spec fn unblocked(page: Text, tag: Text, i: int) -> Text
    decreases page.len() - i,
    when 0 <= i <= page.len()
{
    proof {
        let low = lower(page);
        lemma_find_from(low, lower(opening(tag)), i);
        match find_from(low, lower(opening(tag)), i) {
            Some(k) => lemma_find_from(low, lower(closing(tag)), k),
            None => {},
        }
    }
    match find_from(lower(page), lower(opening(tag)), i) {
        Some(k) => match find_from(lower(page), lower(closing(tag)), k) {
            Some(j) => page.subrange(i, k) + unblocked(page, tag, j + closing(tag).len()),
            None => page.subrange(i, k),
        },
        None => page.skip(i),
    }
}

/// Adds the characters from `a` up to `b`.
fn push_range(out: &mut Vec<char>, v: &Vec<char>, a: usize, b: usize)
    requires
        a <= b <= v.len(),
    ensures
        final(out)@ == old(out)@ + v@.subrange(a as int, b as int),
{
    let mut i: usize = a;
    while i < b
        invariant
            a <= i <= b <= v.len(),
            out@ == old(out)@ + v@.subrange(a as int, i as int),
        decreases b - i,
    {
        out.push(v[i]);
        i = i + 1;
        proof {
            assert(v@.subrange(a as int, i as int) =~= v@.subrange(a as int, i - 1).push(
                v@[i - 1],
            ));
            assert(out@ =~= old(out)@ + v@.subrange(a as int, i as int));
        }
    }
    proof {
        assert(out@ =~= old(out)@ + v@.subrange(a as int, b as int));
    }
}

/// A page without its blocks of a tag.
pub fn remove_tag_blocks(html: &str, tag: &str) -> (out: String)
    ensures
        out@ == unblocked(html@, tag@, 0),
{
    let page = chars_of(html);
    let low = chars_of(to_lower(html).as_str());
    let mut open_text = "<".to_owned();
    open_text.append(tag);
    let mut close_text = "</".to_owned();
    close_text.append(tag);
    close_text.append(">");
    proof {
        reveal_strlit("<");
        reveal_strlit("</");
        reveal_strlit(">");
        assert(open_text@ =~= opening(tag@));
        assert(close_text@ =~= closing(tag@));
    }
    let open = chars_of(to_lower(open_text.as_str()).as_str());
    let close = chars_of(to_lower(close_text.as_str()).as_str());
    let mut out: Vec<char> = Vec::new();
    let mut i: usize = 0;
    loop
        invariant
            page@ == html@,
            low@ == lower(html@),
            open@ == lower(opening(tag@)),
            close@ == lower(closing(tag@)),
            i <= page.len(),
            out@ + unblocked(html@, tag@, i as int) == unblocked(html@, tag@, 0),
        decreases page.len() - i,
    {
        match find_chars(&low, &open, i) {
            Some(k) => {
                let ghost before = out@;
                push_range(&mut out, &page, i, k);
                match find_chars(&low, &close, k) {
                    Some(j) => {
                        proof {
                            let rest = unblocked(html@, tag@, j + closing(tag@).len());
                            let piece = html@.subrange(i as int, k as int);
                            assert((before + piece) + rest =~= before + (piece + rest));
                        }
                        i = j + close.len();
                    },
                    None => {
                        return string_of(out.as_slice());
                    },
                }
            },
            None => {
                let end: usize = page.len();
                let ghost before = out@;
                push_range(&mut out, &page, i, end);
                proof {
                    assert(html@.skip(i as int) =~= html@.subrange(i as int, end as int));
                }
                return string_of(out.as_slice());
            },
        }
    }
}

/// A page without its blocks of each tag in turn.
pub open spec fn unblocked_all(page: Text, tags: Seq<Text>) -> Text
    decreases tags.len(),
{
    if tags.len() == 0 {
        page
    } else {
        unblocked(unblocked_all(page, tags.drop_last()), tags.last(), 0)
    }
}

/// The tags whose blocks hold nothing to read.
pub open spec fn silent_tags() -> Seq<Text> {
    seq!["script"@, "style"@, "noscript"@, "svg"@, "template"@]
}

fn remove_silent_blocks(html: &str) -> (out: String)
    ensures
        out@ == unblocked_all(html@, silent_tags()),
{
    let script = remove_tag_blocks(html, "script");
    let style = remove_tag_blocks(script.as_str(), "style");
    let noscript = remove_tag_blocks(style.as_str(), "noscript");
    let svg = remove_tag_blocks(noscript.as_str(), "svg");
    let out = remove_tag_blocks(svg.as_str(), "template");
    proof {
        let t = silent_tags();
        reveal_with_fuel(unblocked_all, 6);
        assert(t.drop_last().drop_last().drop_last().drop_last().drop_last().len() == 0);
    }
    out
}

/// The marks that end a line of text.
pub open spec fn line_marks() -> Seq<Text> {
    seq![
        "</p>"@,
        "</div>"@,
        "</section>"@,
        "</article>"@,
        "</li>"@,
        "</tr>"@,
        "</h1>"@,
        "</h2>"@,
        "</h3>"@,
        "</h4>"@,
        "</h5>"@,
        "</h6>"@,
        "</blockquote>"@,
        "<br>"@,
        "<br/>"@,
        "<br />"@,
        "<hr>"@,
        "<hr/>"@,
        "<hr />"@,
    ]
}

/// A page with the end of a line in place of each mark, as it is written and
/// in upper case.
pub open spec fn broken(page: Text, marks: Seq<Text>) -> Text
    decreases marks.len(),
{
    if marks.len() == 0 {
        page
    } else {
        let before = broken(page, marks.drop_last());
        replaced(replaced(before, marks.last(), "\n"@), upper(marks.last()), "\n"@)
    }
}

fn marks() -> (out: Vec<&'static str>)
    ensures
        out.len() == line_marks().len(),
        forall|i: int| 0 <= i < out.len() ==> (#[trigger] out@[i])@ == line_marks()[i],
        forall|i: int| 0 <= i < out.len() ==> (#[trigger] out@[i])@.len() > 0,
{
    proof {
        reveal_strlit("</p>");
        reveal_strlit("</div>");
        reveal_strlit("</section>");
        reveal_strlit("</article>");
        reveal_strlit("</li>");
        reveal_strlit("</tr>");
        reveal_strlit("</h1>");
        reveal_strlit("</h2>");
        reveal_strlit("</h3>");
        reveal_strlit("</h4>");
        reveal_strlit("</h5>");
        reveal_strlit("</h6>");
        reveal_strlit("</blockquote>");
        reveal_strlit("<br>");
        reveal_strlit("<br/>");
        reveal_strlit("<br />");
        reveal_strlit("<hr>");
        reveal_strlit("<hr/>");
        reveal_strlit("<hr />");
    }
    vec![
        "</p>",
        "</div>",
        "</section>",
        "</article>",
        "</li>",
        "</tr>",
        "</h1>",
        "</h2>",
        "</h3>",
        "</h4>",
        "</h5>",
        "</h6>",
        "</blockquote>",
        "<br>",
        "<br/>",
        "<br />",
        "<hr>",
        "<hr/>",
        "<hr />",
    ]
}

fn break_lines(page: &str) -> (out: String)
    ensures
        out@ == broken(page@, line_marks()),
{
    let m = marks();
    let ghost all = line_marks();
    let mut out = page.to_owned();
    let mut i: usize = 0;
    while i < m.len()
        invariant
            i <= m.len(),
            all == line_marks(),
            m.len() == all.len(),
            forall|k: int| 0 <= k < m.len() ==> (#[trigger] m@[k])@ == all[k],
            forall|k: int| 0 <= k < m.len() ==> (#[trigger] m@[k])@.len() > 0,
            out@ == broken(page@, all.take(i as int)),
        decreases m.len() - i,
    {
        let small: &str = m[i];
        let large = to_upper(small);
        let once = replace(out.as_str(), small, "\n");
        out = replace(once.as_str(), large.as_str(), "\n");
        proof {
            assert(all.take(i + 1).drop_last() =~= all.take(i as int));
            assert(all.take(i + 1).last() == small@);
        }
        i = i + 1;
    }
    proof {
        assert(all.take(m.len() as int) =~= all);
    }
    out
}

/// Whether a page stands inside a tag at its end.
pub open spec fn in_tag(s: Text) -> bool
    decreases s.len(),
{
    s.len() > 0 && (s.last() == '<' || (s.last() != '>' && in_tag(s.drop_last())))
}

/// What stands outside the tags of a page.
pub open spec fn untagged(s: Text) -> Text
    decreases s.len(),
{
    if s.len() == 0 {
        s
    } else if s.last() == '<' || s.last() == '>' || in_tag(s.drop_last()) {
        untagged(s.drop_last())
    } else {
        untagged(s.drop_last()).push(s.last())
    }
}

/// A text with the characters that its entities stand for.
pub open spec fn unescaped(s: Text) -> Text {
    let amp = replaced(s, "&amp;"@, "&"@);
    let lt = replaced(amp, "&lt;"@, "<"@);
    let gt = replaced(lt, "&gt;"@, ">"@);
    let quot = replaced(gt, "&quot;"@, "\""@);
    let apos = replaced(quot, "&#39;"@, "'"@);
    replaced(apos, "&apos;"@, "'"@)
}

/// A text with the characters that its entities stand for.
pub fn html_unescape(s: &str) -> (out: String)
    ensures
        out@ == unescaped(s@),
{
    proof {
        reveal_strlit("&amp;");
        reveal_strlit("&lt;");
        reveal_strlit("&gt;");
        reveal_strlit("&quot;");
        reveal_strlit("&#39;");
        reveal_strlit("&apos;");
    }
    let amp = replace(s, "&amp;", "&");
    let lt = replace(amp.as_str(), "&lt;", "<");
    let gt = replace(lt.as_str(), "&gt;", ">");
    let quot = replace(gt.as_str(), "&quot;", "\"");
    let apos = replace(quot.as_str(), "&#39;", "'");
    replace(apos.as_str(), "&apos;", "'")
}

/// The text of a page: without its tags, and with its entities resolved.
pub open spec fn page_text(s: Text) -> Text {
    unescaped(untagged(s))
}

/// The text of a page.
pub fn strip_tags(s: &str) -> (out: String)
    ensures
        out@ == page_text(s@),
{
    let v = chars_of(s);
    let mut out: String = String::new();
    let mut inside = false;
    let mut i: usize = 0;
    while i < v.len()
        invariant
            i <= v.len(),
            v@ == s@,
            inside == in_tag(s@.take(i as int)),
            out@ == untagged(s@.take(i as int)),
        decreases v.len() - i,
    {
        let c: char = v[i];
        proof {
            assert(s@.take(i + 1).drop_last() =~= s@.take(i as int));
            assert(s@.take(i + 1).last() == c);
        }
        if c == '<' {
            inside = true;
        } else if c == '>' {
            inside = false;
        } else if !inside {
            out.push(c);
        }
        i = i + 1;
    }
    proof {
        assert(s@.take(v.len() as int) =~= s@);
    }
    html_unescape(out.as_str())
}

/// No bracket of a tag is part of what stands outside the tags.
pub proof fn law_no_tag_survives(s: Text)
    ensures
        forall|i: int|
            0 <= i < untagged(s).len() ==> (#[trigger] untagged(s)[i]) != '<' && untagged(s)[i] != '>',
    decreases s.len(),
{
    if s.len() > 0 {
        let before = untagged(s.drop_last());
        law_no_tag_survives(s.drop_last());
        assert forall|i: int| 0 <= i < untagged(s).len() implies (#[trigger] untagged(s)[i]) != '<'
            && untagged(s)[i] != '>' by {
            if i < before.len() {
                assert(before[i] == untagged(s)[i]);
            }
        }
    }
}

/// A text with single spaces between its words.
pub open spec fn collapsed(s: Text) -> Text {
    joined(words_of(s), " "@)
}

/// A text with single spaces between its words.
pub fn collapse_ws(s: &str) -> (out: String)
    ensures
        out@ == collapsed(s@),
{
    join(&words(s), " ")
}

/// Whether a line is one that pages carry and nobody reads.
pub open spec fn crumb(line: Text) -> bool {
    let low = lower(line);
    ||| low == "skip to content"@
    ||| low == "skip to main content"@
    ||| low == "advertisement"@
    ||| "cookie"@.is_prefix_of(low) && byte_len(low) < 80
}

fn is_crumb(line: &str) -> (r: bool)
    ensures
        r == crumb(line@),
{
    let low = to_lower(line);
    same(low.as_str(), "skip to content") || same(low.as_str(), "skip to main content") || same(
        low.as_str(),
        "advertisement",
    ) || (starts_with(low.as_str(), "cookie") && byte_length(low.as_str()) < 80)
}

/// The lines worth reading: of blank lines in a row only the first, and none
/// at the start.
pub open spec fn kept_lines(all: Seq<Text>) -> Seq<Text>
    decreases all.len(),
{
    if all.len() == 0 {
        Seq::empty()
    } else {
        let before = kept_lines(all.drop_last());
        let line = collapsed(all.last());
        if line.len() == 0 {
            if before.len() > 0 && before.last().len() > 0 {
                before.push(line)
            } else {
                before
            }
        } else if crumb(line) {
            before
        } else {
            before.push(line)
        }
    }
}

/// The lines without a blank one at the end.
pub open spec fn unpadded(all: Seq<Text>) -> Seq<Text> {
    if all.len() > 0 && all.last().len() == 0 {
        all.drop_last()
    } else {
        all
    }
}

fn readable_lines(text: &str) -> (out: Vec<String>)
    ensures
        texts(out@) == unpadded(kept_lines(lines_of(text@))),
{
    let all_lines = lines(text);
    let ghost all = lines_of(text@);
    let mut out: Vec<String> = Vec::new();
    let mut i: usize = 0;
    while i < all_lines.len()
        invariant
            i <= all_lines.len(),
            all == lines_of(text@),
            texts(all_lines@) == all,
            texts(out@) == kept_lines(all.take(i as int)),
        decreases all_lines.len() - i,
    {
        let ghost was = texts(out@);
        let line = collapse_ws(all_lines[i].as_str());
        proof {
            assert(all.take(i + 1).drop_last() =~= all.take(i as int));
            assert(all[i as int] == all_lines@[i as int]@);
            assert(all.take(i + 1).last() == all_lines@[i as int]@);
        }
        if line.as_str().unicode_len() == 0 {
            let count: usize = out.len();
            if count > 0 && out[count - 1].as_str().unicode_len() > 0 {
                proof {
                    assert(was.last() == out@[count - 1]@);
                }
                out.push(line);
                proof {
                    assert(texts(out@) =~= was.push(line@));
                }
            } else {
                proof {
                    if count > 0 {
                        assert(was.last() == out@[count - 1]@);
                    }
                }
            }
        } else if !is_crumb(line.as_str()) {
            out.push(line);
            proof {
                assert(texts(out@) =~= was.push(line@));
            }
        }
        i = i + 1;
    }
    let ghost kept = texts(out@);
    proof {
        assert(all.take(all.len() as int) =~= all);
    }
    let count: usize = out.len();
    if count > 0 && out[count - 1].as_str().unicode_len() == 0 {
        proof {
            assert(kept.last() == out@[count - 1]@);
        }
        out.pop();
        proof {
            assert(texts(out@) =~= kept.drop_last());
        }
    } else {
        proof {
            if count > 0 {
                assert(kept.last() == out@[count - 1]@);
            }
        }
    }
    out
}

/// A text cut to a number of characters, with a mark where it was cut.
pub open spec fn shortened(s: Text, max: nat) -> Text {
    if s.len() <= max {
        s
    } else {
        s.take(if max > 0 {
            max - 1
        } else {
            0
        }).push('\u{2026}')
    }
}

/// A text cut to a number of characters.
pub fn truncate_chars(text: &str, max_chars: usize) -> (out: String)
    ensures
        out@ == shortened(text@, max_chars as nat),
{
    let n: usize = text.unicode_len();
    if n <= max_chars {
        return text.to_owned();
    }
    let keep: usize = if max_chars > 0 {
        max_chars - 1
    } else {
        0
    };
    let mut out = clip(text, keep);
    out.push('\u{2026}');
    out
}

/// What a page says, in lines, cut to a number of characters.
pub open spec fn readable(html: Text, max: nat) -> Text {
    let text = page_text(broken(unblocked_all(html, silent_tags()), line_marks()));
    shortened(joined(unpadded(kept_lines(lines_of(text))), "\n"@), max)
}

/// What a page says, in lines, cut to a number of characters.
pub fn html_to_readable_text(html: &str, max_chars: usize) -> (out: String)
    ensures
        out@ == readable(html@, max_chars as nat),
{
    let quiet = remove_silent_blocks(html);
    let page = break_lines(quiet.as_str());
    let text = strip_tags(page.as_str());
    let kept = readable_lines(text.as_str());
    truncate_chars(join(&kept, "\n").as_str(), max_chars)
}

/// What a page says never takes more characters than asked for.
pub proof fn law_readable_fits(html: Text, max: nat)
    requires
        max > 0,
    ensures
        readable(html, max).len() <= max,
{
}

/// What is worth reading has no blank line at either end and no two in a row.
pub proof fn law_no_blank_ends(all: Seq<Text>)
    ensures
        unpadded(kept_lines(all)).len() > 0 ==> unpadded(kept_lines(all))[0].len() > 0 && unpadded(
            kept_lines(all),
        ).last().len() > 0,
        forall|i: int|
            0 <= i < kept_lines(all).len() - 1 ==> (#[trigger] kept_lines(all)[i]).len() > 0
                || kept_lines(all)[i + 1].len() > 0,
{
    lemma_kept_shape(all);
}

proof fn lemma_kept_shape(all: Seq<Text>)
    ensures
        kept_lines(all).len() > 0 ==> kept_lines(all)[0].len() > 0,
        forall|i: int|
            0 <= i < kept_lines(all).len() - 1 ==> (#[trigger] kept_lines(all)[i]).len() > 0
                || kept_lines(all)[i + 1].len() > 0,
    decreases all.len(),
{
    if all.len() > 0 {
        lemma_kept_shape(all.drop_last());
    }
}

proof fn lemma_unblocked_later(a: Text, s: Text, tag: Text, i: int)
    requires
        0 <= i <= s.len(),
    ensures
        unblocked(a + s, tag, a.len() + i) == unblocked(s, tag, i),
    decreases s.len() - i,
{
    let page = a + s;
    let n = a.len() as int;
    let open = lower(opening(tag));
    let close = lower(closing(tag));
    assert(lower(page) =~= lower(a) + lower(s));
    lemma_found_later(lower(a), lower(s), open, i);
    lemma_find_from(lower(s), open, i);
    match find_from(lower(s), open, i) {
        Some(k) => {
            lemma_found_later(lower(a), lower(s), close, k);
            lemma_find_from(lower(s), close, k);
            assert(page.subrange(n + i, n + k) =~= s.subrange(i, k));
            match find_from(lower(s), close, k) {
                Some(j) => {
                    lemma_unblocked_later(a, s, tag, j + closing(tag).len());
                },
                None => {},
            }
        },
        None => {
            assert(page.skip(n + i) =~= s.skip(i));
        },
    }
}

/// A page that opens no block of a tag stays as it is.
pub proof fn law_page_without_blocks_stays(page: Text, tag: Text)
    requires
        !occurs(lower(page), lower(seq!['<'] + tag)),
    ensures
        unblocked(page, tag, 0) == page,
{
    lemma_find(lower(page), lower(opening(tag)));
    assert(page.skip(0) =~= page);
}

/// A block is removed with all that stands in it, whatever the case of its
/// letters, and what follows is treated as a page of its own: every further
/// block goes too. `p` opens no block, and `body` closes none.
pub proof fn law_every_block_is_removed(
    p: Text,
    open: Text,
    body: Text,
    close: Text,
    q: Text,
    tag: Text,
)
    requires
        !lower(tag).contains('<'),
        lower(open) == lower(seq!['<'] + tag),
        lower(close) == lower(seq!['<', '/'] + tag + seq!['>']),
        !occurs(lower(p), lower(seq!['<'] + tag)),
        !occurs(lower(open + body), lower(seq!['<', '/'] + tag + seq!['>'])),
    ensures
        unblocked(p + open + body + close + q, tag, 0) == p + unblocked(q, tag, 0),
{
    let page = p + open + body + close + q;
    let o = lower(opening(tag));
    let c = lower(closing(tag));
    let t = lower(tag);
    assert(o =~= seq!['<'] + t);
    assert(c =~= seq!['<', '/'] + t + seq!['>']);
    assert forall|j: int| 0 < j < o.len() implies #[trigger] o[j] != o[0] by {
        assert(o[j] == t[j - 1]);
    }
    assert forall|j: int| 0 < j < c.len() implies #[trigger] c[j] != c[0] by {
        if 2 <= j < c.len() - 1 {
            assert(c[j] == t[j - 2]);
        }
    }
    lemma_found_behind(lower(p), o, lower(body + close + q));
    assert(lower(page) =~= lower(p) + o + lower(body + close + q));
    lemma_found_behind(lower(open + body), c, lower(q));
    lemma_found_later(lower(p), lower(open + body) + c + lower(q), c, 0);
    assert(lower(page) =~= lower(p) + (lower(open + body) + c + lower(q)));
    assert(open.len() == o.len() && close.len() == c.len()) by {
        assert(lower(open).len() == open.len() && lower(close).len() == close.len());
    }
    let front = p + open + body + close;
    assert(page =~= front + q);
    lemma_unblocked_later(front, q, tag, 0);
    assert(page.subrange(0, p.len() as int) =~= p);
    assert(closing(tag).len() == close.len());
}

/// A block that nothing closes takes the rest of the page with it.
pub proof fn law_open_block_takes_the_rest(p: Text, open: Text, rest: Text, tag: Text)
    requires
        !lower(tag).contains('<'),
        lower(open) == lower(seq!['<'] + tag),
        !occurs(lower(p), lower(seq!['<'] + tag)),
        !occurs(lower(open + rest), lower(seq!['<', '/'] + tag + seq!['>'])),
    ensures
        unblocked(p + open + rest, tag, 0) == p,
{
    let page = p + open + rest;
    let o = lower(opening(tag));
    let c = lower(closing(tag));
    let t = lower(tag);
    assert(o =~= seq!['<'] + t);
    assert forall|j: int| 0 < j < o.len() implies #[trigger] o[j] != o[0] by {
        assert(o[j] == t[j - 1]);
    }
    lemma_found_behind(lower(p), o, lower(rest));
    assert(lower(page) =~= lower(p) + o + lower(rest));
    lemma_found_later(lower(p), lower(open + rest), c, 0);
    assert(lower(page) =~= lower(p) + lower(open + rest));
    lemma_find(lower(open + rest), c);
    assert(page.subrange(0, p.len() as int) =~= p);
}

/// What a page says does not depend on its scripts, styles and other silent
/// blocks: it reads as the page without the block.
pub proof fn law_silent_blocks_are_not_read(
    p: Text,
    open: Text,
    body: Text,
    close: Text,
    q: Text,
    tag: Text,
    max: nat,
)
    requires
        tag == "script"@ || tag == "style"@ || tag == "noscript"@ || tag == "svg"@ || tag
            == "template"@,
        lower(open) == seq!['<'] + tag,
        lower(close) == seq!['<', '/'] + tag + seq!['>'],
        !occurs(lower(p), seq!['<'] + tag),
        !occurs(lower(q), seq!['<'] + tag),
        !occurs(lower(p + q), seq!['<'] + tag),
        !occurs(lower(open + body), seq!['<', '/'] + tag + seq!['>']),
        forall|t: Text|
            silent_tags().contains(t) && t != tag ==> !occurs(
                lower(p + open + body + close + q),
                #[trigger] lower(opening(t)),
            ) && !occurs(lower(p + q), lower(opening(t))),
    ensures
        readable(p + open + body + close + q, max) == readable(p + q, max),
{
    let page = p + open + body + close + q;
    let names = silent_tags();
    lemma_tag_letters(tag);
    assert(lower(seq!['<'] + tag) =~= seq!['<'] + tag);
    assert(lower(seq!['<', '/'] + tag + seq!['>']) =~= seq!['<', '/'] + tag + seq!['>']);
    law_every_block_is_removed(p, open, body, close, q, tag);
    law_page_without_blocks_stays(q, tag);
    law_page_without_blocks_stays(p + q, tag);
    assert forall|k: int| 0 <= k < 5 implies unblocked(p + q, #[trigger] names[k], 0) == p + q by {
        if names[k] != tag {
            assert(!occurs(lower(p + q), lower(opening(names[k]))));
        }
        law_page_without_blocks_stays(p + q, names[k]);
    }
    assert forall|k: int| 0 <= k < 5 && names[k] != tag implies unblocked(
        page,
        #[trigger] names[k],
        0,
    ) == page by {
        assert(!occurs(lower(page), lower(opening(names[k]))));
        law_page_without_blocks_stays(page, names[k]);
    }
    reveal_with_fuel(unblocked_all, 6);
    assert(names.drop_last().drop_last().drop_last().drop_last().drop_last().len() == 0);
    assert(names[0] == "script"@ && names[1] == "style"@ && names[2] == "noscript"@ && names[3]
        == "svg"@ && names[4] == "template"@);
    assert(unblocked_all(page, names) == p + q);
    assert(unblocked_all(p + q, names) == p + q);
}

proof fn lemma_tag_letters(tag: Text)
    requires
        tag == "script"@ || tag == "style"@ || tag == "noscript"@ || tag == "svg"@ || tag
            == "template"@,
    ensures
        lower(tag) == tag,
        !lower(tag).contains('<'),
        lower(seq!['<'] + tag) == seq!['<'] + tag,
        lower(seq!['<', '/'] + tag + seq!['>']) == seq!['<', '/'] + tag + seq!['>'],
{
    reveal_strlit("script");
    reveal_strlit("style");
    reveal_strlit("noscript");
    reveal_strlit("svg");
    reveal_strlit("template");
    assert(lower(tag) =~= tag);
    assert(lower(seq!['<'] + tag) =~= seq!['<'] + tag);
    assert(lower(seq!['<', '/'] + tag + seq!['>']) =~= seq!['<', '/'] + tag + seq!['>']);
}

proof fn lemma_nothing_replaced(s: Text, from: Text, to: Text, i: int)
    requires
        0 <= i <= s.len(),
        from.len() > 0,
        !s.contains(from[0]),
    ensures
        replaced_from(s, from, to, i) == s.skip(i),
    decreases s.len() - i,
{
    if i + from.len() <= s.len() {
        assert(s.subrange(i, i + from.len())[0] == s[i]);
        assert(s.contains(s[i]));
        lemma_nothing_replaced(s, from, to, i + 1);
        assert(seq![s[i]] + s.skip(i + 1) =~= s.skip(i));
    }
}

proof fn lemma_unbroken(page: Text, marks: Seq<Text>)
    requires
        !page.contains('<'),
        forall|k: int| 0 <= k < marks.len() ==> (#[trigger] marks[k]).len() > 0 && marks[k][0] == '<',
    ensures
        broken(page, marks) == page,
    decreases marks.len(),
{
    if marks.len() > 0 {
        lemma_unbroken(page, marks.drop_last());
        let m = marks.last();
        assert(m == marks[marks.len() - 1]);
        lemma_nothing_replaced(page, m, "\n"@, 0);
        assert(page.skip(0) =~= page);
        assert(upper(m)[0] == '<');
        lemma_nothing_replaced(page, upper(m), "\n"@, 0);
    }
}

proof fn lemma_untagged_plain(s: Text)
    requires
        !s.contains('<'),
        !s.contains('>'),
    ensures
        untagged(s) == s,
        !in_tag(s),
    decreases s.len(),
{
    if s.len() > 0 {
        let d = s.drop_last();
        assert(s.contains(s.last()));
        assert forall|c: char| d.contains(c) implies s.contains(c) by {
            let k = choose|k: int| 0 <= k < d.len() && d[k] == c;
            assert(s[k] == c);
        }
        lemma_untagged_plain(d);
        assert(d.push(s.last()) =~= s);
    }
}

/// Plain text is read as it is: without marks and escapes nothing of it goes.
pub proof fn law_plain_text_is_kept(s: Text)
    requires
        !s.contains('<'),
        !s.contains('>'),
        !s.contains('&'),
    ensures
        page_text(s) == s,
{
    lemma_untagged_plain(s);
    reveal_strlit("&amp;");
    reveal_strlit("&lt;");
    reveal_strlit("&gt;");
    reveal_strlit("&quot;");
    reveal_strlit("&#39;");
    reveal_strlit("&apos;");
    assert(s.skip(0) =~= s);
    lemma_nothing_replaced(s, "&amp;"@, "&"@, 0);
    lemma_nothing_replaced(s, "&lt;"@, "<"@, 0);
    lemma_nothing_replaced(s, "&gt;"@, ">"@, 0);
    lemma_nothing_replaced(s, "&quot;"@, "\""@, 0);
    lemma_nothing_replaced(s, "&#39;"@, "'"@, 0);
    lemma_nothing_replaced(s, "&apos;"@, "'"@, 0);
}

/// A page of one plain line reads as that line, with one blank between its
/// words, unless it is a crumb of navigation.
pub proof fn law_plain_line_is_read(s: Text, max: nat)
    requires
        !s.contains('<'),
        !s.contains('>'),
        !s.contains('&'),
        !s.contains('\n'),
        joined(words_of(s), " "@).len() > 0,
        joined(words_of(s), " "@).len() <= max,
        !crumb(joined(words_of(s), " "@)),
    ensures
        readable(s, max) == joined(words_of(s), " "@),
{
    let names = silent_tags();
    assert forall|k: int| 0 <= k < 5 implies unblocked(s, #[trigger] names[k], 0) == s by {
        let o = lower(seq!['<'] + names[k]);
        assert(o[0] == '<');
        if occurs(lower(s), o) {
            let i = choose|i: int| occurs_at(lower(s), o, i);
            assert(lower(s).subrange(i, i + o.len())[0] == lower(s)[i]);
            assert(lower_char(s[i]) == '<');
            assert(s.contains(s[i]));
        }
        law_page_without_blocks_stays(s, names[k]);
    }
    reveal_with_fuel(unblocked_all, 6);
    assert(names.drop_last().drop_last().drop_last().drop_last().drop_last().len() == 0);
    lemma_marks_open();
    lemma_unbroken(s, line_marks());
    law_plain_text_is_kept(s);
    crate::text::lemma_split_one(s, '\n');
    assert(lines_of(s).len() == 1) by {
        if s.len() == 0 {
            assert(words_of(s).len() == 0);
        }
    }
    assert(lines_of(s) =~= seq![s]);
    reveal_with_fuel(kept_lines, 2);
    assert(seq![s].drop_last() =~= Seq::<Text>::empty());
    let kept = kept_lines(lines_of(s));
    assert(kept =~= seq![joined(words_of(s), " "@)]);
    assert(unpadded(kept) == kept);
}

/// Whether a text is one mark: it opens, closes at its end and nowhere else, and
/// has a small letter.
spec fn well_marked(m: Text) -> bool {
    &&& m.len() >= 2
    &&& m[0] == '<'
    &&& m.last() == '>'
    &&& forall|k: int| 0 < k < m.len() ==> #[trigger] m[k] != '<'
    &&& forall|k: int| 0 <= k < m.len() - 1 ==> #[trigger] m[k] != '>'
    &&& exists|k: int| 0 <= k < m.len() && 'a' <= #[trigger] m[k] <= 'z'
}

proof fn lemma_marks_open()
    ensures
        forall|k: int| 0 <= k < line_marks().len() ==> well_marked(#[trigger] line_marks()[k]),
        forall|k: int|
            0 <= k < line_marks().len() ==> (#[trigger] line_marks()[k]).len() > 0
                && line_marks()[k][0] == '<',
{
    reveal_strlit("</p>");
    reveal_strlit("</div>");
    reveal_strlit("</section>");
    reveal_strlit("</article>");
    reveal_strlit("</li>");
    reveal_strlit("</tr>");
    reveal_strlit("</h1>");
    reveal_strlit("</h2>");
    reveal_strlit("</h3>");
    reveal_strlit("</h4>");
    reveal_strlit("</h5>");
    reveal_strlit("</h6>");
    reveal_strlit("</blockquote>");
    reveal_strlit("<br>");
    reveal_strlit("<br/>");
    reveal_strlit("<br />");
    reveal_strlit("<hr>");
    reveal_strlit("<hr/>");
    reveal_strlit("<hr />");
    assert forall|k: int| 0 <= k < line_marks().len() implies well_marked(
        #[trigger] line_marks()[k],
    ) by {
        let m = line_marks()[k];
        assert('a' <= m[1] <= 'z' || 'a' <= m[2] <= 'z');
    }
}

proof fn lemma_replaced_once(a: Text, m: Text, b: Text, to: Text, i: int)
    requires
        well_marked(m),
        !a.contains('<'),
        !b.contains('<'),
        0 <= i <= a.len(),
    ensures
        replaced_from(a + m + b, m, to, i) == a.skip(i) + to + b,
    decreases a.len() - i,
{
    let s = a + m + b;
    let n = a.len() as int;
    if i == n {
        assert(s.subrange(n, n + m.len()) =~= m);
        lemma_nothing_replaced_behind(a + m, b, m, to, 0);
        assert(a.skip(n) + to + b =~= to + b);
    } else {
        assert(s.subrange(i, i + m.len())[0] == s[i]);
        assert(a.contains(a[i]));
        lemma_replaced_once(a, m, b, to, i + 1);
        assert(seq![s[i]] + (a.skip(i + 1) + to + b) =~= a.skip(i) + to + b);
    }
}

proof fn lemma_nothing_replaced_behind(a: Text, b: Text, m: Text, to: Text, i: int)
    requires
        m.len() > 0,
        !b.contains(m[0]),
        0 <= i <= b.len(),
    ensures
        replaced_from(a + b, m, to, a.len() + i) == b.skip(i),
    decreases b.len() - i,
{
    let s = a + b;
    let n = a.len() as int;
    if i + m.len() <= b.len() {
        assert(s.subrange(n + i, n + i + m.len())[0] == b[i]);
        assert(b.contains(b[i]));
        lemma_nothing_replaced_behind(a, b, m, to, i + 1);
        assert(seq![s[n + i]] + b.skip(i + 1) =~= b.skip(i));
    } else {
        assert(s.skip(n + i) =~= b.skip(i));
    }
}

proof fn lemma_other_mark(a: Text, m: Text, b: Text, x: Text, to: Text, i: int)
    requires
        well_marked(m),
        x.len() >= 2,
        x[0] == '<',
        x.last() == '>',
        forall|k: int| 0 <= k < x.len() - 1 ==> #[trigger] x[k] != '>',
        x != m,
        !a.contains('<'),
        !b.contains('<'),
        0 <= i <= (a + m + b).len(),
    ensures
        replaced_from(a + m + b, x, to, i) == (a + m + b).skip(i),
    decreases (a + m + b).len() - i,
{
    let s = a + m + b;
    let n = a.len() as int;
    if i + x.len() <= s.len() {
        if occurs_at(s, x, i) {
            let part = s.subrange(i, i + x.len());
            assert(part[0] == s[i]);
            if i < n {
                assert(a.contains(a[i]));
            } else if i >= n + m.len() {
                assert(b.contains(b[i - n - m.len()]));
            } else if i > n {
                assert(m[i - n] != '<');
            } else if x.len() < m.len() {
                assert(part[x.len() - 1] == m[x.len() - 1]);
            } else if x.len() > m.len() {
                assert(part[m.len() - 1] == m[m.len() - 1]);
                assert(x[m.len() - 1] != '>');
            } else {
                assert(part =~= m);
            }
        }
        lemma_other_mark(a, m, b, x, to, i + 1);
        assert(seq![s[i]] + s.skip(i + 1) =~= s.skip(i));
    }
}

proof fn lemma_other_marks(a: Text, m: Text, b: Text, marks: Seq<Text>)
    requires
        well_marked(m),
        !a.contains('<'),
        !b.contains('<'),
        forall|k: int| 0 <= k < marks.len() ==> well_marked(#[trigger] marks[k]) && marks[k] != m,
    ensures
        broken(a + m + b, marks) == a + m + b,
    decreases marks.len(),
{
    if marks.len() > 0 {
        let x = marks.last();
        assert(x == marks[marks.len() - 1]);
        lemma_other_marks(a, m, b, marks.drop_last());
        lemma_other_mark(a, m, b, x, "\n"@, 0);
        lemma_upper_mark(x, m);
        lemma_other_mark(a, m, b, upper(x), "\n"@, 0);
        assert((a + m + b).skip(0) =~= a + m + b);
    }
}

proof fn lemma_upper_mark(x: Text, m: Text)
    requires
        well_marked(x),
        well_marked(m),
    ensures
        upper(x) != m,
        upper(x).len() == x.len(),
        upper(x)[0] == '<',
        upper(x).last() == '>',
        forall|k: int| 0 <= k < x.len() - 1 ==> #[trigger] upper(x)[k] != '>',
{
    let u = upper(x);
    let k = choose|k: int| 0 <= k < m.len() && 'a' <= #[trigger] m[k] <= 'z';
    if u == m {
        assert(u[k] == upper_char(x[k]));
    }
    assert forall|j: int| 0 <= j < x.len() - 1 implies #[trigger] u[j] != '>' by {
        assert(u[j] == upper_char(x[j]));
        assert(x[j] != '>');
    }
}

proof fn lemma_broken_in_turn(page: Text, x: Seq<Text>, y: Seq<Text>)
    ensures
        broken(page, x + y) == broken(broken(page, x), y),
    decreases y.len(),
{
    if y.len() == 0 {
        assert(x + y =~= x);
    } else {
        lemma_broken_in_turn(page, x, y.drop_last());
        assert((x + y).drop_last() =~= x + y.drop_last());
    }
}

/// The end of a paragraph, a heading, a list item or another block, a line
/// break and a rule each end a line of what is read.
pub proof fn law_blocks_end_lines(a: Text, m: Text, b: Text)
    requires
        m == "</p>"@ || m == "</div>"@ || m == "</section>"@ || m == "</article>"@ || m == "</li>"@
            || m == "</tr>"@ || m == "</h1>"@ || m == "</h2>"@ || m == "</h3>"@ || m == "</h4>"@
            || m == "</h5>"@ || m == "</h6>"@ || m == "</blockquote>"@ || m == "<br>"@ || m
            == "<br/>"@ || m == "<br />"@ || m == "<hr>"@ || m == "<hr/>"@ || m == "<hr />"@,
        !a.contains('<'),
        !b.contains('<'),
    ensures
        broken(a + m + b, line_marks()) == a + "\n"@ + b,
{
    let all = line_marks();
    lemma_marks_open();
    lemma_marks_differ();
    let i = choose|i: int| 0 <= i < all.len() && all[i] == m;
    assert(all.contains(m)) by {
        assert(all[0] == "</p>"@ && all[1] == "</div>"@ && all[2] == "</section>"@ && all[3]
            == "</article>"@ && all[4] == "</li>"@ && all[5] == "</tr>"@ && all[6] == "</h1>"@
            && all[7] == "</h2>"@ && all[8] == "</h3>"@ && all[9] == "</h4>"@ && all[10]
            == "</h5>"@ && all[11] == "</h6>"@ && all[12] == "</blockquote>"@ && all[13]
            == "<br>"@ && all[14] == "<br/>"@ && all[15] == "<br />"@ && all[16] == "<hr>"@
            && all[17] == "<hr/>"@ && all[18] == "<hr />"@);
    }
    let before = all.take(i);
    let after = all.skip(i + 1);
    assert forall|k: int| 0 <= k < before.len() implies well_marked(#[trigger] before[k])
        && before[k] != m by {
        assert(before[k] == all[k]);
        assert(well_marked(all[k]));
    }
    lemma_other_marks(a, m, b, before);
    lemma_replaced_once(a, m, b, "\n"@, 0);
    assert(a.skip(0) + "\n"@ + b =~= a + "\n"@ + b);
    let page = a + "\n"@ + b;
    reveal_strlit("\n");
    assert(!page.contains('<')) by {
        if page.contains('<') {
            let k = choose|k: int| 0 <= k < page.len() && page[k] == '<';
            if k < a.len() {
                assert(a.contains(a[k]));
            } else if k > a.len() {
                assert(b.contains(b[k - a.len() - 1]));
            }
        }
    }
    assert(well_marked(all[i]));
    lemma_upper_mark(m, m);
    lemma_nothing_replaced(page, upper(m), "\n"@, 0);
    assert(page.skip(0) =~= page);
    assert(all.take(i + 1).drop_last() =~= before);
    assert(all.take(i + 1).last() == m);
    assert(broken(a + m + b, all.take(i + 1)) == page);
    assert forall|k: int| 0 <= k < after.len() implies (#[trigger] after[k]).len() > 0 && after[k][0]
        == '<' by {
        assert(after[k] == all[i + 1 + k]);
        assert(well_marked(all[i + 1 + k]));
    }
    lemma_unbroken(page, after);
    lemma_broken_in_turn(a + m + b, all.take(i + 1), after);
    assert(all.take(i + 1) + after =~= all);
}

proof fn lemma_marks_differ()
    ensures
        line_marks().no_duplicates(),
{
    reveal_strlit("</p>");
    reveal_strlit("</div>");
    reveal_strlit("</section>");
    reveal_strlit("</article>");
    reveal_strlit("</li>");
    reveal_strlit("</tr>");
    reveal_strlit("</h1>");
    reveal_strlit("</h2>");
    reveal_strlit("</h3>");
    reveal_strlit("</h4>");
    reveal_strlit("</h5>");
    reveal_strlit("</h6>");
    reveal_strlit("</blockquote>");
    reveal_strlit("<br>");
    reveal_strlit("<br/>");
    reveal_strlit("<br />");
    reveal_strlit("<hr>");
    reveal_strlit("<hr/>");
    reveal_strlit("<hr />");
    let all = line_marks();
    assert forall|i: int, j: int| 0 <= i < all.len() && 0 <= j < all.len() && i != j implies all[i]
        != all[j] by {
        assert(all[i].len() != all[j].len() || all[i][2] != all[j][2] || all[i][3] != all[j][3]
            || all[i][1] != all[j][1]);
    }
}

} // verus!
