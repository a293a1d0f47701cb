//! Text tests the heading rules share: whether a line counts as blank around a heading, and
//! whether an HTML block holds nothing but one HTML comment.
//!
//! Both scan each line once, so a very long line costs time proportional to its length.
use vstd::prelude::*;

use crate::document::line_texts;
use crate::text::{
    chars_of, is_white_space, is_whitespace, trim, trim_end, trim_start, trimmed_end_len,
    trimmed_start_index,
};

verus! {

/// Whether `s` opens with `<!--`.
pub open spec fn opens_comment(s: Seq<char>) -> bool {
    s.len() >= 4 && s[0] == '<' && s[1] == '!' && s[2] == '-' && s[3] == '-'
}

/// Whether `s` opens with `-->`.
pub open spec fn opens_with_close(s: Seq<char>) -> bool {
    s.len() >= 3 && s[0] == '-' && s[1] == '-' && s[2] == '>'
}

/// The blank-line scan over the rest of a line: `in_comment` is whether an HTML comment is open,
/// and `content` whether text outside comments and block-quote markers has been seen since the
/// last unmatched `-->`.
pub open spec fn blank_scan(rest: Seq<char>, in_comment: bool, content: bool) -> bool
    decreases rest.len(),
{
    if rest.len() == 0 {
        !content
    } else if in_comment && opens_with_close(rest) {
        blank_scan(rest.skip(3), false, content)
    } else if !in_comment && opens_comment(rest) {
        blank_scan(rest.skip(4), true, content)
    } else if !in_comment && opens_with_close(rest) {
        blank_scan(rest.skip(3), false, false)
    } else {
        blank_scan(
            rest.skip(1),
            in_comment,
            content || (!in_comment && rest[0] != '>' && !is_white_space(rest[0])),
        )
    }
}

/// Whether a line counts as blank around a heading: nothing is left of it once whitespace, HTML
/// comment text, and block-quote markers are taken out. An unclosed `<!--` hides the rest of the
/// line, and an unmatched `-->` hides everything before it.
pub open spec fn blank_line(line: Seq<char>) -> bool {
    blank_scan(line, false, false)
}

/// The text of `lines` joined with `\n` between them.
pub open spec fn joined(lines: Seq<Seq<char>>) -> Seq<char>
    decreases lines.len(),
{
    if lines.len() == 0 {
        Seq::empty()
    } else if lines.len() == 1 {
        lines[0]
    } else {
        joined(lines.drop_last()) + seq!['\n'] + lines.last()
    }
}

/// The body of a comment's text: what lies between `<!--` and `-->`, or nothing when the two
/// markers overlap.
pub open spec fn comment_body(text: Seq<char>) -> Seq<char> {
    if text.len() >= 7 {
        text.subrange(4, text.len() - 3)
    } else {
        Seq::empty()
    }
}

/// Whether `text`, already trimmed, is a single HTML comment: it opens with `<!--`, closes with
/// `-->`, and its body neither opens with `>` or `->` nor ends with `-`.
pub open spec fn comment_text(text: Seq<char>) -> bool {
    let body = comment_body(text);
    &&& opens_comment(text)
    &&& opens_with_close(text.subrange(text.len() - 3, text.len() as int))
    &&& !(body.len() >= 1 && body[0] == '>')
    &&& !(body.len() >= 2 && body[0] == '-' && body[1] == '>')
    &&& !(body.len() >= 1 && body.last() == '-')
}

/// Whether the HTML block spanning `lines` holds one HTML comment and nothing else: its lines,
/// joined with newlines and trimmed, are one comment.
pub open spec fn comment_block(lines: Seq<Seq<char>>) -> bool {
    lines.len() > 0 && comment_text(trim(joined(lines)))
}

fn opens_comment_at(chars: &Vec<char>, at: usize) -> (res: bool)
    requires
        at <= chars@.len(),
    ensures
        res == opens_comment(chars@.skip(at as int)),
{
    chars.len() - at >= 4 && chars[at] == '<' && chars[at + 1] == '!' && chars[at + 2] == '-'
        && chars[at + 3] == '-'
}

fn opens_with_close_at(chars: &Vec<char>, at: usize) -> (res: bool)
    requires
        at <= chars@.len(),
    ensures
        res == opens_with_close(chars@.skip(at as int)),
{
    chars.len() - at >= 3 && chars[at] == '-' && chars[at + 1] == '-' && chars[at + 2] == '>'
}

/// Whether `line` counts as blank for the blank-line test around a heading.
///
/// A line is blank when it is empty or holds only whitespace, and also when nothing is left of
/// it once HTML comment text and block-quote markers are taken out. So `>`, `<!-- note -->`, and
/// `> <!-- note -->` are all blank, while `text <!-- note -->` is not.
pub fn is_blank_line(line: &str) -> (res: bool)
    ensures
        res == blank_line(line@),
{
    let chars = chars_of(line);
    let mut at: usize = 0;
    let mut in_comment = false;
    let mut content = false;
    assert(chars@.skip(0) =~= chars@);
    while at < chars.len()
        invariant
            at <= chars@.len(),
            blank_scan(chars@.skip(at as int), in_comment, content) == blank_line(line@),
            chars@ == line@,
        decreases chars@.len() - at,
    {
        let ghost rest = chars@.skip(at as int);
        if in_comment && opens_with_close_at(&chars, at) {
            assert(rest.skip(3) =~= chars@.skip(at + 3));
            in_comment = false;
            at = at + 3;
        } else if !in_comment && opens_comment_at(&chars, at) {
            assert(rest.skip(4) =~= chars@.skip(at + 4));
            in_comment = true;
            at = at + 4;
        } else if !in_comment && opens_with_close_at(&chars, at) {
            assert(rest.skip(3) =~= chars@.skip(at + 3));
            content = false;
            at = at + 3;
        } else {
            let c = chars[at];
            assert(rest[0] == c);
            assert(rest.skip(1) =~= chars@.skip(at + 1));
            if !in_comment && c != '>' && !is_whitespace(c) {
                content = true;
            }
            at = at + 1;
        }
    }
    assert(chars@.skip(at as int).len() == 0);
    !content
}

/// Whether `text`, already trimmed and held in `chars[start..end]`, is a single HTML comment.
fn is_comment_text(chars: &Vec<char>, start: usize, end: usize) -> (res: bool)
    requires
        start <= end <= chars@.len(),
    ensures
        res == comment_text(chars@.subrange(start as int, end as int)),
{
    let ghost text = chars@.subrange(start as int, end as int);
    let length = end - start;
    if length < 4 || !opens_comment_at(chars, start) {
        return false;
    }
    assert(chars@.skip(start as int).take(4) =~= text.take(4));
    if !opens_with_close_at(chars, end - 3) {
        assert(text.subrange(text.len() - 3, text.len() as int) =~= chars@.skip(end - 3).take(3));
        return false;
    }
    assert(text.subrange(text.len() - 3, text.len() as int) =~= chars@.skip(end - 3).take(3));
    if length < 7 {
        return true;
    }
    let body_start = start + 4;
    let body_end = end - 3;
    let body_length = body_end - body_start;
    let opens_gt = body_length >= 1 && chars[body_start] == '>';
    let opens_arrow = body_length >= 2 && chars[body_start] == '-' && chars[body_start + 1] == '>';
    let ends_dash = body_length >= 1 && chars[body_end - 1] == '-';
    !(opens_gt || opens_arrow || ends_dash)
}

/// Whether the HTML block spanning `lines` holds one HTML comment and nothing else, so that it
/// may still precede a document's title.
///
/// The block's text is its lines joined with newlines and trimmed. It must open with `<!--`,
/// close with `-->`, and hold a body that neither opens with `>` or `->` nor ends with `-`.
pub fn is_comment_block(lines: &[String]) -> (res: bool)
    ensures
        res == comment_block(line_texts(lines@)),
{
    let ghost views = line_texts(lines@);
    if lines.len() == 0 {
        return false;
    }
    let mut text: Vec<char> = Vec::new();
    let mut i: usize = 0;
    while i < lines.len()
        invariant
            i <= lines@.len(),
            lines@.len() > 0,
            views == line_texts(lines@),
            text@ == joined(views.take(i as int)),
        decreases lines@.len() - i,
    {
        let line = chars_of(lines[i].as_str());
        let ghost before = text@;
        if i > 0 {
            text.push('\n');
        }
        let mut j: usize = 0;
        while j < line.len()
            invariant
                j <= line@.len(),
                text@ == before + (if i > 0 { seq!['\n'] } else { Seq::<char>::empty() }) + line@.take(j as int),
            decreases line@.len() - j,
        {
            text.push(line[j]);
            j = j + 1;
            assert(text@ =~= before + (if i > 0 { seq!['\n'] } else { Seq::<char>::empty() }) + line@.take(j as int));
        }
        proof {
            let next = views.take(i + 1);
            assert(next.drop_last() =~= views.take(i as int));
            assert(next.last() == line@);
            if i == 0 {
                assert(text@ =~= joined(next));
            } else {
                assert(text@ =~= joined(next));
            }
        }
        i = i + 1;
    }
    assert(views.take(i as int) =~= views);
    let start = trimmed_start_index(&text, 0, text.len());
    let end = trimmed_end_len(&text, start);
    proof {
        assert(text@.subrange(0, text@.len() as int) =~= text@);
        assert(trim_start(text@) == text@.subrange(start as int, text@.len() as int));
    }
    is_comment_text(&text, start, end)
}

} // verus!
