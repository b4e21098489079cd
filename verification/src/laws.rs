//! The library's laws: statements that tie the parser's and the renderer's
//! contracts together, proved once and for all inputs they speak of.

use vstd::prelude::*;

use crate::codegen::render_content;
use crate::codegen::spaces;
use crate::data::BlockV;
use crate::data::SpanV;
use crate::data::escape_char;
use crate::data::html_escape;
use crate::data::html_escape_from;
use crate::parser::plain_doc;
use crate::parser::plain_seq;
use crate::parser::suffixed_id;

verus! {

/// Every character escaped on its own, in order: the escape protocol with
/// no backslash at work.
pub open spec fn escape_all(s: Seq<char>) -> Seq<char>
    decreases s.len(),
{
    if s.len() == 0 {
        Seq::empty()
    } else {
        escape_char(s[0]) + escape_all(s.drop_first())
    }
}

/// Escaping from an offset is escaping the suffix.
pub proof fn lemma_escape_from_offset(t: Seq<char>, i: int)
    requires
        0 <= i <= t.len(),
    ensures
        html_escape_from(t, i) == html_escape(t.subrange(i, t.len() as int)),
    decreases t.len() - i,
{
    let s = t.subrange(i, t.len() as int);
    if i >= t.len() {
        assert(html_escape_from(s, 0) == Seq::<char>::empty());
    } else {
        assert(s[0] == t[i]);
        if t[i] == '\\' {
            if i + 1 >= t.len() {
                assert(html_escape_from(s, 0) == Seq::<char>::empty());
            } else {
                assert(s[1] == t[i + 1]);
                lemma_escape_from_offset(t, i + 2);
                lemma_escape_from_offset(s, 2);
                assert(t.subrange(i + 2, t.len() as int) =~= s.subrange(2, s.len() as int));
            }
        } else {
            lemma_escape_from_offset(t, i + 1);
            lemma_escape_from_offset(s, 1);
            assert(t.subrange(i + 1, t.len() as int) =~= s.subrange(1, s.len() as int));
        }
    }
}

/// Backslash round trip: a backslash written before any character survives
/// parsing inside the raw text, and rendering strips the backslash while
/// still escaping the protected character exactly like any other
/// character.
pub proof fn law_backslash_round_trip(c: char, s: Seq<char>)
    ensures
        html_escape(seq!['\\', c] + s) == escape_char(c) + html_escape(s),
{
    let t = seq!['\\', c] + s;
    assert(t[0] == '\\');
    assert(t[1] == c);
    lemma_escape_from_offset(t, 2);
    assert(t.subrange(2, t.len() as int) =~= s);
}

/// Text without backslashes renders as each of its characters escaped, in
/// order: only `<` and `>` change form.
pub proof fn law_escape_plain(s: Seq<char>)
    requires
        forall|i: int| 0 <= i < s.len() ==> s[i] != '\\',
    ensures
        html_escape(s) == escape_all(s),
    decreases s.len(),
{
    if s.len() > 0 {
        law_escape_plain(s.drop_first());
        lemma_escape_from_offset(s, 1);
        assert(s.subrange(1, s.len() as int) =~= s.drop_first());
    }
}

/// Heading de-duplication: the heading registry hands repeated anchor
/// texts the counts zero, one, two, … in encounter order (by the
/// registry's contract), and the anchor id built from a count is the text
/// itself on first occurrence, then the text with `-1`, `-2`, … appended.
pub proof fn law_heading_dedup(anchor: Seq<char>)
    ensures
        suffixed_id(anchor, 0) == anchor,
        suffixed_id(anchor, 1) == anchor + seq!['-', '1'],
        suffixed_id(anchor, 2) == anchor + seq!['-', '2'],
{
    assert(crate::text::dec_rep(1) == seq!['1']);
    assert(crate::text::dec_rep(2) == seq!['2']);
    assert(suffixed_id(anchor, 1) =~= anchor + seq!['-', '1']);
    assert(suffixed_id(anchor, 2) =~= anchor + seq!['-', '2']);
}

/// A document of plain text is one paragraph (the parser's contract), and
/// a content insertion renders it as exactly the source text with `<` and
/// `>` replaced by their entity forms, inside one paragraph element.
pub proof fn law_plain_document(s: Seq<char>, d: int)
    requires
        plain_doc(s),
        s.len() > 0,
    ensures
        render_content(
            seq![
                BlockV::Paragraph { text: seq![SpanV::Text { text: s }] },
                BlockV::Ref(Seq::empty()),
            ],
            d,
        ) == "\n"@ + spaces(d) + "<p>"@ + escape_all(s) + "</p>\n"@,
{
    let blocks = seq![
        BlockV::Paragraph { text: seq![SpanV::Text { text: s }] },
        BlockV::Ref(Seq::empty()),
    ];
    assert(plain_seq(s));
    assert(forall|i: int| 0 <= i < s.len() ==> s[i] != '\\');
    law_escape_plain(s);
    let sp = seq![SpanV::Text { text: s }];
    assert(crate::codegen::render_spans_from(sp, 0) =~= html_escape(s)) by {
        assert(crate::codegen::render_spans_from(sp, 1) == Seq::<char>::empty());
        assert(crate::codegen::render_span1(sp[0]) == html_escape(s));
    }
    assert(crate::codegen::render_blocks_from(blocks, d, 2) == Seq::<char>::empty());
    assert(crate::codegen::render_block(blocks[1], d) == Seq::<char>::empty());
    assert(crate::codegen::render_blocks_from(blocks, d, 1) =~= Seq::<char>::empty());
    assert(crate::codegen::render_block(blocks[0], d) == spaces(d) + "<p>"@
        + crate::codegen::render_spans(sp) + "</p>\n"@);
    assert(render_content(blocks, d) =~= "\n"@ + spaces(d) + "<p>"@ + escape_all(s)
        + "</p>\n"@);
}

} // verus!
