//! The HTML renderer: walks the document model and a template token list
//! and emits indentation-aware HTML text, escaping raw text under the same
//! escape protocol the parser honors. Each nesting level of a list adds
//! four columns of indentation; every other block is laid out at its
//! insertion point's base indentation.

use vstd::prelude::*;

use crate::data::BlockV;
use crate::data::ElemV;
use crate::data::ItemV;
use crate::data::ListV;
use crate::data::SpanV;
use crate::data::html_escape;
use crate::text::dec_rep;
use crate::text::dec_rep_pad;
use crate::text::dec_rep_signed;

verus! {

/// A clock reading broken into the fields the date placeholders print.
#[derive(Debug, PartialEq, Clone, Copy)]
pub struct DateParts {
    pub year: i32,
    pub month: u32,
    pub day: u32,
    pub hour: u32,
    pub minute: u32,
    pub second: u32,
}

/// `n` spaces.
pub open spec fn spaces(n: int) -> Seq<char> {
    Seq::new(if n >= 0 { n as nat } else { 0 }, |i: int| ' ')
}

/// `i` as a decimal numeral (negatives clamp to zero; ids and heading
/// levels are never negative).
pub open spec fn dec_of(i: int) -> Seq<char> {
    dec_rep(if i >= 0 { i as nat } else { 0 })
}

/// The indentation of a nested list: four columns deeper, saturating at a
/// width no real document reaches so that the column fits a machine word.
pub open spec fn deeper(d: int) -> int {
    if d < 1000000 {
        d + 4
    } else {
        d
    }
}

/// The HTML of one span.
pub open spec fn render_span1(sp: SpanV) -> Seq<char>
    decreases sp, 0int,
{
    match sp {
        SpanV::Cite { id } => "<sup id=\"cite-"@ + dec_of(id) + "\"><a href=\"#ref-"@ + dec_of(id)
            + "\">["@ + dec_of(id) + "]</a></sup>"@,
        SpanV::Link { text, url } => "<a href=\""@ + url + "\">"@ + render_spans_from(text, 0)
            + "</a>"@,
        SpanV::Bold { text } => "<strong>"@ + render_spans_from(text, 0) + "</strong>"@,
        SpanV::Ital { text } => "<em>"@ + render_spans_from(text, 0) + "</em>"@,
        SpanV::Math { math } => "\\("@ + html_escape(math) + "\\)"@,
        SpanV::Code { code } => "<code>"@ + html_escape(code) + "</code>"@,
        SpanV::Text { text } => html_escape(text),
    }
}

/// The HTML of the spans from index `i` on.
pub open spec fn render_spans_from(s: Seq<SpanV>, i: int) -> Seq<char>
    decreases s, s.len() - i + 1,
{
    if i < 0 || i >= s.len() {
        Seq::empty()
    } else {
        render_span1(s[i]) + render_spans_from(s, i + 1)
    }
}

/// The HTML of inline content.
pub open spec fn render_spans(s: Seq<SpanV>) -> Seq<char> {
    render_spans_from(s, 0)
}

/// The HTML of a list: nothing when it has no items, else its items inside
/// the tag its order selects, each nesting level four columns deeper.
pub open spec fn render_list(l: ListV, d: int) -> Seq<char>
    decreases l, 1int, 0int,
{
    if l.items.len() == 0 {
        Seq::empty()
    } else {
        spaces(d) + (if l.ordered {
            "<ol>"@
        } else {
            "<ul>"@
        }) + "\n"@ + render_items(l.items, d, 0) + spaces(d) + (if l.ordered {
            "</ol>"@
        } else {
            "</ul>"@
        }) + "\n"@
    }
}

/// The HTML of list items from index `i` on.
pub open spec fn render_items(items: Seq<ItemV>, d: int, i: int) -> Seq<char>
    decreases items, 0int, items.len() - i + 1,
{
    if i < 0 || i >= items.len() {
        Seq::empty()
    } else {
        spaces(d) + "  <li>\n"@ + spaces(d) + "    "@ + render_spans(items[i].item) + "\n"@
            + render_list(items[i].list, deeper(d)) + spaces(d) + "  </li>\n"@ + render_items(
            items,
            d,
            i + 1,
        )
    }
}

/// The HTML of blockquote lines from index `i` on.
pub open spec fn render_bq_lines(lines: Seq<Seq<SpanV>>, d: int, i: int) -> Seq<char>
    decreases lines.len() - i,
{
    if i < 0 || i >= lines.len() {
        Seq::empty()
    } else {
        spaces(d) + "  <p>"@ + render_spans(lines[i]) + "</p>\n"@ + render_bq_lines(
            lines,
            d,
            i + 1,
        )
    }
}

/// The HTML of the cells of one table row from index `i` on.
pub open spec fn render_cells(cells: Seq<Seq<SpanV>>, d: int, i: int) -> Seq<char>
    decreases cells.len() - i,
{
    if i < 0 || i >= cells.len() {
        Seq::empty()
    } else {
        spaces(d) + "      <td>"@ + render_spans(cells[i]) + "</td>\n"@ + render_cells(
            cells,
            d,
            i + 1,
        )
    }
}

/// The HTML of table rows from index `i` on.
pub open spec fn render_rows(rows: Seq<Seq<Seq<SpanV>>>, d: int, i: int) -> Seq<char>
    decreases rows.len() - i, 1int,
{
    if i < 0 || i >= rows.len() {
        Seq::empty()
    } else {
        spaces(d) + "    <tr>\n"@ + render_cells(rows[i], d, 0) + spaces(d) + "    </tr>\n"@
            + render_rows(rows, d, i + 1)
    }
}

/// The HTML of the reference notes of one reference group from index `i`
/// on: each note is a numbered term linking target and its body.
pub open spec fn render_notes(notes: Seq<(Seq<SpanV>, int)>, d: int, i: int) -> Seq<char>
    decreases notes.len() - i,
{
    if i < 0 || i >= notes.len() {
        Seq::empty()
    } else {
        spaces(d) + "  <dt id=\"ref-"@ + dec_of(notes[i].1) + "\">["@ + dec_of(notes[i].1)
            + "]</dt>\n"@ + spaces(d) + "  <dd>"@ + render_spans(notes[i].0) + "</dd>\n"@
            + render_notes(notes, d, i + 1)
    }
}

/// The opening of a link card: the card element and its link.
pub open spec fn lc_open(url: Seq<char>, d: int) -> Seq<char> {
    spaces(d) + "<div class=\"linkcard\"><a class=\"linkcard-link\" href=\""@ + url + "\">\n"@
}

/// The text part of a link card: the title, the optional description, and
/// the favicon line naming the site (or the URL when the site name is
/// absent).
pub open spec fn lc_text(
    title: Seq<char>,
    description: Option<Seq<char>>,
    url: Seq<char>,
    site_name: Option<Seq<char>>,
    d: int,
) -> Seq<char> {
    spaces(d) + "  <div class=\"linkcard-text\">\n"@ + spaces(d)
        + "    <h3 class=\"linkcard-title\">"@ + title + "</h3>\n"@ + (match description {
        Option::Some(desc) => spaces(d) + "    <p class=\"linkcard-description\">"@ + desc
            + "</p>\n"@,
        Option::None => Seq::empty(),
    }) + spaces(d)
        + "    <img class=\"linkcard-favicon\" src=\"http://www.google.com/s2/favicons?domain="@
        + url + "\"><span  class=\"linkcard-sitename\">"@ + (match site_name {
        Option::Some(sn) => sn,
        Option::None => url,
    }) + "</span>\n"@ + spaces(d) + "  </div>\n"@
}

/// The optional preview image of a link card.
pub open spec fn lc_image(image: Option<Seq<char>>, d: int) -> Seq<char> {
    match image {
        Option::Some(img) => spaces(d) + "  <img class=\"linkcard-image\" src=\""@ + img
            + "\">\n"@,
        Option::None => Seq::empty(),
    }
}

/// The closing of a link card.
pub open spec fn lc_close(d: int) -> Seq<char> {
    spaces(d) + "</a></div>\n"@
}

/// The HTML of one block at base indentation `d`.
pub open spec fn render_block(b: BlockV, d: int) -> Seq<char>
    decreases b, 2int, 0int,
{
    match b {
        BlockV::Header { header, level, id } => spaces(d) + "<h"@ + dec_of(level) + " id=\""@ + id
            + "\">"@ + render_spans(header) + "</h"@ + dec_of(level) + ">\n"@,
        BlockV::Blockquote { lines } => spaces(d) + "<blockquote>\n"@ + render_bq_lines(lines, d, 0)
            + spaces(d) + "</blockquote>\n"@,
        BlockV::ListBlock(l) => render_list(l, d),
        BlockV::Image { title, url } => spaces(d) + "<div class=\"image\">\n"@ + spaces(d)
            + "  <img src=\""@ + url + "\">\n"@ + spaces(d) + "  <p class=\"caption\">"@
            + render_spans(title) + "</p>\n"@ + spaces(d) + "</div>\n"@,
        BlockV::LinkCard { title, image, url, description, site_name } => lc_open(url, d)
            + lc_text(title, description, url, site_name, d) + lc_image(image, d) + lc_close(d),
        BlockV::Table { head, body } => spaces(d) + "<table>\n"@ + spaces(d) + "  <thead>\n"@
            + render_rows(head, d, 0) + spaces(d) + "  </thead>\n"@ + spaces(d) + "  <tbody>\n"@
            + render_rows(body, d, 0) + spaces(d) + "  </tbody>\n"@ + spaces(d) + "</table>\n"@,
        BlockV::MathBlock { math } => spaces(d) + "<p>\\["@ + html_escape(math) + "\\]</p>\n"@,
        BlockV::CodeBlock { lang, code } => spaces(d) + "<pre><code class=\"language-"@ + (if lang.len() == 0 {
            "plaintext"@
        } else {
            lang
        }) + "\">"@ + html_escape(code) + "</code></pre>\n"@,
        BlockV::Paragraph { text } => spaces(d) + "<p>"@ + render_spans(text) + "</p>\n"@,
        BlockV::Ref(notes) => if notes.len() == 0 {
            Seq::empty()
        } else {
            spaces(d) + "<dl class=\"references\">\n"@ + render_notes(notes, d, 0) + spaces(d)
                + "</dl>\n"@
        },
    }
}

/// The HTML of the block sequence from index `i` on.
pub open spec fn render_blocks_from(blocks: Seq<BlockV>, d: int, i: int) -> Seq<char>
    decreases blocks.len() - i,
{
    if i < 0 || i >= blocks.len() {
        Seq::empty()
    } else {
        render_block(blocks[i], d) + render_blocks_from(blocks, d, i + 1)
    }
}

/// What a content insertion point emits: the leading newline, then every
/// block at the recorded base indentation.
pub open spec fn render_content(blocks: Seq<BlockV>, d: int) -> Seq<char> {
    "\n"@ + render_blocks_from(blocks, d, 0)
}

/// What a table-of-contents insertion point emits: the leading newline,
/// then the table-of-contents list at the recorded base indentation.
pub open spec fn render_toc(toc: ListV, d: int) -> Seq<char> {
    "\n"@ + render_list(toc, d)
}

/// What one template token emits.
pub open spec fn render_elem(
    e: ElemV,
    title: Seq<char>,
    toc: ListV,
    blocks: Seq<BlockV>,
    date: DateParts,
) -> Seq<char> {
    match e {
        ElemV::Title => title,
        ElemV::Year => dec_rep_signed(date.year as int, 4),
        ElemV::Month => dec_rep_pad(date.month as nat, 2),
        ElemV::Day => dec_rep_pad(date.day as nat, 2),
        ElemV::Hour => dec_rep_pad(date.hour as nat, 2),
        ElemV::Minute => dec_rep_pad(date.minute as nat, 2),
        ElemV::Second => dec_rep_pad(date.second as nat, 2),
        ElemV::Toc(d) => render_toc(toc, d),
        ElemV::Content(d) => render_content(blocks, d),
        ElemV::Str(s) => s,
    }
}

/// The whole output: each template token substituted in order.
pub open spec fn render_doc(
    tpl: Seq<ElemV>,
    title: Seq<char>,
    toc: ListV,
    blocks: Seq<BlockV>,
    date: DateParts,
    i: int,
) -> Seq<char>
    decreases tpl.len() - i,
{
    if i < 0 || i >= tpl.len() {
        Seq::empty()
    } else {
        render_elem(tpl[i], title, toc, blocks, date) + render_doc(
            tpl,
            title,
            toc,
            blocks,
            date,
            i + 1,
        )
    }
}

} // verus!

verus! {

/// Appends `n` spaces to `out`.
fn push_spaces(out: &mut String, n: usize)
    ensures
        final(out)@ == old(out)@ + spaces(n as int),
    decreases n,
{
    if n > 0 {
        crate::text::push_char(out, ' ');
        push_spaces(out, n - 1);
        proof {
            assert(seq![' '] + spaces(n - 1) =~= spaces(n as int));
            assert(final(out)@ =~= old(out)@ + spaces(n as int));
        }
    } else {
        proof {
            assert(final(out)@ =~= old(out)@ + spaces(n as int));
        }
    }
}

/// Appends the HTML of one span to `out`.
fn push_span(out: &mut String, sp: &crate::data::Span)
    ensures
        final(out)@ == old(out)@ + render_span1(crate::data::span_view(*sp)),
    decreases *sp, 0int,
{
    match sp {
        crate::data::Span::Cite { id } => {
            out.append("<sup id=\"cite-");
            crate::text::push_dec(out, *id as u64);
            out.append("\"><a href=\"#ref-");
            crate::text::push_dec(out, *id as u64);
            out.append("\">[");
            crate::text::push_dec(out, *id as u64);
            out.append("]</a></sup>");
            proof {
                assert(final(out)@ =~= old(out)@ + render_span1(crate::data::span_view(*sp)));
            }
        },
        crate::data::Span::Link { text, url } => {
            proof {
                assert(decreases_to!(*sp => text));
                assert(decreases_to!(text => text.0@));
            }
            out.append("<a href=\"");
            out.append(url.as_str());
            out.append("\">");
            push_spans(out, &text.0, 0);
            out.append("</a>");
            proof {
                assert(final(out)@ =~= old(out)@ + render_span1(crate::data::span_view(*sp)));
            }
        },
        crate::data::Span::Bold { text } => {
            proof {
                assert(decreases_to!(*sp => text));
                assert(decreases_to!(text => text.0@));
            }
            out.append("<strong>");
            push_spans(out, &text.0, 0);
            out.append("</strong>");
            proof {
                assert(final(out)@ =~= old(out)@ + render_span1(crate::data::span_view(*sp)));
            }
        },
        crate::data::Span::Ital { text } => {
            proof {
                assert(decreases_to!(*sp => text));
                assert(decreases_to!(text => text.0@));
            }
            out.append("<em>");
            push_spans(out, &text.0, 0);
            out.append("</em>");
            proof {
                assert(final(out)@ =~= old(out)@ + render_span1(crate::data::span_view(*sp)));
            }
        },
        crate::data::Span::Math { math } => {
            out.append("\\(");
            crate::data::push_html_text(out, math.as_str());
            out.append("\\)");
            proof {
                assert(final(out)@ =~= old(out)@ + render_span1(crate::data::span_view(*sp)));
            }
        },
        crate::data::Span::Code { code } => {
            out.append("<code>");
            crate::data::push_html_text(out, code.as_str());
            out.append("</code>");
            proof {
                assert(final(out)@ =~= old(out)@ + render_span1(crate::data::span_view(*sp)));
            }
        },
        crate::data::Span::Text { text } => {
            crate::data::push_html_text(out, text.as_str());
            proof {
                assert(final(out)@ =~= old(out)@ + render_span1(crate::data::span_view(*sp)));
            }
        },
    }
}

/// Appends the HTML of the spans of `v` from index `i` on to `out`.
fn push_spans(out: &mut String, v: &Vec<crate::data::Span>, i: usize)
    requires
        i <= v@.len(),
    ensures
        final(out)@ == old(out)@ + render_spans_from(crate::data::spans_view(v@), i as int),
    decreases v@, v@.len() - i + 1,
{
    proof {
        crate::data::lemma_spans_view(v@);
    }
    if i == v.len() {
        proof {
            assert(final(out)@ =~= old(out)@ + render_spans_from(
                crate::data::spans_view(v@),
                i as int,
            ));
        }
        return ;
    }
    proof {
        assert(decreases_to!(v@ => v@[i as int]));
    }
    push_span(out, &v[i]);
    push_spans(out, v, i + 1);
    proof {
        assert(final(out)@ =~= old(out)@ + render_spans_from(
            crate::data::spans_view(v@),
            i as int,
        ));
    }
}

/// Appends the HTML of one list at indentation `d` to `out`: nothing for an
/// empty list, else the items inside the tag the order flag selects.
fn gen_list(out: &mut String, l: &crate::data::List, d: usize)
    ensures
        final(out)@ == old(out)@ + render_list(crate::data::list_view(*l), d as int),
    decreases *l, 1int, 0int,
{
    proof {
        crate::data::lemma_items_view(l.items@);
    }
    if l.items.len() == 0 {
        proof {
            assert(final(out)@ =~= old(out)@ + render_list(crate::data::list_view(*l), d as int));
        }
        return ;
    }
    push_spaces(out, d);
    if l.ordered {
        out.append("<ol>");
    } else {
        out.append("<ul>");
    }
    out.append("\n");
    proof {
        assert(decreases_to!(*l => l.items));
        assert(decreases_to!(l.items => l.items@));
    }
    gen_items(out, &l.items, d, 0);
    push_spaces(out, d);
    if l.ordered {
        out.append("</ol>");
    } else {
        out.append("</ul>");
    }
    out.append("\n");
    proof {
        assert(final(out)@ =~= old(out)@ + render_list(crate::data::list_view(*l), d as int));
    }
}

/// Appends the HTML of the list items from index `i` on to `out`.
#[verifier::rlimit(60)]
fn gen_items(out: &mut String, items: &Vec<crate::data::ListItem>, d: usize, i: usize)
    requires
        i <= items@.len(),
    ensures
        final(out)@ == old(out)@ + render_items(
            crate::data::items_view(items@),
            d as int,
            i as int,
        ),
    decreases items@, 0int, items@.len() - i + 1,
{
    proof {
        crate::data::lemma_items_view(items@);
    }
    if i == items.len() {
        proof {
            assert(final(out)@ =~= old(out)@ + render_items(
                crate::data::items_view(items@),
                d as int,
                i as int,
            ));
        }
        return ;
    }
    push_spaces(out, d);
    out.append("  <li>\n");
    push_spaces(out, d);
    out.append("    ");
    push_spans(out, &items[i].item.0, 0);
    out.append("\n");
    let d2 = if d < 1000000 {
        d + 4
    } else {
        d
    };
    proof {
        assert(decreases_to!(items@ => items@[i as int]));
        assert(decreases_to!(items@[i as int] => items@[i as int].list));
    }
    gen_list(out, &items[i].list, d2);
    push_spaces(out, d);
    out.append("  </li>\n");
    gen_items(out, items, d, i + 1);
    proof {
        assert(final(out)@ =~= old(out)@ + render_items(
            crate::data::items_view(items@),
            d as int,
            i as int,
        ));
    }
}

} // verus!

verus! {

/// Appends the HTML of one heading to `out`.
fn gen_header(
    out: &mut String,
    header: &crate::data::Inline,
    level: u32,
    id: &String,
    d: usize,
)
    ensures
        final(out)@ == old(out)@ + render_block(
            (BlockV::Header {
                header: crate::data::inline_view(*header),
                level: level as int,
                id: id@,
            }),
            d as int,
        ),
{
    push_spaces(out, d);
    out.append("<h");
    crate::text::push_dec(out, level as u64);
    out.append(" id=\"");
    out.append(id.as_str());
    out.append("\">");
    push_spans(out, &header.0, 0);
    out.append("</h");
    crate::text::push_dec(out, level as u64);
    out.append(">\n");
    proof {
        assert(final(out)@ =~= old(out)@ + render_block(
            (BlockV::Header {
                header: crate::data::inline_view(*header),
                level: level as int,
                id: id@,
            }),
            d as int,
        ));
    }
}

/// Appends the HTML of one blockquote to `out`.
fn gen_blockquote(out: &mut String, lines: &Vec<crate::data::Inline>, d: usize)
    ensures
        final(out)@ == old(out)@ + render_block(
            (BlockV::Blockquote { lines: crate::data::inlines_view(lines@) }),
            d as int,
        ),
{
    push_spaces(out, d);
    out.append("<blockquote>\n");
    let n = lines.len();
    let mut i: usize = 0;
    while i < n
        invariant
            n == lines@.len(),
            0 <= i <= n,
            out@ + render_bq_lines(crate::data::inlines_view(lines@), d as int, i as int) == old(
                out,
            )@ + spaces(d as int) + "<blockquote>\n"@ + render_bq_lines(
                crate::data::inlines_view(lines@),
                d as int,
                0,
            ),
        decreases n - i,
    {
        proof {
            crate::data::lemma_inlines_view(lines@);
        }
        push_spaces(out, d);
        out.append("  <p>");
        push_spans(out, &lines[i].0, 0);
        out.append("</p>\n");
        i += 1;
    }
    proof {
        crate::data::lemma_inlines_view(lines@);
        assert(out@ =~= out@ + render_bq_lines(crate::data::inlines_view(lines@), d as int, n as int));
    }
    push_spaces(out, d);
    out.append("</blockquote>\n");
    proof {
        assert(final(out)@ =~= old(out)@ + render_block(
            (BlockV::Blockquote { lines: crate::data::inlines_view(lines@) }),
            d as int,
        ));
    }
}

/// Appends the HTML of one image block to `out`.
fn gen_image(out: &mut String, title: &crate::data::Inline, url: &String, d: usize)
    ensures
        final(out)@ == old(out)@ + render_block(
            (BlockV::Image { title: crate::data::inline_view(*title), url: url@ }),
            d as int,
        ),
{
    push_spaces(out, d);
    out.append("<div class=\"image\">\n");
    push_spaces(out, d);
    out.append("  <img src=\"");
    out.append(url.as_str());
    out.append("\">\n");
    push_spaces(out, d);
    out.append("  <p class=\"caption\">");
    push_spans(out, &title.0, 0);
    out.append("</p>\n");
    push_spaces(out, d);
    out.append("</div>\n");
    proof {
        assert(final(out)@ =~= old(out)@ + render_block(
            (BlockV::Image { title: crate::data::inline_view(*title), url: url@ }),
            d as int,
        ));
    }
}

/// Appends the text part of one link card to `out`.
fn gen_lc_text(
    out: &mut String,
    title: &String,
    description: &Option<String>,
    url: &String,
    site_name: &Option<String>,
    d: usize,
)
    ensures
        final(out)@ == old(out)@ + lc_text(
            title@,
            crate::data::opt_view(*description),
            url@,
            crate::data::opt_view(*site_name),
            d as int,
        ),
{
    push_spaces(out, d);
    out.append("  <div class=\"linkcard-text\">\n");
    push_spaces(out, d);
    out.append("    <h3 class=\"linkcard-title\">");
    out.append(title.as_str());
    out.append("</h3>\n");
    match description {
        Option::Some(desc) => {
            push_spaces(out, d);
            out.append("    <p class=\"linkcard-description\">");
            out.append(desc.as_str());
            out.append("</p>\n");
        },
        Option::None => {},
    }
    push_spaces(out, d);
    out.append("    <img class=\"linkcard-favicon\" src=\"http://www.google.com/s2/favicons?domain=");
    out.append(url.as_str());
    out.append("\"><span  class=\"linkcard-sitename\">");
    match site_name {
        Option::Some(sn) => {
            out.append(sn.as_str());
        },
        Option::None => {
            out.append(url.as_str());
        },
    }
    out.append("</span>\n");
    push_spaces(out, d);
    out.append("  </div>\n");
    proof {
        assert(final(out)@ =~= old(out)@ + lc_text(
            title@,
            crate::data::opt_view(*description),
            url@,
            crate::data::opt_view(*site_name),
            d as int,
        ));
    }
}

/// Appends the HTML of one link card to `out`.
fn gen_link_card(
    out: &mut String,
    title: &String,
    image: &Option<String>,
    url: &String,
    description: &Option<String>,
    site_name: &Option<String>,
    d: usize,
)
    ensures
        final(out)@ == old(out)@ + render_block(
            (BlockV::LinkCard {
                title: title@,
                image: crate::data::opt_view(*image),
                url: url@,
                description: crate::data::opt_view(*description),
                site_name: crate::data::opt_view(*site_name),
            }),
            d as int,
        ),
{
    push_spaces(out, d);
    out.append("<div class=\"linkcard\"><a class=\"linkcard-link\" href=\"");
    out.append(url.as_str());
    out.append("\">\n");
    proof {
        assert(out@ =~= old(out)@ + lc_open(url@, d as int));
    }
    gen_lc_text(out, title, description, url, site_name, d);
    match image {
        Option::Some(img) => {
            push_spaces(out, d);
            out.append("  <img class=\"linkcard-image\" src=\"");
            out.append(img.as_str());
            out.append("\">\n");
        },
        Option::None => {},
    }
    push_spaces(out, d);
    out.append("</a></div>\n");
    proof {
        assert(final(out)@ =~= old(out)@ + lc_open(url@, d as int) + lc_text(
            title@,
            crate::data::opt_view(*description),
            url@,
            crate::data::opt_view(*site_name),
            d as int,
        ) + lc_image(crate::data::opt_view(*image), d as int) + lc_close(d as int));
    }
}

/// Appends the HTML of the cells of one row to `out`.
fn gen_cells(out: &mut String, row: &Vec<crate::data::Inline>, d: usize)
    ensures
        final(out)@ == old(out)@ + render_cells(crate::data::row_view(*row), d as int, 0),
{
    let n = row.len();
    let mut i: usize = 0;
    while i < n
        invariant
            n == row@.len(),
            0 <= i <= n,
            out@ + render_cells(crate::data::row_view(*row), d as int, i as int) == old(out)@
                + render_cells(crate::data::row_view(*row), d as int, 0),
        decreases n - i,
    {
        proof {
            crate::data::lemma_inlines_view(row@);
        }
        push_spaces(out, d);
        out.append("      <td>");
        push_spans(out, &row[i].0, 0);
        out.append("</td>\n");
        i += 1;
    }
    proof {
        crate::data::lemma_inlines_view(row@);
        assert(out@ =~= out@ + render_cells(crate::data::row_view(*row), d as int, n as int));
    }
}

/// Appends the HTML of one row group to `out`.
fn gen_rows(out: &mut String, rows: &Vec<Vec<crate::data::Inline>>, d: usize)
    ensures
        final(out)@ == old(out)@ + render_rows(crate::data::rows_view(rows@), d as int, 0),
{
    let n = rows.len();
    let mut i: usize = 0;
    while i < n
        invariant
            n == rows@.len(),
            0 <= i <= n,
            out@ + render_rows(crate::data::rows_view(rows@), d as int, i as int) == old(out)@
                + render_rows(crate::data::rows_view(rows@), d as int, 0),
        decreases n - i,
    {
        proof {
            crate::data::lemma_rows_view(rows@);
        }
        push_spaces(out, d);
        out.append("    <tr>\n");
        gen_cells(out, &rows[i], d);
        push_spaces(out, d);
        out.append("    </tr>\n");
        i += 1;
    }
    proof {
        crate::data::lemma_rows_view(rows@);
        assert(out@ =~= out@ + render_rows(crate::data::rows_view(rows@), d as int, n as int));
    }
}

/// Appends the HTML of one table to `out`.
fn gen_table(
    out: &mut String,
    head: &Vec<Vec<crate::data::Inline>>,
    body: &Vec<Vec<crate::data::Inline>>,
    d: usize,
)
    ensures
        final(out)@ == old(out)@ + render_block(
            (BlockV::Table {
                head: crate::data::rows_view(head@),
                body: crate::data::rows_view(body@),
            }),
            d as int,
        ),
{
    push_spaces(out, d);
    out.append("<table>\n");
    push_spaces(out, d);
    out.append("  <thead>\n");
    gen_rows(out, head, d);
    push_spaces(out, d);
    out.append("  </thead>\n");
    push_spaces(out, d);
    out.append("  <tbody>\n");
    gen_rows(out, body, d);
    push_spaces(out, d);
    out.append("  </tbody>\n");
    push_spaces(out, d);
    out.append("</table>\n");
    proof {
        assert(final(out)@ =~= old(out)@ + render_block(
            (BlockV::Table {
                head: crate::data::rows_view(head@),
                body: crate::data::rows_view(body@),
            }),
            d as int,
        ));
    }
}

/// Appends the HTML of one math block to `out`.
fn gen_math_block(out: &mut String, math: &String, d: usize)
    ensures
        final(out)@ == old(out)@ + render_block((BlockV::MathBlock { math: math@ }), d as int),
{
    push_spaces(out, d);
    out.append("<p>\\[");
    crate::data::push_html_text(out, math.as_str());
    out.append("\\]</p>\n");
    proof {
        assert(final(out)@ =~= old(out)@ + render_block(
            (BlockV::MathBlock { math: math@ }),
            d as int,
        ));
    }
}

/// Appends the HTML of one code block to `out`; an empty language tag falls
/// back to plain text.
fn gen_code_block(out: &mut String, lang: &String, code: &String, d: usize)
    ensures
        final(out)@ == old(out)@ + render_block(
            (BlockV::CodeBlock { lang: lang@, code: code@ }),
            d as int,
        ),
{
    push_spaces(out, d);
    out.append("<pre><code class=\"language-");
    if lang.as_str().is_empty() {
        out.append("plaintext");
    } else {
        out.append(lang.as_str());
    }
    out.append("\">");
    crate::data::push_html_text(out, code.as_str());
    out.append("</code></pre>\n");
    proof {
        assert(final(out)@ =~= old(out)@ + render_block(
            (BlockV::CodeBlock { lang: lang@, code: code@ }),
            d as int,
        ));
    }
}

/// Appends the HTML of one paragraph to `out`.
fn gen_paragraph(out: &mut String, text: &crate::data::Inline, d: usize)
    ensures
        final(out)@ == old(out)@ + render_block(
            (BlockV::Paragraph { text: crate::data::inline_view(*text) }),
            d as int,
        ),
{
    push_spaces(out, d);
    out.append("<p>");
    push_spans(out, &text.0, 0);
    out.append("</p>\n");
    proof {
        assert(final(out)@ =~= old(out)@ + render_block(
            (BlockV::Paragraph { text: crate::data::inline_view(*text) }),
            d as int,
        ));
    }
}

/// Appends the HTML of one reference group to `out`: nothing for an empty
/// group, else a definition list keyed by citation id.
fn gen_ref(out: &mut String, notes: &Vec<(crate::data::Inline, usize)>, d: usize)
    ensures
        final(out)@ == old(out)@ + render_block(
            BlockV::Ref(crate::data::notes_view(notes@)),
            d as int,
        ),
{
    proof {
        crate::data::lemma_notes_view(notes@);
    }
    if notes.len() == 0 {
        proof {
            assert(final(out)@ =~= old(out)@ + render_block(
                BlockV::Ref(crate::data::notes_view(notes@)),
                d as int,
            ));
        }
        return ;
    }
    push_spaces(out, d);
    out.append("<dl class=\"references\">\n");
    let n = notes.len();
    let mut i: usize = 0;
    while i < n
        invariant
            n == notes@.len(),
            0 <= i <= n,
            out@ + render_notes(crate::data::notes_view(notes@), d as int, i as int) == old(out)@
                + spaces(d as int) + "<dl class=\"references\">\n"@ + render_notes(
                crate::data::notes_view(notes@),
                d as int,
                0,
            ),
        decreases n - i,
    {
        proof {
            crate::data::lemma_notes_view(notes@);
        }
        push_spaces(out, d);
        out.append("  <dt id=\"ref-");
        crate::text::push_dec(out, notes[i].1 as u64);
        out.append("\">[");
        crate::text::push_dec(out, notes[i].1 as u64);
        out.append("]</dt>\n");
        push_spaces(out, d);
        out.append("  <dd>");
        push_spans(out, &notes[i].0.0, 0);
        out.append("</dd>\n");
        i += 1;
    }
    proof {
        crate::data::lemma_notes_view(notes@);
        assert(out@ =~= out@ + render_notes(crate::data::notes_view(notes@), d as int, n as int));
    }
    push_spaces(out, d);
    out.append("</dl>\n");
    proof {
        assert(final(out)@ =~= old(out)@ + render_block(
            BlockV::Ref(crate::data::notes_view(notes@)),
            d as int,
        ));
    }
}

/// Appends a content insertion to `out`: the leading newline, then every
/// block at base indentation `d`.
fn gen_content(out: &mut String, content: &Vec<crate::data::Block>, d: usize)
    ensures
        final(out)@ == old(out)@ + render_content(crate::data::blocks_view(content@), d as int),
{
    out.append("\n");
    let n = content.len();
    let mut i: usize = 0;
    while i < n
        invariant
            n == content@.len(),
            0 <= i <= n,
            out@ + render_blocks_from(crate::data::blocks_view(content@), d as int, i as int)
                == old(out)@ + render_content(crate::data::blocks_view(content@), d as int),
        decreases n - i,
    {
        proof {
            crate::data::lemma_blocks_view(content@);
        }
        match &content[i] {
            crate::data::Block::Header { header, level, id } => {
                gen_header(out, header, *level, id, d);
            },
            crate::data::Block::Blockquote { lines } => {
                gen_blockquote(out, lines, d);
            },
            crate::data::Block::ListBlock(l) => {
                gen_list(out, l, d);
            },
            crate::data::Block::Image { title, url } => {
                gen_image(out, title, url, d);
            },
            crate::data::Block::LinkCard { title, image, url, description, site_name } => {
                gen_link_card(out, title, image, url, description, site_name, d);
            },
            crate::data::Block::Table { head, body } => {
                gen_table(out, head, body, d);
            },
            crate::data::Block::MathBlock { math } => {
                gen_math_block(out, math, d);
            },
            crate::data::Block::CodeBlock { lang, code } => {
                gen_code_block(out, lang, code, d);
            },
            crate::data::Block::Paragraph { text } => {
                gen_paragraph(out, text, d);
            },
            crate::data::Block::Ref(notes) => {
                gen_ref(out, notes, d);
            },
        }
        i += 1;
    }
    proof {
        crate::data::lemma_blocks_view(content@);
        assert(out@ =~= out@ + render_blocks_from(
            crate::data::blocks_view(content@),
            d as int,
            n as int,
        ));
    }
}

/// Appends a table-of-contents insertion to `out`: the leading newline,
/// then the table-of-contents list at base indentation `d`.
fn gen_toc(out: &mut String, toc: &crate::data::List, d: usize)
    ensures
        final(out)@ == old(out)@ + render_toc(crate::data::list_view(*toc), d as int),
{
    out.append("\n");
    gen_list(out, toc, d);
}

/// Renders one parsed document through a template: each token of the
/// template is substituted in order — the title, a zero-padded date or time
/// component of the given clock reading, a table-of-contents or content
/// insertion at its recorded column, or a literal fragment.
pub fn gen_html(
    title: &String,
    toc: &crate::data::List,
    content: &Vec<crate::data::Block>,
    template: &Vec<crate::data::Elem>,
    date: &DateParts,
) -> (r: String)
    requires
        1 <= date.month <= 12,
        1 <= date.day <= 31,
        date.hour <= 23,
        date.minute <= 59,
        date.second <= 59,
    ensures
        r@ == render_doc(
            crate::data::elems_view(template@),
            title@,
            crate::data::list_view(*toc),
            crate::data::blocks_view(content@),
            *date,
            0,
        ),
{
    let mut out = String::new();
    let n = template.len();
    let mut i: usize = 0;
    while i < n
        invariant
            n == template@.len(),
            0 <= i <= n,
            1 <= date.month <= 12,
            1 <= date.day <= 31,
            date.hour <= 23,
            date.minute <= 59,
            date.second <= 59,
            out@ + render_doc(
                crate::data::elems_view(template@),
                title@,
                crate::data::list_view(*toc),
                crate::data::blocks_view(content@),
                *date,
                i as int,
            ) == render_doc(
                crate::data::elems_view(template@),
                title@,
                crate::data::list_view(*toc),
                crate::data::blocks_view(content@),
                *date,
                0,
            ),
        decreases n - i,
    {
        match &template[i] {
            crate::data::Elem::Title => {
                out.append(title.as_str());
            },
            crate::data::Elem::Year => {
                crate::text::push_dec_signed(&mut out, date.year as i64, 4);
            },
            crate::data::Elem::Month => {
                crate::text::push_dec_pad(&mut out, date.month as u64, 2);
            },
            crate::data::Elem::Day => {
                crate::text::push_dec_pad(&mut out, date.day as u64, 2);
            },
            crate::data::Elem::Hour => {
                crate::text::push_dec_pad(&mut out, date.hour as u64, 2);
            },
            crate::data::Elem::Minute => {
                crate::text::push_dec_pad(&mut out, date.minute as u64, 2);
            },
            crate::data::Elem::Second => {
                crate::text::push_dec_pad(&mut out, date.second as u64, 2);
            },
            crate::data::Elem::Toc(ind) => {
                gen_toc(&mut out, toc, *ind);
            },
            crate::data::Elem::Content(ind) => {
                gen_content(&mut out, content, *ind);
            },
            crate::data::Elem::Str(text) => {
                out.append(text.as_str());
            },
        }
        i += 1;
    }
    proof {
        assert(out@ =~= out@ + render_doc(
            crate::data::elems_view(template@),
            title@,
            crate::data::list_view(*toc),
            crate::data::blocks_view(content@),
            *date,
            n as int,
        ));
    }
    out
}

/// Relies on chrono::Local::now and its Datelike and Timelike accessors
/// (year, month, day, hour, minute, second): the local clock reading,
/// broken into calendar and time-of-day fields whose documented ranges are
/// promised here. Nothing else is promised of the clock's value.
#[verifier::external_body]
fn now_parts() -> (r: DateParts)
    ensures
        1 <= r.month <= 12,
        1 <= r.day <= 31,
        r.hour <= 23,
        r.minute <= 59,
        r.second <= 59,
{
    let t = chrono::Local::now();
    DateParts {
        year: chrono::Datelike::year(&t),
        month: chrono::Datelike::month(&t),
        day: chrono::Datelike::day(&t),
        hour: chrono::Timelike::hour(&t),
        minute: chrono::Timelike::minute(&t),
        second: chrono::Timelike::second(&t),
    }
}

/// Renders one parsed document through a template, reading the date and
/// time placeholders from the local clock; for every clock reading the
/// output is the template substitution for that reading.
pub fn gen_html_now(
    title: &String,
    toc: &crate::data::List,
    content: &Vec<crate::data::Block>,
    template: &Vec<crate::data::Elem>,
) -> (r: String)
    ensures
        exists|dt: DateParts|
            #![auto]
            1 <= dt.month <= 12 && 1 <= dt.day <= 31 && dt.hour <= 23 && dt.minute <= 59
                && dt.second <= 59 && r@ == render_doc(
                crate::data::elems_view(template@),
                title@,
                crate::data::list_view(*toc),
                crate::data::blocks_view(content@),
                dt,
                0,
            ),
{
    let date = now_parts();
    let r = gen_html(title, toc, content, template, &date);
    proof {
        assert(1 <= date.month <= 12 && 1 <= date.day <= 31 && date.hour <= 23 && date.minute
            <= 59 && date.second <= 59 && r@ == render_doc(
            crate::data::elems_view(template@),
            title@,
            crate::data::list_view(*toc),
            crate::data::blocks_view(content@),
            date,
            0,
        ));
    }
    r
}

} // verus!
