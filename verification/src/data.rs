//! The document model produced by the parser and consumed by the renderer:
//! block-level and inline-level value types, the template token type, the
//! syntax-error type, and the HTML escaping primitive shared by parsing and
//! rendering.

use vstd::prelude::*;

use crate::text::chars_of;
use crate::text::push_char;

verus! {

// ------------------------------------------------------------------
// Executable model
// ------------------------------------------------------------------
/// A top-level structural unit of a document.
#[derive(Debug, PartialEq)]
pub enum Block {
    Header { header: Inline, level: u32, id: String },
    Blockquote { lines: Vec<Inline> },
    ListBlock(List),
    Image { title: Inline, url: String },
    LinkCard {
        title: String,
        image: Option<String>,
        url: String,
        description: Option<String>,
        site_name: Option<String>,
    },
    Table { head: Vec<Vec<Inline>>, body: Vec<Vec<Inline>> },
    MathBlock { math: String },
    CodeBlock { lang: String, code: String },
    Paragraph { text: Inline },
    Ref(Vec<(Inline, usize)>),
}

/// A list of items; `ordered` selects between `<ol>` and `<ul>`.
#[derive(Debug, PartialEq)]
pub struct List {
    pub ordered: bool,
    pub items: Vec<ListItem>,
}

/// One list item: its inline body and its (possibly empty) nested sub-list.
#[derive(Debug, PartialEq)]
pub struct ListItem {
    pub item: Inline,
    pub list: List,
}

/// Inline content: an ordered sequence of spans.
#[derive(Debug, PartialEq)]
pub struct Inline(pub Vec<Span>);

/// An inline styling or reference unit.
#[derive(Debug, PartialEq)]
pub enum Span {
    Cite { id: usize },
    Link { text: Inline, url: String },
    Bold { text: Inline },
    Ital { text: Inline },
    Math { math: String },
    Code { code: String },
    Text { text: String },
}

/// Raw text carrying backslash escapes, not yet escaped for HTML.
#[derive(Debug, PartialEq)]
pub struct HtmlText(pub String);

/// One token of a parsed page template: a literal fragment, a date or title
/// placeholder, or an insertion point recorded with its character column.
#[derive(Debug, PartialEq)]
pub enum Elem {
    Title,
    Year,
    Month,
    Day,
    Hour,
    Minute,
    Second,
    Toc(usize),
    Content(usize),
    Str(String),
}

/// A failed parse: an expected closing delimiter set was never found, or a
/// heading nested more than one level below its most recent ancestor, so the
/// table of contents has no node to attach it to.
#[derive(Debug, PartialEq)]
pub enum SyntaxError {
    Expect(Vec<String>),
    HeadingSkip,
}

/// What the external metadata resolver reports for one URL; every field
/// degrades to empty or absent when the lookup fails.
#[derive(Debug, PartialEq)]
pub struct Metadata {
    pub title: String,
    pub image: Option<String>,
    pub description: Option<String>,
    pub site_name: Option<String>,
}

// ------------------------------------------------------------------
// Mathematical views of the model
// ------------------------------------------------------------------
/// The view of a [`Block`].
pub enum BlockV {
    Header { header: Seq<SpanV>, level: int, id: Seq<char> },
    Blockquote { lines: Seq<Seq<SpanV>> },
    ListBlock(ListV),
    Image { title: Seq<SpanV>, url: Seq<char> },
    LinkCard {
        title: Seq<char>,
        image: Option<Seq<char>>,
        url: Seq<char>,
        description: Option<Seq<char>>,
        site_name: Option<Seq<char>>,
    },
    Table { head: Seq<Seq<Seq<SpanV>>>, body: Seq<Seq<Seq<SpanV>>> },
    MathBlock { math: Seq<char> },
    CodeBlock { lang: Seq<char>, code: Seq<char> },
    Paragraph { text: Seq<SpanV> },
    Ref(Seq<(Seq<SpanV>, int)>),
}

/// The view of a [`List`].
pub struct ListV {
    pub ordered: bool,
    pub items: Seq<ItemV>,
}

/// The view of a [`ListItem`].
pub struct ItemV {
    pub item: Seq<SpanV>,
    pub list: ListV,
}

/// The view of a [`Span`].
pub enum SpanV {
    Cite { id: int },
    Link { text: Seq<SpanV>, url: Seq<char> },
    Bold { text: Seq<SpanV> },
    Ital { text: Seq<SpanV> },
    Math { math: Seq<char> },
    Code { code: Seq<char> },
    Text { text: Seq<char> },
}

/// The view of an [`Elem`].
pub enum ElemV {
    Title,
    Year,
    Month,
    Day,
    Hour,
    Minute,
    Second,
    Toc(int),
    Content(int),
    Str(Seq<char>),
}

/// The view of a [`Metadata`].
pub struct MetadataV {
    pub title: Seq<char>,
    pub image: Option<Seq<char>>,
    pub description: Option<Seq<char>>,
    pub site_name: Option<Seq<char>>,
}

pub open spec fn opt_view(o: Option<String>) -> Option<Seq<char>> {
    match o {
        Option::Some(s) => Option::Some(s@),
        Option::None => Option::None,
    }
}

pub open spec fn span_view(sp: Span) -> SpanV
    decreases sp,
{
    match sp {
        Span::Cite { id } => SpanV::Cite { id: id as int },
        Span::Link { text, url } => SpanV::Link { text: inline_view(text), url: url@ },
        Span::Bold { text } => SpanV::Bold { text: inline_view(text) },
        Span::Ital { text } => SpanV::Ital { text: inline_view(text) },
        Span::Math { math } => SpanV::Math { math: math@ },
        Span::Code { code } => SpanV::Code { code: code@ },
        Span::Text { text } => SpanV::Text { text: text@ },
    }
}

pub open spec fn spans_view(s: Seq<Span>) -> Seq<SpanV>
    decreases s,
{
    if s.len() == 0 {
        Seq::empty()
    } else {
        seq![span_view(s[0])] + spans_view(s.drop_first())
    }
}

pub open spec fn inline_view(i: Inline) -> Seq<SpanV>
    decreases i,
{
    spans_view(i.0@)
}

pub open spec fn inlines_view(s: Seq<Inline>) -> Seq<Seq<SpanV>>
    decreases s,
{
    if s.len() == 0 {
        Seq::empty()
    } else {
        seq![inline_view(s[0])] + inlines_view(s.drop_first())
    }
}

pub open spec fn item_view(it: ListItem) -> ItemV
    decreases it,
{
    ItemV { item: inline_view(it.item), list: list_view(it.list) }
}

pub open spec fn items_view(s: Seq<ListItem>) -> Seq<ItemV>
    decreases s,
{
    if s.len() == 0 {
        Seq::empty()
    } else {
        seq![item_view(s[0])] + items_view(s.drop_first())
    }
}

pub open spec fn list_view(l: List) -> ListV
    decreases l,
{
    ListV { ordered: l.ordered, items: items_view(l.items@) }
}

pub open spec fn row_view(r: Vec<Inline>) -> Seq<Seq<SpanV>>
    decreases r,
{
    inlines_view(r@)
}

pub open spec fn rows_view(s: Seq<Vec<Inline>>) -> Seq<Seq<Seq<SpanV>>>
    decreases s,
{
    if s.len() == 0 {
        Seq::empty()
    } else {
        seq![row_view(s[0])] + rows_view(s.drop_first())
    }
}

pub open spec fn note_view(n: (Inline, usize)) -> (Seq<SpanV>, int)
    decreases n,
{
    (inline_view(n.0), n.1 as int)
}

pub open spec fn notes_view(s: Seq<(Inline, usize)>) -> Seq<(Seq<SpanV>, int)>
    decreases s,
{
    if s.len() == 0 {
        Seq::empty()
    } else {
        seq![note_view(s[0])] + notes_view(s.drop_first())
    }
}

pub open spec fn block_view(b: Block) -> BlockV
    decreases b,
{
    match b {
        Block::Header { header, level, id } => BlockV::Header {
            header: inline_view(header),
            level: level as int,
            id: id@,
        },
        Block::Blockquote { lines } => BlockV::Blockquote { lines: inlines_view(lines@) },
        Block::ListBlock(l) => BlockV::ListBlock(list_view(l)),
        Block::Image { title, url } => BlockV::Image { title: inline_view(title), url: url@ },
        Block::LinkCard { title, image, url, description, site_name } => BlockV::LinkCard {
            title: title@,
            image: opt_view(image),
            url: url@,
            description: opt_view(description),
            site_name: opt_view(site_name),
        },
        Block::Table { head, body } => BlockV::Table {
            head: rows_view(head@),
            body: rows_view(body@),
        },
        Block::MathBlock { math } => BlockV::MathBlock { math: math@ },
        Block::CodeBlock { lang, code } => BlockV::CodeBlock { lang: lang@, code: code@ },
        Block::Paragraph { text } => BlockV::Paragraph { text: inline_view(text) },
        Block::Ref(notes) => BlockV::Ref(notes_view(notes@)),
    }
}

pub open spec fn blocks_view(s: Seq<Block>) -> Seq<BlockV>
    decreases s,
{
    if s.len() == 0 {
        Seq::empty()
    } else {
        seq![block_view(s[0])] + blocks_view(s.drop_first())
    }
}

pub open spec fn elem_view(e: Elem) -> ElemV {
    match e {
        Elem::Title => ElemV::Title,
        Elem::Year => ElemV::Year,
        Elem::Month => ElemV::Month,
        Elem::Day => ElemV::Day,
        Elem::Hour => ElemV::Hour,
        Elem::Minute => ElemV::Minute,
        Elem::Second => ElemV::Second,
        Elem::Toc(n) => ElemV::Toc(n as int),
        Elem::Content(n) => ElemV::Content(n as int),
        Elem::Str(s) => ElemV::Str(s@),
    }
}

pub open spec fn elems_view(s: Seq<Elem>) -> Seq<ElemV> {
    Seq::new(s.len(), |i: int| elem_view(s[i]))
}

pub open spec fn metadata_view(m: Metadata) -> MetadataV {
    MetadataV {
        title: m.title@,
        image: opt_view(m.image),
        description: opt_view(m.description),
        site_name: opt_view(m.site_name),
    }
}

// ------------------------------------------------------------------
// The HTML escape protocol
// ------------------------------------------------------------------
/// How one character is written into HTML output: only `<` and `>` take
/// their entity forms, every other character stands for itself.
pub open spec fn escape_char(c: char) -> Seq<char> {
    if c == '<' {
        seq!['&', 'l', 't', ';']
    } else if c == '>' {
        seq!['&', 'g', 't', ';']
    } else {
        seq![c]
    }
}

/// Raw text from position `i` on, written into HTML: a backslash is dropped
/// and the character it protected is still escaped like any other; a
/// trailing lone backslash is dropped.
pub open spec fn html_escape_from(s: Seq<char>, i: int) -> Seq<char>
    decreases s.len() - i,
{
    if i < 0 || i >= s.len() {
        Seq::empty()
    } else if s[i] == '\\' {
        if i + 1 >= s.len() {
            Seq::empty()
        } else {
            escape_char(s[i + 1]) + html_escape_from(s, i + 2)
        }
    } else {
        escape_char(s[i]) + html_escape_from(s, i + 1)
    }
}

/// Raw text written into HTML; the second half of the escape protocol.
pub open spec fn html_escape(s: Seq<char>) -> Seq<char> {
    html_escape_from(s, 0)
}

/// The HTML form of one character, as a string.
pub fn escape(c: char) -> (r: String)
    ensures
        r@ == escape_char(c),
{
    let mut r = String::new();
    if c == '<' {
        push_char(&mut r, '&');
        push_char(&mut r, 'l');
        push_char(&mut r, 't');
        push_char(&mut r, ';');
        proof {
            assert(r@ =~= escape_char(c));
        }
    } else if c == '>' {
        push_char(&mut r, '&');
        push_char(&mut r, 'g');
        push_char(&mut r, 't');
        push_char(&mut r, ';');
        proof {
            assert(r@ =~= escape_char(c));
        }
    } else {
        push_char(&mut r, c);
        proof {
            assert(r@ =~= escape_char(c));
        }
    }
    r
}

/// Appends the HTML form of one character to `out`.
pub fn push_escaped(out: &mut String, c: char)
    ensures
        final(out)@ == old(out)@ + escape_char(c),
{
    if c == '<' {
        push_char(out, '&');
        push_char(out, 'l');
        push_char(out, 't');
        push_char(out, ';');
        proof {
            assert(final(out)@ =~= old(out)@ + escape_char(c));
        }
    } else if c == '>' {
        push_char(out, '&');
        push_char(out, 'g');
        push_char(out, 't');
        push_char(out, ';');
        proof {
            assert(final(out)@ =~= old(out)@ + escape_char(c));
        }
    } else {
        push_char(out, c);
        proof {
            assert(final(out)@ =~= old(out)@ + escape_char(c));
        }
    }
}

/// Appends raw text to `out` under the escape protocol: each backslash is
/// dropped and the following character is escaped like any other.
pub fn push_html_text(out: &mut String, s: &str)
    ensures
        final(out)@ == old(out)@ + html_escape(s@),
{
    let v = chars_of(s);
    let n = v.len();
    let mut i: usize = 0;
    while i < n
        invariant
            n == v@.len(),
            v@ == s@,
            0 <= i <= n,
            out@ + html_escape_from(s@, i as int) == old(out)@ + html_escape(s@),
        decreases n - i,
    {
        if v[i] == '\\' {
            if i + 1 < n {
                push_escaped(out, v[i + 1]);
                i += 2;
            } else {
                i += 1;
            }
        } else {
            push_escaped(out, v[i]);
            i += 1;
        }
    }
}

impl HtmlText {
    /// The HTML form of the raw text, under the escape protocol.
    pub fn to_html(&self) -> (r: String)
        ensures
            r@ == html_escape(self.0@),
    {
        let mut r = String::new();
        push_html_text(&mut r, self.0.as_str());
        r
    }
}

} // verus!

verus! {

// ------------------------------------------------------------------
// Index characterizations of the view families
// ------------------------------------------------------------------
/// `spans_view` maps `span_view` over the sequence, index by index.
pub proof fn lemma_spans_view(s: Seq<Span>)
    ensures
        spans_view(s).len() == s.len(),
        forall|i: int| 0 <= i < s.len() ==> spans_view(s)[i] == span_view(s[i]),
    decreases s.len(),
{
    if s.len() > 0 {
        lemma_spans_view(s.drop_first());
    }
}

/// `inlines_view` maps `inline_view` over the sequence, index by index.
pub proof fn lemma_inlines_view(s: Seq<Inline>)
    ensures
        inlines_view(s).len() == s.len(),
        forall|i: int| 0 <= i < s.len() ==> inlines_view(s)[i] == inline_view(s[i]),
    decreases s.len(),
{
    if s.len() > 0 {
        lemma_inlines_view(s.drop_first());
    }
}

/// `items_view` maps `item_view` over the sequence, index by index.
pub proof fn lemma_items_view(s: Seq<ListItem>)
    ensures
        items_view(s).len() == s.len(),
        forall|i: int| 0 <= i < s.len() ==> items_view(s)[i] == item_view(s[i]),
    decreases s.len(),
{
    if s.len() > 0 {
        lemma_items_view(s.drop_first());
    }
}

/// `rows_view` maps `row_view` over the sequence, index by index.
pub proof fn lemma_rows_view(s: Seq<Vec<Inline>>)
    ensures
        rows_view(s).len() == s.len(),
        forall|i: int| 0 <= i < s.len() ==> rows_view(s)[i] == row_view(s[i]),
    decreases s.len(),
{
    if s.len() > 0 {
        lemma_rows_view(s.drop_first());
    }
}

/// `notes_view` maps `note_view` over the sequence, index by index.
pub proof fn lemma_notes_view(s: Seq<(Inline, usize)>)
    ensures
        notes_view(s).len() == s.len(),
        forall|i: int| 0 <= i < s.len() ==> notes_view(s)[i] == note_view(s[i]),
    decreases s.len(),
{
    if s.len() > 0 {
        lemma_notes_view(s.drop_first());
    }
}

/// `blocks_view` maps `block_view` over the sequence, index by index.
pub proof fn lemma_blocks_view(s: Seq<Block>)
    ensures
        blocks_view(s).len() == s.len(),
        forall|i: int| 0 <= i < s.len() ==> blocks_view(s)[i] == block_view(s[i]),
    decreases s.len(),
{
    if s.len() > 0 {
        lemma_blocks_view(s.drop_first());
    }
}

/// Appending one block to the model appends its view to the view.
pub proof fn lemma_blocks_view_push(s: Seq<Block>, x: Block)
    ensures
        blocks_view(s.push(x)) == blocks_view(s).push(block_view(x)),
{
    lemma_blocks_view(s.push(x));
    lemma_blocks_view(s);
    assert(forall|i: int| 0 <= i < s.len() ==> s.push(x)[i] == s[i]);
    assert(s.push(x)[s.len() as int] == x);
    assert(blocks_view(s.push(x)) =~= blocks_view(s).push(block_view(x)));
}

} // verus!

verus! {

/// Appending one template token to the model appends its view to the view.
pub proof fn lemma_elems_view_push(s: Seq<Elem>, x: Elem)
    ensures
        elems_view(s.push(x)) == elems_view(s).push(elem_view(x)),
{
    assert(elems_view(s.push(x)) =~= elems_view(s).push(elem_view(x)));
}

} // verus!

verus! {

/// A copy of one span with the same view.
pub fn clone_span(sp: &Span) -> (r: Span)
    ensures
        span_view(r) == span_view(*sp),
    decreases *sp,
{
    match sp {
        Span::Cite { id } => Span::Cite { id: *id },
        Span::Link { text, url } => Span::Link {
            text: clone_inline(text),
            url: crate::text::clone_string(url),
        },
        Span::Bold { text } => Span::Bold { text: clone_inline(text) },
        Span::Ital { text } => Span::Ital { text: clone_inline(text) },
        Span::Math { math } => Span::Math {
            math: crate::text::clone_string(math),
        },
        Span::Code { code } => Span::Code {
            code: crate::text::clone_string(code),
        },
        Span::Text { text } => Span::Text {
            text: crate::text::clone_string(text),
        },
    }
}

/// A copy of inline content with the same view.
#[verifier::loop_isolation(false)]
pub fn clone_inline(i: &Inline) -> (r: Inline)
    ensures
        inline_view(r) == inline_view(*i),
    decreases *i,
{
    let mut out: Vec<Span> = Vec::new();
    let n = i.0.len();
    let mut j: usize = 0;
    while j < n
        invariant
            0 <= j <= n,
            out@.len() == j,
            forall|k: int|
                0 <= k < j ==> span_view(out@[k]) == span_view(i.0@[k]),
        decreases n - j,
    {
        proof {
            assert(decreases_to!(*i => i.0@[j as int]));
        }
        let sp = clone_span(&i.0[j]);
        out.push(sp);
        j += 1;
    }
    proof {
        lemma_spans_view(out@);
        lemma_spans_view(i.0@);
        assert(spans_view(out@) =~= spans_view(i.0@));
    }
    Inline(out)
}

} // verus!

verus! {

/// Appending one span to the model appends its view to the view.
pub proof fn lemma_spans_view_push(s: Seq<Span>, x: Span)
    ensures
        spans_view(s.push(x)) == spans_view(s).push(span_view(x)),
{
    lemma_spans_view(s.push(x));
    lemma_spans_view(s);
    assert(forall|i: int| 0 <= i < s.len() ==> s.push(x)[i] == s[i]);
    assert(s.push(x)[s.len() as int] == x);
    assert(spans_view(s.push(x)) =~= spans_view(s).push(span_view(x)));
}

} // verus!

verus! {

/// Appending one list item to the model appends its view to the view.
pub proof fn lemma_items_view_push(s: Seq<ListItem>, x: ListItem)
    ensures
        items_view(s.push(x)) == items_view(s).push(item_view(x)),
{
    lemma_items_view(s.push(x));
    lemma_items_view(s);
    assert(forall|i: int| 0 <= i < s.len() ==> s.push(x)[i] == s[i]);
    assert(s.push(x)[s.len() as int] == x);
    assert(items_view(s.push(x)) =~= items_view(s).push(item_view(x)));
}

} // verus!

verus! {

/// Appending one inline line to the model appends its view to the view.
pub proof fn lemma_inlines_view_push(s: Seq<Inline>, x: Inline)
    ensures
        inlines_view(s.push(x)) == inlines_view(s).push(inline_view(x)),
{
    lemma_inlines_view(s.push(x));
    lemma_inlines_view(s);
    assert(forall|i: int| 0 <= i < s.len() ==> s.push(x)[i] == s[i]);
    assert(s.push(x)[s.len() as int] == x);
    assert(inlines_view(s.push(x)) =~= inlines_view(s).push(inline_view(x)));
}

/// Appending one row to the model appends its view to the view.
pub proof fn lemma_rows_view_push(s: Seq<Vec<Inline>>, x: Vec<Inline>)
    ensures
        rows_view(s.push(x)) == rows_view(s).push(row_view(x)),
{
    lemma_rows_view(s.push(x));
    lemma_rows_view(s);
    assert(forall|i: int| 0 <= i < s.len() ==> s.push(x)[i] == s[i]);
    assert(s.push(x)[s.len() as int] == x);
    assert(rows_view(s.push(x)) =~= rows_view(s).push(row_view(x)));
}

} // verus!
