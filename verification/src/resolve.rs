//! The second phase of a conversion: the parser leaves a link with empty
//! text and every link card unresolved; the caller looks each URL up
//! through the external metadata resolver and hands the answers back as
//! plain tables, and this pass substitutes them into the model. A URL with
//! no table entry keeps its empty or absent fields, the resolver's
//! degraded answer.

use vstd::prelude::*;

use crate::data::Block;
use crate::data::BlockV;
use crate::data::Inline;
use crate::data::ItemV;
use crate::data::List;
use crate::data::ListItem;
use crate::data::ListV;
use crate::data::Metadata;
use crate::data::MetadataV;
use crate::data::Span;
use crate::data::SpanV;
use crate::text::clone_string;

verus! {

/// The view of a URL-to-title table.
pub open spec fn titles_view(t: Seq<(String, String)>) -> Seq<(Seq<char>, Seq<char>)> {
    Seq::new(t.len(), |i: int| (t[i].0@, t[i].1@))
}

/// The view of a URL-to-metadata table.
pub open spec fn cards_view(t: Seq<(String, Metadata)>) -> Seq<(Seq<char>, MetadataV)> {
    Seq::new(t.len(), |i: int| (t[i].0@, crate::data::metadata_view(t[i].1)))
}

/// The first title recorded for `k`, if any.
pub open spec fn lookup_title(t: Seq<(Seq<char>, Seq<char>)>, k: Seq<char>) -> Option<Seq<char>>
    decreases t.len(),
{
    if t.len() == 0 {
        Option::None
    } else if t[0].0 == k {
        Option::Some(t[0].1)
    } else {
        lookup_title(t.drop_first(), k)
    }
}

/// The first metadata recorded for `k`, if any.
pub open spec fn lookup_card(t: Seq<(Seq<char>, MetadataV)>, k: Seq<char>) -> Option<MetadataV>
    decreases t.len(),
{
    if t.len() == 0 {
        Option::None
    } else if t[0].0 == k {
        Option::Some(t[0].1)
    } else {
        lookup_card(t.drop_first(), k)
    }
}

/// If the first matching key stands at index `j`, the lookup answers its
/// value.
proof fn lemma_lookup_title_at(t: Seq<(Seq<char>, Seq<char>)>, k: Seq<char>, j: int)
    requires
        0 <= j < t.len(),
        t[j].0 == k,
        forall|p: int| 0 <= p < j ==> t[p].0 != k,
    ensures
        lookup_title(t, k) == Option::Some(t[j].1),
    decreases j,
{
    if j > 0 {
        lemma_lookup_title_at(t.drop_first(), k, j - 1);
    }
}

/// If no key matches, the lookup answers nothing.
proof fn lemma_lookup_title_none(t: Seq<(Seq<char>, Seq<char>)>, k: Seq<char>)
    requires
        forall|p: int| 0 <= p < t.len() ==> t[p].0 != k,
    ensures
        lookup_title(t, k) is None,
    decreases t.len(),
{
    if t.len() > 0 {
        lemma_lookup_title_none(t.drop_first(), k);
    }
}

/// If the first matching key stands at index `j`, the lookup answers its
/// value.
proof fn lemma_lookup_card_at(t: Seq<(Seq<char>, MetadataV)>, k: Seq<char>, j: int)
    requires
        0 <= j < t.len(),
        t[j].0 == k,
        forall|p: int| 0 <= p < j ==> t[p].0 != k,
    ensures
        lookup_card(t, k) == Option::Some(t[j].1),
    decreases j,
{
    if j > 0 {
        lemma_lookup_card_at(t.drop_first(), k, j - 1);
    }
}

/// If no key matches, the lookup answers nothing.
proof fn lemma_lookup_card_none(t: Seq<(Seq<char>, MetadataV)>, k: Seq<char>)
    requires
        forall|p: int| 0 <= p < t.len() ==> t[p].0 != k,
    ensures
        lookup_card(t, k) is None,
    decreases t.len(),
{
    if t.len() > 0 {
        lemma_lookup_card_none(t.drop_first(), k);
    }
}

/// The first title recorded for `url`, as an owned value.
fn find_title(t: &Vec<(String, String)>, url: &String) -> (r: Option<String>)
    ensures
        crate::data::opt_view(r) == lookup_title(titles_view(t@), url@),
{
    let n = t.len();
    let mut j: usize = 0;
    while j < n
        invariant
            n == t@.len(),
            0 <= j <= n,
            forall|p: int| 0 <= p < j ==> titles_view(t@)[p].0 != url@,
        decreases n - j,
    {
        if t[j].0 == *url {
            proof {
                lemma_lookup_title_at(titles_view(t@), url@, j as int);
            }
            return Option::Some(clone_string(&t[j].1));
        }
        j += 1;
    }
    proof {
        lemma_lookup_title_none(titles_view(t@), url@);
    }
    Option::None
}

/// A copy of an optional string with the same view.
fn clone_opt_string(o: &Option<String>) -> (r: Option<String>)
    ensures
        crate::data::opt_view(r) == crate::data::opt_view(*o),
{
    match o {
        Option::Some(s) => Option::Some(clone_string(s)),
        Option::None => Option::None,
    }
}

/// A copy of a metadata record with the same view.
fn clone_metadata(m: &Metadata) -> (r: Metadata)
    ensures
        crate::data::metadata_view(r) == crate::data::metadata_view(*m),
{
    Metadata {
        title: clone_string(&m.title),
        image: clone_opt_string(&m.image),
        description: clone_opt_string(&m.description),
        site_name: clone_opt_string(&m.site_name),
    }
}

/// The first metadata recorded for `url`, as an owned value.
fn find_card(t: &Vec<(String, Metadata)>, url: &String) -> (r: Option<Metadata>)
    ensures
        (match r {
            Option::Some(m) => Option::Some(crate::data::metadata_view(m)),
            Option::None => Option::<MetadataV>::None,
        }) == lookup_card(cards_view(t@), url@),
{
    let n = t.len();
    let mut j: usize = 0;
    while j < n
        invariant
            n == t@.len(),
            0 <= j <= n,
            forall|p: int| 0 <= p < j ==> cards_view(t@)[p].0 != url@,
        decreases n - j,
    {
        if t[j].0 == *url {
            proof {
                lemma_lookup_card_at(cards_view(t@), url@, j as int);
            }
            return Option::Some(clone_metadata(&t[j].1));
        }
        j += 1;
    }
    proof {
        lemma_lookup_card_none(cards_view(t@), url@);
    }
    Option::None
}

// ------------------------------------------------------------------
// Which URLs await resolution
// ------------------------------------------------------------------
/// The URLs a span asks the resolver about: the URL of a link written with
/// empty text, anywhere in the span.
pub open spec fn span_link_urls(sp: SpanV) -> Seq<Seq<char>>
    decreases sp, 0int,
{
    match sp {
        SpanV::Link { text, url } => if text.len() == 0 {
            seq![url]
        } else {
            spans_link_urls(text, 0)
        },
        SpanV::Bold { text } => spans_link_urls(text, 0),
        SpanV::Ital { text } => spans_link_urls(text, 0),
        _ => Seq::empty(),
    }
}

/// The link URLs of the spans from index `i` on.
pub open spec fn spans_link_urls(s: Seq<SpanV>, i: int) -> Seq<Seq<char>>
    decreases s, s.len() - i + 1,
{
    if i < 0 || i >= s.len() {
        Seq::empty()
    } else {
        span_link_urls(s[i]) + spans_link_urls(s, i + 1)
    }
}

/// The link URLs of list items from index `i` on.
pub open spec fn items_link_urls(items: Seq<ItemV>, i: int) -> Seq<Seq<char>>
    decreases items, 0int, items.len() - i + 1,
{
    if i < 0 || i >= items.len() {
        Seq::empty()
    } else {
        spans_link_urls(items[i].item, 0) + list_link_urls(items[i].list) + items_link_urls(
            items,
            i + 1,
        )
    }
}

/// The link URLs of a list.
pub open spec fn list_link_urls(l: ListV) -> Seq<Seq<char>>
    decreases l, 1int, 0int,
{
    items_link_urls(l.items, 0)
}

/// The link URLs of inline lines from index `i` on.
pub open spec fn lines_link_urls(lines: Seq<Seq<SpanV>>, i: int) -> Seq<Seq<char>>
    decreases lines, lines.len() - i + 1,
{
    if i < 0 || i >= lines.len() {
        Seq::empty()
    } else {
        spans_link_urls(lines[i], 0) + lines_link_urls(lines, i + 1)
    }
}

/// The link URLs of table rows from index `i` on.
pub open spec fn rows_link_urls(rows: Seq<Seq<Seq<SpanV>>>, i: int) -> Seq<Seq<char>>
    decreases rows, rows.len() - i + 1,
{
    if i < 0 || i >= rows.len() {
        Seq::empty()
    } else {
        lines_link_urls(rows[i], 0) + rows_link_urls(rows, i + 1)
    }
}

/// The link URLs of reference notes from index `i` on.
pub open spec fn notes_link_urls(notes: Seq<(Seq<SpanV>, int)>, i: int) -> Seq<Seq<char>>
    decreases notes, notes.len() - i + 1,
{
    if i < 0 || i >= notes.len() {
        Seq::empty()
    } else {
        spans_link_urls(notes[i].0, 0) + notes_link_urls(notes, i + 1)
    }
}

/// The link URLs of one block.
pub open spec fn block_link_urls(b: BlockV) -> Seq<Seq<char>>
    decreases b, 2int, 0int,
{
    match b {
        BlockV::Header { header, level, id } => spans_link_urls(header, 0),
        BlockV::Blockquote { lines } => lines_link_urls(lines, 0),
        BlockV::ListBlock(l) => list_link_urls(l),
        BlockV::Image { title, url } => spans_link_urls(title, 0),
        BlockV::Table { head, body } => rows_link_urls(head, 0) + rows_link_urls(body, 0),
        BlockV::Paragraph { text } => spans_link_urls(text, 0),
        BlockV::Ref(notes) => notes_link_urls(notes, 0),
        _ => Seq::empty(),
    }
}

/// The link URLs of the blocks from index `i` on, in document order.
pub open spec fn blocks_link_urls(bs: Seq<BlockV>, i: int) -> Seq<Seq<char>>
    decreases bs.len() - i,
{
    if i < 0 || i >= bs.len() {
        Seq::empty()
    } else {
        block_link_urls(bs[i]) + blocks_link_urls(bs, i + 1)
    }
}

/// The link-card URLs of the blocks from index `i` on, in document order.
pub open spec fn blocks_card_urls(bs: Seq<BlockV>, i: int) -> Seq<Seq<char>>
    decreases bs.len() - i,
{
    if i < 0 || i >= bs.len() {
        Seq::empty()
    } else {
        (match bs[i] {
            BlockV::LinkCard { title, image, url, description, site_name } => seq![url],
            _ => Seq::empty(),
        }) + blocks_card_urls(bs, i + 1)
    }
}

} // verus!

verus! {

// ------------------------------------------------------------------
// Substituting resolved metadata into the model
// ------------------------------------------------------------------
/// One span with resolved titles substituted: a link with empty text gains
/// its resolved title as its text; nested span text is substituted
/// recursively; every other span is unchanged.
pub open spec fn apply_span(sp: SpanV, tt: Seq<(Seq<char>, Seq<char>)>) -> SpanV
    decreases sp, 0int,
{
    match sp {
        SpanV::Link { text, url } => if text.len() == 0 {
            match lookup_title(tt, url) {
                Option::Some(t) => SpanV::Link { text: seq![SpanV::Text { text: t }], url },
                Option::None => SpanV::Link { text, url },
            }
        } else {
            SpanV::Link { text: apply_spans(text, tt, 0), url }
        },
        SpanV::Bold { text } => SpanV::Bold { text: apply_spans(text, tt, 0) },
        SpanV::Ital { text } => SpanV::Ital { text: apply_spans(text, tt, 0) },
        _ => sp,
    }
}

/// The spans from index `i` on with resolved titles substituted.
pub open spec fn apply_spans(s: Seq<SpanV>, tt: Seq<(Seq<char>, Seq<char>)>, i: int) -> Seq<SpanV>
    decreases s, s.len() - i + 1,
{
    if i < 0 || i >= s.len() {
        Seq::empty()
    } else {
        seq![apply_span(s[i], tt)] + apply_spans(s, tt, i + 1)
    }
}

/// The list items from index `i` on with resolved titles substituted.
pub open spec fn apply_items(items: Seq<ItemV>, tt: Seq<(Seq<char>, Seq<char>)>, i: int) -> Seq<
    ItemV,
>
    decreases items, 0int, items.len() - i + 1,
{
    if i < 0 || i >= items.len() {
        Seq::empty()
    } else {
        seq![
            ItemV {
                item: apply_spans(items[i].item, tt, 0),
                list: apply_list(items[i].list, tt),
            },
        ] + apply_items(items, tt, i + 1)
    }
}

/// A list with resolved titles substituted.
pub open spec fn apply_list(l: ListV, tt: Seq<(Seq<char>, Seq<char>)>) -> ListV
    decreases l, 1int, 0int,
{
    ListV { ordered: l.ordered, items: apply_items(l.items, tt, 0) }
}

/// The inline lines from index `i` on with resolved titles substituted.
pub open spec fn apply_lines(lines: Seq<Seq<SpanV>>, tt: Seq<(Seq<char>, Seq<char>)>, i: int)
    -> Seq<Seq<SpanV>>
    decreases lines, lines.len() - i + 1,
{
    if i < 0 || i >= lines.len() {
        Seq::empty()
    } else {
        seq![apply_spans(lines[i], tt, 0)] + apply_lines(lines, tt, i + 1)
    }
}

/// The table rows from index `i` on with resolved titles substituted.
pub open spec fn apply_rows(rows: Seq<Seq<Seq<SpanV>>>, tt: Seq<(Seq<char>, Seq<char>)>, i: int)
    -> Seq<Seq<Seq<SpanV>>>
    decreases rows, rows.len() - i + 1,
{
    if i < 0 || i >= rows.len() {
        Seq::empty()
    } else {
        seq![apply_lines(rows[i], tt, 0)] + apply_rows(rows, tt, i + 1)
    }
}

/// The reference notes from index `i` on with resolved titles substituted.
pub open spec fn apply_notes(
    notes: Seq<(Seq<SpanV>, int)>,
    tt: Seq<(Seq<char>, Seq<char>)>,
    i: int,
) -> Seq<(Seq<SpanV>, int)>
    decreases notes, notes.len() - i + 1,
{
    if i < 0 || i >= notes.len() {
        Seq::empty()
    } else {
        seq![(apply_spans(notes[i].0, tt, 0), notes[i].1)] + apply_notes(notes, tt, i + 1)
    }
}

/// One block with resolved metadata substituted: a link card takes the
/// fields resolved for its URL, and inline content is substituted
/// recursively; a URL with no answer keeps its degraded fields.
pub open spec fn apply_block(
    b: BlockV,
    tt: Seq<(Seq<char>, Seq<char>)>,
    ct: Seq<(Seq<char>, MetadataV)>,
) -> BlockV
    decreases b, 2int, 0int,
{
    match b {
        BlockV::Header { header, level, id } => BlockV::Header {
            header: apply_spans(header, tt, 0),
            level,
            id,
        },
        BlockV::Blockquote { lines } => BlockV::Blockquote { lines: apply_lines(lines, tt, 0) },
        BlockV::ListBlock(l) => BlockV::ListBlock(apply_list(l, tt)),
        BlockV::Image { title, url } => BlockV::Image { title: apply_spans(title, tt, 0), url },
        BlockV::LinkCard { title, image, url, description, site_name } => match lookup_card(
            ct,
            url,
        ) {
            Option::Some(m) => BlockV::LinkCard {
                title: m.title,
                image: m.image,
                url,
                description: m.description,
                site_name: m.site_name,
            },
            Option::None => BlockV::LinkCard { title, image, url, description, site_name },
        },
        BlockV::Table { head, body } => BlockV::Table {
            head: apply_rows(head, tt, 0),
            body: apply_rows(body, tt, 0),
        },
        BlockV::Paragraph { text } => BlockV::Paragraph { text: apply_spans(text, tt, 0) },
        BlockV::Ref(notes) => BlockV::Ref(apply_notes(notes, tt, 0)),
        _ => b,
    }
}

/// The blocks from index `i` on with resolved metadata substituted.
pub open spec fn apply_blocks(
    bs: Seq<BlockV>,
    tt: Seq<(Seq<char>, Seq<char>)>,
    ct: Seq<(Seq<char>, MetadataV)>,
    i: int,
) -> Seq<BlockV>
    decreases bs.len() - i,
{
    if i < 0 || i >= bs.len() {
        Seq::empty()
    } else {
        seq![apply_block(bs[i], tt, ct)] + apply_blocks(bs, tt, ct, i + 1)
    }
}

/// `apply_spans` maps `apply_span` index by index.
pub proof fn lemma_apply_spans(s: Seq<SpanV>, tt: Seq<(Seq<char>, Seq<char>)>, i: int)
    requires
        0 <= i <= s.len(),
    ensures
        apply_spans(s, tt, i).len() == s.len() - i,
        forall|k: int|
            0 <= k < s.len() - i ==> apply_spans(s, tt, i)[k] == apply_span(s[i + k], tt),
    decreases s.len() - i,
{
    if i < s.len() {
        lemma_apply_spans(s, tt, i + 1);
    }
}

/// `apply_items` maps the item substitution index by index.
pub proof fn lemma_apply_items(items: Seq<ItemV>, tt: Seq<(Seq<char>, Seq<char>)>, i: int)
    requires
        0 <= i <= items.len(),
    ensures
        apply_items(items, tt, i).len() == items.len() - i,
        forall|k: int|
            0 <= k < items.len() - i ==> apply_items(items, tt, i)[k] == (ItemV {
                item: apply_spans(items[i + k].item, tt, 0),
                list: apply_list(items[i + k].list, tt),
            }),
    decreases items.len() - i,
{
    if i < items.len() {
        lemma_apply_items(items, tt, i + 1);
    }
}

/// `apply_lines` maps the line substitution index by index.
pub proof fn lemma_apply_lines(lines: Seq<Seq<SpanV>>, tt: Seq<(Seq<char>, Seq<char>)>, i: int)
    requires
        0 <= i <= lines.len(),
    ensures
        apply_lines(lines, tt, i).len() == lines.len() - i,
        forall|k: int|
            0 <= k < lines.len() - i ==> apply_lines(lines, tt, i)[k] == apply_spans(
                lines[i + k],
                tt,
                0,
            ),
    decreases lines.len() - i,
{
    if i < lines.len() {
        lemma_apply_lines(lines, tt, i + 1);
    }
}

/// `apply_rows` maps the row substitution index by index.
pub proof fn lemma_apply_rows(rows: Seq<Seq<Seq<SpanV>>>, tt: Seq<(Seq<char>, Seq<char>)>, i: int)
    requires
        0 <= i <= rows.len(),
    ensures
        apply_rows(rows, tt, i).len() == rows.len() - i,
        forall|k: int|
            0 <= k < rows.len() - i ==> apply_rows(rows, tt, i)[k] == apply_lines(
                rows[i + k],
                tt,
                0,
            ),
    decreases rows.len() - i,
{
    if i < rows.len() {
        lemma_apply_rows(rows, tt, i + 1);
    }
}

/// `apply_notes` maps the note substitution index by index.
pub proof fn lemma_apply_notes(
    notes: Seq<(Seq<SpanV>, int)>,
    tt: Seq<(Seq<char>, Seq<char>)>,
    i: int,
)
    requires
        0 <= i <= notes.len(),
    ensures
        apply_notes(notes, tt, i).len() == notes.len() - i,
        forall|k: int|
            0 <= k < notes.len() - i ==> apply_notes(notes, tt, i)[k] == (
            apply_spans(notes[i + k].0, tt, 0),
            notes[i + k].1,
            ),
    decreases notes.len() - i,
{
    if i < notes.len() {
        lemma_apply_notes(notes, tt, i + 1);
    }
}

/// `apply_blocks` maps `apply_block` index by index.
pub proof fn lemma_apply_blocks(
    bs: Seq<BlockV>,
    tt: Seq<(Seq<char>, Seq<char>)>,
    ct: Seq<(Seq<char>, MetadataV)>,
    i: int,
)
    requires
        0 <= i <= bs.len(),
    ensures
        apply_blocks(bs, tt, ct, i).len() == bs.len() - i,
        forall|k: int|
            0 <= k < bs.len() - i ==> apply_blocks(bs, tt, ct, i)[k] == apply_block(
                bs[i + k],
                tt,
                ct,
            ),
    decreases bs.len() - i,
{
    if i < bs.len() {
        lemma_apply_blocks(bs, tt, ct, i + 1);
    }
}

} // verus!

verus! {

/// Appends the unresolved link URLs of one span to `out`.
fn collect_span(out: &mut Vec<String>, sp: &Span)
    ensures
        crate::parser::string_views(final(out)@) == crate::parser::string_views(old(out)@)
            + span_link_urls(crate::data::span_view(*sp)),
    decreases *sp, 0int,
{
    match sp {
        Span::Link { text, url } => {
            proof {
                crate::data::lemma_spans_view(text.0@);
            }
            if text.0.len() == 0 {
                out.push(clone_string(url));
                proof {
                    assert(crate::parser::string_views(final(out)@) =~= crate::parser::string_views(
                        old(out)@,
                    ) + span_link_urls(crate::data::span_view(*sp)));
                }
            } else {
                proof {
                    assert(decreases_to!(*sp => text));
                    assert(decreases_to!(text => text.0@));
                }
                collect_spans(out, &text.0, 0);
            }
        },
        Span::Bold { text } => {
            proof {
                assert(decreases_to!(*sp => text));
                assert(decreases_to!(text => text.0@));
            }
            collect_spans(out, &text.0, 0);
        },
        Span::Ital { text } => {
            proof {
                assert(decreases_to!(*sp => text));
                assert(decreases_to!(text => text.0@));
            }
            collect_spans(out, &text.0, 0);
        },
        _ => {
            proof {
                assert(crate::parser::string_views(final(out)@) =~= crate::parser::string_views(
                    old(out)@,
                ) + span_link_urls(crate::data::span_view(*sp)));
            }
        },
    }
}

/// Appends the unresolved link URLs of the spans of `v` from index `i` on.
fn collect_spans(out: &mut Vec<String>, v: &Vec<Span>, i: usize)
    requires
        i <= v@.len(),
    ensures
        crate::parser::string_views(final(out)@) == crate::parser::string_views(old(out)@)
            + spans_link_urls(crate::data::spans_view(v@), i as int),
    decreases v@, v@.len() - i + 1,
{
    proof {
        crate::data::lemma_spans_view(v@);
    }
    if i == v.len() {
        proof {
            assert(crate::parser::string_views(final(out)@) =~= crate::parser::string_views(
                old(out)@,
            ) + spans_link_urls(crate::data::spans_view(v@), i as int));
        }
        return ;
    }
    proof {
        assert(decreases_to!(v@ => v@[i as int]));
    }
    collect_span(out, &v[i]);
    collect_spans(out, v, i + 1);
    proof {
        assert(crate::parser::string_views(final(out)@) =~= crate::parser::string_views(old(out)@)
            + spans_link_urls(crate::data::spans_view(v@), i as int));
    }
}

/// Appends the unresolved link URLs of the items of a list from index `i`
/// on.
fn collect_items(out: &mut Vec<String>, items: &Vec<ListItem>, i: usize)
    requires
        i <= items@.len(),
    ensures
        crate::parser::string_views(final(out)@) == crate::parser::string_views(old(out)@)
            + items_link_urls(crate::data::items_view(items@), i as int),
    decreases items@, 0int, items@.len() - i + 1,
{
    proof {
        crate::data::lemma_items_view(items@);
    }
    if i == items.len() {
        proof {
            assert(crate::parser::string_views(final(out)@) =~= crate::parser::string_views(
                old(out)@,
            ) + items_link_urls(crate::data::items_view(items@), i as int));
        }
        return ;
    }
    collect_spans(out, &items[i].item.0, 0);
    proof {
        assert(decreases_to!(items@ => items@[i as int]));
        assert(decreases_to!(items@[i as int] => items@[i as int].list));
    }
    collect_list(out, &items[i].list);
    collect_items(out, items, i + 1);
    proof {
        assert(crate::parser::string_views(final(out)@) =~= crate::parser::string_views(old(out)@)
            + items_link_urls(crate::data::items_view(items@), i as int));
    }
}

/// Appends the unresolved link URLs of a list.
fn collect_list(out: &mut Vec<String>, l: &List)
    ensures
        crate::parser::string_views(final(out)@) == crate::parser::string_views(old(out)@)
            + list_link_urls(crate::data::list_view(*l)),
    decreases *l, 1int, 0int,
{
    proof {
        assert(decreases_to!(*l => l.items));
        assert(decreases_to!(l.items => l.items@));
    }
    collect_items(out, &l.items, 0);
}

/// Appends the unresolved link URLs of inline lines from index `i` on.
fn collect_lines(out: &mut Vec<String>, lines: &Vec<Inline>, i: usize)
    requires
        i <= lines@.len(),
    ensures
        crate::parser::string_views(final(out)@) == crate::parser::string_views(old(out)@)
            + lines_link_urls(crate::data::inlines_view(lines@), i as int),
    decreases lines@, lines@.len() - i + 1,
{
    proof {
        crate::data::lemma_inlines_view(lines@);
    }
    if i == lines.len() {
        proof {
            assert(crate::parser::string_views(final(out)@) =~= crate::parser::string_views(
                old(out)@,
            ) + lines_link_urls(crate::data::inlines_view(lines@), i as int));
        }
        return ;
    }
    collect_spans(out, &lines[i].0, 0);
    collect_lines(out, lines, i + 1);
    proof {
        assert(crate::parser::string_views(final(out)@) =~= crate::parser::string_views(old(out)@)
            + lines_link_urls(crate::data::inlines_view(lines@), i as int));
    }
}

/// Appends the unresolved link URLs of table rows from index `i` on.
fn collect_rows(out: &mut Vec<String>, rows: &Vec<Vec<Inline>>, i: usize)
    requires
        i <= rows@.len(),
    ensures
        crate::parser::string_views(final(out)@) == crate::parser::string_views(old(out)@)
            + rows_link_urls(crate::data::rows_view(rows@), i as int),
    decreases rows@, rows@.len() - i + 1,
{
    proof {
        crate::data::lemma_rows_view(rows@);
    }
    if i == rows.len() {
        proof {
            assert(crate::parser::string_views(final(out)@) =~= crate::parser::string_views(
                old(out)@,
            ) + rows_link_urls(crate::data::rows_view(rows@), i as int));
        }
        return ;
    }
    collect_lines(out, &rows[i], 0);
    collect_rows(out, rows, i + 1);
    proof {
        assert(crate::parser::string_views(final(out)@) =~= crate::parser::string_views(old(out)@)
            + rows_link_urls(crate::data::rows_view(rows@), i as int));
    }
}

/// Appends the unresolved link URLs of reference notes from index `i` on.
fn collect_notes(out: &mut Vec<String>, notes: &Vec<(Inline, usize)>, i: usize)
    requires
        i <= notes@.len(),
    ensures
        crate::parser::string_views(final(out)@) == crate::parser::string_views(old(out)@)
            + notes_link_urls(crate::data::notes_view(notes@), i as int),
    decreases notes@, notes@.len() - i + 1,
{
    proof {
        crate::data::lemma_notes_view(notes@);
    }
    if i == notes.len() {
        proof {
            assert(crate::parser::string_views(final(out)@) =~= crate::parser::string_views(
                old(out)@,
            ) + notes_link_urls(crate::data::notes_view(notes@), i as int));
        }
        return ;
    }
    collect_spans(out, &notes[i].0.0, 0);
    collect_notes(out, notes, i + 1);
    proof {
        assert(crate::parser::string_views(final(out)@) =~= crate::parser::string_views(old(out)@)
            + notes_link_urls(crate::data::notes_view(notes@), i as int));
    }
}

/// Appends the unresolved link URLs of one block.
fn collect_block(out: &mut Vec<String>, b: &Block)
    ensures
        crate::parser::string_views(final(out)@) == crate::parser::string_views(old(out)@)
            + block_link_urls(crate::data::block_view(*b)),
{
    match b {
        Block::Header { header, level, id } => {
            collect_spans(out, &header.0, 0);
        },
        Block::Blockquote { lines } => {
            collect_lines(out, lines, 0);
        },
        Block::ListBlock(l) => {
            collect_list(out, l);
        },
        Block::Image { title, url } => {
            collect_spans(out, &title.0, 0);
        },
        Block::Table { head, body } => {
            collect_rows(out, head, 0);
            collect_rows(out, body, 0);
            proof {
                assert(crate::parser::string_views(final(out)@) =~= crate::parser::string_views(
                    old(out)@,
                ) + block_link_urls(crate::data::block_view(*b)));
            }
        },
        Block::Paragraph { text } => {
            collect_spans(out, &text.0, 0);
        },
        Block::Ref(notes) => {
            collect_notes(out, notes, 0);
        },
        _ => {
            proof {
                assert(crate::parser::string_views(final(out)@) =~= crate::parser::string_views(
                    old(out)@,
                ) + block_link_urls(crate::data::block_view(*b)));
            }
        },
    }
}

/// The URLs of the links written with empty text, in document order: the
/// URLs whose page titles the external resolver is asked for.
pub fn link_urls(content: &Vec<Block>) -> (r: Vec<String>)
    ensures
        crate::parser::string_views(r@) == blocks_link_urls(
            crate::data::blocks_view(content@),
            0,
        ),
{
    let mut out: Vec<String> = Vec::new();
    let n = content.len();
    let mut i: usize = 0;
    while i < n
        invariant
            n == content@.len(),
            0 <= i <= n,
            crate::parser::string_views(out@) + blocks_link_urls(
                crate::data::blocks_view(content@),
                i as int,
            ) == blocks_link_urls(crate::data::blocks_view(content@), 0),
        decreases n - i,
    {
        proof {
            crate::data::lemma_blocks_view(content@);
        }
        collect_block(&mut out, &content[i]);
        i += 1;
    }
    proof {
        crate::data::lemma_blocks_view(content@);
        assert(crate::parser::string_views(out@) =~= crate::parser::string_views(out@)
            + blocks_link_urls(crate::data::blocks_view(content@), n as int));
        assert(crate::parser::string_views(out@) =~= blocks_link_urls(
            crate::data::blocks_view(content@),
            0,
        ));
    }
    out
}

/// The URLs of the link cards, in document order: the URLs whose metadata
/// the external resolver is asked for.
pub fn card_urls(content: &Vec<Block>) -> (r: Vec<String>)
    ensures
        crate::parser::string_views(r@) == blocks_card_urls(
            crate::data::blocks_view(content@),
            0,
        ),
{
    let mut out: Vec<String> = Vec::new();
    let n = content.len();
    let mut i: usize = 0;
    while i < n
        invariant
            n == content@.len(),
            0 <= i <= n,
            crate::parser::string_views(out@) + blocks_card_urls(
                crate::data::blocks_view(content@),
                i as int,
            ) == blocks_card_urls(crate::data::blocks_view(content@), 0),
        decreases n - i,
    {
        proof {
            crate::data::lemma_blocks_view(content@);
        }
        match &content[i] {
            Block::LinkCard { title, image, url, description, site_name } => {
                let ghost out0 = out@;
                out.push(clone_string(url));
                proof {
                    assert(crate::parser::string_views(out@) =~= crate::parser::string_views(out0)
                        + seq![url@]);
                }
            },
            _ => {},
        }
        i += 1;
    }
    proof {
        crate::data::lemma_blocks_view(content@);
        assert(crate::parser::string_views(out@) =~= crate::parser::string_views(out@)
            + blocks_card_urls(crate::data::blocks_view(content@), n as int));
        assert(crate::parser::string_views(out@) =~= blocks_card_urls(
            crate::data::blocks_view(content@),
            0,
        ));
    }
    out
}

} // verus!

verus! {

/// One span with resolved titles substituted.
fn apply_span_exec(sp: &Span, tt: &Vec<(String, String)>) -> (r: Span)
    ensures
        crate::data::span_view(r) == apply_span(crate::data::span_view(*sp), titles_view(tt@)),
    decreases *sp, 0int,
{
    match sp {
        Span::Link { text, url } => {
            proof {
                crate::data::lemma_spans_view(text.0@);
            }
            if text.0.len() == 0 {
                match find_title(tt, url) {
                    Option::Some(t) => {
                        let ghost tg = t@;
                        let inner: Vec<Span> = vec![Span::Text { text: t }];
                        let ghost ig = inner@;
                        let r = Span::Link { text: Inline(inner), url: clone_string(url) };
                        proof {
                            assert(ig.len() == 1);
                            assert(crate::data::span_view(ig[0]) == (crate::data::SpanV::Text {
                                text: tg,
                            }));
                            crate::data::lemma_spans_view(ig);
                            assert(crate::data::spans_view(ig) =~= seq![
                                crate::data::SpanV::Text { text: tg },
                            ]);
                            assert(crate::data::spans_view(text.0@) =~= Seq::<SpanV>::empty());
                            assert(crate::data::span_view(r) == apply_span(
                                crate::data::span_view(*sp),
                                titles_view(tt@),
                            ));
                        }
                        r
                    },
                    Option::None => {
                        let r = Span::Link { text: Inline(Vec::new()), url: clone_string(url) };
                        proof {
                            assert(crate::data::spans_view(Seq::<Span>::empty())
                                =~= Seq::<SpanV>::empty());
                            assert(crate::data::spans_view(text.0@) =~= Seq::<SpanV>::empty());
                        }
                        r
                    },
                }
            } else {
                proof {
                    assert(decreases_to!(*sp => text));
                    assert(decreases_to!(text => text.0@));
                }
                let inner = apply_spans_exec(&text.0, tt);
                Span::Link { text: Inline(inner), url: clone_string(url) }
            }
        },
        Span::Bold { text } => {
            proof {
                assert(decreases_to!(*sp => text));
                assert(decreases_to!(text => text.0@));
            }
            let inner = apply_spans_exec(&text.0, tt);
            Span::Bold { text: Inline(inner) }
        },
        Span::Ital { text } => {
            proof {
                assert(decreases_to!(*sp => text));
                assert(decreases_to!(text => text.0@));
            }
            let inner = apply_spans_exec(&text.0, tt);
            Span::Ital { text: Inline(inner) }
        },
        other => crate::data::clone_span(other),
    }
}

/// The spans of `v` with resolved titles substituted.
fn apply_spans_exec(v: &Vec<Span>, tt: &Vec<(String, String)>) -> (r: Vec<Span>)
    ensures
        crate::data::spans_view(r@) == apply_spans(
            crate::data::spans_view(v@),
            titles_view(tt@),
            0,
        ),
    decreases v@, 1int,
{
    let mut out: Vec<Span> = Vec::new();
    let n = v.len();
    let mut j: usize = 0;
    while j < n
        invariant
            n == v@.len(),
            0 <= j <= n,
            out@.len() == j,
            forall|k: int|
                0 <= k < j ==> crate::data::span_view(out@[k]) == apply_span(
                    crate::data::spans_view(v@)[k],
                    titles_view(tt@),
                ),
        decreases n - j,
    {
        proof {
            crate::data::lemma_spans_view(v@);
            assert(decreases_to!(v@ => v@[j as int]));
        }
        let sp = apply_span_exec(&v[j], tt);
        out.push(sp);
        j += 1;
    }
    proof {
        crate::data::lemma_spans_view(v@);
        crate::data::lemma_spans_view(out@);
        lemma_apply_spans(crate::data::spans_view(v@), titles_view(tt@), 0);
        assert(crate::data::spans_view(out@) =~= apply_spans(
            crate::data::spans_view(v@),
            titles_view(tt@),
            0,
        ));
    }
    out
}

/// A list with resolved titles substituted.
fn apply_list_exec(l: &List, tt: &Vec<(String, String)>) -> (r: List)
    ensures
        crate::data::list_view(r) == apply_list(crate::data::list_view(*l), titles_view(tt@)),
    decreases *l, 1int,
{
    let mut out: Vec<ListItem> = Vec::new();
    let n = l.items.len();
    let mut j: usize = 0;
    while j < n
        invariant
            n == l.items@.len(),
            0 <= j <= n,
            out@.len() == j,
            forall|k: int|
                0 <= k < j ==> crate::data::item_view(out@[k]) == (ItemV {
                    item: apply_spans(
                        crate::data::items_view(l.items@)[k].item,
                        titles_view(tt@),
                        0,
                    ),
                    list: apply_list(
                        crate::data::items_view(l.items@)[k].list,
                        titles_view(tt@),
                    ),
                }),
        decreases n - j,
    {
        proof {
            crate::data::lemma_items_view(l.items@);
            assert(decreases_to!(*l => l.items));
            assert(decreases_to!(l.items => l.items@));
            assert(decreases_to!(l.items@ => l.items@[j as int]));
            assert(decreases_to!(l.items@[j as int] => l.items@[j as int].list));
        }
        let item = Inline(apply_spans_exec(&l.items[j].item.0, tt));
        let sub = apply_list_exec(&l.items[j].list, tt);
        out.push(ListItem { item, list: sub });
        j += 1;
    }
    proof {
        crate::data::lemma_items_view(l.items@);
        crate::data::lemma_items_view(out@);
        lemma_apply_items(crate::data::items_view(l.items@), titles_view(tt@), 0);
        assert(crate::data::items_view(out@) =~= apply_items(
            crate::data::items_view(l.items@),
            titles_view(tt@),
            0,
        ));
    }
    List { ordered: l.ordered, items: out }
}

/// Inline lines with resolved titles substituted.
fn apply_lines_exec(lines: &Vec<Inline>, tt: &Vec<(String, String)>) -> (r: Vec<Inline>)
    ensures
        crate::data::inlines_view(r@) == apply_lines(
            crate::data::inlines_view(lines@),
            titles_view(tt@),
            0,
        ),
{
    let mut out: Vec<Inline> = Vec::new();
    let n = lines.len();
    let mut j: usize = 0;
    while j < n
        invariant
            n == lines@.len(),
            0 <= j <= n,
            out@.len() == j,
            forall|k: int|
                0 <= k < j ==> crate::data::inline_view(out@[k]) == apply_spans(
                    crate::data::inlines_view(lines@)[k],
                    titles_view(tt@),
                    0,
                ),
        decreases n - j,
    {
        proof {
            crate::data::lemma_inlines_view(lines@);
        }
        let line = Inline(apply_spans_exec(&lines[j].0, tt));
        out.push(line);
        j += 1;
    }
    proof {
        crate::data::lemma_inlines_view(lines@);
        crate::data::lemma_inlines_view(out@);
        lemma_apply_lines(crate::data::inlines_view(lines@), titles_view(tt@), 0);
        assert(crate::data::inlines_view(out@) =~= apply_lines(
            crate::data::inlines_view(lines@),
            titles_view(tt@),
            0,
        ));
    }
    out
}

/// Table rows with resolved titles substituted.
fn apply_rows_exec(rows: &Vec<Vec<Inline>>, tt: &Vec<(String, String)>) -> (r: Vec<Vec<Inline>>)
    ensures
        crate::data::rows_view(r@) == apply_rows(
            crate::data::rows_view(rows@),
            titles_view(tt@),
            0,
        ),
{
    let mut out: Vec<Vec<Inline>> = Vec::new();
    let n = rows.len();
    let mut j: usize = 0;
    while j < n
        invariant
            n == rows@.len(),
            0 <= j <= n,
            out@.len() == j,
            forall|k: int|
                0 <= k < j ==> crate::data::row_view(out@[k]) == apply_lines(
                    crate::data::rows_view(rows@)[k],
                    titles_view(tt@),
                    0,
                ),
        decreases n - j,
    {
        proof {
            crate::data::lemma_rows_view(rows@);
        }
        let row = apply_lines_exec(&rows[j], tt);
        out.push(row);
        j += 1;
    }
    proof {
        crate::data::lemma_rows_view(rows@);
        crate::data::lemma_rows_view(out@);
        lemma_apply_rows(crate::data::rows_view(rows@), titles_view(tt@), 0);
        assert(crate::data::rows_view(out@) =~= apply_rows(
            crate::data::rows_view(rows@),
            titles_view(tt@),
            0,
        ));
    }
    out
}

/// Reference notes with resolved titles substituted.
fn apply_notes_exec(notes: &Vec<(Inline, usize)>, tt: &Vec<(String, String)>) -> (r: Vec<
    (Inline, usize),
>)
    ensures
        crate::data::notes_view(r@) == apply_notes(
            crate::data::notes_view(notes@),
            titles_view(tt@),
            0,
        ),
{
    let mut out: Vec<(Inline, usize)> = Vec::new();
    let n = notes.len();
    let mut j: usize = 0;
    while j < n
        invariant
            n == notes@.len(),
            0 <= j <= n,
            out@.len() == j,
            forall|k: int|
                0 <= k < j ==> crate::data::note_view(out@[k]) == (
                apply_spans(crate::data::notes_view(notes@)[k].0, titles_view(tt@), 0),
                crate::data::notes_view(notes@)[k].1,
                ),
        decreases n - j,
    {
        proof {
            crate::data::lemma_notes_view(notes@);
        }
        let body = Inline(apply_spans_exec(&notes[j].0.0, tt));
        out.push((body, notes[j].1));
        j += 1;
    }
    proof {
        crate::data::lemma_notes_view(notes@);
        crate::data::lemma_notes_view(out@);
        lemma_apply_notes(crate::data::notes_view(notes@), titles_view(tt@), 0);
        assert(crate::data::notes_view(out@) =~= apply_notes(
            crate::data::notes_view(notes@),
            titles_view(tt@),
            0,
        ));
    }
    out
}

/// One block with resolved metadata substituted.
fn apply_block_exec(
    b: &Block,
    tt: &Vec<(String, String)>,
    ct: &Vec<(String, Metadata)>,
) -> (r: Block)
    ensures
        crate::data::block_view(r) == apply_block(
            crate::data::block_view(*b),
            titles_view(tt@),
            cards_view(ct@),
        ),
{
    match b {
        Block::Header { header, level, id } => Block::Header {
            header: Inline(apply_spans_exec(&header.0, tt)),
            level: *level,
            id: clone_string(id),
        },
        Block::Blockquote { lines } => Block::Blockquote { lines: apply_lines_exec(lines, tt) },
        Block::ListBlock(l) => Block::ListBlock(apply_list_exec(l, tt)),
        Block::Image { title, url } => Block::Image {
            title: Inline(apply_spans_exec(&title.0, tt)),
            url: clone_string(url),
        },
        Block::LinkCard { title, image, url, description, site_name } => {
            match find_card(ct, url) {
                Option::Some(m) => Block::LinkCard {
                    title: m.title,
                    image: m.image,
                    url: clone_string(url),
                    description: m.description,
                    site_name: m.site_name,
                },
                Option::None => Block::LinkCard {
                    title: clone_string(title),
                    image: clone_opt_string(image),
                    url: clone_string(url),
                    description: clone_opt_string(description),
                    site_name: clone_opt_string(site_name),
                },
            }
        },
        Block::Table { head, body } => Block::Table {
            head: apply_rows_exec(head, tt),
            body: apply_rows_exec(body, tt),
        },
        Block::MathBlock { math } => Block::MathBlock { math: clone_string(math) },
        Block::CodeBlock { lang, code } => Block::CodeBlock {
            lang: clone_string(lang),
            code: clone_string(code),
        },
        Block::Paragraph { text } => Block::Paragraph {
            text: Inline(apply_spans_exec(&text.0, tt)),
        },
        Block::Ref(notes) => Block::Ref(apply_notes_exec(notes, tt)),
    }
}

/// The model with resolved metadata substituted: each link written with
/// empty text takes the title resolved for its URL as its text, each link
/// card takes the metadata resolved for its URL, and a URL with no answer
/// keeps the degraded empty or absent fields the parser left.
pub fn apply_metadata(
    content: &Vec<Block>,
    titles: &Vec<(String, String)>,
    cards: &Vec<(String, Metadata)>,
) -> (r: Vec<Block>)
    ensures
        crate::data::blocks_view(r@) == apply_blocks(
            crate::data::blocks_view(content@),
            titles_view(titles@),
            cards_view(cards@),
            0,
        ),
{
    let mut out: Vec<Block> = Vec::new();
    let n = content.len();
    let mut i: usize = 0;
    while i < n
        invariant
            n == content@.len(),
            0 <= i <= n,
            out@.len() == i,
            forall|k: int|
                0 <= k < i ==> crate::data::block_view(out@[k]) == apply_block(
                    crate::data::blocks_view(content@)[k],
                    titles_view(titles@),
                    cards_view(cards@),
                ),
        decreases n - i,
    {
        proof {
            crate::data::lemma_blocks_view(content@);
        }
        let nb = apply_block_exec(&content[i], titles, cards);
        out.push(nb);
        i += 1;
    }
    proof {
        crate::data::lemma_blocks_view(content@);
        crate::data::lemma_blocks_view(out@);
        lemma_apply_blocks(
            crate::data::blocks_view(content@),
            titles_view(titles@),
            cards_view(cards@),
            0,
        );
        assert(crate::data::blocks_view(out@) =~= apply_blocks(
            crate::data::blocks_view(content@),
            titles_view(titles@),
            cards_view(cards@),
            0,
        ));
    }
    out
}

} // verus!
