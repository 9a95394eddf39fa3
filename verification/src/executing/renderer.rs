use vstd::prelude::*;
use vstd::slice::slice_subrange;
use vstd::string::StringSliceAdditionalSpecFns;

use crate::compiling::{event_within, events_within, Event};
use crate::types::BlockId;
use crate::utils::render::{
    attribute_views, closing_tag, decimal, escaped_attribute, escaped_text, opening_tag,
    render_closing_tag, render_eopening_tag, render_empty_element,
    render_escaped_double_quoted_attribute_value,
    render_escaped_html_text, write_usize,
};

verus! {

/// Options of a new renderer.
pub struct NewRendererOptions<'a> {
    pub tag_name_map: &'a TagNameMap<'a>,
    /// Whether the elements of blocks carry their block ids.
    pub should_include_block_ids: bool,
}

/// The names of the tags written for what plain HTML has no element for.
/// Callers make sure that no name lets markup in.
#[derive(Clone, Copy)]
pub struct TagNameMap<'a> {
    pub block_call_error: &'a [u8],
    pub code_block: &'a [u8],
    pub ref_link: &'a [u8],
    pub dicexp: &'a [u8],
    pub wiki_link: &'a [u8],
}

/// Renders events of a whole document as HTML.
pub struct Renderer<'a> {
    pub tag_name_map: &'a TagNameMap<'a>,
    pub with_block_id: bool,
}

/// An element that is open while rendering.
pub struct StackEntryBox<'a>(pub StackEntry<'a>);

/// An element that is open while rendering: one closed by its tag, a table in
/// some state, or a wiki link.
pub enum StackEntry<'a> {
    Normal(&'a [u8]),
    Table(TableState),
    WikiLink,
}

/// Where the rendering of a table stands.
#[derive(Clone, Copy, PartialEq, Eq, Structural)]
pub enum TableState {
    AtBeginning,
    InCaption,
    InRow,
    InHeaderCell,
    InDataCell,
}

/// What an open element stands for.
pub enum SpecEntry {
    Normal(Seq<u8>),
    Table(TableState),
    WikiLink,
}

pub open spec fn view_entry(e: StackEntryBox) -> SpecEntry {
    match e.0 {
        StackEntry::Normal(tag) => SpecEntry::Normal(tag@),
        StackEntry::Table(s) => SpecEntry::Table(s),
        StackEntry::WikiLink => SpecEntry::WikiLink,
    }
}

/// What the open elements stand for, outermost first.
pub open spec fn view_stack(s: Seq<StackEntryBox>) -> Seq<SpecEntry> {
    s.map_values(|e: StackEntryBox| view_entry(e))
}

/// What a table row begins with, from a state of the table.
pub open spec fn row_opening(s: TableState) -> Seq<u8> {
    match s {
        TableState::AtBeginning => "<tr>".spec_bytes(),
        TableState::InCaption => "</caption><tr>".spec_bytes(),
        TableState::InRow => "</tr><tr>".spec_bytes(),
        TableState::InHeaderCell => "</th></tr><tr>".spec_bytes(),
        TableState::InDataCell => "</td></tr><tr>".spec_bytes(),
    }
}

/// What a header cell begins with, from a state of the table.
pub open spec fn header_cell_opening(s: TableState) -> Seq<u8> {
    match s {
        TableState::AtBeginning => "<tr><th>".spec_bytes(),
        TableState::InCaption => "</caption><tr><th>".spec_bytes(),
        TableState::InRow => "<th>".spec_bytes(),
        TableState::InHeaderCell => "</th><th>".spec_bytes(),
        TableState::InDataCell => "</td><th>".spec_bytes(),
    }
}

/// What a data cell begins with, from a state of the table.
pub open spec fn data_cell_opening(s: TableState) -> Seq<u8> {
    match s {
        TableState::AtBeginning => "<tr><td>".spec_bytes(),
        TableState::InCaption => "</caption><tr><td>".spec_bytes(),
        TableState::InRow => "<td>".spec_bytes(),
        TableState::InHeaderCell => "</th><td>".spec_bytes(),
        TableState::InDataCell => "</td><td>".spec_bytes(),
    }
}

/// What a table ends with, from a state of it.
pub open spec fn table_closing(s: TableState) -> Seq<u8> {
    match s {
        TableState::AtBeginning => "</table>".spec_bytes(),
        TableState::InCaption => "</caption></table>".spec_bytes(),
        TableState::InRow => "</tr></table>".spec_bytes(),
        TableState::InHeaderCell => "</th></tr></table>".spec_bytes(),
        TableState::InDataCell => "</td></tr></table>".spec_bytes(),
    }
}

/// What an event does to the table on top of the open elements.
pub enum TableOutcome {
    /// The event is done with: this is written, and the open elements are
    /// these.
    Handled(Seq<u8>, Seq<SpecEntry>),
    /// The event is still to be rendered, from these open elements, after
    /// this is written.
    Passed(Seq<u8>, Seq<SpecEntry>),
    /// The event cannot stand there.
    Invalid,
}

/// What an event does where the top of the open elements `stack` may be a
/// table: the indicators and the exit are the table's; anything else, which
/// is content, first opens a cell if none is open.
pub open spec fn spec_table_related(ev: Event, stack: Seq<SpecEntry>) -> TableOutcome {
    if stack.len() > 0 && stack.last() is Table {
        let top = stack.len() - 1;
        let s = match stack.last() {
            SpecEntry::Table(s) => s,
            _ => TableState::AtBeginning,
        };
        match ev {
            Event::IndicateTableRow => TableOutcome::Handled(
                row_opening(s),
                stack.update(top, SpecEntry::Table(TableState::InRow)),
            ),
            Event::IndicateTableCaption => if s == TableState::AtBeginning {
                TableOutcome::Handled(
                    "<caption>".spec_bytes(),
                    stack.update(top, SpecEntry::Table(TableState::InCaption)),
                )
            } else {
                TableOutcome::Invalid
            },
            Event::IndicateTableHeaderCell => TableOutcome::Handled(
                header_cell_opening(s),
                stack.update(top, SpecEntry::Table(TableState::InHeaderCell)),
            ),
            Event::IndicateTableDataCell => TableOutcome::Handled(
                data_cell_opening(s),
                stack.update(top, SpecEntry::Table(TableState::InDataCell)),
            ),
            Event::ExitBlock(_) => TableOutcome::Handled(table_closing(s), stack.drop_last()),
            _ => match s {
                TableState::AtBeginning => TableOutcome::Passed(
                    "<tr><td>".spec_bytes(),
                    stack.update(top, SpecEntry::Table(TableState::InDataCell)),
                ),
                TableState::InRow => TableOutcome::Passed(
                    "<td>".spec_bytes(),
                    stack.update(top, SpecEntry::Table(TableState::InDataCell)),
                ),
                _ => TableOutcome::Passed(Seq::empty(), stack),
            },
        }
    } else {
        TableOutcome::Passed(Seq::empty(), stack)
    }
}

/// The bytes of the input in a range.
pub open spec fn slice_of(input: Seq<u8>, start: usize, end: usize) -> Seq<u8> {
    input.subrange(start as int, end as int)
}

/// The info string of a code block, from the event at `k` on, appended to
/// `acc`, and where it ends: the text up to the indicator of the code.
pub open spec fn spec_code_info(input: Seq<u8>, evs: Seq<Event>, k: int, acc: Seq<u8>) -> Option<
    (int, Seq<u8>),
>
    decreases evs.len() - k,
{
    if k < 0 || k >= evs.len() {
        None
    } else {
        match evs[k] {
            Event::Text(r) => spec_code_info(
                input,
                evs,
                k + 1,
                acc + escaped_attribute(slice_of(input, r.start, r.end)),
            ),
            Event::VerbatimEscaping(v) => spec_code_info(
                input,
                evs,
                k + 1,
                acc + escaped_attribute(slice_of(input, v.content.start, v.content.end)),
            ),
            Event::IndicateCodeBlockCode => Some((k, acc)),
            _ => None,
        }
    }
}

/// The code of a code block, from the event at `k` on, appended to `acc`,
/// and where it ends: the text, with line breaks as `&#10;`, up to the exit.
pub open spec fn spec_code_content(input: Seq<u8>, evs: Seq<Event>, k: int, acc: Seq<u8>) -> Option<
    (int, Seq<u8>),
>
    decreases evs.len() - k,
{
    if k < 0 || k >= evs.len() {
        None
    } else {
        match evs[k] {
            Event::Text(r) => spec_code_content(
                input,
                evs,
                k + 1,
                acc + escaped_attribute(slice_of(input, r.start, r.end)),
            ),
            Event::VerbatimEscaping(v) => spec_code_content(
                input,
                evs,
                k + 1,
                acc + escaped_attribute(slice_of(input, v.content.start, v.content.end)),
            ),
            Event::NewLine(_) => spec_code_content(input, evs, k + 1, acc + "&#10;".spec_bytes()),
            Event::ExitBlock(_) => Some((k, acc)),
            _ => None,
        }
    }
}

/// What one event of a code block stands for in an attribute: its text, or
/// the content of a verbatim escaping, escaped; a line break as `&#10;`.
pub open spec fn code_piece(input: Seq<u8>, ev: Event) -> Seq<u8> {
    match ev {
        Event::Text(r) => escaped_attribute(slice_of(input, r.start, r.end)),
        Event::VerbatimEscaping(v) => escaped_attribute(slice_of(input, v.content.start, v.content.end)),
        Event::NewLine(_) => "&#10;".spec_bytes(),
        _ => Seq::empty(),
    }
}

/// What the events from `k` up to `m` stand for, one after another.
pub open spec fn code_pieces(input: Seq<u8>, evs: Seq<Event>, k: int, m: int) -> Seq<u8>
    decreases m - k,
{
    if k >= m {
        Seq::empty()
    } else {
        code_piece(input, evs[k]) + code_pieces(input, evs, k + 1, m)
    }
}

/// The info string of a code block is, in order, the escaped text of each
/// text and verbatim escaping event before the indicator of the code, which
/// is the first event of another kind: every byte of each of them is in it,
/// and nothing else.
pub proof fn lemma_code_info_pieces(input: Seq<u8>, evs: Seq<Event>, k: int, acc: Seq<u8>)
    requires
        0 <= k,
        spec_code_info(input, evs, k, acc) is Some,
    ensures
        spec_code_info(input, evs, k, acc) matches Some((m, info)) && {
            &&& k <= m < evs.len()
            &&& evs[m] is IndicateCodeBlockCode
            &&& forall|j: int| k <= j < m ==> (#[trigger] evs[j] is Text || evs[j] is VerbatimEscaping)
            &&& info == acc + code_pieces(input, evs, k, m)
        },
    decreases evs.len() - k,
{
    match evs[k] {
        Event::IndicateCodeBlockCode => {
            assert(acc + code_pieces(input, evs, k, k) =~= acc);
        },
        _ => {
            let acc2 = acc + code_piece(input, evs[k]);
            lemma_code_info_pieces(input, evs, k + 1, acc2);
            let m = match spec_code_info(input, evs, k, acc) {
                Some((m, _)) => m,
                None => 0,
            };
            assert(acc2 + code_pieces(input, evs, k + 1, m) =~= acc + code_pieces(input, evs, k, m));
        },
    }
}

/// The code of a code block is, in order, what each event before its exit
/// stands for: the escaped text of each text and verbatim escaping event
/// (every byte of it), `&#10;` for each line break, and nothing else; the
/// code ends at the first event of another kind, which is the exit.
pub proof fn lemma_code_content_pieces(input: Seq<u8>, evs: Seq<Event>, k: int, acc: Seq<u8>)
    requires
        0 <= k,
        spec_code_content(input, evs, k, acc) is Some,
    ensures
        spec_code_content(input, evs, k, acc) matches Some((m, code)) && {
            &&& k <= m < evs.len()
            &&& evs[m] is ExitBlock
            &&& forall|j: int|
                k <= j < m ==> (#[trigger] evs[j] is Text || evs[j] is VerbatimEscaping
                    || evs[j] is NewLine)
            &&& code == acc + code_pieces(input, evs, k, m)
        },
    decreases evs.len() - k,
{
    match evs[k] {
        Event::ExitBlock(_) => {
            assert(acc + code_pieces(input, evs, k, k) =~= acc);
        },
        _ => {
            let acc2 = acc + code_piece(input, evs[k]);
            lemma_code_content_pieces(input, evs, k + 1, acc2);
            let m = match spec_code_content(input, evs, k, acc) {
                Some((m, _)) => m,
                None => 0,
            };
            assert(acc2 + code_pieces(input, evs, k + 1, m) =~= acc + code_pieces(input, evs, k, m));
        },
    }
}

/// The tag of the element that the event enters, where it is a plain one,
/// with the id of the block, where it is a block.
pub open spec fn simple_element(ev: Event) -> Option<(Seq<u8>, Option<BlockId>)> {
    match ev {
        Event::EnterParagraph(d) => Some(("p".spec_bytes(), Some(d.id))),
        Event::EnterHeading1(d) => Some(("h1".spec_bytes(), Some(d.id))),
        Event::EnterHeading2(d) => Some(("h2".spec_bytes(), Some(d.id))),
        Event::EnterHeading3(d) => Some(("h3".spec_bytes(), Some(d.id))),
        Event::EnterHeading4(d) => Some(("h4".spec_bytes(), Some(d.id))),
        Event::EnterHeading5(d) => Some(("h5".spec_bytes(), Some(d.id))),
        Event::EnterHeading6(d) => Some(("h6".spec_bytes(), Some(d.id))),
        Event::EnterBlockQuote(d) => Some(("blockquote".spec_bytes(), Some(d.id))),
        Event::EnterOrderedList(d) => Some(("ol".spec_bytes(), Some(d.id))),
        Event::EnterUnorderedList(d) => Some(("ul".spec_bytes(), Some(d.id))),
        Event::EnterListItem(d) => Some(("li".spec_bytes(), Some(d.id))),
        Event::EnterDescriptionList(d) => Some(("dl".spec_bytes(), Some(d.id))),
        Event::EnterDescriptionTerm(d) => Some(("dt".spec_bytes(), Some(d.id))),
        Event::EnterDescriptionDetails(d) => Some(("dd".spec_bytes(), Some(d.id))),
        Event::EnterCodeSpan => Some(("code".spec_bytes(), None)),
        Event::EnterEmphasis => Some(("em".spec_bytes(), None)),
        Event::EnterStrong => Some(("strong".spec_bytes(), None)),
        Event::EnterStrikethrough => Some(("s".spec_bytes(), None)),
        Event::EnterRuby => Some(("ruby".spec_bytes(), None)),
        Event::EnterRubyText => Some(("rt".spec_bytes(), None)),
        _ => None,
    }
}

/// The tag of the element that the event enters, where it is a plain one,
/// with the id of the block, where it is a block.
fn simple_element_tag(ev: &Event) -> (r: Option<(&'static [u8], Option<BlockId>)>)
    ensures
        match simple_element(*ev) {
            Some((tag, id)) => r matches Some((t, i)) && t@ == tag && i == id,
            None => r is None,
        },
{
    match ev {
        Event::EnterParagraph(d) => Some(("p".as_bytes(), Some(d.id))),
        Event::EnterHeading1(d) => Some(("h1".as_bytes(), Some(d.id))),
        Event::EnterHeading2(d) => Some(("h2".as_bytes(), Some(d.id))),
        Event::EnterHeading3(d) => Some(("h3".as_bytes(), Some(d.id))),
        Event::EnterHeading4(d) => Some(("h4".as_bytes(), Some(d.id))),
        Event::EnterHeading5(d) => Some(("h5".as_bytes(), Some(d.id))),
        Event::EnterHeading6(d) => Some(("h6".as_bytes(), Some(d.id))),
        Event::EnterBlockQuote(d) => Some(("blockquote".as_bytes(), Some(d.id))),
        Event::EnterOrderedList(d) => Some(("ol".as_bytes(), Some(d.id))),
        Event::EnterUnorderedList(d) => Some(("ul".as_bytes(), Some(d.id))),
        Event::EnterListItem(d) => Some(("li".as_bytes(), Some(d.id))),
        Event::EnterDescriptionList(d) => Some(("dl".as_bytes(), Some(d.id))),
        Event::EnterDescriptionTerm(d) => Some(("dt".as_bytes(), Some(d.id))),
        Event::EnterDescriptionDetails(d) => Some(("dd".as_bytes(), Some(d.id))),
        Event::EnterCodeSpan => Some(("code".as_bytes(), None)),
        Event::EnterEmphasis => Some(("em".as_bytes(), None)),
        Event::EnterStrong => Some(("strong".as_bytes(), None)),
        Event::EnterStrikethrough => Some(("s".as_bytes(), None)),
        Event::EnterRuby => Some(("ruby".as_bytes(), None)),
        Event::EnterRubyText => Some(("rt".as_bytes(), None)),
        _ => None,
    }
}

impl<'a> Renderer<'a> {
    /// The attribute that carries a block id, where block ids are included.
    pub open spec fn block_id_attribute(&self, id: BlockId) -> Seq<u8> {
        if self.with_block_id {
            " data-block-id=\"".spec_bytes() + decimal(id.value as nat) + "\"".spec_bytes()
        } else {
            Seq::empty()
        }
    }

    /// A block element of `tag` opened at `i`.
    pub open spec fn simple_block(&self, i: int, tag: Seq<u8>, id: BlockId, stack: Seq<SpecEntry>) -> Option<
        (int, Seq<u8>, Seq<SpecEntry>),
    > {
        Some(
            (
                i + 1,
                "<".spec_bytes() + tag + self.block_id_attribute(id) + ">".spec_bytes(),
                stack.push(SpecEntry::Normal(tag)),
            ),
        )
    }

    /// An inline element of `tag` opened at `i`.
    pub open spec fn simple_inline(&self, i: int, tag: Seq<u8>, stack: Seq<SpecEntry>) -> Option<
        (int, Seq<u8>, Seq<SpecEntry>),
    > {
        Some((i + 1, "<".spec_bytes() + tag + ">".spec_bytes(), stack.push(SpecEntry::Normal(tag))))
    }

    /// Rendering the event at `i` with the open elements `stack`, once the
    /// table on top, if any, has let it through: the index of the next event
    /// to render, what is written, and the open elements after it; `None`
    /// where the event cannot stand there.
    #[verifier::opaque]
    pub open spec fn spec_render_plain(
        &self,
        input: Seq<u8>,
        evs: Seq<Event>,
        i: int,
        stack: Seq<SpecEntry>,
    ) -> Option<(int, Seq<u8>, Seq<SpecEntry>)> {
        let map = self.tag_name_map;
        match evs[i] {
            Event::Raw(r) => Some((i + 1, slice_of(input, r.start, r.end), stack)),
            Event::NewLine(_) => Some((i + 1, "<br>".spec_bytes(), stack)),
            Event::Text(r) => Some((i + 1, escaped_text(slice_of(input, r.start, r.end)), stack)),
            Event::VerbatimEscaping(v) => Some(
                (i + 1, escaped_text(slice_of(input, v.content.start, v.content.end)), stack),
            ),
            Event::ExitBlock(_) | Event::ExitInline => if stack.len() == 0 {
                None
            } else {
                match stack.last() {
                    SpecEntry::Normal(tag) => Some((i + 1, closing_tag(tag), stack.drop_last())),
                    SpecEntry::WikiLink => Some((i + 1, closing_tag(map.wiki_link@), stack.drop_last())),
                    SpecEntry::Table(_) => None,
                }
            },
            Event::ThematicBreak(t) => Some(
                (i + 1, "<hr".spec_bytes() + self.block_id_attribute(t.id) + ">".spec_bytes(), stack),
            ),
            Event::EnterCodeBlock(d) => match spec_code_info(input, evs, i + 1, Seq::empty()) {
                Some((k, info)) => match spec_code_content(input, evs, k + 1, Seq::empty()) {
                    Some((m, code)) => Some(
                        (
                            m + 1,
                            "<".spec_bytes() + map.code_block@ + " info-string=\"".spec_bytes()
                                + info + "\" content=\"".spec_bytes() + code + "\"".spec_bytes()
                                + self.block_id_attribute(d.id) + ">".spec_bytes() + closing_tag(
                                map.code_block@,
                            ),
                            stack,
                        ),
                    ),
                    None => None,
                },
                None => None,
            },
            Event::EnterTable(d) => Some(
                (
                    i + 1,
                    "<table".spec_bytes() + self.block_id_attribute(d.id) + ">".spec_bytes(),
                    stack.push(SpecEntry::Table(TableState::AtBeginning)),
                ),
            ),
            Event::RefLink(r) => Some(
                (
                    i + 1,
                    opening_tag(
                        map.ref_link@,
                        seq![("address".spec_bytes(), slice_of(input, r.start, r.end))],
                    ) + closing_tag(map.ref_link@),
                    stack,
                ),
            ),
            Event::Dicexp(r) => Some(
                (
                    i + 1,
                    opening_tag(map.dicexp@, seq![("code".spec_bytes(), slice_of(input, r.start, r.end))])
                        + closing_tag(map.dicexp@),
                    stack,
                ),
            ),
            Event::EnterWikiLink(r) => Some(
                (
                    i + 1,
                    opening_tag(
                        map.wiki_link@,
                        seq![("address".spec_bytes(), slice_of(input, r.start, r.end))],
                    ),
                    stack.push(SpecEntry::WikiLink),
                ),
            ),
            _ => match simple_element(evs[i]) {
                Some((tag, Some(id))) => self.simple_block(i, tag, id, stack),
                Some((tag, None)) => self.simple_inline(i, tag, stack),
                None => None,
            },
        }
    }

    /// Rendering the event at `i` with the open elements `stack`: the index
    /// of the next event to render, what is written, and the open elements
    /// after it; `None` where the event cannot stand there.
    pub open spec fn spec_render_event(
        &self,
        input: Seq<u8>,
        evs: Seq<Event>,
        i: int,
        stack: Seq<SpecEntry>,
    ) -> Option<(int, Seq<u8>, Seq<SpecEntry>)> {
        match spec_table_related(evs[i], stack) {
            TableOutcome::Handled(out, after) => Some((i + 1, out, after)),
            TableOutcome::Passed(before, after) => match self.spec_render_plain(input, evs, i, after) {
                Some((j, out, last)) => Some((j, before + out, last)),
                None => None,
            },
            TableOutcome::Invalid => None,
        }
    }

    /// Rendering the events from `i` on with the open elements `stack`: what
    /// is written, and the open elements after them; `None` where an event
    /// cannot stand where it stands.
    pub open spec fn spec_render_events(
        &self,
        input: Seq<u8>,
        evs: Seq<Event>,
        i: int,
        stack: Seq<SpecEntry>,
    ) -> Option<(Seq<u8>, Seq<SpecEntry>)>
        decreases evs.len() - i,
    {
        if i < 0 || i >= evs.len() {
            Some((Seq::empty(), stack))
        } else {
            match self.spec_render_event(input, evs, i, stack) {
                Some((j, out, after)) => if i < j <= evs.len() {
                    match self.spec_render_events(input, evs, j, after) {
                        Some((rest, last)) => Some((out + rest, last)),
                        None => None,
                    }
                } else {
                    None
                },
                None => None,
            }
        }
    }
}

proof fn lemma_view_stack_push(s: Seq<StackEntryBox>, e: StackEntryBox)
    ensures
        view_stack(s.push(e)) == view_stack(s).push(view_entry(e)),
{
    assert(view_stack(s.push(e)) =~= view_stack(s).push(view_entry(e)));
}

proof fn lemma_view_stack_drop_last(s: Seq<StackEntryBox>)
    requires
        s.len() > 0,
    ensures
        view_stack(s.drop_last()) == view_stack(s).drop_last(),
        view_stack(s).last() == view_entry(s.last()),
        view_stack(s).len() == s.len(),
{
    assert(view_stack(s.drop_last()) =~= view_stack(s).drop_last());
}

proof fn lemma_view_stack_update(s: Seq<StackEntryBox>, i: int, e: StackEntryBox)
    requires
        0 <= i < s.len(),
    ensures
        view_stack(s.update(i, e)) == view_stack(s).update(i, view_entry(e)),
{
    assert(view_stack(s.update(i, e)) =~= view_stack(s).update(i, view_entry(e)));
}

/// A step of rendering whose next index is moved on by `n`.
pub open spec fn shifted(step: Option<(int, Seq<u8>, Seq<SpecEntry>)>, n: int) -> Option<
    (int, Seq<u8>, Seq<SpecEntry>),
> {
    match step {
        Some((k, out, after)) => Some((k + n, out, after)),
        None => None,
    }
}

/// A scan that ends at an index moved on by `n`.
pub open spec fn shifted_scan(scan: Option<(int, Seq<u8>)>, n: int) -> Option<(int, Seq<u8>)> {
    match scan {
        Some((k, out)) => Some((k + n, out)),
        None => None,
    }
}

proof fn lemma_code_info_bounds(input: Seq<u8>, evs: Seq<Event>, k: int, acc: Seq<u8>)
    ensures
        spec_code_info(input, evs, k, acc) matches Some((j, _)) ==> k <= j < evs.len(),
    decreases evs.len() - k,
{
    if 0 <= k < evs.len() {
        match evs[k] {
            Event::Text(r) => lemma_code_info_bounds(
                input,
                evs,
                k + 1,
                acc + escaped_attribute(slice_of(input, r.start, r.end)),
            ),
            Event::VerbatimEscaping(v) => lemma_code_info_bounds(
                input,
                evs,
                k + 1,
                acc + escaped_attribute(slice_of(input, v.content.start, v.content.end)),
            ),
            _ => {},
        }
    }
}

proof fn lemma_code_info_prefix(input: Seq<u8>, a: Seq<Event>, b: Seq<Event>, k: int, acc: Seq<u8>)
    requires
        0 <= k,
        spec_code_info(input, a, k, acc) is Some,
    ensures
        spec_code_info(input, a + b, k, acc) == spec_code_info(input, a, k, acc),
    decreases a.len() - k,
{
    assert((a + b)[k] == a[k]);
    match a[k] {
        Event::Text(r) => lemma_code_info_prefix(
            input,
            a,
            b,
            k + 1,
            acc + escaped_attribute(slice_of(input, r.start, r.end)),
        ),
        Event::VerbatimEscaping(v) => lemma_code_info_prefix(
            input,
            a,
            b,
            k + 1,
            acc + escaped_attribute(slice_of(input, v.content.start, v.content.end)),
        ),
        _ => {},
    }
}

proof fn lemma_code_content_prefix(input: Seq<u8>, a: Seq<Event>, b: Seq<Event>, k: int, acc: Seq<u8>)
    requires
        0 <= k,
        spec_code_content(input, a, k, acc) is Some,
    ensures
        spec_code_content(input, a + b, k, acc) == spec_code_content(input, a, k, acc),
    decreases a.len() - k,
{
    assert((a + b)[k] == a[k]);
    match a[k] {
        Event::Text(r) => lemma_code_content_prefix(
            input,
            a,
            b,
            k + 1,
            acc + escaped_attribute(slice_of(input, r.start, r.end)),
        ),
        Event::VerbatimEscaping(v) => lemma_code_content_prefix(
            input,
            a,
            b,
            k + 1,
            acc + escaped_attribute(slice_of(input, v.content.start, v.content.end)),
        ),
        Event::NewLine(_) => lemma_code_content_prefix(input, a, b, k + 1, acc + "&#10;".spec_bytes()),
        _ => {},
    }
}

proof fn lemma_code_info_shift(input: Seq<u8>, a: Seq<Event>, b: Seq<Event>, k: int, acc: Seq<u8>)
    requires
        0 <= k,
    ensures
        spec_code_info(input, a + b, a.len() + k, acc) == shifted_scan(
            spec_code_info(input, b, k, acc),
            a.len() as int,
        ),
    decreases b.len() - k,
{
    if k < b.len() {
        assert((a + b)[a.len() + k] == b[k]);
        match b[k] {
            Event::Text(r) => lemma_code_info_shift(
                input,
                a,
                b,
                k + 1,
                acc + escaped_attribute(slice_of(input, r.start, r.end)),
            ),
            Event::VerbatimEscaping(v) => lemma_code_info_shift(
                input,
                a,
                b,
                k + 1,
                acc + escaped_attribute(slice_of(input, v.content.start, v.content.end)),
            ),
            _ => {},
        }
    }
}

proof fn lemma_code_content_shift(input: Seq<u8>, a: Seq<Event>, b: Seq<Event>, k: int, acc: Seq<u8>)
    requires
        0 <= k,
    ensures
        spec_code_content(input, a + b, a.len() + k, acc) == shifted_scan(
            spec_code_content(input, b, k, acc),
            a.len() as int,
        ),
    decreases b.len() - k,
{
    if k < b.len() {
        assert((a + b)[a.len() + k] == b[k]);
        match b[k] {
            Event::Text(r) => lemma_code_content_shift(
                input,
                a,
                b,
                k + 1,
                acc + escaped_attribute(slice_of(input, r.start, r.end)),
            ),
            Event::VerbatimEscaping(v) => lemma_code_content_shift(
                input,
                a,
                b,
                k + 1,
                acc + escaped_attribute(slice_of(input, v.content.start, v.content.end)),
            ),
            Event::NewLine(_) => lemma_code_content_shift(
                input,
                a,
                b,
                k + 1,
                acc + "&#10;".spec_bytes(),
            ),
            _ => {},
        }
    }
}

impl<'a> Renderer<'a> {
    proof fn lemma_render_event_prefix(
        &self,
        input: Seq<u8>,
        a: Seq<Event>,
        b: Seq<Event>,
        i: int,
        stack: Seq<SpecEntry>,
    )
        requires
            0 <= i < a.len(),
            self.spec_render_event(input, a, i, stack) is Some,
        ensures
            self.spec_render_event(input, a + b, i, stack) == self.spec_render_event(
                input,
                a,
                i,
                stack,
            ),
    {
        reveal(Renderer::spec_render_plain);
        assert((a + b)[i] == a[i]);
        if let Event::EnterCodeBlock(_) = a[i] {
            if let Some((k, _)) = spec_code_info(input, a, i + 1, Seq::empty()) {
                lemma_code_info_prefix(input, a, b, i + 1, Seq::empty());
                lemma_code_content_prefix(input, a, b, k + 1, Seq::empty());
            }
        }
    }

    #[verifier::rlimit(40)]
    proof fn lemma_render_plain_shift(
        &self,
        input: Seq<u8>,
        a: Seq<Event>,
        b: Seq<Event>,
        j: int,
        stack: Seq<SpecEntry>,
    )
        requires
            0 <= j < b.len(),
        ensures
            self.spec_render_plain(input, a + b, a.len() + j, stack) == shifted(
                self.spec_render_plain(input, b, j, stack),
                a.len() as int,
            ),
    {
        reveal(Renderer::spec_render_plain);
        let n = a.len() as int;
        assert((a + b)[n + j] == b[j]);
        match b[j] {
            Event::EnterCodeBlock(_) => {
                lemma_code_info_shift(input, a, b, j + 1, Seq::empty());
                lemma_code_info_bounds(input, b, j + 1, Seq::empty());
                if let Some((k, _)) = spec_code_info(input, b, j + 1, Seq::empty()) {
                    lemma_code_content_shift(input, a, b, k + 1, Seq::empty());
                }
            },
            _ => {},
        }
    }

    proof fn lemma_render_event_shift(
        &self,
        input: Seq<u8>,
        a: Seq<Event>,
        b: Seq<Event>,
        j: int,
        stack: Seq<SpecEntry>,
    )
        requires
            0 <= j < b.len(),
        ensures
            self.spec_render_event(input, a + b, a.len() + j, stack) == shifted(
                self.spec_render_event(input, b, j, stack),
                a.len() as int,
            ),
    {
        assert((a + b)[a.len() + j] == b[j]);
        match spec_table_related(b[j], stack) {
            TableOutcome::Passed(_, after) => {
                self.lemma_render_plain_shift(input, a, b, j, after);
            },
            _ => {},
        }
    }

    proof fn lemma_render_events_shift(
        &self,
        input: Seq<u8>,
        a: Seq<Event>,
        b: Seq<Event>,
        j: int,
        stack: Seq<SpecEntry>,
    )
        requires
            0 <= j <= b.len(),
        ensures
            self.spec_render_events(input, a + b, a.len() + j, stack) == self.spec_render_events(
                input,
                b,
                j,
                stack,
            ),
        decreases b.len() - j,
    {
        if j < b.len() {
            self.lemma_render_event_shift(input, a, b, j, stack);
            match self.spec_render_event(input, b, j, stack) {
                Some((k, _, after)) => {
                    if j < k <= b.len() {
                        self.lemma_render_events_shift(input, a, b, k, after);
                    }
                },
                None => {},
            }
        }
    }

    proof fn lemma_render_events_append_from(
        &self,
        input: Seq<u8>,
        a: Seq<Event>,
        b: Seq<Event>,
        i: int,
        stack: Seq<SpecEntry>,
    )
        requires
            0 <= i <= a.len(),
            self.spec_render_events(input, a, i, stack) matches Some((_, after))
                && self.spec_render_events(input, b, 0, after) is Some,
        ensures
            self.spec_render_events(input, a, i, stack) matches Some((first, after))
                && self.spec_render_events(input, b, 0, after) matches Some((second, last))
                && self.spec_render_events(input, a + b, i, stack) == Some((first + second, last)),
        decreases a.len() - i,
    {
        if i == a.len() {
            self.lemma_render_events_shift(input, a, b, 0, stack);
            let (second, _) = self.spec_render_events(input, b, 0, stack).unwrap();
            assert(Seq::<u8>::empty() + second =~= second);
        } else {
            self.lemma_render_event_prefix(input, a, b, i, stack);
            let (k, out, after) = self.spec_render_event(input, a, i, stack).unwrap();
            self.lemma_render_events_append_from(input, a, b, k, after);
            let (rest, mid) = self.spec_render_events(input, a, k, after).unwrap();
            let (second, _) = self.spec_render_events(input, b, 0, mid).unwrap();
            assert(out + (rest + second) =~= (out + rest) + second);
        }
    }

    /// Rendering two runs of events one after the other, the open elements
    /// carried over, writes what rendering them as one run does.
    pub proof fn lemma_render_events_append(
        &self,
        input: Seq<u8>,
        a: Seq<Event>,
        b: Seq<Event>,
        stack: Seq<SpecEntry>,
    )
        requires
            self.spec_render_events(input, a, 0, stack) matches Some((_, after))
                && self.spec_render_events(input, b, 0, after) is Some,
        ensures
            self.spec_render_events(input, a, 0, stack) matches Some((first, after))
                && self.spec_render_events(input, b, 0, after) matches Some((second, last))
                && self.spec_render_events(input, a + b, 0, stack) == Some((first + second, last)),
    {
        self.lemma_render_events_append_from(input, a, b, 0, stack);
    }
}

/// Appends the bytes of `s` to `buf`.
fn extend_str(buf: &mut Vec<u8>, s: &str)
    ensures
        final(buf)@ == old(buf)@ + s.spec_bytes(),
{
    buf.extend_from_slice(s.as_bytes());
    proof {
        assert(final(buf)@ =~= old(buf)@ + s.spec_bytes());
    }
}

/// Appends `input` to `buf` as it is.
fn render_raw_html(buf: &mut Vec<u8>, input: &[u8])
    ensures
        final(buf)@ == old(buf)@ + input@,
{
    buf.extend_from_slice(input);
    proof {
        assert(final(buf)@ =~= old(buf)@ + input@);
    }
}

/// Appends the attribute that carries the block id `id` to `buf`.
fn render_data_block_id_attribute(buf: &mut Vec<u8>, id: usize)
    ensures
        final(buf)@ == old(buf)@ + " data-block-id=\"".spec_bytes() + decimal(id as nat)
            + "\"".spec_bytes(),
{
    extend_str(buf, " data-block-id=\"");
    write_usize(buf, id);
    extend_str(buf, "\"");
}

/// The bytes of the input in a range that lies within it.
fn input_slice<'b>(input: &'b [u8], start: usize, end: usize) -> (r: &'b [u8])
    requires
        start <= end <= input@.len(),
    ensures
        r@ == slice_of(input@, start, end),
{
    slice_subrange(input, start, end)
}

impl<'a> Renderer<'a> {
    pub fn new(opts: NewRendererOptions<'a>) -> (r: Self)
        ensures
            r.tag_name_map == opts.tag_name_map,
            r.with_block_id == opts.should_include_block_ids,
    {
        Renderer { tag_name_map: opts.tag_name_map, with_block_id: opts.should_include_block_ids }
    }

    /// Appends the attribute that carries the block id `id`, where block ids
    /// are included.
    fn write_block_id_attribute_if_applicable(&self, buf: &mut Vec<u8>, id: BlockId)
        ensures
            final(buf)@ == old(buf)@ + self.block_id_attribute(id),
    {
        if self.with_block_id {
            render_data_block_id_attribute(buf, id.value());
        } else {
            proof {
                assert(final(buf)@ =~= old(buf)@ + self.block_id_attribute(id));
            }
        }
    }

    /// Renders the events `evs`, over `input`, with the open elements
    /// `stack`, which are left open after them. Every event must be able to
    /// stand where it stands (`spec_render_events` is `Some`): an exit with
    /// an open element, a table indicator inside a table, and so on; the
    /// renderer stops with a panic on anything else, so such lists are not
    /// admitted.
    pub fn render_events(
        &self,
        buf: &mut Vec<u8>,
        input: &'a [u8],
        evs: &[Event],
        stack: &mut Vec<StackEntryBox<'a>>,
    )
        requires
            events_within(evs@, input@.len()),
            self.spec_render_events(input@, evs@, 0, view_stack(old(stack)@)) is Some,
        ensures
            self.spec_render_events(input@, evs@, 0, view_stack(old(stack)@)) matches Some(
                (out, last),
            ) && final(buf)@ == old(buf)@ + out && view_stack(final(stack)@) == last,
    {
        let ghost total = self.spec_render_events(input@, evs@, 0, view_stack(stack@));
        let ghost mut done: Seq<u8> = Seq::empty();
        let mut i: usize = 0;
        proof {
            assert(buf@ =~= old(buf)@ + done);
            let (all, _) = total.unwrap();
            assert(done + all =~= all);
        }
        while i < evs.len()
            invariant
                i <= evs@.len(),
                events_within(evs@, input@.len()),
                buf@ == old(buf)@ + done,
                self.spec_render_events(input@, evs@, i as int, view_stack(stack@)) matches Some(
                    (rest, last),
                ) && total == Some((done + rest, last)),
            decreases evs@.len() - i,
        {
            let ghost before = buf@;
            let ghost step = self.spec_render_event(input@, evs@, i as int, view_stack(stack@));
            let ghost rest = self.spec_render_events(input@, evs@, i as int, view_stack(stack@));
            let j = self.render_event(buf, input, evs, i, stack);
            proof {
                let (_, out, _) = step.unwrap();
                let (tail, _) = self.spec_render_events(input@, evs@, j as int, view_stack(stack@)).unwrap();
                assert(done + (out + tail) =~= (done + out) + tail);
                done = done + out;
                assert(buf@ =~= old(buf)@ + done);
            }
            i = j;
        }
        proof {
            assert(done + Seq::<u8>::empty() =~= done);
        }
    }

    /// Opens a block element of `tag`.
    fn push_simple_block(
        &self,
        buf: &mut Vec<u8>,
        stack: &mut Vec<StackEntryBox<'a>>,
        tag_name: &'a [u8],
        id: BlockId,
    )
        ensures
            final(buf)@ == old(buf)@ + "<".spec_bytes() + tag_name@ + self.block_id_attribute(id)
                + ">".spec_bytes(),
            view_stack(final(stack)@) == view_stack(old(stack)@).push(SpecEntry::Normal(tag_name@)),
    {
        extend_str(buf, "<");
        buf.extend_from_slice(tag_name);
        self.write_block_id_attribute_if_applicable(buf, id);
        extend_str(buf, ">");
        proof {
            lemma_view_stack_push(stack@, StackEntryBox(StackEntry::Normal(tag_name)));
        }
        stack.push(StackEntryBox(StackEntry::Normal(tag_name)));
    }

    /// Opens an inline element of `tag`.
    fn push_simple_inline(&self, buf: &mut Vec<u8>, stack: &mut Vec<StackEntryBox<'a>>, tag_name: &'a [u8])
        ensures
            final(buf)@ == old(buf)@ + "<".spec_bytes() + tag_name@ + ">".spec_bytes(),
            view_stack(final(stack)@) == view_stack(old(stack)@).push(SpecEntry::Normal(tag_name@)),
    {
        extend_str(buf, "<");
        buf.extend_from_slice(tag_name);
        extend_str(buf, ">");
        proof {
            lemma_view_stack_push(stack@, StackEntryBox(StackEntry::Normal(tag_name)));
        }
        stack.push(StackEntryBox(StackEntry::Normal(tag_name)));
    }

    /// Does what the event does to a table on top of the open elements: tells
    /// whether it is done with it.
    fn render_table_related_event(
        &self,
        buf: &mut Vec<u8>,
        ev: &Event,
        stack: &mut Vec<StackEntryBox<'a>>,
    ) -> (r: Option<()>)
        requires
            !(spec_table_related(*ev, view_stack(old(stack)@)) is Invalid),
        ensures
            match spec_table_related(*ev, view_stack(old(stack)@)) {
                TableOutcome::Handled(out, after) => r is Some && final(buf)@ == old(buf)@ + out
                    && view_stack(final(stack)@) == after,
                TableOutcome::Passed(out, after) => r is None && final(buf)@ == old(buf)@ + out
                    && view_stack(final(stack)@) == after,
                TableOutcome::Invalid => false,
            },
    {
        let n = stack.len();
        if n == 0 {
            proof {
                assert(final(buf)@ =~= old(buf)@ + Seq::<u8>::empty());
            }
            return None;
        }
        proof {
            lemma_view_stack_drop_last(stack@);
        }
        let state = match &stack[n - 1].0 {
            StackEntry::Table(state) => *state,
            _ => {
                proof {
                    assert(final(buf)@ =~= old(buf)@ + Seq::<u8>::empty());
                }
                return None;
            },
        };
        match ev {
            Event::IndicateTableRow => {
                match state {
                    TableState::AtBeginning => extend_str(buf, "<tr>"),
                    TableState::InCaption => extend_str(buf, "</caption><tr>"),
                    TableState::InRow => extend_str(buf, "</tr><tr>"),
                    TableState::InHeaderCell => extend_str(buf, "</th></tr><tr>"),
                    TableState::InDataCell => extend_str(buf, "</td></tr><tr>"),
                }
                proof {
                    lemma_view_stack_update(stack@, n - 1, StackEntryBox(StackEntry::Table(TableState::InRow)));
                }
                stack[n - 1] = StackEntryBox(StackEntry::Table(TableState::InRow));
            },
            Event::IndicateTableCaption => {
                match state {
                    TableState::AtBeginning => extend_str(buf, "<caption>"),
                    _ => {
                        proof {
                            assert(false);
                        }
                    },
                }
                proof {
                    lemma_view_stack_update(stack@, n - 1, StackEntryBox(StackEntry::Table(TableState::InCaption)));
                }
                stack[n - 1] = StackEntryBox(StackEntry::Table(TableState::InCaption));
            },
            Event::IndicateTableHeaderCell => {
                match state {
                    TableState::AtBeginning => extend_str(buf, "<tr><th>"),
                    TableState::InCaption => extend_str(buf, "</caption><tr><th>"),
                    TableState::InRow => extend_str(buf, "<th>"),
                    TableState::InHeaderCell => extend_str(buf, "</th><th>"),
                    TableState::InDataCell => extend_str(buf, "</td><th>"),
                }
                proof {
                    lemma_view_stack_update(stack@, n - 1, StackEntryBox(StackEntry::Table(TableState::InHeaderCell)));
                }
                stack[n - 1] = StackEntryBox(StackEntry::Table(TableState::InHeaderCell));
            },
            Event::IndicateTableDataCell => {
                match state {
                    TableState::AtBeginning => extend_str(buf, "<tr><td>"),
                    TableState::InCaption => extend_str(buf, "</caption><tr><td>"),
                    TableState::InRow => extend_str(buf, "<td>"),
                    TableState::InHeaderCell => extend_str(buf, "</th><td>"),
                    TableState::InDataCell => extend_str(buf, "</td><td>"),
                }
                proof {
                    lemma_view_stack_update(stack@, n - 1, StackEntryBox(StackEntry::Table(TableState::InDataCell)));
                }
                stack[n - 1] = StackEntryBox(StackEntry::Table(TableState::InDataCell));
            },
            Event::ExitBlock(_) => {
                let _ = stack.pop();
                match state {
                    TableState::AtBeginning => extend_str(buf, "</table>"),
                    TableState::InCaption => extend_str(buf, "</caption></table>"),
                    TableState::InRow => extend_str(buf, "</tr></table>"),
                    TableState::InHeaderCell => extend_str(buf, "</th></tr></table>"),
                    TableState::InDataCell => extend_str(buf, "</td></tr></table>"),
                }
            },
            _ => {
                match state {
                    TableState::AtBeginning => {
                        extend_str(buf, "<tr><td>");
                        proof {
                            lemma_view_stack_update(stack@, n - 1, StackEntryBox(StackEntry::Table(TableState::InDataCell)));
                        }
                        stack[n - 1] = StackEntryBox(StackEntry::Table(TableState::InDataCell));
                    },
                    TableState::InRow => {
                        extend_str(buf, "<td>");
                        proof {
                            lemma_view_stack_update(stack@, n - 1, StackEntryBox(StackEntry::Table(TableState::InDataCell)));
                        }
                        stack[n - 1] = StackEntryBox(StackEntry::Table(TableState::InDataCell));
                    },
                    _ => {
                        proof {
                            assert(final(buf)@ =~= old(buf)@ + Seq::<u8>::empty());
                        }
                    },
                }
                return None;
            },
        }
        Some(())
    }

    /// Renders the code block entered at `i`, whose id is `id`, as one empty
    /// element: its info string and its code are attributes.
    fn render_code_block(&self, buf: &mut Vec<u8>, input: &'a [u8], evs: &[Event], i: usize, id: BlockId) -> (j: usize)
        requires
            i < evs@.len(),
            events_within(evs@, input@.len()),
            spec_code_info(input@, evs@, i + 1, Seq::empty()) matches Some((k, _)) && spec_code_content(
                input@,
                evs@,
                k + 1,
                Seq::empty(),
            ) is Some,
        ensures
            spec_code_info(input@, evs@, i + 1, Seq::empty()) matches Some((k, info))
                && spec_code_content(input@, evs@, k + 1, Seq::empty()) matches Some((m, code)) && j
                == m + 1 && final(buf)@ == old(buf)@ + ("<".spec_bytes() + self.tag_name_map.code_block@
                + " info-string=\"".spec_bytes() + info + "\" content=\"".spec_bytes() + code
                + "\"".spec_bytes() + self.block_id_attribute(id) + ">".spec_bytes() + closing_tag(
                self.tag_name_map.code_block@,
            )),
    {
        let ghost info_outcome = spec_code_info(input@, evs@, i + 1, Seq::empty());
        let len = evs.len();
        let map = self.tag_name_map;
        extend_str(buf, "<");
        buf.extend_from_slice(map.code_block);
        extend_str(buf, " info-string=\"");
        let ghost start = buf@;
        let ghost mut acc: Seq<u8> = Seq::empty();
        let mut k: usize = i;
        loop
            invariant_except_break
                info_outcome == spec_code_info(input@, evs@, k + 1, acc),
            invariant
                i <= k < evs@.len(),
                len == evs@.len(),
                events_within(evs@, input@.len()),
                info_outcome is Some,
                buf@ == start + acc,
            ensures
                info_outcome == Some((k as int, acc)),
                i < k < evs@.len(),
            decreases evs@.len() - k,
        {
            assert(k + 1 < evs@.len());
            k = k + 1;
            proof {
                assert(event_within(evs@[k as int], input@.len()));
            }
            match &evs[k] {
                Event::Text(r) => {
                    render_escaped_double_quoted_attribute_value(buf, input_slice(input, r.start, r.end));
                    proof {
                        acc = acc + escaped_attribute(slice_of(input@, r.start, r.end));
                        assert(buf@ =~= start + acc);
                    }
                },
                Event::VerbatimEscaping(v) => {
                    render_escaped_double_quoted_attribute_value(
                        buf,
                        input_slice(input, v.content.start, v.content.end),
                    );
                    proof {
                        acc = acc + escaped_attribute(slice_of(input@, v.content.start, v.content.end));
                        assert(buf@ =~= start + acc);
                    }
                },
                Event::IndicateCodeBlockCode => {
                    break;
                },
                _ => {
                    proof {
                        assert(false);
                    }
                },
            }
        }
        let ghost info = acc;
        let ghost content_outcome = spec_code_content(input@, evs@, k + 1, Seq::empty());
        extend_str(buf, "\" content=\"");
        let ghost start2 = buf@;
        let ghost mut acc2: Seq<u8> = Seq::empty();
        loop
            invariant_except_break
                content_outcome == spec_code_content(input@, evs@, k + 1, acc2),
            invariant
                i < k < evs@.len(),
                len == evs@.len(),
                events_within(evs@, input@.len()),
                content_outcome is Some,
                buf@ == start2 + acc2,
            ensures
                content_outcome == Some((k as int, acc2)),
            decreases evs@.len() - k,
        {
            assert(k + 1 < evs@.len());
            k = k + 1;
            proof {
                assert(event_within(evs@[k as int], input@.len()));
            }
            match &evs[k] {
                Event::Text(r) => {
                    render_escaped_double_quoted_attribute_value(buf, input_slice(input, r.start, r.end));
                    proof {
                        acc2 = acc2 + escaped_attribute(slice_of(input@, r.start, r.end));
                        assert(buf@ =~= start2 + acc2);
                    }
                },
                Event::VerbatimEscaping(v) => {
                    render_escaped_double_quoted_attribute_value(
                        buf,
                        input_slice(input, v.content.start, v.content.end),
                    );
                    proof {
                        acc2 = acc2 + escaped_attribute(slice_of(input@, v.content.start, v.content.end));
                        assert(buf@ =~= start2 + acc2);
                    }
                },
                Event::NewLine(_) => {
                    extend_str(buf, "&#10;");
                    proof {
                        acc2 = acc2 + "&#10;".spec_bytes();
                        assert(buf@ =~= start2 + acc2);
                    }
                },
                Event::ExitBlock(_) => {
                    break;
                },
                _ => {
                    proof {
                        assert(false);
                    }
                },
            }
        }
        extend_str(buf, "\"");
        self.write_block_id_attribute_if_applicable(buf, id);
        extend_str(buf, ">");
        render_closing_tag(buf, map.code_block);
        proof {
            assert(final(buf)@ =~= old(buf)@ + ("<".spec_bytes() + self.tag_name_map.code_block@
                + " info-string=\"".spec_bytes() + info + "\" content=\"".spec_bytes() + acc2
                + "\"".spec_bytes() + self.block_id_attribute(id) + ">".spec_bytes() + closing_tag(
                self.tag_name_map.code_block@,
            )));
        }
        k + 1
    }

    /// Renders the event at `i`, and tells where the next event to render
    /// is: past the code of a code block, else right after it.
    fn render_event(
        &self,
        buf: &mut Vec<u8>,
        input: &'a [u8],
        evs: &[Event],
        i: usize,
        stack: &mut Vec<StackEntryBox<'a>>,
    ) -> (j: usize)
        requires
            i < evs@.len(),
            events_within(evs@, input@.len()),
            self.spec_render_event(input@, evs@, i as int, view_stack(old(stack)@)) is Some,
        ensures
            self.spec_render_event(input@, evs@, i as int, view_stack(old(stack)@)) matches Some(
                (k, out, last),
            ) && j == k && final(buf)@ == old(buf)@ + out && view_stack(final(stack)@) == last,
    {
        let ev = &evs[i];
        proof {
            assert(event_within(evs@[i as int], input@.len()));
        }
        match self.render_table_related_event(buf, ev, stack) {
            Some(()) => {
                return i + 1;
            },
            None => {},
        }
        let ghost mid = buf@;
        let ghost passed = mid.subrange(old(buf)@.len() as int, mid.len() as int);
        proof {
            assert(mid =~= old(buf)@ + passed);
        }
        let j = self.render_plain_event(buf, input, evs, i, stack);
        proof {
            assert(final(buf)@ =~= old(buf)@ + (passed + final(buf)@.subrange(
                mid.len() as int,
                final(buf)@.len() as int,
            )));
        }
        j
    }

    /// Renders the event at `i` once the table on top, if any, has let it
    /// through, and tells where the next event to render is.
    fn render_plain_event(
        &self,
        buf: &mut Vec<u8>,
        input: &'a [u8],
        evs: &[Event],
        i: usize,
        stack: &mut Vec<StackEntryBox<'a>>,
    ) -> (j: usize)
        requires
            i < evs@.len(),
            events_within(evs@, input@.len()),
            self.spec_render_plain(input@, evs@, i as int, view_stack(old(stack)@)) is Some,
        ensures
            self.spec_render_plain(input@, evs@, i as int, view_stack(old(stack)@)) matches Some(
                (k, out, last),
            ) && j == k && final(buf)@ == old(buf)@ + out && view_stack(final(stack)@) == last,
    {
        let ev = &evs[i];
        proof {
            assert(event_within(evs@[i as int], input@.len()));
            reveal(Renderer::spec_render_plain);
        }
        let map = self.tag_name_map;
        match ev {
            Event::Raw(r) => {
                render_raw_html(buf, input_slice(input, r.start, r.end));
            },
            Event::NewLine(_) => {
                extend_str(buf, "<br>");
            },
            Event::Text(r) => {
                render_escaped_html_text(buf, input_slice(input, r.start, r.end));
            },
            Event::VerbatimEscaping(v) => {
                render_escaped_html_text(buf, input_slice(input, v.content.start, v.content.end));
            },
            Event::ExitBlock(_) | Event::ExitInline => {
                match stack.pop() {
                    Some(top) => match top.0 {
                        StackEntry::Normal(tag) => {
                            render_closing_tag(buf, tag);
                        },
                        StackEntry::WikiLink => {
                            render_closing_tag(buf, map.wiki_link);
                        },
                        StackEntry::Table(_) => {
                            proof {
                                assert(false);
                            }
                        },
                    },
                    None => {
                        proof {
                            assert(false);
                        }
                    },
                }
            },
            Event::ThematicBreak(t) => {
                extend_str(buf, "<hr");
                self.write_block_id_attribute_if_applicable(buf, t.id);
                extend_str(buf, ">");
            },
            Event::EnterCodeBlock(d) => {
                return self.render_code_block(buf, input, evs, i, d.id);
            },
            Event::EnterTable(d) => {
                extend_str(buf, "<table");
                self.write_block_id_attribute_if_applicable(buf, d.id);
                extend_str(buf, ">");
                stack.push(StackEntryBox(StackEntry::Table(TableState::AtBeginning)));
            },
            Event::RefLink(r) => {
                let attrs = vec![("address".as_bytes(), input_slice(input, r.start, r.end))];
                proof {
                    assert(attribute_views(attrs@) =~= seq![
                        ("address".spec_bytes(), slice_of(input@, r.start, r.end)),
                    ]);
                }
                render_empty_element(buf, map.ref_link, attrs.as_slice());
            },
            Event::Dicexp(r) => {
                let attrs = vec![("code".as_bytes(), input_slice(input, r.start, r.end))];
                proof {
                    assert(attribute_views(attrs@) =~= seq![
                        ("code".spec_bytes(), slice_of(input@, r.start, r.end)),
                    ]);
                }
                render_empty_element(buf, map.dicexp, attrs.as_slice());
            },
            Event::EnterWikiLink(r) => {
                let attrs = vec![("address".as_bytes(), input_slice(input, r.start, r.end))];
                proof {
                    assert(attribute_views(attrs@) =~= seq![
                        ("address".spec_bytes(), slice_of(input@, r.start, r.end)),
                    ]);
                }
                render_eopening_tag(buf, map.wiki_link, attrs.as_slice());
                proof {
                    lemma_view_stack_push(stack@, StackEntryBox(StackEntry::WikiLink));
                }
                stack.push(StackEntryBox(StackEntry::WikiLink));
            },
            _ => match simple_element_tag(ev) {
                Some((tag, Some(id))) => self.push_simple_block(buf, stack, tag, id),
                Some((tag, None)) => self.push_simple_inline(buf, stack, tag),
                None => {
                    proof {
                        assert(false);
                    }
                },
            },
        }
        i + 1
    }
}

} // verus!
