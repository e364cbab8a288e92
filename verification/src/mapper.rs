//! Mapping the blocks the upstream parser recognised into the document model,
//! reporting everything that cannot be rendered.
//!
//! The host reads the upstream parser's tree into [`SourceBlock`] values: the
//! kind of each block, the text the parser rendered for it, its attributes and
//! where it starts. What becomes of each block is decided here. Nothing an
//! author wrote is dropped silently: a construct that is not rendered is named
//! in the skipped list, with the position of the block it sat in.

use vstd::prelude::*;
use crate::asciidoc::clamp_level;
use crate::decode::{
    decode, decode_keeping_line_breaks, decode_preserving_text, decoded_nodes, final_state,
    strings_view, SoftBreaks,
};
use crate::document::{
    block_view, blocks_view, list_item_view, list_items_view, text_option_view, views_plain,
    lemma_blocks_view_concat, lemma_blocks_view_single, lemma_list_items_view_push,
    Admonition, AdmonitionKind, Block, BlockView, BreakKind, Container, ContainerKind, Document,
    InlineText, InlineView, ItemView, List, ListItem, ListKind, Paragraph, Quotation,
    QuotationKind, Section, Verbatim, VerbatimKind,
};
use crate::error::SourceLocation;
use crate::fmt::{debug_quoted, push_debug_quoted};
use crate::ports::{ParseOutcome, SkippedConstruct};
use crate::presentation::{
    alignment_for_role, form_for_style, marker_for_style, Alignment, ListForm, ListMarker,
    ListPresentation, ListStart, ParagraphPresentation,
};
use crate::text::{chars_of, is_whitespace, parse_unsigned, str_eq, trim, trim_end};
use crate::theme::{theme_id_message, theme_id_verdict, ThemeId};

verus! {

/// Where a block starts in the source, 1-based, as the upstream parser
/// reports it.
#[derive(Debug, Clone, Copy, PartialEq, Eq)]
pub struct SourceSpan {
    /// The line.
    pub line: usize,
    /// The column.
    pub col: usize,
}

/// How the parser classified a simple block.
#[derive(Debug, Clone, Copy, PartialEq, Eq)]
pub enum SimpleStyle {
    /// An ordinary paragraph.
    Paragraph,
    /// An indented paragraph, kept as written.
    Literal,
    /// A listing paragraph.
    Listing,
    /// A source paragraph.
    Source,
}

/// A block the parser recognised that this renderer has no mapping for.
#[derive(Debug, Clone, Copy, PartialEq, Eq)]
pub enum OtherKind {
    /// An image, video or audio block.
    Media,
    /// A table.
    Table,
    /// A table of contents.
    TableOfContents,
    /// A kind of block the parser added after this mapping was written.
    Unknown,
}

/// A block as the upstream parser recognised it.
#[derive(Debug, PartialEq, Eq)]
pub enum SourceBlock {
    /// A paragraph, or an indented literal one.
    Simple {
        style: SimpleStyle,
        /// The content as the parser rendered it.
        rendered: String,
        roles: Vec<String>,
        title: Option<String>,
        span: SourceSpan,
    },
    /// A heading that opens no section.
    FloatingTitle { title: String, level: usize, span: SourceSpan },
    /// A section and what it holds.
    Section {
        title: String,
        level: usize,
        /// The value of the section's `theme` attribute, if it has one.
        theme: Option<String>,
        children: Vec<SourceBlock>,
        span: SourceSpan,
    },
    /// A delimited block whose content is not parsed further.
    RawDelimited {
        /// The block's resolved context: `literal`, `listing`, `comment`...
        context: String,
        rendered: String,
        title: Option<String>,
        span: SourceSpan,
    },
    /// An admonition: a single paragraph or delimited blocks.
    Admonition {
        kind: AdmonitionKind,
        content: Option<String>,
        children: Vec<SourceBlock>,
        title: Option<String>,
        span: SourceSpan,
    },
    /// A quotation or a verse.
    Quote {
        kind: QuotationKind,
        content: Option<String>,
        children: Vec<SourceBlock>,
        attribution: Option<String>,
        citation: Option<String>,
        title: Option<String>,
        span: SourceSpan,
    },
    /// An example, sidebar or open block.
    Compound { kind: ContainerKind, children: Vec<SourceBlock>, title: Option<String>, span: SourceSpan },
    /// A thematic or page break.
    Break(BreakKind),
    /// A list; its children are its items.
    List {
        kind: ListKind,
        children: Vec<SourceBlock>,
        /// Whether the parser found checkboxes on its items.
        checklist: bool,
        /// Whether the block has an attribute list at all.
        has_attributes: bool,
        /// The declared block style, if any.
        style: Option<String>,
        /// The value of the `start` attribute, if any.
        start: Option<String>,
        roles: Vec<String>,
        title: Option<String>,
        span: SourceSpan,
    },
    /// One item of a list.
    ListItem {
        children: Vec<SourceBlock>,
        /// The term a description-list item describes, rendered, and where it is.
        term: Option<(String, SourceSpan)>,
        checkbox: Option<bool>,
        span: SourceSpan,
    },
    /// A transparent container around the blocks before the first section.
    Preamble { children: Vec<SourceBlock> },
    /// A document attribute, already applied by the parser.
    DocumentAttribute,
    /// Anything else.
    Other { kind: OtherKind, span: SourceSpan },
}

/// What a report of something left out holds: its name and where it was.
pub type SkipView = (Seq<char>, SourceLocation);

/// The skipped list, in specifications.
pub open spec fn skips_view(s: Seq<SkippedConstruct>) -> Seq<SkipView> {
    s.map_values(|k: SkippedConstruct| (k.construct@, k.location))
}

/// The location a span stands for; a number that does not fit is reported
/// as 1.
pub open spec fn location_of_spec(span: SourceSpan) -> SourceLocation {
    SourceLocation {
        line: if span.line <= u32::MAX { span.line as u32 } else { 1 },
        column: if span.col <= u32::MAX { span.col as u32 } else { 1 },
    }
}

/// How a block the renderer does not map is named.
pub open spec fn describe_spec(kind: OtherKind) -> Seq<char> {
    match kind {
        OtherKind::Media => "image, video or audio block"@,
        OtherKind::Table => "table"@,
        OtherKind::TableOfContents => "table of contents"@,
        OtherKind::Unknown => "block"@,
    }
}

/// Each name in `names`, placed at `location`.
pub open spec fn placed(names: Seq<Seq<char>>, location: SourceLocation) -> Seq<SkipView> {
    names.map_values(|n: Seq<char>| (n, location))
}

/// Decoding rendered inline content, filled: the text, and the skipped list
/// with each unhonoured construct added at `location`.
pub open spec fn inline_spec(st: Seq<SkipView>, rendered: Seq<char>, location: SourceLocation, soft_breaks: SoftBreaks) -> (Seq<InlineView>, Seq<SkipView>) {
    (decoded_nodes(rendered, soft_breaks), st + placed(final_state(rendered, soft_breaks).unsupported, location))
}

/// The text of a verbatim block: decoded, and otherwise exactly as written.
pub open spec fn verbatim_text_spec(rendered: Seq<char>) -> Seq<char> {
    views_plain(decoded_nodes(trim_end(rendered), SoftBreaks::Preserve))
}

/// A block wrapped in its title, if the source gave it one.
pub open spec fn titled_spec(st: Seq<SkipView>, block: BlockView, title: Option<String>, span: SourceSpan) -> (Seq<BlockView>, Seq<SkipView>) {
    match title {
        Some(t) => {
            let (text, st1) = inline_spec(st, t@, location_of_spec(span), SoftBreaks::Fill);
            (seq![BlockView::Titled { title: text, block: Box::new(block) }], st1)
        },
        None => (seq![block], st),
    }
}

/// The skip for a role nothing here gives a meaning to.
pub open spec fn role_skip(role: Seq<char>, location: SourceLocation) -> SkipView {
    ("role "@ + debug_quoted(role), location)
}

/// A paragraph's presentation, read from its roles in order.
pub open spec fn paragraph_presentation_spec(st: Seq<SkipView>, roles: Seq<String>, location: SourceLocation) -> (ParagraphPresentation, Seq<SkipView>)
    decreases roles.len(),
{
    if roles.len() == 0 {
        (ParagraphPresentation::body_spec(), st)
    } else {
        let (p, s) = paragraph_presentation_spec(st, roles.drop_last(), location);
        let role = roles.last()@;
        if role == "lead"@ {
            (ParagraphPresentation { alignment: p.alignment, lead: true }, s)
        } else {
            match alignment_for_role(role) {
                Some(a) => (ParagraphPresentation { alignment: Some(a), lead: p.lead }, s),
                None => (p, s.push(role_skip(role, location))),
            }
        }
    }
}

/// Every role of a list reported, in order.
pub open spec fn role_skips(st: Seq<SkipView>, roles: Seq<String>, location: SourceLocation) -> Seq<SkipView>
    decreases roles.len(),
{
    if roles.len() == 0 {
        st
    } else {
        role_skips(st, roles.drop_last(), location).push(role_skip(roles.last()@, location))
    }
}

/// A list's presentation, read from what the items and the attribute list
/// declared.
pub open spec fn list_presentation_spec(
    st: Seq<SkipView>,
    checklist: bool,
    has_attributes: bool,
    style: Option<String>,
    start: Option<String>,
    roles: Seq<String>,
    location: SourceLocation,
) -> (ListPresentation, Seq<SkipView>) {
    let p0 = ListPresentation::stacked_spec();
    let p1 = if checklist { ListPresentation { form: ListForm::Checklist, ..p0 } } else { p0 };
    let (p2, s2) = if has_attributes {
        match style {
            Some(s) => match marker_for_style(s@) {
                Some(m) => (ListPresentation { marker: Some(m), ..p1 }, st),
                None => match form_for_style(s@) {
                    Some(f) => (ListPresentation { form: f, ..p1 }, st),
                    None => (p1, st.push(("list style "@ + debug_quoted(s@), location))),
                },
            },
            None => (p1, st),
        }
    } else {
        (p1, st)
    };
    let (p3, s3) = if has_attributes {
        match start {
            Some(v) => match parse_unsigned(trim(v@), usize::MAX as nat) {
                Some(n) => (ListPresentation { start: ListStart { value: n as usize }, ..p2 }, s2),
                None => (p2, s2.push((
                    "a list's start must be a non-negative whole number, got "@ + debug_quoted(v@),
                    location,
                ))),
            },
            None => (p2, s2),
        }
    } else {
        (p2, s2)
    };
    (p3, role_skips(s3, roles, location))
}

/// The theme a section declares, if it is a well-formed identifier; a
/// malformed one is reported instead.
pub open spec fn declared_theme_spec(st: Seq<SkipView>, theme: Option<String>, location: SourceLocation) -> (Option<Seq<char>>, Seq<SkipView>) {
    match theme {
        None => (None, st),
        Some(v) => match theme_id_verdict(v@) {
            Ok(_) => (Some(v@), st),
            Err(e) => (None, st.push((
                "theme attribute "@ + debug_quoted(v@) + " ("@ + theme_id_message(e) + ")"@,
                location,
            ))),
        },
    }
}

/// The kind of verbatim block a delimited block's context names.
pub open spec fn raw_kind(context: Seq<char>) -> VerbatimKind {
    if context == "literal"@ {
        VerbatimKind::Literal
    } else if context == "source"@ {
        VerbatimKind::Source
    } else {
        VerbatimKind::Listing
    }
}

/// The kind of verbatim block a non-paragraph simple style names.
pub open spec fn simple_kind(style: SimpleStyle) -> VerbatimKind {
    match style {
        SimpleStyle::Listing => VerbatimKind::Listing,
        SimpleStyle::Source => VerbatimKind::Source,
        _ => VerbatimKind::Literal,
    }
}

/// The clamped level of a heading.
pub open spec fn clamped(level: usize) -> u8 {
    if level < 1 { 1 } else if level > 6 { 6 } else { level as u8 }
}

/// Mapping one source block after `st` was reported: the blocks it becomes
/// and the skipped list after it.
pub open spec fn map_block(st: Seq<SkipView>, b: SourceBlock) -> (Seq<BlockView>, Seq<SkipView>)
    decreases b,
{
    match b {
        SourceBlock::Simple { style, rendered, roles, title, span } => {
            let location = location_of_spec(span);
            if style != SimpleStyle::Paragraph {
                titled_spec(st, BlockView::Verbatim { kind: simple_kind(style), content: verbatim_text_spec(rendered@) }, title, span)
            } else {
                let (text, st1) = inline_spec(st, trim_end(rendered@), location, SoftBreaks::Fill);
                if text.len() == 0 || views_plain(text).len() == 0 {
                    (Seq::empty(), st1)
                } else {
                    let (presentation, st2) = paragraph_presentation_spec(st1, roles@, location);
                    titled_spec(st2, BlockView::Paragraph { text, presentation }, title, span)
                }
            }
        },
        SourceBlock::FloatingTitle { title, level, span } => {
            let (text, st1) = inline_spec(st, title@, location_of_spec(span), SoftBreaks::Fill);
            (seq![BlockView::Heading { text, level: clamped(level) }], st1)
        },
        SourceBlock::Section { title, level, theme, children, span } => {
            let location = location_of_spec(span);
            let (heading, st1) = inline_spec(st, title@, location, SoftBreaks::Fill);
            let (id, st2) = declared_theme_spec(st1, theme, location);
            let (body, st3) = map_blocks(st2, children@);
            (seq![BlockView::Section { heading, level: clamped(level), theme: id, body }], st3)
        },
        SourceBlock::RawDelimited { context, rendered, title, span } => {
            if context@ == "comment"@ {
                (Seq::empty(), st)
            } else {
                titled_spec(st, BlockView::Verbatim { kind: raw_kind(context@), content: verbatim_text_spec(rendered@) }, title, span)
            }
        },
        SourceBlock::Admonition { kind, content, children, title, span } => {
            let (body, st1) = match content {
                Some(c) => {
                    let (text, s) = inline_spec(st, trim_end(c@), location_of_spec(span), SoftBreaks::Fill);
                    (seq![BlockView::Paragraph { text, presentation: ParagraphPresentation::body_spec() }], s)
                },
                None => map_blocks(st, children@),
            };
            titled_spec(st1, BlockView::Admonition { kind, body }, title, span)
        },
        SourceBlock::Quote { kind, content, children, attribution, citation, title, span } => {
            let location = location_of_spec(span);
            let (body, st1) = match content {
                Some(c) => {
                    let breaks = if kind == QuotationKind::Verse { SoftBreaks::Keep } else { SoftBreaks::Fill };
                    let (text, s) = inline_spec(st, trim_end(c@), location, breaks);
                    (seq![BlockView::Paragraph { text, presentation: ParagraphPresentation::body_spec() }], s)
                },
                None => map_blocks(st, children@),
            };
            let (a, st2) = match attribution {
                Some(t) => {
                    let (text, s) = inline_spec(st1, t@, location, SoftBreaks::Fill);
                    (Some(text), s)
                },
                None => (None, st1),
            };
            let (c, st3) = match citation {
                Some(t) => {
                    let (text, s) = inline_spec(st2, t@, location, SoftBreaks::Fill);
                    (Some(text), s)
                },
                None => (None, st2),
            };
            titled_spec(st3, BlockView::Quotation { kind, attribution: a, citation: c, body }, title, span)
        },
        SourceBlock::Compound { kind, children, title, span } => {
            let (body, st1) = map_blocks(st, children@);
            titled_spec(st1, BlockView::Container { kind, body }, title, span)
        },
        SourceBlock::Break(k) => (seq![BlockView::Break(k)], st),
        SourceBlock::List { kind, children, checklist, has_attributes, style, start, roles, title, span } => {
            let (items, st1) = map_items(st, children@);
            let (presentation, st2) = list_presentation_spec(st1, checklist, has_attributes, style, start, roles@, location_of_spec(span));
            titled_spec(st2, BlockView::List { kind, items, presentation }, title, span)
        },
        SourceBlock::ListItem { span, .. } => (Seq::empty(), st.push(("list item"@, location_of_spec(span)))),
        SourceBlock::Preamble { children } => map_blocks(st, children@),
        SourceBlock::DocumentAttribute => (Seq::empty(), st),
        SourceBlock::Other { kind, span } => (Seq::empty(), st.push((describe_spec(kind), location_of_spec(span)))),
    }
}

/// Mapping a run of source blocks in order.
pub open spec fn map_blocks(st: Seq<SkipView>, s: Seq<SourceBlock>) -> (Seq<BlockView>, Seq<SkipView>)
    decreases s,
{
    if s.len() == 0 {
        (Seq::empty(), st)
    } else {
        let (first, st1) = map_block(st, s[0]);
        let (rest, st2) = map_blocks(st1, s.drop_first());
        (first + rest, st2)
    }
}

/// Mapping the items of a list in order; a child that is not an item is
/// passed over.
pub open spec fn map_items(st: Seq<SkipView>, s: Seq<SourceBlock>) -> (Seq<ItemView>, Seq<SkipView>)
    decreases s,
{
    if s.len() == 0 {
        (Seq::empty(), st)
    } else {
        match s[0] {
            SourceBlock::ListItem { children, term, checkbox, .. } => {
                let (body, st1) = map_blocks(st, children@);
                let (t, st2) = match term {
                    Some((text, span)) => {
                        let (v, s2) = inline_spec(st1, text@, location_of_spec(span), SoftBreaks::Fill);
                        (Some(v), s2)
                    },
                    None => (None, st1),
                };
                let (rest, st3) = map_items(st2, s.drop_first());
                (seq![ItemView { term: t, checkbox, body }] + rest, st3)
            },
            _ => map_items(st, s.drop_first()),
        }
    }
}

// ---------------------------------------------------------------------------
// Reports only accumulate
// ---------------------------------------------------------------------------

proof fn lemma_empty_prefix(s: Seq<SkipView>)
    ensures
        Seq::<SkipView>::empty() + s == s,
{
    assert(Seq::<SkipView>::empty() + s =~= s);
}

proof fn lemma_inline_appends(st: Seq<SkipView>, rendered: Seq<char>, location: SourceLocation, soft_breaks: SoftBreaks)
    ensures
        inline_spec(st, rendered, location, soft_breaks).0 == inline_spec(Seq::empty(), rendered, location, soft_breaks).0,
        inline_spec(st, rendered, location, soft_breaks).1 == st + inline_spec(Seq::empty(), rendered, location, soft_breaks).1,
{
    lemma_empty_prefix(placed(final_state(rendered, soft_breaks).unsupported, location));
}

proof fn lemma_titled_appends(st: Seq<SkipView>, block: BlockView, title: Option<String>, span: SourceSpan)
    ensures
        titled_spec(st, block, title, span).0 == titled_spec(Seq::empty(), block, title, span).0,
        titled_spec(st, block, title, span).1 == st + titled_spec(Seq::empty(), block, title, span).1,
{
    match title {
        Some(t) => lemma_inline_appends(st, t@, location_of_spec(span), SoftBreaks::Fill),
        None => assert(st + Seq::<SkipView>::empty() =~= st),
    }
}

proof fn lemma_roles_append(st: Seq<SkipView>, roles: Seq<String>, location: SourceLocation)
    ensures
        role_skips(st, roles, location) == st + role_skips(Seq::empty(), roles, location),
    decreases roles.len(),
{
    if roles.len() == 0 {
        assert(st + Seq::<SkipView>::empty() =~= st);
    } else {
        lemma_roles_append(st, roles.drop_last(), location);
        let e = role_skips(Seq::empty(), roles.drop_last(), location);
        assert((st + e).push(role_skip(roles.last()@, location)) =~= st + e.push(role_skip(roles.last()@, location)));
    }
}

proof fn lemma_paragraph_presentation_appends(st: Seq<SkipView>, roles: Seq<String>, location: SourceLocation)
    ensures
        paragraph_presentation_spec(st, roles, location).0 == paragraph_presentation_spec(Seq::empty(), roles, location).0,
        paragraph_presentation_spec(st, roles, location).1 == st + paragraph_presentation_spec(Seq::empty(), roles, location).1,
    decreases roles.len(),
{
    if roles.len() == 0 {
        assert(st + Seq::<SkipView>::empty() =~= st);
    } else {
        lemma_paragraph_presentation_appends(st, roles.drop_last(), location);
        let e = paragraph_presentation_spec(Seq::empty(), roles.drop_last(), location).1;
        assert((st + e).push(role_skip(roles.last()@, location)) =~= st + e.push(role_skip(roles.last()@, location)));
    }
}

proof fn lemma_list_presentation_appends(
    st: Seq<SkipView>,
    checklist: bool,
    has_attributes: bool,
    style: Option<String>,
    start: Option<String>,
    roles: Seq<String>,
    location: SourceLocation,
)
    ensures
        list_presentation_spec(st, checklist, has_attributes, style, start, roles, location).0
            == list_presentation_spec(Seq::empty(), checklist, has_attributes, style, start, roles, location).0,
        list_presentation_spec(st, checklist, has_attributes, style, start, roles, location).1
            == st + list_presentation_spec(Seq::empty(), checklist, has_attributes, style, start, roles, location).1,
{
    let e: Seq<SkipView> = Seq::empty();
    let style_skip = match style {
        Some(s) => ("list style "@ + debug_quoted(s@), location),
        None => ("list style "@, location),
    };
    let start_skip = match start {
        Some(v) => ("a list's start must be a non-negative whole number, got "@ + debug_quoted(v@), location),
        None => (""@, location),
    };
    assert(st + e =~= st);
    assert((st + e).push(style_skip) =~= st + e.push(style_skip));
    assert((st + e).push(start_skip) =~= st + e.push(start_skip));
    assert((st + e.push(style_skip)).push(start_skip) =~= st + e.push(style_skip).push(start_skip));
    lemma_roles_append(st, roles, location);
    lemma_roles_append(st + e.push(style_skip), roles, location);
    lemma_roles_append(st + e.push(start_skip), roles, location);
    lemma_roles_append(st + e.push(style_skip).push(start_skip), roles, location);
    lemma_roles_append(e.push(style_skip), roles, location);
    lemma_roles_append(e.push(start_skip), roles, location);
    lemma_roles_append(e.push(style_skip).push(start_skip), roles, location);
    let r = role_skips(e, roles, location);
    assert(st + (e.push(style_skip) + r) =~= (st + e.push(style_skip)) + r);
    assert(st + (e.push(start_skip) + r) =~= (st + e.push(start_skip)) + r);
    assert(st + (e.push(style_skip).push(start_skip) + r) =~= (st + e.push(style_skip).push(start_skip)) + r);
}

proof fn lemma_declared_theme_appends(st: Seq<SkipView>, theme: Option<String>, location: SourceLocation)
    ensures
        declared_theme_spec(st, theme, location).0 == declared_theme_spec(Seq::empty(), theme, location).0,
        declared_theme_spec(st, theme, location).1 == st + declared_theme_spec(Seq::empty(), theme, location).1,
{
    assert(st + Seq::<SkipView>::empty() =~= st);
    match theme {
        Some(v) => match theme_id_verdict(v@) {
            Ok(_) => {},
            Err(e) => {
                let k = ("theme attribute "@ + debug_quoted(v@) + " ("@ + theme_id_message(e) + ")"@, location);
                assert(st.push(k) =~= st + Seq::<SkipView>::empty().push(k));
            },
        },
        None => {},
    }
}

#[verifier::spinoff_prover]
#[verifier::rlimit(80)]
proof fn lemma_block_appends(st: Seq<SkipView>, b: SourceBlock)
    ensures
        map_block(st, b).0 == map_block(Seq::empty(), b).0,
        map_block(st, b).1 == st + map_block(Seq::empty(), b).1,
    decreases b,
{
    let e: Seq<SkipView> = Seq::empty();
    assert(st + e =~= st);
    match b {
        SourceBlock::Simple { style, rendered, roles, title, span } => {
            let location = location_of_spec(span);
            if style != SimpleStyle::Paragraph {
                lemma_titled_appends(st, BlockView::Verbatim { kind: simple_kind(style), content: verbatim_text_spec(rendered@) }, title, span);
            } else {
                lemma_inline_appends(st, trim_end(rendered@), location, SoftBreaks::Fill);
                let (text, e1) = inline_spec(e, trim_end(rendered@), location, SoftBreaks::Fill);
                lemma_paragraph_presentation_appends(st + e1, roles@, location);
                lemma_paragraph_presentation_appends(e1, roles@, location);
                let (presentation, e2) = paragraph_presentation_spec(e, roles@, location);
                let block = BlockView::Paragraph { text, presentation };
                lemma_titled_appends(st + e1 + e2, block, title, span);
                lemma_titled_appends(e1 + e2, block, title, span);
                let e3 = titled_spec(e, block, title, span).1;
                assert(st + e1 + e2 + e3 =~= st + (e1 + e2 + e3));
            }
        },
        SourceBlock::FloatingTitle { title, level, span } => {
            lemma_inline_appends(st, title@, location_of_spec(span), SoftBreaks::Fill);
        },
        SourceBlock::Section { title, level, theme, children, span } => {
            let location = location_of_spec(span);
            lemma_inline_appends(st, title@, location, SoftBreaks::Fill);
            let e1 = inline_spec(e, title@, location, SoftBreaks::Fill).1;
            lemma_declared_theme_appends(st + e1, theme, location);
            lemma_declared_theme_appends(e1, theme, location);
            let e2 = declared_theme_spec(e, theme, location).1;
            lemma_blocks_appends(st + e1 + e2, children@);
            lemma_blocks_appends(e1 + e2, children@);
            let e3 = map_blocks(e, children@).1;
            assert(st + e1 + e2 + e3 =~= st + (e1 + e2 + e3));
        },
        SourceBlock::RawDelimited { context, rendered, title, span } => {
            if context@ != "comment"@ {
                lemma_titled_appends(st, BlockView::Verbatim { kind: raw_kind(context@), content: verbatim_text_spec(rendered@) }, title, span);
            }
        },
        SourceBlock::Admonition { kind, content, children, title, span } => {
            let (body, e1) = match content {
                Some(c) => {
                    lemma_inline_appends(st, trim_end(c@), location_of_spec(span), SoftBreaks::Fill);
                    let (text, s) = inline_spec(e, trim_end(c@), location_of_spec(span), SoftBreaks::Fill);
                    (seq![BlockView::Paragraph { text, presentation: ParagraphPresentation::body_spec() }], s)
                },
                None => {
                    lemma_blocks_appends(st, children@);
                    map_blocks(e, children@)
                },
            };
            let block = BlockView::Admonition { kind, body };
            lemma_titled_appends(st + e1, block, title, span);
            lemma_titled_appends(e1, block, title, span);
            let e2 = titled_spec(e, block, title, span).1;
            assert(st + e1 + e2 =~= st + (e1 + e2));
        },
        SourceBlock::Quote { kind, content, children, attribution, citation, title, span } => {
            let location = location_of_spec(span);
            let breaks = if kind == QuotationKind::Verse { SoftBreaks::Keep } else { SoftBreaks::Fill };
            let (body, e1) = match content {
                Some(c) => {
                    lemma_inline_appends(st, trim_end(c@), location, breaks);
                    let (text, s) = inline_spec(e, trim_end(c@), location, breaks);
                    (seq![BlockView::Paragraph { text, presentation: ParagraphPresentation::body_spec() }], s)
                },
                None => {
                    lemma_blocks_appends(st, children@);
                    map_blocks(e, children@)
                },
            };
            let (a, e2) = match attribution {
                Some(t) => {
                    lemma_inline_appends(st + e1, t@, location, SoftBreaks::Fill);
                    lemma_inline_appends(e1, t@, location, SoftBreaks::Fill);
                    let (text, s) = inline_spec(e, t@, location, SoftBreaks::Fill);
                    (Some(text), s)
                },
                None => (None, e),
            };
            let (c, e3) = match citation {
                Some(t) => {
                    lemma_inline_appends(st + e1 + e2, t@, location, SoftBreaks::Fill);
                    lemma_inline_appends(e1 + e2, t@, location, SoftBreaks::Fill);
                    let (text, s) = inline_spec(e, t@, location, SoftBreaks::Fill);
                    (Some(text), s)
                },
                None => (None, e),
            };
            assert(st + e1 + e =~= st + e1);
            assert(e1 + e =~= e1);
            assert(st + e1 + e2 + e =~= st + e1 + e2);
            assert(e1 + e2 + e =~= e1 + e2);
            let block = BlockView::Quotation { kind, attribution: a, citation: c, body };
            lemma_titled_appends(st + e1 + e2 + e3, block, title, span);
            lemma_titled_appends(e1 + e2 + e3, block, title, span);
            let e4 = titled_spec(e, block, title, span).1;
            assert(st + e1 + e2 + e3 + e4 =~= st + (e1 + e2 + e3 + e4));
        },
        SourceBlock::Compound { kind, children, title, span } => {
            lemma_blocks_appends(st, children@);
            let (body, e1) = map_blocks(e, children@);
            let block = BlockView::Container { kind, body };
            lemma_titled_appends(st + e1, block, title, span);
            lemma_titled_appends(e1, block, title, span);
            let e2 = titled_spec(e, block, title, span).1;
            assert(st + e1 + e2 =~= st + (e1 + e2));
        },
        SourceBlock::Break(k) => {},
        SourceBlock::List { kind, children, checklist, has_attributes, style, start, roles, title, span } => {
            let location = location_of_spec(span);
            lemma_items_appends(st, children@);
            let (items, e1) = map_items(e, children@);
            lemma_list_presentation_appends(st + e1, checklist, has_attributes, style, start, roles@, location);
            lemma_list_presentation_appends(e1, checklist, has_attributes, style, start, roles@, location);
            let (presentation, e2) = list_presentation_spec(e, checklist, has_attributes, style, start, roles@, location);
            let block = BlockView::List { kind, items, presentation };
            lemma_titled_appends(st + e1 + e2, block, title, span);
            lemma_titled_appends(e1 + e2, block, title, span);
            let e3 = titled_spec(e, block, title, span).1;
            assert(st + e1 + e2 + e3 =~= st + (e1 + e2 + e3));
        },
        SourceBlock::ListItem { span, .. } => {
            let k = ("list item"@, location_of_spec(span));
            assert(st.push(k) =~= st + e.push(k));
        },
        SourceBlock::Preamble { children } => {
            lemma_blocks_appends(st, children@);
        },
        SourceBlock::DocumentAttribute => {},
        SourceBlock::Other { kind, span } => {
            let k = (describe_spec(kind), location_of_spec(span));
            assert(st.push(k) =~= st + e.push(k));
        },
    }
}

proof fn lemma_blocks_appends(st: Seq<SkipView>, s: Seq<SourceBlock>)
    ensures
        map_blocks(st, s).0 == map_blocks(Seq::empty(), s).0,
        map_blocks(st, s).1 == st + map_blocks(Seq::empty(), s).1,
    decreases s,
{
    let e: Seq<SkipView> = Seq::empty();
    if s.len() == 0 {
        assert(st + e =~= st);
    } else {
        lemma_block_appends(st, s[0]);
        let e1 = map_block(e, s[0]).1;
        lemma_blocks_appends(st + e1, s.drop_first());
        lemma_blocks_appends(e1, s.drop_first());
        let e2 = map_blocks(e, s.drop_first()).1;
        assert(st + e1 + e2 =~= st + (e1 + e2));
    }
}

proof fn lemma_items_appends(st: Seq<SkipView>, s: Seq<SourceBlock>)
    ensures
        map_items(st, s).0 == map_items(Seq::empty(), s).0,
        map_items(st, s).1 == st + map_items(Seq::empty(), s).1,
    decreases s,
{
    let e: Seq<SkipView> = Seq::empty();
    if s.len() == 0 {
        assert(st + e =~= st);
    } else {
        match s[0] {
            SourceBlock::ListItem { children, term, checkbox, .. } => {
                lemma_blocks_appends(st, children@);
                let e1 = map_blocks(e, children@).1;
                let e2 = match term {
                    Some((text, span)) => {
                        lemma_inline_appends(st + e1, text@, location_of_spec(span), SoftBreaks::Fill);
                        lemma_inline_appends(e1, text@, location_of_spec(span), SoftBreaks::Fill);
                        inline_spec(e, text@, location_of_spec(span), SoftBreaks::Fill).1
                    },
                    None => {
                        assert(st + e1 + e =~= st + e1);
                        assert(e1 + e =~= e1);
                        e
                    },
                };
                lemma_items_appends(st + e1 + e2, s.drop_first());
                lemma_items_appends(e1 + e2, s.drop_first());
                let e3 = map_items(e, s.drop_first()).1;
                assert(st + e1 + e2 + e3 =~= st + (e1 + e2 + e3));
            },
            _ => {
                lemma_items_appends(st, s.drop_first());
            },
        }
    }
}

/// Mapping a run of blocks keeps every report made before it and only adds
/// its own, and what it makes of the blocks, and reports of them, do not
/// depend on what was reported before: nothing recognised and left out is
/// ever dropped from the report.
pub proof fn lemma_mapping_only_adds_reports(st: Seq<SkipView>, blocks: Seq<SourceBlock>)
    ensures
        map_blocks(st, blocks).0 == map_blocks(Seq::empty(), blocks).0,
        map_blocks(st, blocks).1 == st + map_blocks(Seq::empty(), blocks).1,
{
    lemma_blocks_appends(st, blocks);
}

// ---------------------------------------------------------------------------
// The mapping
// ---------------------------------------------------------------------------

/// The location a span stands for.
pub fn location_of(span: SourceSpan) -> (r: SourceLocation)
    ensures
        r == location_of_spec(span),
{
    SourceLocation {
        line: if span.line <= u32::MAX as usize { span.line as u32 } else { 1 },
        column: if span.col <= u32::MAX as usize { span.col as u32 } else { 1 },
    }
}

/// How a block the renderer does not map is named in the report.
pub fn describe(kind: OtherKind) -> (r: &'static str)
    ensures
        r@ == describe_spec(kind),
{
    match kind {
        OtherKind::Media => "image, video or audio block",
        OtherKind::Table => "table",
        OtherKind::TableOfContents => "table of contents",
        OtherKind::Unknown => "block",
    }
}

/// `s` without the white space it ends with.
fn trimmed_end(s: &str) -> (r: String)
    ensures
        r@ == trim_end(s@),
{
    let cs = chars_of(s);
    let mut n: usize = cs.len();
    proof { assert(cs@.take(cs.len() as int) =~= cs@); }
    while n > 0 && crate::text::char_is_whitespace(cs[n - 1])
        invariant
            n <= cs.len(),
            cs@ == s@,
            trim_end(cs@.take(n as int)) == trim_end(s@),
        decreases n,
    {
        proof { assert(cs@.take(n as int).drop_last() =~= cs@.take(n - 1)); }
        n = n - 1;
    }
    proof {
        if n > 0 {
            assert(cs@.take(n as int).last() == cs@[n - 1]);
        }
    }
    let mut out = String::new();
    let mut i: usize = 0;
    while i < n
        invariant
            i <= n <= cs.len(),
            out@ == cs@.take(i as int),
        decreases n - i,
    {
        crate::text::push_char(&mut out, cs[i]);
        i = i + 1;
        proof { assert(out@ =~= cs@.take(i as int)); }
    }
    out
}

/// The text of a verbatim block.
fn verbatim_text(rendered: &str) -> (r: String)
    ensures
        r@ == verbatim_text_spec(rendered@),
{
    let trimmed = trimmed_end(rendered);
    decode_preserving_text(trimmed.as_str()).text.plain_text()
}

/// The skip naming a role.
fn role_construct(role: &String) -> (r: String)
    ensures
        r@ == "role "@ + debug_quoted(role@),
{
    let mut out = String::from_str("role ");
    push_debug_quoted(&mut out, role.as_str());
    out
}

/// Walks parsed blocks, collecting what it cannot map.
pub struct Mapper {
    skipped: Vec<SkippedConstruct>,
}

impl Mapper {
    /// What was left out so far, in specifications.
    pub closed spec fn skipped_spec(&self) -> Seq<SkipView> {
        skips_view(self.skipped@)
    }

    /// A mapper that has left nothing out yet.
    pub fn new() -> (r: Mapper)
        ensures
            r.skipped_spec() == Seq::<SkipView>::empty(),
    {
        let r = Mapper { skipped: Vec::new() };
        assert(skips_view(r.skipped@) =~= Seq::<SkipView>::empty());
        r
    }

    /// Everything left out, in document order.
    pub fn into_skipped(self) -> (r: Vec<SkippedConstruct>)
        ensures
            skips_view(r@) == self.skipped_spec(),
    {
        self.skipped
    }

    /// Reports `construct` at `location`.
    pub fn skip(&mut self, construct: String, location: SourceLocation)
        ensures
            final(self).skipped_spec() == old(self).skipped_spec().push((construct@, location)),
    {
        let ghost before = self.skipped@;
        self.skipped.push(SkippedConstruct { construct, location });
        proof {
            assert(skips_view(self.skipped@) =~= skips_view(before).push((construct@, location)));
        }
    }

    /// Decodes rendered inline content, reporting each construct it did not
    /// honour at `location`.
    pub fn inline(&mut self, rendered: &str, location: SourceLocation, soft_breaks: SoftBreaks) -> (r: InlineText)
        ensures
            (r@, final(self).skipped_spec()) == inline_spec(old(self).skipped_spec(), rendered@, location, soft_breaks),
    {
        let decoded = match soft_breaks {
            SoftBreaks::Fill => decode(rendered),
            SoftBreaks::Keep => decode_keeping_line_breaks(rendered),
            SoftBreaks::Preserve => decode_preserving_text(rendered),
        };
        let ghost start = self.skipped_spec();
        let ghost names = strings_view(decoded.unsupported@);
        let mut i: usize = 0;
        while i < decoded.unsupported.len()
            invariant
                i <= decoded.unsupported@.len(),
                names == strings_view(decoded.unsupported@),
                self.skipped_spec() == start + placed(names.take(i as int), location),
            decreases decoded.unsupported.len() - i,
        {
            let name = decoded.unsupported[i].clone();
            self.skip(name, location);
            proof {
                assert(names[i as int] == decoded.unsupported@[i as int]@);
                assert(placed(names.take(i + 1), location) =~= placed(names.take(i as int), location).push((names[i as int], location)));
                assert(self.skipped_spec() =~= start + placed(names.take(i + 1), location));
            }
            i = i + 1;
        }
        proof {
            assert(names.take(i as int) =~= names);
        }
        decoded.text
    }

    /// Wraps a mapped block in its title, if it has one.
    fn titled(&mut self, block: Block, title: &Option<String>, span: SourceSpan) -> (r: Vec<Block>)
        ensures
            (blocks_view(r@), final(self).skipped_spec()) == titled_spec(old(self).skipped_spec(), block_view(block), *title, span),
    {
        match title {
            Some(t) => {
                let text = self.inline(t.as_str(), location_of(span), SoftBreaks::Fill);
                let titled = Block::Titled { title: text, block: Box::new(block) };
                let r = vec![titled];
                proof { lemma_blocks_view_single(titled); assert(r@ =~= seq![titled]); }
                r
            },
            None => {
                let r = vec![block];
                proof { lemma_blocks_view_single(block); assert(r@ =~= seq![block]); }
                r
            },
        }
    }

    /// Reads a paragraph's roles for how it asked to be set.
    fn paragraph_presentation(&mut self, roles: &Vec<String>, location: SourceLocation) -> (r: ParagraphPresentation)
        ensures
            (r, final(self).skipped_spec()) == paragraph_presentation_spec(old(self).skipped_spec(), roles@, location),
    {
        let ghost start = self.skipped_spec();
        let mut p = ParagraphPresentation::body();
        let mut i: usize = 0;
        proof { assert(roles@.take(0) =~= Seq::<String>::empty()); }
        while i < roles.len()
            invariant
                i <= roles@.len(),
                (p, self.skipped_spec()) == paragraph_presentation_spec(start, roles@.take(i as int), location),
            decreases roles.len() - i,
        {
            proof {
                assert(roles@.take(i + 1).drop_last() =~= roles@.take(i as int));
                assert(roles@.take(i + 1).last() == roles@[i as int]);
                reveal_strlit("lead");
            }
            let role = &roles[i];
            if crate::text::str_eq(role.as_str(), "lead") {
                p = p.as_lead();
            } else {
                match Alignment::from_role(role.as_str()) {
                    Some(a) => {
                        p = p.with_alignment(a);
                    },
                    None => {
                        let c = role_construct(role);
                        self.skip(c, location);
                    },
                }
            }
            i = i + 1;
        }
        proof { assert(roles@.take(i as int) =~= roles@); }
        p
    }

    /// Reads a list's declarations for how it asked to be set.
    fn list_presentation(
        &mut self,
        checklist: bool,
        has_attributes: bool,
        style: &Option<String>,
        start: &Option<String>,
        roles: &Vec<String>,
        location: SourceLocation,
    ) -> (r: ListPresentation)
        ensures
            (r, final(self).skipped_spec()) == list_presentation_spec(
                old(self).skipped_spec(), checklist, has_attributes, *style, *start, roles@, location,
            ),
    {
        let mut p = ListPresentation::stacked();
        if checklist {
            p = p.with_form(ListForm::Checklist);
        }
        if has_attributes {
            match style {
                Some(s) => match ListMarker::from_style(s.as_str()) {
                    Some(m) => {
                        p = p.with_marker(m);
                    },
                    None => match ListForm::from_style(s.as_str()) {
                        Some(f) => {
                            p = p.with_form(f);
                        },
                        None => {
                            let mut c = String::from_str("list style ");
                            push_debug_quoted(&mut c, s.as_str());
                            self.skip(c, location);
                        },
                    },
                },
                None => {},
            }
            match start {
                Some(v) => match ListStart::parse(v.as_str()) {
                    Ok(declared) => {
                        p = p.with_start(declared);
                    },
                    Err(error) => {
                        let c = error.message();
                        self.skip(c, location);
                    },
                },
                None => {},
            }
        }
        let ghost mid = self.skipped_spec();
        let mut i: usize = 0;
        proof { assert(roles@.take(0) =~= Seq::<String>::empty()); }
        while i < roles.len()
            invariant
                i <= roles@.len(),
                self.skipped_spec() == role_skips(mid, roles@.take(i as int), location),
            decreases roles.len() - i,
        {
            proof {
                assert(roles@.take(i + 1).drop_last() =~= roles@.take(i as int));
                assert(roles@.take(i + 1).last() == roles@[i as int]);
            }
            let c = role_construct(&roles[i]);
            self.skip(c, location);
            i = i + 1;
        }
        proof { assert(roles@.take(i as int) =~= roles@); }
        p
    }

    /// Reads a section's declared theme; a malformed name is reported.
    fn declared_theme(&mut self, theme: &Option<String>, location: SourceLocation) -> (r: Option<ThemeId>)
        ensures
            ((match r {
                Some(id) => Some(id.id_spec()),
                None => None::<Seq<char>>,
            }), final(self).skipped_spec()) == declared_theme_spec(old(self).skipped_spec(), *theme, location),
    {
        match theme {
            None => None,
            Some(v) => match ThemeId::new(v.as_str()) {
                Ok(id) => Some(id),
                Err(error) => {
                    let mut c = String::from_str("theme attribute ");
                    push_debug_quoted(&mut c, v.as_str());
                    c.append(" (");
                    let m = error.message();
                    c.append(m.as_str());
                    c.append(")");
                    self.skip(c, location);
                    None
                },
            },
        }
    }

    /// Maps a run of parsed blocks in order.
    pub fn map_blocks(&mut self, blocks: &Vec<SourceBlock>) -> (r: Vec<Block>)
        ensures
            (blocks_view(r@), final(self).skipped_spec()) == map_blocks(old(self).skipped_spec(), blocks@),
        decreases blocks, 0int,
    {
        let ghost start = self.skipped_spec();
        let mut out: Vec<Block> = Vec::new();
        let mut i: usize = 0;
        proof {
            assert(blocks@.skip(0) =~= blocks@);
            assert(blocks_view(out@) =~= Seq::<BlockView>::empty());
            assert(Seq::<BlockView>::empty() + map_blocks(start, blocks@).0 =~= map_blocks(start, blocks@).0);
        }
        while i < blocks.len()
            invariant
                i <= blocks@.len(),
                blocks_view(out@) + map_blocks(self.skipped_spec(), blocks@.skip(i as int)).0 == map_blocks(start, blocks@).0,
                map_blocks(self.skipped_spec(), blocks@.skip(i as int)).1 == map_blocks(start, blocks@).1,
            decreases blocks.len() - i,
        {
            let ghost st = self.skipped_spec();
            let ghost rest = blocks@.skip(i as int);
            proof {
                assert(rest[0] == blocks@[i as int]);
                assert(rest.drop_first() =~= blocks@.skip(i + 1));
            }
            assert(decreases_to!(blocks => blocks@[i as int]));
            let mut mapped = self.map_block(&blocks[i]);
            let ghost before = out@;
            let ghost m = mapped@;
            out.append(&mut mapped);
            proof {
                lemma_blocks_view_concat(before, m);
                assert(out@ =~= before + m);
                let (first, st1) = map_block(st, rest[0]);
                let (tail, st2) = map_blocks(st1, rest.drop_first());
                assert(map_blocks(st, rest) == (first + tail, st2));
                assert(blocks_view(out@) + tail =~= blocks_view(before) + (first + tail));
            }
            i = i + 1;
        }
        proof {
            assert(blocks@.skip(i as int) =~= Seq::<SourceBlock>::empty());
            assert(blocks_view(out@) + Seq::<BlockView>::empty() =~= blocks_view(out@));
        }
        out
    }

    /// Maps the items of a list in order, passing over any child that is not
    /// an item.
    fn map_items(&mut self, children: &Vec<SourceBlock>) -> (r: Vec<ListItem>)
        ensures
            (list_items_view(r@), final(self).skipped_spec()) == map_items(old(self).skipped_spec(), children@),
        decreases children, 0int,
    {
        let ghost start = self.skipped_spec();
        let mut out: Vec<ListItem> = Vec::new();
        let mut i: usize = 0;
        proof {
            assert(children@.skip(0) =~= children@);
            assert(list_items_view(out@) =~= Seq::<ItemView>::empty());
            assert(Seq::<ItemView>::empty() + map_items(start, children@).0 =~= map_items(start, children@).0);
        }
        while i < children.len()
            invariant
                i <= children@.len(),
                list_items_view(out@) + map_items(self.skipped_spec(), children@.skip(i as int)).0 == map_items(start, children@).0,
                map_items(self.skipped_spec(), children@.skip(i as int)).1 == map_items(start, children@).1,
            decreases children.len() - i,
        {
            let ghost st = self.skipped_spec();
            let ghost rest = children@.skip(i as int);
            proof {
                assert(rest[0] == children@[i as int]);
                assert(rest.drop_first() =~= children@.skip(i + 1));
            }
            assert(decreases_to!(children => children@[i as int]));
            match &children[i] {
                SourceBlock::ListItem { children: body, term, checkbox, .. } => {
                    let mapped = self.map_blocks(body);
                    let mut item = ListItem::new(mapped);
                    match term {
                        Some((text, span)) => {
                            let t = self.inline(text.as_str(), location_of(*span), SoftBreaks::Fill);
                            item = item.with_term(t);
                        },
                        None => {},
                    }
                    match checkbox {
                        Some(checked) => {
                            item = item.with_checkbox(*checked);
                        },
                        None => {},
                    }
                    let ghost before = out@;
                    proof { lemma_list_items_view_push(before, item); }
                    out.push(item);
                    proof {
                        let (tail, st3) = map_items(self.skipped_spec(), rest.drop_first());
                        assert(list_items_view(out@) + tail =~= list_items_view(before) + (seq![list_item_view(item)] + tail));
                    }
                },
                _ => {},
            }
            i = i + 1;
        }
        proof {
            assert(children@.skip(i as int) =~= Seq::<SourceBlock>::empty());
            assert(list_items_view(out@) + Seq::<ItemView>::empty() =~= list_items_view(out@));
        }
        out
    }

    /// Maps one parsed block into the blocks it becomes: none for a comment,
    /// a document attribute or a construct that is reported instead, several
    /// for a preamble.
    pub fn map_block(&mut self, b: &SourceBlock) -> (r: Vec<Block>)
        ensures
            (blocks_view(r@), final(self).skipped_spec()) == map_block(old(self).skipped_spec(), *b),
        decreases b, 0int,
    {
        match b {
            SourceBlock::Simple { style, rendered, roles, title, span } => {
                let location = location_of(*span);
                match style {
                    SimpleStyle::Paragraph => {
                        let trimmed = trimmed_end(rendered.as_str());
                        let text = self.inline(trimmed.as_str(), location, SoftBreaks::Fill);
                        if text.is_empty() {
                            return Vec::new();
                        }
                        let presentation = self.paragraph_presentation(roles, location);
                        self.titled(Block::Paragraph(Paragraph::new(text).with_presentation(presentation)), title, *span)
                    },
                    _ => {
                        let kind = match style {
                            SimpleStyle::Listing => VerbatimKind::Listing,
                            SimpleStyle::Source => VerbatimKind::Source,
                            _ => VerbatimKind::Literal,
                        };
                        let content = verbatim_text(rendered.as_str());
                        self.titled(Block::Verbatim(Verbatim::new(kind, content.as_str())), title, *span)
                    },
                }
            },
            SourceBlock::FloatingTitle { title, level, span } => {
                let text = self.inline(title.as_str(), location_of(*span), SoftBreaks::Fill);
                let block = Block::Heading { text, level: clamp_level(*level) };
                let r = vec![block];
                proof { lemma_blocks_view_single(block); assert(r@ =~= seq![block]); }
                r
            },
            SourceBlock::Section { title, level, theme, children, span } => {
                let location = location_of(*span);
                let heading = self.inline(title.as_str(), location, SoftBreaks::Fill);
                let id = self.declared_theme(theme, location);
                let body = self.map_blocks(children);
                let block = Block::Section(crate::document::Section::from_parts(heading, clamp_level(*level), id, body));
                let r = vec![block];
                proof { lemma_blocks_view_single(block); assert(r@ =~= seq![block]); }
                r
            },
            SourceBlock::RawDelimited { context, rendered, title, span } => {
                proof {
                    reveal_strlit("comment");
                    reveal_strlit("literal");
                    reveal_strlit("source");
                }
                if crate::text::str_eq(context.as_str(), "comment") {
                    return Vec::new();
                }
                let kind = if crate::text::str_eq(context.as_str(), "literal") {
                    VerbatimKind::Literal
                } else if crate::text::str_eq(context.as_str(), "source") {
                    VerbatimKind::Source
                } else {
                    VerbatimKind::Listing
                };
                let content = verbatim_text(rendered.as_str());
                self.titled(Block::Verbatim(Verbatim::new(kind, content.as_str())), title, *span)
            },
            SourceBlock::Admonition { kind, content, children, title, span } => {
                let body = match content {
                    Some(c) => {
                        let trimmed = trimmed_end(c.as_str());
                        let text = self.inline(trimmed.as_str(), location_of(*span), SoftBreaks::Fill);
                        let p = Block::Paragraph(Paragraph::new(text));
                        let r = vec![p];
                        proof { lemma_blocks_view_single(p); assert(r@ =~= seq![p]); }
                        r
                    },
                    None => self.map_blocks(children),
                };
                self.titled(Block::Admonition(Admonition::new(*kind, body)), title, *span)
            },
            SourceBlock::Quote { kind, content, children, attribution, citation, title, span } => {
                let location = location_of(*span);
                let body = match content {
                    Some(c) => {
                        let trimmed = trimmed_end(c.as_str());
                        let breaks = match kind {
                            QuotationKind::Verse => SoftBreaks::Keep,
                            _ => SoftBreaks::Fill,
                        };
                        let text = self.inline(trimmed.as_str(), location, breaks);
                        let p = Block::Paragraph(Paragraph::new(text));
                        let r = vec![p];
                        proof { lemma_blocks_view_single(p); assert(r@ =~= seq![p]); }
                        r
                    },
                    None => self.map_blocks(children),
                };
                let mut quotation = Quotation::new(*kind, body);
                match attribution {
                    Some(a) => {
                        let t = self.inline(a.as_str(), location, SoftBreaks::Fill);
                        quotation = quotation.with_attribution(t);
                    },
                    None => {},
                }
                match citation {
                    Some(c) => {
                        let t = self.inline(c.as_str(), location, SoftBreaks::Fill);
                        quotation = quotation.with_citation(t);
                    },
                    None => {},
                }
                self.titled(Block::Quotation(quotation), title, *span)
            },
            SourceBlock::Compound { kind, children, title, span } => {
                let body = self.map_blocks(children);
                self.titled(Block::Container(Container::new(*kind, body)), title, *span)
            },
            SourceBlock::Break(k) => {
                let block = Block::Break(*k);
                let r = vec![block];
                proof { lemma_blocks_view_single(block); assert(r@ =~= seq![block]); }
                r
            },
            SourceBlock::List { kind, children, checklist, has_attributes, style, start, roles, title, span } => {
                let items = self.map_items(children);
                let presentation = self.list_presentation(*checklist, *has_attributes, style, start, roles, location_of(*span));
                self.titled(Block::List(List::new(*kind, items).with_presentation(presentation)), title, *span)
            },
            SourceBlock::ListItem { span, .. } => {
                self.skip(String::from_str("list item"), location_of(*span));
                Vec::new()
            },
            SourceBlock::Preamble { children } => self.map_blocks(children),
            SourceBlock::DocumentAttribute => Vec::new(),
            SourceBlock::Other { kind, span } => {
                self.skip(describe(*kind).to_owned(), location_of(*span));
                Vec::new()
            },
        }
    }
}

/// The report of a reference to an attribute that is not set.
pub open spec fn missing_attribute_spec(name: Seq<char>) -> Seq<char> {
    "reference to attribute "@ + debug_quoted(name) + ", which is not set"@
}

/// The reports of references to attributes that are not set, in order.
pub open spec fn missing_skips(missing: Seq<(String, SourceSpan)>) -> Seq<SkipView> {
    missing.map_values(|m: (String, SourceSpan)| (missing_attribute_spec(m.0@), location_of_spec(m.1)))
}

/// What parsing a document produces: its title, its blocks, and everything
/// left out. The title's constructs are reported first, then those of the
/// blocks in order, then each reference to an attribute that was not set.
pub open spec fn map_document_spec(title: Option<String>, blocks: Seq<SourceBlock>, missing: Seq<(String, SourceSpan)>) -> (Option<Seq<InlineView>>, Seq<BlockView>, Seq<SkipView>) {
    let start = SourceLocation { line: 1, column: 1 };
    let (t, st1) = match title {
        Some(t) => {
            let (v, s) = inline_spec(Seq::empty(), t@, start, SoftBreaks::Fill);
            (Some(v), s)
        },
        None => (None, Seq::empty()),
    };
    let (body, st2) = map_blocks(st1, blocks);
    (t, body, st2 + missing_skips(missing))
}

/// Maps a parsed document: its title (rendered inline content), its blocks,
/// and the attribute references the parser could not resolve.
pub fn map_document(title: &Option<String>, blocks: &Vec<SourceBlock>, missing: &Vec<(String, SourceSpan)>) -> (r: ParseOutcome)
    ensures
        ({
            let (t, body, skipped) = map_document_spec(*title, blocks@, missing@);
            &&& text_option_view(r.document.title_spec()) == t
            &&& blocks_view(r.document.body_spec()) == body
            &&& skips_view(r.skipped@) == skipped
        }),
{
    let mut mapper = Mapper::new();
    let t = match title {
        Some(t) => Some(mapper.inline(t.as_str(), SourceLocation::start(), SoftBreaks::Fill)),
        None => None,
    };
    let body = mapper.map_blocks(blocks);
    let ghost mid = mapper.skipped_spec();
    let mut i: usize = 0;
    while i < missing.len()
        invariant
            i <= missing@.len(),
            mapper.skipped_spec() == mid + missing_skips(missing@.take(i as int)),
        decreases missing.len() - i,
    {
        let (name, span) = &missing[i];
        let mut c = String::from_str("reference to attribute ");
        push_debug_quoted(&mut c, name.as_str());
        c.append(", which is not set");
        mapper.skip(c, location_of(*span));
        proof {
            assert(missing_skips(missing@.take(i + 1)) =~= missing_skips(missing@.take(i as int)).push(
                (missing_attribute_spec(missing@[i as int].0@), location_of_spec(missing@[i as int].1)),
            ));
        }
        i = i + 1;
    }
    proof { assert(missing@.take(i as int) =~= missing@); }
    let skipped = mapper.into_skipped();
    ParseOutcome { document: Document::from_parts(t, body), skipped }
}

/// A block with its title, if it has one, taken off.
pub open spec fn untitled(v: BlockView) -> BlockView {
    match v {
        BlockView::Titled { block, .. } => *block,
        _ => v,
    }
}

/// A delimited admonition, quotation or container maps to exactly one block
/// (under its title, if it has one) of the same kind whose body is what its
/// child blocks map to, in order, from the reports made before it: nothing a
/// child holds is lost and nothing is added. An admonition or quotation whose
/// content is a paragraph of inline text has that paragraph as its body, and
/// a paragraph with text a reader can see maps to exactly one paragraph
/// holding that text.
pub proof fn lemma_delimited_blocks_keep_their_children(st: Seq<SkipView>, b: SourceBlock)
    ensures
        match b {
            SourceBlock::Admonition { kind, content, children, .. } => {
                let mapped = map_block(st, b).0;
                &&& mapped.len() == 1
                &&& untitled(mapped[0]) matches BlockView::Admonition { kind: k, body }
                &&& k == kind
                &&& content is None ==> body == map_blocks(st, children@).0
                &&& content is Some ==> body.len() == 1 && body[0] is Paragraph
            },
            SourceBlock::Quote { kind, content, children, .. } => {
                let mapped = map_block(st, b).0;
                &&& mapped.len() == 1
                &&& untitled(mapped[0]) matches BlockView::Quotation { kind: k, body, .. }
                &&& k == kind
                &&& content is None ==> body == map_blocks(st, children@).0
                &&& content is Some ==> body.len() == 1 && body[0] is Paragraph
            },
            SourceBlock::Compound { kind, children, .. } => {
                let mapped = map_block(st, b).0;
                &&& mapped.len() == 1
                &&& untitled(mapped[0]) == (BlockView::Container { kind, body: map_blocks(st, children@).0 })
            },
            SourceBlock::Simple { style: SimpleStyle::Paragraph, rendered, span, .. } => {
                let text = inline_spec(st, trim_end(rendered@), location_of_spec(span), SoftBreaks::Fill).0;
                let mapped = map_block(st, b).0;
                views_plain(text).len() > 0 ==> mapped.len() == 1
                    && (untitled(mapped[0]) matches BlockView::Paragraph { text: t, .. } && t == text)
            },
            _ => true,
        },
{
}

/// Mapping one block as a run is mapping that block.
pub proof fn lemma_a_run_of_one_block(st: Seq<SkipView>, b: SourceBlock)
    ensures
        map_blocks(st, seq![b]) == map_block(st, b),
{
    let (first, st1) = map_block(st, b);
    assert(seq![b].drop_first() =~= Seq::<SourceBlock>::empty());
    assert(seq![b][0] == b);
    assert(map_blocks(st1, Seq::<SourceBlock>::empty()) == (Seq::<BlockView>::empty(), st1));
    assert(first + Seq::<BlockView>::empty() =~= first);
    assert(map_blocks(st, seq![b]) == (first + Seq::<BlockView>::empty(), st1));
}

/// Mapping two runs one after the other is mapping them joined: the blocks
/// follow one another, and the second run starts from the reports the first
/// left.
pub proof fn lemma_runs_map_in_order(st: Seq<SkipView>, a: Seq<SourceBlock>, b: Seq<SourceBlock>)
    ensures
        map_blocks(st, a + b).0 == map_blocks(st, a).0 + map_blocks(map_blocks(st, a).1, b).0,
        map_blocks(st, a + b).1 == map_blocks(map_blocks(st, a).1, b).1,
    decreases a.len(),
{
    if a.len() == 0 {
        assert(a + b =~= b);
        assert(Seq::<BlockView>::empty() + map_blocks(st, b).0 =~= map_blocks(st, b).0);
    } else {
        assert((a + b)[0] == a[0]);
        assert((a + b).drop_first() =~= a.drop_first() + b);
        let (first, st1) = map_block(st, a[0]);
        lemma_runs_map_in_order(st1, a.drop_first(), b);
        let r1 = map_blocks(st1, a.drop_first());
        assert(first + (r1.0 + map_blocks(r1.1, b).0) =~= (first + r1.0) + map_blocks(r1.1, b).0);
    }
}

} // verus!
