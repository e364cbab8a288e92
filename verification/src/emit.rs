//! Turning a layout plan into typesetting markup.
//!
//! Two rules govern everything here. Text from the source reaches the markup
//! only as a string literal, through `content_expression` and
//! `string_literal`. Everything else written is this module's own closed
//! vocabulary of calls, and the measurements handed in with the style book,
//! which are lengths already written in the typesetting language.
//!
//! Everything is emitted in code mode, as function calls, so nothing depends on
//! the whitespace- and position-sensitive markup syntax.

use vstd::prelude::*;
use crate::document::{
    admonition_label, AdmonitionKind, BreakKind, ContainerKind, InlineText, InlineView, ListKind,
    QuotationKind, Verbatim,
};
use crate::fmt::{decimal, push_decimal};
use crate::markup::{
    attribution_expression, attribution_spec, content_expression, content_expression_spec,
    list_element, list_element_spec, literal_spec, string_literal,
};
use crate::plan::{
    group_view, item_view, items_view, GroupKind, GroupView, LayoutPlan, PlanItem, PlanView,
};
use crate::theme::{Theme, ThemeTransition};

verus! {

/// How one typography sets text: its faces and switches, and every length the
/// markup needs, already written as lengths of the typesetting language.
#[derive(Debug, Clone, PartialEq, Eq)]
pub struct TypeSetting {
    /// The typography this setting is for.
    pub key: u64,
    /// The body face.
    pub family: String,
    /// The face monospaced content is set in.
    pub monospace_family: String,
    /// The language hyphenation follows, if the typography names one.
    pub language: Option<String>,
    /// How strongly widows and orphans are avoided, in percent.
    pub avoidance_percent: u32,
    /// Whether body text is set flush to both margins.
    pub justified: bool,
    /// The body text size; also the gap after the title, around a thematic
    /// break, and to the left of an admonition.
    pub size: String,
    /// The distance between lines of body text.
    pub leading: String,
    /// The size the document title is set at.
    pub title_size: String,
    /// The size of each heading level, the first level first.
    pub heading_sizes: Vec<String>,
    /// The space above a block title.
    pub block_title_above: String,
    /// The space below a block title.
    pub block_title_below: String,
    /// The inset around verbatim content.
    pub verbatim_inset: String,
    /// The inset above and below an admonition.
    pub admonition_inset: String,
    /// The inset on either side of a quotation.
    pub quotation_inset: String,
    /// The leading of verse.
    pub verse_leading: String,
    /// The inset inside an example or a sidebar.
    pub container_inset: String,
    /// The space above a quotation's attribution.
    pub attribution_above: String,
}

/// The size of a page and its margins, as lengths of the typesetting language.
#[derive(Debug, Clone, PartialEq, Eq)]
pub struct PageSetting {
    /// The geometry this setting is for.
    pub key: u64,
    /// The page width.
    pub width: String,
    /// The page height.
    pub height: String,
    /// The top margin.
    pub top: String,
    /// The right margin.
    pub right: String,
    /// The bottom margin.
    pub bottom: String,
    /// The left margin.
    pub left: String,
}

/// What each theme key is set with: a key the book does not list is set with
/// the book's defaults.
#[derive(Debug, Clone, PartialEq, Eq)]
pub struct StyleBook {
    /// The typography used for a typography key the book does not list.
    pub default_type: TypeSetting,
    /// The page used for a geometry key the book does not list.
    pub default_page: PageSetting,
    /// The typographies, by key; the first listing of a key counts.
    pub types: Vec<TypeSetting>,
    /// The pages, by key; the first listing of a key counts.
    pub pages: Vec<PageSetting>,
}

// ---------------------------------------------------------------------------
// Looking settings up
// ---------------------------------------------------------------------------

/// The first typography listed under `key`, if any.
pub open spec fn find_type(s: Seq<TypeSetting>, key: u64) -> Option<TypeSetting>
    decreases s.len(),
{
    if s.len() == 0 {
        None
    } else if s[0].key == key {
        Some(s[0])
    } else {
        find_type(s.drop_first(), key)
    }
}

/// The first page listed under `key`, if any.
pub open spec fn find_page(s: Seq<PageSetting>, key: u64) -> Option<PageSetting>
    decreases s.len(),
{
    if s.len() == 0 {
        None
    } else if s[0].key == key {
        Some(s[0])
    } else {
        find_page(s.drop_first(), key)
    }
}

/// The typography a key is set with.
pub open spec fn type_of(book: StyleBook, key: u64) -> TypeSetting {
    match find_type(book.types@, key) {
        Some(t) => t,
        None => book.default_type,
    }
}

/// The page a key is set with.
pub open spec fn page_of(book: StyleBook, key: u64) -> PageSetting {
    match find_page(book.pages@, key) {
        Some(p) => p,
        None => book.default_page,
    }
}

fn lookup_type<'a>(book: &'a StyleBook, key: u64) -> (r: &'a TypeSetting)
    ensures
        *r == type_of(*book, key),
{
    let mut i: usize = 0;
    assert(book.types@.skip(0) =~= book.types@);
    while i < book.types.len()
        invariant
            i <= book.types@.len(),
            find_type(book.types@, key) == find_type(book.types@.skip(i as int), key),
        decreases book.types.len() - i,
    {
        proof {
            assert(book.types@.skip(i as int)[0] == book.types@[i as int]);
            assert(book.types@.skip(i as int).drop_first() =~= book.types@.skip(i + 1));
        }
        if book.types[i].key == key {
            return &book.types[i];
        }
        i = i + 1;
    }
    &book.default_type
}

fn lookup_page<'a>(book: &'a StyleBook, key: u64) -> (r: &'a PageSetting)
    ensures
        *r == page_of(*book, key),
{
    let mut i: usize = 0;
    assert(book.pages@.skip(0) =~= book.pages@);
    while i < book.pages.len()
        invariant
            i <= book.pages@.len(),
            find_page(book.pages@, key) == find_page(book.pages@.skip(i as int), key),
        decreases book.pages.len() - i,
    {
        proof {
            assert(book.pages@.skip(i as int)[0] == book.pages@[i as int]);
            assert(book.pages@.skip(i as int).drop_first() =~= book.pages@.skip(i + 1));
        }
        if book.pages[i].key == key {
            return &book.pages[i];
        }
        i = i + 1;
    }
    &book.default_page
}

// ---------------------------------------------------------------------------
// Page and text settings
// ---------------------------------------------------------------------------

/// The instruction that sets the page.
pub open spec fn page_markup(p: PageSetting) -> Seq<char> {
    "#set page(width: "@ + p.width@ + ", height: "@ + p.height@ + ", margin: (top: "@ + p.top@ + ", right: "@
        + p.right@ + ", bottom: "@ + p.bottom@ + ", left: "@ + p.left@ + "))\n"@
}

/// The language argument of the text instruction, if the typography names a
/// language.
pub open spec fn language_markup(t: TypeSetting) -> Seq<char> {
    match t.language {
        Some(l) => ", lang: "@ + literal_spec(l@),
        None => Seq::empty(),
    }
}

/// The instruction that sets body text.
pub open spec fn text_line(t: TypeSetting) -> Seq<char> {
    "#set text(font: "@ + literal_spec(t.family@) + ", size: "@ + t.size@ + language_markup(t) + ", costs: (orphan: "@
        + decimal(t.avoidance_percent as nat) + "%, widow: "@ + decimal(t.avoidance_percent as nat) + "%))\n"@
}

/// The rule that sets verbatim content in the monospace face: the engine's
/// own verbatim element names a face of its own, which would otherwise win.
pub open spec fn raw_line(t: TypeSetting) -> Seq<char> {
    "#show raw: set text(font: "@ + literal_spec(t.monospace_family@) + ")\n"@
}

/// The instruction that sets paragraphs: optimal line breaking is asked for
/// whether or not the text is justified.
pub open spec fn par_line(t: TypeSetting) -> Seq<char> {
    "#set par(leading: "@ + t.leading@ + ", linebreaks: \"optimized\", justify: "@
        + (if t.justified { "true"@ } else { "false"@ }) + ")\n"@
}

/// The instructions that set body text, verbatim text and paragraphs.
pub open spec fn text_style_markup(t: TypeSetting) -> Seq<char> {
    text_line(t) + raw_line(t) + par_line(t)
}

fn push(out: &mut String, s: &str)
    ensures
        final(out)@ == old(out)@ + s@,
{
    out.append(s);
}

fn push_page(out: &mut String, p: &PageSetting)
    ensures
        final(out)@ == old(out)@ + page_markup(*p),
{
    let ghost start = out@;
    push(out, "#set page(width: ");
    push(out, p.width.as_str());
    push(out, ", height: ");
    push(out, p.height.as_str());
    push(out, ", margin: (top: ");
    push(out, p.top.as_str());
    push(out, ", right: ");
    push(out, p.right.as_str());
    push(out, ", bottom: ");
    push(out, p.bottom.as_str());
    push(out, ", left: ");
    push(out, p.left.as_str());
    push(out, "))\n");
    proof {
        reveal_strlit("#set page(width: ");
        reveal_strlit(", height: ");
        reveal_strlit(", margin: (top: ");
        reveal_strlit(", right: ");
        reveal_strlit(", bottom: ");
        reveal_strlit(", left: ");
        reveal_strlit("))\n");
        assert(out@ =~= start + page_markup(*p));
    }
}

fn push_text_line(out: &mut String, t: &TypeSetting)
    ensures
        final(out)@ == old(out)@ + text_line(*t),
{
    let ghost start = out@;
    push(out, "#set text(font: ");
    let family = string_literal(t.family.as_str());
    push(out, family.as_str());
    push(out, ", size: ");
    push(out, t.size.as_str());
    let ghost before_language = out@;
    match &t.language {
        Some(l) => {
            push(out, ", lang: ");
            let literal = string_literal(l.as_str());
            push(out, literal.as_str());
        },
        None => {},
    }
    proof {
        reveal_strlit(", lang: ");
        assert(out@ =~= before_language + language_markup(*t));
    }
    push(out, ", costs: (orphan: ");
    push_decimal(out, t.avoidance_percent as u64);
    push(out, "%, widow: ");
    push_decimal(out, t.avoidance_percent as u64);
    push(out, "%))\n");
    proof {
        reveal_strlit("#set text(font: ");
        reveal_strlit(", size: ");
        reveal_strlit(", costs: (orphan: ");
        reveal_strlit("%, widow: ");
        reveal_strlit("%))\n");
        assert(out@ =~= start + text_line(*t));
    }
}

fn push_text_style(out: &mut String, t: &TypeSetting)
    ensures
        final(out)@ == old(out)@ + text_style_markup(*t),
{
    let ghost start = out@;
    push_text_line(out, t);
    let ghost after_text = out@;
    push(out, "#show raw: set text(font: ");
    let mono = string_literal(t.monospace_family.as_str());
    push(out, mono.as_str());
    push(out, ")\n");
    proof {
        reveal_strlit("#show raw: set text(font: ");
        reveal_strlit(")\n");
        assert(out@ =~= after_text + raw_line(*t));
    }
    let ghost after_raw = out@;
    push(out, "#set par(leading: ");
    push(out, t.leading.as_str());
    push(out, ", linebreaks: \"optimized\", justify: ");
    if t.justified {
        push(out, "true");
    } else {
        push(out, "false");
    }
    push(out, ")\n");
    proof {
        reveal_strlit("#set par(leading: ");
        reveal_strlit(", linebreaks: \"optimized\", justify: ");
        reveal_strlit("true");
        reveal_strlit("false");
        reveal_strlit(")\n");
        assert(out@ =~= after_raw + par_line(*t));
        assert(out@ =~= start + text_style_markup(*t));
    }
}

// ---------------------------------------------------------------------------
// The plan as markup, as a specification
// ---------------------------------------------------------------------------

/// The size a heading of `level` is set at: the typography's size for that
/// level, or body size for a level it lists none for.
pub open spec fn heading_size(t: TypeSetting, level: u8) -> Seq<char> {
    if 1 <= level && level <= t.heading_sizes@.len() {
        t.heading_sizes@[level - 1]@
    } else {
        t.size@
    }
}

/// Inline content as an expression, monospace set in the typography's face.
pub open spec fn inline_in(t: TypeSetting, text: Seq<InlineView>) -> Seq<char> {
    content_expression_spec(text, t.monospace_family@)
}

/// The container instruction that opens a group of `kind`.
pub open spec fn container_open(t: TypeSetting, kind: ContainerKind) -> Seq<char> {
    match kind {
        ContainerKind::Sidebar => "#block(width: 100%, inset: "@ + t.container_inset@
            + ", fill: luma(240), stroke: 0.5pt + gray, [\n"@,
        ContainerKind::Example => "#block(width: 100%, inset: "@ + t.container_inset@ + ", stroke: 0.5pt + gray, [\n"@,
        ContainerKind::Open => "#block(width: 100%, [\n"@,
    }
}

/// The instruction that opens an admonition: a rule down its left side and
/// its label in bold.
pub open spec fn admonition_open(t: TypeSetting, kind: AdmonitionKind) -> Seq<char> {
    "#block(width: 100%, inset: (left: "@ + t.size@ + ", top: "@ + t.admonition_inset@ + ", bottom: "@
        + t.admonition_inset@ + "), stroke: (left: 2pt + gray), text(weight: \"bold\", "@
        + literal_spec(admonition_label(kind)) + ") + linebreak() + [\n"@
}

/// The instructions that open a quotation; verse keeps its own leading.
pub open spec fn quotation_open(t: TypeSetting, kind: QuotationKind) -> Seq<char> {
    "#block(width: 100%, inset: (left: "@ + t.quotation_inset@ + ", right: "@ + t.quotation_inset@ + "), [\n"@
        + if kind == QuotationKind::Verse {
            "#set par(leading: "@ + t.verse_leading@ + ");\n"@
        } else {
            Seq::empty()
        }
}

/// The line under a quotation, if there is anything to put on it.
pub open spec fn attribution_line(t: TypeSetting, attribution: Option<Seq<InlineView>>, citation: Option<Seq<InlineView>>) -> Seq<char> {
    match attribution_spec(attribution, citation, t.monospace_family@) {
        Some(e) => "#block(above: "@ + t.attribution_above@ + ", text(style: \"italic\", \"\\u{2014} \" + "@ + e + "))\n"@,
        None => Seq::empty(),
    }
}

/// The call that opens one item of a list of `list`'s kind.
pub open spec fn list_item_open(t: TypeSetting, list: ListKind, term: Option<Seq<InlineView>>, position: int) -> Seq<char> {
    match list {
        ListKind::Unordered => "list.item("@,
        ListKind::Ordered => "enum.item("@ + decimal(position as nat) + ", "@,
        ListKind::Description => "terms.item("@ + match term {
            Some(x) => inline_in(t, x),
            None => literal_spec(Seq::empty()),
        } + ", "@,
    }
}

/// One planned item as markup, with the typography `key` in effect: the
/// markup, and the typography in effect after it.
pub open spec fn item_markup(book: StyleBook, key: u64, v: PlanView) -> (Seq<char>, u64)
    decreases v, 0int,
{
    let t = type_of(book, key);
    match v {
        PlanView::Title(text) => (
            "#align(center, text(size: "@ + t.title_size@ + ", weight: \"bold\", "@ + inline_in(t, text) + "))\n"@
                + "#v("@ + t.size@ + ")\n"@,
            key,
        ),
        PlanView::Heading { text, level } => (
            "#heading(level: "@ + decimal(level as nat) + ", text(size: "@ + heading_size(t, level) + ", "@
                + inline_in(t, text) + "))\n"@,
            key,
        ),
        PlanView::Paragraph(text) => ("#par("@ + inline_in(t, text) + ")\n"@, key),
        PlanView::Verbatim { content, .. } => (
            "#block(width: 100%, inset: "@ + t.verbatim_inset@ + ", raw(block: true, lang: none, "@
                + literal_spec(content) + "))\n"@,
            key,
        ),
        PlanView::Break(BreakKind::Page) => ("#pagebreak(weak: true)\n"@, key),
        PlanView::Break(BreakKind::Thematic) => (
            "#align(center, block(above: "@ + t.size@ + ", below: "@ + t.size@ + ", line(length: 30%)))\n"@,
            key,
        ),
        PlanView::BlockTitle(text) => (
            "#block(above: "@ + t.block_title_above@ + ", below: "@ + t.block_title_below@
                + ", text(style: \"italic\", weight: \"bold\", "@ + inline_in(t, text) + "))\n"@,
            key,
        ),
        PlanView::Group { kind, children } => match kind {
            GroupView::Admonition(a) => {
                let (inner, k1) = items_markup(book, key, children);
                (admonition_open(t, a) + inner + "])\n"@, k1)
            },
            GroupView::Quotation { kind: q, attribution, citation } => {
                let (inner, k1) = items_markup(book, key, children);
                (quotation_open(t, q) + inner + attribution_line(type_of(book, k1), attribution, citation) + "])\n"@, k1)
            },
            GroupView::Container(c) => {
                let (inner, k1) = items_markup(book, key, children);
                (container_open(t, c) + inner + "])\n"@, k1)
            },
            GroupView::List(l) => {
                let (inner, k1) = list_items_markup(book, key, l, children);
                ("#"@ + list_element_spec(l) + "(\n"@ + inner + ")\n"@, k1)
            },
            GroupView::ListItem { .. } => items_markup(book, key, children),
        },
        PlanView::ThemeChange { theme, transition } => (
            (if transition == ThemeTransition::PageGeometry {
                page_markup(page_of(book, theme.geometry))
            } else {
                Seq::empty()
            }) + text_style_markup(type_of(book, theme.typography)),
            theme.typography,
        ),
    }
}

/// A run of planned items as markup, in order.
pub open spec fn items_markup(book: StyleBook, key: u64, s: Seq<PlanView>) -> (Seq<char>, u64)
    decreases s, 0int,
{
    if s.len() == 0 {
        (Seq::empty(), key)
    } else {
        let (a, k1) = items_markup(book, key, s.drop_last());
        let (b, k2) = item_markup(book, k1, s.last());
        (a + b, k2)
    }
}

/// The items of a list of `list`'s kind as markup, in order.
pub open spec fn list_items_markup(book: StyleBook, key: u64, list: ListKind, s: Seq<PlanView>) -> (Seq<char>, u64)
    decreases s, 0int,
{
    if s.len() == 0 {
        (Seq::empty(), key)
    } else {
        let (a, k1) = list_items_markup(book, key, list, s.drop_last());
        let (b, k2) = list_item_markup(book, k1, list, s.last());
        (a + b, k2)
    }
}

/// One item of a list as markup. An item holding a single paragraph puts it
/// beside the marker directly; anything more goes in a content block. A child
/// of a list that is not an item is set plainly.
pub open spec fn list_item_markup(book: StyleBook, key: u64, list: ListKind, v: PlanView) -> (Seq<char>, u64)
    decreases v, 1int,
{
    match v {
        PlanView::Group { kind: GroupView::ListItem { term, position }, children } => {
            let t = type_of(book, key);
            let (body, k1) = if children.len() == 1 && children[0] is Paragraph {
                (inline_in(t, children[0]->Paragraph_0), key)
            } else {
                let (b, k) = item_body_markup(book, key, children);
                ("[\n"@ + b + "]"@, k)
            };
            (list_item_open(t, list, term, position) + body + "),\n"@, k1)
        },
        _ => item_markup(book, key, v),
    }
}

/// The children of a list item inside its content block: a first paragraph
/// belongs beside the marker; every other child is set as itself.
pub open spec fn item_body_markup(book: StyleBook, key: u64, s: Seq<PlanView>) -> (Seq<char>, u64)
    decreases s, 0int,
{
    if s.len() == 0 {
        (Seq::empty(), key)
    } else if s.len() == 1 {
        match s[0] {
            PlanView::Paragraph(text) => ("#("@ + inline_in(type_of(book, key), text) + ")\n"@, key),
            _ => item_markup(book, key, s[0]),
        }
    } else {
        let (a, k1) = item_body_markup(book, key, s.drop_last());
        let (b, k2) = item_markup(book, k1, s.last());
        (a + b, k2)
    }
}

/// A whole plan as markup: the page and text settings of the theme it starts
/// under, then its items.
pub open spec fn plan_markup(book: StyleBook, initial: Theme, items: Seq<PlanView>) -> Seq<char> {
    page_markup(page_of(book, initial.geometry)) + text_style_markup(type_of(book, initial.typography))
        + items_markup(book, initial.typography, items).0
}

/// A change of theme sets the page again exactly when the new theme's
/// geometry differs from the one in effect: one that changes only the
/// typography continues on the same page, and sets only the text.
pub proof fn lemma_only_a_new_geometry_sets_the_page(book: StyleBook, key: u64, previous: Theme, next: Theme)
    ensures
        item_markup(book, key, PlanView::ThemeChange { theme: next, transition: crate::theme::classify_spec(previous, next) }).0
            == (if previous.geometry != next.geometry {
                page_markup(page_of(book, next.geometry))
            } else {
                Seq::<char>::empty()
            }) + text_style_markup(type_of(book, next.typography)),
        item_markup(book, key, PlanView::ThemeChange { theme: next, transition: crate::theme::classify_spec(previous, next) }).1
            == next.typography,
{
}

// ---------------------------------------------------------------------------
// The emitter
// ---------------------------------------------------------------------------

fn push_inline(out: &mut String, t: &TypeSetting, text: &InlineText)
    ensures
        final(out)@ == old(out)@ + inline_in(*t, text@),
{
    let e = content_expression(text, t.monospace_family.as_str());
    push(out, e.as_str());
}

fn emit_title(out: &mut String, t: &TypeSetting, text: &InlineText)
    ensures
        final(out)@ == old(out)@ + "#align(center, text(size: "@ + t.title_size@ + ", weight: \"bold\", "@
            + inline_in(*t, text@) + "))\n"@ + "#v("@ + t.size@ + ")\n"@,
{
    let ghost start = out@;
    push(out, "#align(center, text(size: ");
    push(out, t.title_size.as_str());
    push(out, ", weight: \"bold\", ");
    push_inline(out, t, text);
    push(out, "))\n");
    push(out, "#v(");
    push(out, t.size.as_str());
    push(out, ")\n");
    proof {
        reveal_strlit("#align(center, text(size: ");
        reveal_strlit(", weight: \"bold\", ");
        reveal_strlit("))\n");
        reveal_strlit("#v(");
        reveal_strlit(")\n");
        assert(out@ =~= start + "#align(center, text(size: "@ + t.title_size@ + ", weight: \"bold\", "@
            + inline_in(*t, text@) + "))\n"@ + "#v("@ + t.size@ + ")\n"@);
    }
}

fn emit_heading(out: &mut String, t: &TypeSetting, text: &InlineText, level: u8)
    ensures
        final(out)@ == old(out)@ + "#heading(level: "@ + decimal(level as nat) + ", text(size: "@
            + heading_size(*t, level) + ", "@ + inline_in(*t, text@) + "))\n"@,
{
    let ghost start = out@;
    push(out, "#heading(level: ");
    push_decimal(out, level as u64);
    push(out, ", text(size: ");
    if 1 <= level && (level as usize) <= t.heading_sizes.len() {
        push(out, t.heading_sizes[(level - 1) as usize].as_str());
    } else {
        push(out, t.size.as_str());
    }
    push(out, ", ");
    push_inline(out, t, text);
    push(out, "))\n");
    proof {
        reveal_strlit("#heading(level: ");
        reveal_strlit(", text(size: ");
        reveal_strlit(", ");
        reveal_strlit("))\n");
        assert(out@ =~= start + "#heading(level: "@ + decimal(level as nat) + ", text(size: "@
            + heading_size(*t, level) + ", "@ + inline_in(*t, text@) + "))\n"@);
    }
}

fn emit_paragraph(out: &mut String, t: &TypeSetting, text: &InlineText)
    ensures
        final(out)@ == old(out)@ + "#par("@ + inline_in(*t, text@) + ")\n"@,
{
    let ghost start = out@;
    push(out, "#par(");
    push_inline(out, t, text);
    push(out, ")\n");
    proof {
        reveal_strlit("#par(");
        reveal_strlit(")\n");
        assert(out@ =~= start + "#par("@ + inline_in(*t, text@) + ")\n"@);
    }
}

fn emit_verbatim(out: &mut String, t: &TypeSetting, verbatim: &Verbatim)
    ensures
        final(out)@ == old(out)@ + "#block(width: 100%, inset: "@ + t.verbatim_inset@
            + ", raw(block: true, lang: none, "@ + literal_spec(verbatim.content_spec()) + "))\n"@,
{
    let ghost start = out@;
    push(out, "#block(width: 100%, inset: ");
    push(out, t.verbatim_inset.as_str());
    push(out, ", raw(block: true, lang: none, ");
    let l = string_literal(verbatim.content());
    push(out, l.as_str());
    push(out, "))\n");
    proof {
        reveal_strlit("#block(width: 100%, inset: ");
        reveal_strlit(", raw(block: true, lang: none, ");
        reveal_strlit("))\n");
        assert(out@ =~= start + "#block(width: 100%, inset: "@ + t.verbatim_inset@
            + ", raw(block: true, lang: none, "@ + literal_spec(verbatim.content_spec()) + "))\n"@);
    }
}

fn emit_break(out: &mut String, t: &TypeSetting, kind: BreakKind)
    ensures
        final(out)@ == old(out)@ + match kind {
            BreakKind::Page => "#pagebreak(weak: true)\n"@,
            BreakKind::Thematic => "#align(center, block(above: "@ + t.size@ + ", below: "@ + t.size@
                + ", line(length: 30%)))\n"@,
        },
{
    let ghost start = out@;
    match kind {
        BreakKind::Page => {
            push(out, "#pagebreak(weak: true)\n");
            proof { reveal_strlit("#pagebreak(weak: true)\n"); }
        },
        BreakKind::Thematic => {
            push(out, "#align(center, block(above: ");
            push(out, t.size.as_str());
            push(out, ", below: ");
            push(out, t.size.as_str());
            push(out, ", line(length: 30%)))\n");
            proof {
                reveal_strlit("#align(center, block(above: ");
                reveal_strlit(", below: ");
                reveal_strlit(", line(length: 30%)))\n");
                assert(out@ =~= start + "#align(center, block(above: "@ + t.size@ + ", below: "@ + t.size@
                    + ", line(length: 30%)))\n"@);
            }
        },
    }
}

fn emit_block_title(out: &mut String, t: &TypeSetting, text: &InlineText)
    ensures
        final(out)@ == old(out)@ + "#block(above: "@ + t.block_title_above@ + ", below: "@ + t.block_title_below@
            + ", text(style: \"italic\", weight: \"bold\", "@ + inline_in(*t, text@) + "))\n"@,
{
    let ghost start = out@;
    push(out, "#block(above: ");
    push(out, t.block_title_above.as_str());
    push(out, ", below: ");
    push(out, t.block_title_below.as_str());
    push(out, ", text(style: \"italic\", weight: \"bold\", ");
    push_inline(out, t, text);
    push(out, "))\n");
    proof {
        reveal_strlit("#block(above: ");
        reveal_strlit(", below: ");
        reveal_strlit(", text(style: \"italic\", weight: \"bold\", ");
        reveal_strlit("))\n");
        assert(out@ =~= start + "#block(above: "@ + t.block_title_above@ + ", below: "@ + t.block_title_below@
            + ", text(style: \"italic\", weight: \"bold\", "@ + inline_in(*t, text@) + "))\n"@);
    }
}

fn emit_theme_change(out: &mut String, book: &StyleBook, theme: Theme, transition: ThemeTransition) -> (k: u64)
    ensures
        final(out)@ == old(out)@ + (if transition == ThemeTransition::PageGeometry {
            page_markup(page_of(*book, theme.geometry))
        } else {
            Seq::empty()
        }) + text_style_markup(type_of(*book, theme.typography)),
        k == theme.typography,
{
    let ghost start = out@;
    if transition.forces_page_break() {
        push_page(out, lookup_page(book, theme.geometry));
    }
    let ghost mid = out@;
    push_text_style(out, lookup_type(book, theme.typography));
    proof {
        assert(out@ =~= start + (if transition == ThemeTransition::PageGeometry {
            page_markup(page_of(*book, theme.geometry))
        } else {
            Seq::<char>::empty()
        }) + text_style_markup(type_of(*book, theme.typography)));
    }
    theme.typography
}

fn emit_container_open(out: &mut String, t: &TypeSetting, kind: ContainerKind)
    ensures
        final(out)@ == old(out)@ + container_open(*t, kind),
{
    let ghost start = out@;
    match kind {
        ContainerKind::Sidebar => {
            push(out, "#block(width: 100%, inset: ");
            push(out, t.container_inset.as_str());
            push(out, ", fill: luma(240), stroke: 0.5pt + gray, [\n");
        },
        ContainerKind::Example => {
            push(out, "#block(width: 100%, inset: ");
            push(out, t.container_inset.as_str());
            push(out, ", stroke: 0.5pt + gray, [\n");
        },
        ContainerKind::Open => {
            push(out, "#block(width: 100%, [\n");
        },
    }
    proof {
        reveal_strlit("#block(width: 100%, inset: ");
        reveal_strlit(", fill: luma(240), stroke: 0.5pt + gray, [\n");
        reveal_strlit(", stroke: 0.5pt + gray, [\n");
        reveal_strlit("#block(width: 100%, [\n");
        assert(out@ =~= start + container_open(*t, kind));
    }
}

fn emit_admonition_open(out: &mut String, t: &TypeSetting, kind: AdmonitionKind)
    ensures
        final(out)@ == old(out)@ + admonition_open(*t, kind),
{
    let ghost start = out@;
    push(out, "#block(width: 100%, inset: (left: ");
    push(out, t.size.as_str());
    push(out, ", top: ");
    push(out, t.admonition_inset.as_str());
    push(out, ", bottom: ");
    push(out, t.admonition_inset.as_str());
    push(out, "), stroke: (left: 2pt + gray), text(weight: \"bold\", ");
    let label = string_literal(kind.label());
    push(out, label.as_str());
    push(out, ") + linebreak() + [\n");
    proof {
        reveal_strlit("#block(width: 100%, inset: (left: ");
        reveal_strlit(", top: ");
        reveal_strlit(", bottom: ");
        reveal_strlit("), stroke: (left: 2pt + gray), text(weight: \"bold\", ");
        reveal_strlit(") + linebreak() + [\n");
        assert(out@ =~= start + admonition_open(*t, kind));
    }
}

fn emit_quotation_open(out: &mut String, t: &TypeSetting, kind: QuotationKind)
    ensures
        final(out)@ == old(out)@ + quotation_open(*t, kind),
{
    let ghost start = out@;
    push(out, "#block(width: 100%, inset: (left: ");
    push(out, t.quotation_inset.as_str());
    push(out, ", right: ");
    push(out, t.quotation_inset.as_str());
    push(out, "), [\n");
    let ghost head = out@;
    match kind {
        QuotationKind::Verse => {
            push(out, "#set par(leading: ");
            push(out, t.verse_leading.as_str());
            push(out, ");\n");
        },
        QuotationKind::Quote => {},
    }
    proof {
        reveal_strlit("#block(width: 100%, inset: (left: ");
        reveal_strlit(", right: ");
        reveal_strlit("), [\n");
        reveal_strlit("#set par(leading: ");
        reveal_strlit(");\n");
        assert(out@ =~= start + quotation_open(*t, kind));
    }
}

fn emit_attribution(out: &mut String, t: &TypeSetting, attribution: Option<&InlineText>, citation: Option<&InlineText>)
    ensures
        final(out)@ == old(out)@ + attribution_line(*t, crate::markup::borrowed_view(attribution), crate::markup::borrowed_view(citation)),
{
    let ghost start = out@;
    match attribution_expression(attribution, citation, t.monospace_family.as_str()) {
        Some(e) => {
            push(out, "#block(above: ");
            push(out, t.attribution_above.as_str());
            push(out, ", text(style: \"italic\", \"\\u{2014} \" + ");
            push(out, e.as_str());
            push(out, "))\n");
            proof {
                reveal_strlit("#block(above: ");
                reveal_strlit(", text(style: \"italic\", \"\\u{2014} \" + ");
                reveal_strlit("))\n");
                assert(out@ =~= start + attribution_line(*t, crate::markup::borrowed_view(attribution), crate::markup::borrowed_view(citation)));
            }
        },
        None => {
            assert(out@ =~= start + attribution_line(*t, crate::markup::borrowed_view(attribution), crate::markup::borrowed_view(citation)));
        },
    }
}

fn emit_item(out: &mut String, book: &StyleBook, key: u64, item: &PlanItem) -> (k: u64)
    ensures
        final(out)@ == old(out)@ + item_markup(*book, key, item_view(*item)).0,
        k == item_markup(*book, key, item_view(*item)).1,
    decreases item, 3int,
{
    let t = lookup_type(book, key);
    match item {
        PlanItem::Title(text) => {
            emit_title(out, t, text);
            key
        },
        PlanItem::Heading { text, level } => {
            emit_heading(out, t, text, level.get());
            key
        },
        PlanItem::Paragraph(text) => {
            emit_paragraph(out, t, text);
            key
        },
        PlanItem::Verbatim(verbatim) => {
            emit_verbatim(out, t, verbatim);
            key
        },
        PlanItem::Break(kind) => {
            emit_break(out, t, *kind);
            key
        },
        PlanItem::BlockTitle(text) => {
            emit_block_title(out, t, text);
            key
        },
        PlanItem::Group { kind, children } => emit_group(out, book, key, kind, children),
        PlanItem::ThemeChange { theme, transition } => emit_theme_change(out, book, *theme, *transition),
    }
}

fn emit_group(out: &mut String, book: &StyleBook, key: u64, kind: &GroupKind, children: &Vec<PlanItem>) -> (k: u64)
    ensures
        final(out)@ == old(out)@ + item_markup(*book, key, PlanView::Group { kind: group_view(*kind), children: items_view(children@) }).0,
        k == item_markup(*book, key, PlanView::Group { kind: group_view(*kind), children: items_view(children@) }).1,
    decreases children, 2int,
{
    match kind {
        GroupKind::Admonition(a) => emit_admonition(out, book, key, *a, children),
        GroupKind::Quotation { kind: q, attribution, citation } => emit_quotation(out, book, key, *q, attribution, citation, children),
        GroupKind::Container(c) => emit_container(out, book, key, *c, children),
        GroupKind::List(l) => emit_list(out, book, key, *l, children),
        GroupKind::ListItem { .. } => emit_items(out, book, key, children),
    }
}

fn emit_admonition(out: &mut String, book: &StyleBook, key: u64, kind: AdmonitionKind, children: &Vec<PlanItem>) -> (k: u64)
    ensures
        final(out)@ == old(out)@ + admonition_open(type_of(*book, key), kind) + items_markup(*book, key, items_view(children@)).0 + "])\n"@,
        k == items_markup(*book, key, items_view(children@)).1,
    decreases children, 1int,
{
    let ghost start = out@;
    emit_admonition_open(out, lookup_type(book, key), kind);
    let k1 = emit_items(out, book, key, children);
    push(out, "])\n");
    proof {
        reveal_strlit("])\n");
        assert(out@ =~= start + admonition_open(type_of(*book, key), kind) + items_markup(*book, key, items_view(children@)).0 + "])\n"@);
    }
    k1
}

fn emit_quotation(
    out: &mut String,
    book: &StyleBook,
    key: u64,
    kind: QuotationKind,
    attribution: &Option<InlineText>,
    citation: &Option<InlineText>,
    children: &Vec<PlanItem>,
) -> (k: u64)
    ensures
        final(out)@ == old(out)@ + quotation_open(type_of(*book, key), kind) + items_markup(*book, key, items_view(children@)).0
            + attribution_line(
                type_of(*book, items_markup(*book, key, items_view(children@)).1),
                crate::plan::opt_text_view(*attribution),
                crate::plan::opt_text_view(*citation),
            ) + "])\n"@,
        k == items_markup(*book, key, items_view(children@)).1,
    decreases children, 1int,
{
    let ghost start = out@;
    emit_quotation_open(out, lookup_type(book, key), kind);
    let k1 = emit_items(out, book, key, children);
    let ghost mid = out@;
    let a = attribution.as_ref();
    let c = citation.as_ref();
    proof {
        assert(crate::markup::borrowed_view(a) == crate::plan::opt_text_view(*attribution));
        assert(crate::markup::borrowed_view(c) == crate::plan::opt_text_view(*citation));
    }
    emit_attribution(out, lookup_type(book, k1), a, c);
    push(out, "])\n");
    proof {
        reveal_strlit("])\n");
        assert(out@ =~= start + quotation_open(type_of(*book, key), kind) + items_markup(*book, key, items_view(children@)).0
            + attribution_line(type_of(*book, k1), crate::plan::opt_text_view(*attribution), crate::plan::opt_text_view(*citation))
            + "])\n"@);
    }
    k1
}

fn emit_container(out: &mut String, book: &StyleBook, key: u64, kind: ContainerKind, children: &Vec<PlanItem>) -> (k: u64)
    ensures
        final(out)@ == old(out)@ + container_open(type_of(*book, key), kind) + items_markup(*book, key, items_view(children@)).0 + "])\n"@,
        k == items_markup(*book, key, items_view(children@)).1,
    decreases children, 1int,
{
    let ghost start = out@;
    emit_container_open(out, lookup_type(book, key), kind);
    let k1 = emit_items(out, book, key, children);
    push(out, "])\n");
    proof {
        reveal_strlit("])\n");
        assert(out@ =~= start + container_open(type_of(*book, key), kind) + items_markup(*book, key, items_view(children@)).0 + "])\n"@);
    }
    k1
}

fn emit_list(out: &mut String, book: &StyleBook, key: u64, list: ListKind, children: &Vec<PlanItem>) -> (k: u64)
    ensures
        final(out)@ == old(out)@ + "#"@ + list_element_spec(list) + "(\n"@ + list_items_markup(*book, key, list, items_view(children@)).0 + ")\n"@,
        k == list_items_markup(*book, key, list, items_view(children@)).1,
    decreases children, 1int,
{
    let ghost start = out@;
    push(out, "#");
    push(out, list_element(list));
    push(out, "(\n");
    let k1 = emit_list_items(out, book, key, list, children);
    push(out, ")\n");
    proof {
        reveal_strlit("#");
        reveal_strlit("(\n");
        reveal_strlit(")\n");
        assert(out@ =~= start + "#"@ + list_element_spec(list) + "(\n"@ + list_items_markup(*book, key, list, items_view(children@)).0 + ")\n"@);
    }
    k1
}

fn emit_items(out: &mut String, book: &StyleBook, key: u64, items: &Vec<PlanItem>) -> (k: u64)
    ensures
        final(out)@ == old(out)@ + items_markup(*book, key, items_view(items@)).0,
        k == items_markup(*book, key, items_view(items@)).1,
    decreases items, 0int,
{
    let ghost start = out@;
    let mut k = key;
    let mut i: usize = 0;
    proof { assert(items@.take(0) =~= Seq::<PlanItem>::empty()); }
    while i < items.len()
        invariant
            i <= items@.len(),
            out@ == start + items_markup(*book, key, items_view(items@.take(i as int))).0,
            k == items_markup(*book, key, items_view(items@.take(i as int))).1,
        decreases items.len() - i,
    {
        assert(decreases_to!(items => items@[i as int]));
        let ghost before = out@;
        k = emit_item(out, book, k, &items[i]);
        proof {
            let pre = items@.take(i as int);
            assert(items@.take(i + 1) =~= pre.push(items@[i as int]));
            crate::plan::lemma_items_view_push(pre, items@[i as int]);
            let v = items_view(pre.push(items@[i as int]));
            assert(v.drop_last() =~= items_view(pre));
            assert(out@ =~= start + items_markup(*book, key, v).0);
        }
        i = i + 1;
    }
    proof { assert(items@.take(items@.len() as int) =~= items@); }
    k
}

fn emit_list_items(out: &mut String, book: &StyleBook, key: u64, list: ListKind, items: &Vec<PlanItem>) -> (k: u64)
    ensures
        final(out)@ == old(out)@ + list_items_markup(*book, key, list, items_view(items@)).0,
        k == list_items_markup(*book, key, list, items_view(items@)).1,
    decreases items, 0int,
{
    let ghost start = out@;
    let mut k = key;
    let mut i: usize = 0;
    proof { assert(items@.take(0) =~= Seq::<PlanItem>::empty()); }
    while i < items.len()
        invariant
            i <= items@.len(),
            out@ == start + list_items_markup(*book, key, list, items_view(items@.take(i as int))).0,
            k == list_items_markup(*book, key, list, items_view(items@.take(i as int))).1,
        decreases items.len() - i,
    {
        assert(decreases_to!(items => items@[i as int]));
        k = emit_list_item(out, book, k, list, &items[i]);
        proof {
            let pre = items@.take(i as int);
            assert(items@.take(i + 1) =~= pre.push(items@[i as int]));
            crate::plan::lemma_items_view_push(pre, items@[i as int]);
            let v = items_view(pre.push(items@[i as int]));
            assert(v.drop_last() =~= items_view(pre));
            assert(out@ =~= start + list_items_markup(*book, key, list, v).0);
        }
        i = i + 1;
    }
    proof { assert(items@.take(items@.len() as int) =~= items@); }
    k
}

fn emit_list_item(out: &mut String, book: &StyleBook, key: u64, list: ListKind, item: &PlanItem) -> (k: u64)
    ensures
        final(out)@ == old(out)@ + list_item_markup(*book, key, list, item_view(*item)).0,
        k == list_item_markup(*book, key, list, item_view(*item)).1,
    decreases item, 4int,
{
    match item {
        PlanItem::Group { kind: GroupKind::ListItem { term, position }, children } => {
            let ghost start = out@;
            let t = lookup_type(book, key);
            match list {
                ListKind::Unordered => {
                    push(out, "list.item(");
                },
                ListKind::Ordered => {
                    push(out, "enum.item(");
                    push_decimal(out, *position as u64);
                    push(out, ", ");
                },
                ListKind::Description => {
                    push(out, "terms.item(");
                    match term {
                        Some(text) => push_inline(out, t, text),
                        None => {
                            let l = string_literal("");
                            push(out, l.as_str());
                        },
                    }
                    push(out, ", ");
                },
            }
            proof {
                reveal_strlit("list.item(");
                reveal_strlit("enum.item(");
                reveal_strlit("terms.item(");
                reveal_strlit(", ");
                reveal_strlit("");
                assert(out@ =~= start + list_item_open(*t, list, crate::plan::opt_text_view(*term), *position as int));
            }
            let ghost opened = out@;
            proof { crate::plan::lemma_items_view_len(children@); }
            let single = children.len() == 1 && match &children[0] {
                PlanItem::Paragraph(_) => true,
                _ => false,
            };
            let k1 = if single {
                match &children[0] {
                    PlanItem::Paragraph(text) => push_inline(out, t, text),
                    _ => {},
                }
                key
            } else {
                push(out, "[\n");
                let k = emit_item_body(out, book, key, children);
                push(out, "]");
                proof { reveal_strlit("[\n"); reveal_strlit("]"); }
                k
            };
            push(out, "),\n");
            proof { reveal_strlit("),\n"); }
            k1
        },
        _ => emit_item(out, book, key, item),
    }
}

fn emit_item_body(out: &mut String, book: &StyleBook, key: u64, items: &Vec<PlanItem>) -> (k: u64)
    ensures
        final(out)@ == old(out)@ + item_body_markup(*book, key, items_view(items@)).0,
        k == item_body_markup(*book, key, items_view(items@)).1,
    decreases items, 0int,
{
    let ghost start = out@;
    let mut k = key;
    let mut i: usize = 0;
    proof { assert(items@.take(0) =~= Seq::<PlanItem>::empty()); }
    while i < items.len()
        invariant
            i <= items@.len(),
            out@ == start + item_body_markup(*book, key, items_view(items@.take(i as int))).0,
            k == item_body_markup(*book, key, items_view(items@.take(i as int))).1,
        decreases items.len() - i,
    {
        assert(decreases_to!(items => items@[i as int]));
        let first_paragraph = i == 0 && match &items[i] {
            PlanItem::Paragraph(_) => true,
            _ => false,
        };
        if first_paragraph {
            match &items[i] {
                PlanItem::Paragraph(text) => {
                    push(out, "#(");
                    push_inline(out, lookup_type(book, k), text);
                    push(out, ")\n");
                    proof { reveal_strlit("#("); reveal_strlit(")\n"); }
                },
                _ => {},
            }
        } else {
            k = emit_item(out, book, k, &items[i]);
        }
        proof {
            let pre = items@.take(i as int);
            assert(items@.take(i + 1) =~= pre.push(items@[i as int]));
            crate::plan::lemma_items_view_push(pre, items@[i as int]);
            let v = items_view(pre.push(items@[i as int]));
            assert(v.drop_last() =~= items_view(pre));
            assert(out@ =~= start + item_body_markup(*book, key, v).0);
        }
        i = i + 1;
    }
    proof { assert(items@.take(items@.len() as int) =~= items@); }
    k
}

/// Renders a plan as markup for the typesetting engine: the page and text
/// settings of the theme it starts under, then every item in order, each
/// theme change setting the page again only when it changes the page.
pub fn emit(plan: &LayoutPlan, book: &StyleBook) -> (r: String)
    ensures
        r@ == plan_markup(*book, plan.initial_spec(), plan.items_spec()),
{
    let initial = plan.initial_theme();
    let mut out = String::new();
    push_page(&mut out, lookup_page(book, initial.geometry));
    push_text_style(&mut out, lookup_type(book, initial.typography));
    let ghost start = out@;
    let items = plan.items();
    let mut k = initial.typography;
    let mut i: usize = 0;
    proof { assert(items@.take(0) =~= Seq::<PlanItem>::empty()); }
    while i < items.len()
        invariant
            i <= items@.len(),
            items_view(items@) == plan.items_spec(),
            out@ == start + items_markup(*book, initial.typography, items_view(items@.take(i as int))).0,
            k == items_markup(*book, initial.typography, items_view(items@.take(i as int))).1,
        decreases items.len() - i,
    {
        k = emit_item(&mut out, book, k, &items[i]);
        proof {
            let pre = items@.take(i as int);
            assert(items@.take(i + 1) =~= pre.push(items@[i as int]));
            crate::plan::lemma_items_view_push(pre, items@[i as int]);
            let v = items_view(pre.push(items@[i as int]));
            assert(v.drop_last() =~= items_view(pre));
            assert(out@ =~= start + items_markup(*book, initial.typography, v).0);
        }
        i = i + 1;
    }
    proof {
        assert(items@.take(items@.len() as int) =~= items@);
        assert(out@ =~= plan_markup(*book, plan.initial_spec(), plan.items_spec()));
    }
    out
}

/// The paragraph setting asks for justified text exactly when the type
/// setting does: it ends `justify: true)` for justified text and
/// `justify: false)` for text set ragged, whatever else the setting holds.
pub proof fn lemma_paragraphs_are_justified_as_asked(t: TypeSetting)
    ensures
        t.justified ==> par_line(t).len() >= 15
            && par_line(t).skip(par_line(t).len() - 15) == seq!['j', 'u', 's', 't', 'i', 'f', 'y', ':', ' ', 't', 'r', 'u', 'e', ')', '\n'],
        !t.justified ==> par_line(t).len() >= 16
            && par_line(t).skip(par_line(t).len() - 16) == seq!['j', 'u', 's', 't', 'i', 'f', 'y', ':', ' ', 'f', 'a', 'l', 's', 'e', ')', '\n'],
{
    reveal_strlit("#set par(leading: ");
    reveal_strlit(", linebreaks: \"optimized\", justify: ");
    reveal_strlit("true");
    reveal_strlit("false");
    reveal_strlit(")\n");
    let head = "#set par(leading: "@ + t.leading@ + ", linebreaks: \"optimized\", justify: "@;
    let p = par_line(t);
    if t.justified {
        assert(p == head + "true"@ + ")\n"@);
        assert(p.skip(p.len() - 15) =~= seq!['j', 'u', 's', 't', 'i', 'f', 'y', ':', ' ', 't', 'r', 'u', 'e', ')', '\n']);
    } else {
        assert(p == head + "false"@ + ")\n"@);
        assert(p.skip(p.len() - 16) =~= seq!['j', 'u', 's', 't', 'i', 'f', 'y', ':', ' ', 'f', 'a', 'l', 's', 'e', ')', '\n']);
    }
}

/// Different kinds of admonition carry different labels onto the page, each
/// the kind's own name in capitals.
pub proof fn lemma_admonition_labels_tell_kinds_apart(a: AdmonitionKind, b: AdmonitionKind)
    ensures
        admonition_label(a) == admonition_label(b) ==> a == b,
        admonition_label(a) == match a {
            AdmonitionKind::Note => seq!['N', 'O', 'T', 'E'],
            AdmonitionKind::Tip => seq!['T', 'I', 'P'],
            AdmonitionKind::Important => seq!['I', 'M', 'P', 'O', 'R', 'T', 'A', 'N', 'T'],
            AdmonitionKind::Caution => seq!['C', 'A', 'U', 'T', 'I', 'O', 'N'],
            AdmonitionKind::Warning => seq!['W', 'A', 'R', 'N', 'I', 'N', 'G'],
        },
{
    reveal_strlit("NOTE");
    reveal_strlit("TIP");
    reveal_strlit("IMPORTANT");
    reveal_strlit("CAUTION");
    reveal_strlit("WARNING");
    assert("NOTE"@ =~= seq!['N', 'O', 'T', 'E']);
    assert("TIP"@ =~= seq!['T', 'I', 'P']);
    assert("IMPORTANT"@ =~= seq!['I', 'M', 'P', 'O', 'R', 'T', 'A', 'N', 'T']);
    assert("CAUTION"@ =~= seq!['C', 'A', 'U', 'T', 'I', 'O', 'N']);
    assert("WARNING"@ =~= seq!['W', 'A', 'R', 'N', 'I', 'N', 'G']);
    if admonition_label(a) == admonition_label(b) && a != b {
        assert(admonition_label(a).len() != admonition_label(b).len() || admonition_label(a)[0] != admonition_label(b)[0]);
    }
}

} // verus!
