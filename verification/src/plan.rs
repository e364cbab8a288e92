//! Deciding which theme applies where, and flattening the result.
//!
//! A section's declared theme applies to that section and everything nested
//! inside it, unless a nested section declares its own; leaving a section
//! restores the theme in effect outside it. What comes out is a plan: a
//! sequence in document order with the theme changes already placed and
//! classified, so that whoever sets it needs no notion of scope.
//!
//! A change of theme is held back until content follows it. Leaving the last
//! themed section of a document therefore emits nothing, where an eager
//! change would have produced a blank final page.

use vstd::prelude::*;
use crate::document::{
    AdmonitionKind, Block, BreakKind, ContainerKind, Document, HeadingLevel, InlineText,
    InlineView, ListItem, ListKind, QuotationKind, Verbatim, VerbatimKind,
};
use crate::error::DomainError;
use crate::theme::{classify_spec, Theme, ThemeSet, ThemeTransition};

verus! {

/// What a group of planned items is.
#[derive(Debug, PartialEq, Eq)]
pub enum GroupKind {
    /// A labelled passage set apart from the text.
    Admonition(AdmonitionKind),
    /// A quotation, with whatever attribution the source supplied.
    Quotation {
        /// Whether it is prose or verse.
        kind: QuotationKind,
        /// Who is being quoted.
        attribution: Option<InlineText>,
        /// The work being quoted from.
        citation: Option<InlineText>,
    },
    /// A container holding other blocks.
    Container(ContainerKind),
    /// A list; its children are its items, each a list-item group.
    List(ListKind),
    /// One item of a list.
    ListItem {
        /// The term this item describes, for a description list.
        term: Option<InlineText>,
        /// Which item this is, counting from one.
        position: usize,
    },
}

/// One step in a laid-out document.
#[derive(Debug, PartialEq)]
pub enum PlanItem {
    /// The document title.
    Title(InlineText),
    /// A heading.
    Heading {
        /// The heading text.
        text: InlineText,
        /// How deeply it is nested.
        level: HeadingLevel,
    },
    /// A paragraph of body text.
    Paragraph(InlineText),
    /// Content preserved exactly as written.
    Verbatim(Verbatim),
    /// A break in the flow of the document.
    Break(BreakKind),
    /// A title belonging to the item that follows it.
    BlockTitle(InlineText),
    /// A group of items, set according to what kind of group it is.
    Group {
        /// What kind of group it is.
        kind: GroupKind,
        /// What it contains, already planned.
        children: Vec<PlanItem>,
    },
    /// Everything after this point is set under a different theme.
    ThemeChange {
        /// The theme now in effect.
        theme: Theme,
        /// What kind of change it is, and so whether a page break follows.
        transition: ThemeTransition,
    },
}

/// The mathematical content of a group's kind.
pub enum GroupView {
    Admonition(AdmonitionKind),
    Quotation {
        kind: QuotationKind,
        attribution: Option<Seq<InlineView>>,
        citation: Option<Seq<InlineView>>,
    },
    Container(ContainerKind),
    List(ListKind),
    ListItem { term: Option<Seq<InlineView>>, position: int },
}

/// The mathematical content of a planned item.
pub enum PlanView {
    Title(Seq<InlineView>),
    Heading { text: Seq<InlineView>, level: u8 },
    Paragraph(Seq<InlineView>),
    Verbatim { kind: VerbatimKind, content: Seq<char> },
    Break(BreakKind),
    BlockTitle(Seq<InlineView>),
    Group { kind: GroupView, children: Seq<PlanView> },
    ThemeChange { theme: Theme, transition: ThemeTransition },
}

/// The view of optional inline text.
pub open spec fn opt_text_view(t: Option<InlineText>) -> Option<Seq<InlineView>> {
    match t {
        Some(t) => Some(t@),
        None => None,
    }
}

/// The view of a group's kind.
pub open spec fn group_view(k: GroupKind) -> GroupView {
    match k {
        GroupKind::Admonition(a) => GroupView::Admonition(a),
        GroupKind::Quotation { kind, attribution, citation } => GroupView::Quotation {
            kind,
            attribution: opt_text_view(attribution),
            citation: opt_text_view(citation),
        },
        GroupKind::Container(c) => GroupView::Container(c),
        GroupKind::List(l) => GroupView::List(l),
        GroupKind::ListItem { term, position } => GroupView::ListItem {
            term: opt_text_view(term),
            position: position as int,
        },
    }
}

/// The view of a planned item.
pub open spec fn item_view(i: PlanItem) -> PlanView
    decreases i,
{
    match i {
        PlanItem::Title(t) => PlanView::Title(t@),
        PlanItem::Heading { text, level } => PlanView::Heading { text: text@, level: level.value() },
        PlanItem::Paragraph(t) => PlanView::Paragraph(t@),
        PlanItem::Verbatim(v) => PlanView::Verbatim { kind: v.kind_spec(), content: v.content_spec() },
        PlanItem::Break(k) => PlanView::Break(k),
        PlanItem::BlockTitle(t) => PlanView::BlockTitle(t@),
        PlanItem::Group { kind, children } => PlanView::Group {
            kind: group_view(kind),
            children: items_view(children@),
        },
        PlanItem::ThemeChange { theme, transition } => PlanView::ThemeChange { theme, transition },
    }
}

/// The views of a run of planned items, in order.
pub open spec fn items_view(s: Seq<PlanItem>) -> Seq<PlanView>
    decreases s,
{
    if s.len() == 0 {
        Seq::empty()
    } else {
        items_view(s.drop_last()).push(item_view(s.last()))
    }
}

/// Planning one more item adds its view at the end.
pub proof fn lemma_items_view_push(s: Seq<PlanItem>, i: PlanItem)
    ensures
        items_view(s.push(i)) == items_view(s).push(item_view(i)),
{
    assert(s.push(i).drop_last() =~= s);
}

// ---------------------------------------------------------------------------
// The planner, as a specification
// ---------------------------------------------------------------------------

/// The planner's state: the theme in effect, a change not yet committed, and
/// the items planned so far.
pub struct PlanState {
    pub current: Theme,
    pub pending: Option<Theme>,
    pub items: Seq<PlanView>,
}

/// The theme that governs whatever is planned next.
pub open spec fn effective(st: PlanState) -> Theme {
    match st.pending {
        Some(t) => t,
        None => st.current,
    }
}

/// A pending change committed: it reaches the plan only if it changes
/// something.
pub open spec fn committed(st: PlanState) -> PlanState {
    match st.pending {
        None => st,
        Some(p) => {
            let t = classify_spec(st.current, p);
            PlanState {
                current: p,
                pending: None,
                items: if t != ThemeTransition::Unchanged {
                    st.items.push(PlanView::ThemeChange { theme: p, transition: t })
                } else {
                    st.items
                },
            }
        },
    }
}

/// An item planned, after the change it waited for.
pub open spec fn pushed(st: PlanState, item: PlanView) -> PlanState {
    let c = committed(st);
    PlanState { items: c.items.push(item), ..c }
}

/// Why planning stopped: the identifier a section named, and the plain text of
/// that section's heading.
pub type PlanFailure = (Seq<char>, Seq<char>);

/// Planning `blocks` in order from `st`.
pub closed spec fn walk_blocks(st: PlanState, blocks: Seq<Block>, themes: ThemeSet) -> Result<PlanState, PlanFailure>
    decreases blocks,
{
    if blocks.len() == 0 {
        Ok(st)
    } else {
        match walk_block(st, blocks[0], themes) {
            Ok(next) => walk_blocks(next, blocks.drop_first(), themes),
            Err(e) => Err(e),
        }
    }
}

/// Planning the items of a list, each as a group numbered from one.
pub closed spec fn walk_list_items(st: PlanState, items: Seq<ListItem>, done: Seq<PlanView>, themes: ThemeSet) -> Result<(PlanState, Seq<PlanView>), PlanFailure>
    decreases items,
{
    if items.len() == 0 {
        Ok((st, done))
    } else {
        let item = items[0];
        match walk_blocks(PlanState { items: Seq::empty(), ..st }, item.body@, themes) {
            Ok(inner) => walk_list_items(
                PlanState { items: st.items, ..inner },
                items.drop_first(),
                done.push(PlanView::Group {
                    kind: GroupView::ListItem { term: opt_text_view(item.term), position: done.len() + 1int },
                    children: inner.items,
                }),
                themes,
            ),
            Err(e) => Err(e),
        }
    }
}

/// Planning one block from `st`.
pub closed spec fn walk_block(st: PlanState, block: Block, themes: ThemeSet) -> Result<PlanState, PlanFailure>
    decreases block,
{
    match block {
        Block::Paragraph(p) => Ok(pushed(st, PlanView::Paragraph(p.text@))),
        Block::Heading { text, level } => Ok(pushed(st, PlanView::Heading { text: text@, level: level.value() })),
        Block::Verbatim(v) => Ok(pushed(st, PlanView::Verbatim { kind: v.kind_spec(), content: v.content_spec() })),
        Block::Break(k) => Ok(pushed(st, PlanView::Break(k))),
        Block::Titled { title, block } => walk_block(pushed(st, PlanView::BlockTitle(title@)), *block, themes),
        Block::Section(section) => {
            let outer = effective(st);
            let declared: Result<PlanState, PlanFailure> = match section.theme {
                None => Ok(st),
                Some(id) => if themes.named_spec().contains_key(id.id_spec()) {
                    Ok(PlanState { pending: Some(themes.named_spec()[id.id_spec()]), ..st })
                } else {
                    Err((id.id_spec(), crate::document::views_plain(section.heading@)))
                },
            };
            match declared {
                Err(e) => Err(e),
                Ok(set) => {
                    let headed = pushed(set, PlanView::Heading { text: section.heading@, level: section.level.value() });
                    match walk_blocks(headed, section.body@, themes) {
                        Ok(after) => Ok(PlanState { pending: Some(outer), ..after }),
                        Err(e) => Err(e),
                    }
                },
            }
        },
        Block::Admonition(a) => {
            match walk_blocks(PlanState { items: Seq::empty(), ..st }, a.body@, themes) {
                Ok(inner) => Ok(pushed(PlanState { items: st.items, ..inner }, PlanView::Group {
                    kind: GroupView::Admonition(a.kind),
                    children: inner.items,
                })),
                Err(e) => Err(e),
            }
        },
        Block::Quotation(q) => {
            match walk_blocks(PlanState { items: Seq::empty(), ..st }, q.body@, themes) {
                Ok(inner) => Ok(pushed(PlanState { items: st.items, ..inner }, PlanView::Group {
                    kind: GroupView::Quotation {
                        kind: q.kind,
                        attribution: opt_text_view(q.attribution),
                        citation: opt_text_view(q.citation),
                    },
                    children: inner.items,
                })),
                Err(e) => Err(e),
            }
        },
        Block::Container(k) => {
            match walk_blocks(PlanState { items: Seq::empty(), ..st }, k.body@, themes) {
                Ok(inner) => Ok(pushed(PlanState { items: st.items, ..inner }, PlanView::Group {
                    kind: GroupView::Container(k.kind),
                    children: inner.items,
                })),
                Err(e) => Err(e),
            }
        },
        Block::List(l) => match walk_list_items(st, l.items@, Seq::empty(), themes) {
            Ok((after, items)) => Ok(pushed(after, PlanView::Group { kind: GroupView::List(l.kind), children: items })),
            Err(e) => Err(e),
        },
    }
}

// ---------------------------------------------------------------------------
// The planner
// ---------------------------------------------------------------------------

/// Whether `r` reports the failure `e`.
pub open spec fn reports(r: Result<(), DomainError>, e: PlanFailure) -> bool {
    r matches Err(DomainError::UnknownTheme { id, section }) && id@ == e.0 && section@ == e.1
}

fn clone_opt_text(t: &Option<InlineText>) -> (r: Option<InlineText>)
    ensures
        opt_text_view(r) == opt_text_view(*t),
{
    match t {
        Some(t) => Some(t.clone()),
        None => None,
    }
}

/// Builds the plan while tracking which theme is in effect.
struct Planner {
    current: Theme,
    pending: Option<Theme>,
    items: Vec<PlanItem>,
}

impl Planner {
    spec fn state(&self) -> PlanState {
        PlanState { current: self.current, pending: self.pending, items: items_view(self.items@) }
    }

    /// Commits a pending change of theme.
    fn commit(&mut self)
        ensures
            final(self).state() == committed(old(self).state()),
    {
        if let Some(pending) = self.pending {
            let transition = ThemeTransition::classify(&self.current, &pending);
            if transition.requires_emission() {
                let change = PlanItem::ThemeChange { theme: pending, transition };
                proof { lemma_items_view_push(self.items@, change); }
                self.items.push(change);
            }
            self.current = pending;
            self.pending = None;
        }
    }

    /// Plans an item, after the change it waited for.
    fn push(&mut self, item: PlanItem)
        ensures
            final(self).state() == pushed(old(self).state(), item_view(item)),
    {
        self.commit();
        proof { lemma_items_view_push(self.items@, item); }
        self.items.push(item);
    }

    /// Plans the content of a group into its own items, returning them; the
    /// planner's own items are left as they were. A pending change of theme
    /// is not committed here: it is committed when content follows it, which
    /// is the group's first item if the group holds any.
    fn group(&mut self, body: &Vec<Block>, themes: &ThemeSet) -> (r: Result<Vec<PlanItem>, DomainError>)
        ensures
            ({
                let c = old(self).state();
                match walk_blocks(PlanState { items: Seq::empty(), ..c }, body@, *themes) {
                    Ok(inner) => r matches Ok(children) && items_view(children@) == inner.items
                        && final(self).state() == (PlanState { items: c.items, ..inner }),
                    Err(e) => r matches Err(DomainError::UnknownTheme { id, section }) && id@ == e.0 && section@ == e.1,
                }
            }),
        decreases body, 1int,
    {
        let mut outer: Vec<PlanItem> = Vec::new();
        std::mem::swap(&mut outer, &mut self.items);
        proof { assert(items_view(self.items@) =~= Seq::<PlanView>::empty()); }
        let walked = self.walk(body, themes);
        match walked {
            Ok(()) => {
                let mut children: Vec<PlanItem> = Vec::new();
                std::mem::swap(&mut children, &mut self.items);
                self.items = outer;
                Ok(children)
            },
            Err(e) => Err(e),
        }
    }

    /// Plans `blocks` in order.
    fn walk(&mut self, blocks: &Vec<Block>, themes: &ThemeSet) -> (r: Result<(), DomainError>)
        ensures
            match walk_blocks(old(self).state(), blocks@, *themes) {
                Ok(st) => r is Ok && final(self).state() == st,
                Err(e) => reports(r, e),
            },
        decreases blocks, 0int,
    {
        let ghost start = self.state();
        let mut i: usize = 0;
        proof { assert(blocks@.skip(0) =~= blocks@); }
        while i < blocks.len()
            invariant
                start == old(self).state(),
                i <= blocks.len(),
                walk_blocks(self.state(), blocks@.skip(i as int), *themes) == walk_blocks(start, blocks@, *themes),
            decreases blocks.len() - i,
        {
            proof {
                assert(blocks@.skip(i as int)[0] == blocks@[i as int]);
                assert(blocks@.skip(i as int).drop_first() =~= blocks@.skip(i + 1));
            }
            assert(decreases_to!(blocks => blocks@[i as int]));
            let ghost pre = self.state();
            let walked = self.walk_block(&blocks[i], themes);
            if walked.is_err() {
                proof {
                    let rest = blocks@.skip(i as int);
                    assert(rest.len() > 0 && rest[0] == blocks@[i as int]);
                    let e = walk_block(pre, blocks@[i as int], *themes)->Err_0;
                    assert(walk_blocks(pre, rest, *themes) == Err::<PlanState, PlanFailure>(e));
                    assert(reports(walked, e));
                }
                return walked;
            }
            i = i + 1;
        }
        proof { assert(blocks@.skip(i as int) =~= Seq::<Block>::empty()); }
        Ok(())
    }

    /// Plans one block.
    fn walk_block(&mut self, block: &Block, themes: &ThemeSet) -> (r: Result<(), DomainError>)
        ensures
            match walk_block(old(self).state(), *block, *themes) {
                Ok(st) => r is Ok && final(self).state() == st,
                Err(e) => reports(r, e),
            },
        decreases block, 0int,
    {
        match block {
            Block::Paragraph(p) => {
                self.push(PlanItem::Paragraph(p.text.clone()));
                Ok(())
            },
            Block::Heading { text, level } => {
                self.push(PlanItem::Heading { text: text.clone(), level: *level });
                Ok(())
            },
            Block::Verbatim(v) => {
                self.push(PlanItem::Verbatim(v.clone()));
                Ok(())
            },
            Block::Break(k) => {
                self.push(PlanItem::Break(*k));
                Ok(())
            },
            Block::Titled { title, block: inner } => {
                self.push(PlanItem::BlockTitle(title.clone()));
                self.walk_block(inner, themes)
            },
            Block::Section(section) => {
                let outer = match self.pending {
                    Some(t) => t,
                    None => self.current,
                };
                match &section.theme {
                    Some(id) => match themes.get(id) {
                        Some(theme) => {
                            self.pending = Some(theme);
                        },
                        None => {
                            return Err(DomainError::UnknownTheme {
                                id: id.as_str().to_owned(),
                                section: section.heading.plain_text(),
                            });
                        },
                    },
                    None => {},
                }
                self.push(PlanItem::Heading { text: section.heading.clone(), level: section.level });
                let walked = self.walk(&section.body, themes);
                if walked.is_err() {
                    return walked;
                }
                self.pending = Some(outer);
                Ok(())
            },
            Block::Admonition(a) => {
                let children = self.group(&a.body, themes);
                match children {
                    Ok(children) => {
                        self.push(PlanItem::Group { kind: GroupKind::Admonition(a.kind), children });
                        Ok(())
                    },
                    Err(e) => Err(e),
                }
            },
            Block::Quotation(q) => {
                let children = self.group(&q.body, themes);
                match children {
                    Ok(children) => {
                        let kind = GroupKind::Quotation {
                            kind: q.kind,
                            attribution: clone_opt_text(&q.attribution),
                            citation: clone_opt_text(&q.citation),
                        };
                        self.push(PlanItem::Group { kind, children });
                        Ok(())
                    },
                    Err(e) => Err(e),
                }
            },
            Block::Container(k) => {
                let children = self.group(&k.body, themes);
                match children {
                    Ok(children) => {
                        self.push(PlanItem::Group { kind: GroupKind::Container(k.kind), children });
                        Ok(())
                    },
                    Err(e) => Err(e),
                }
            },
            Block::List(l) => {
                let ghost start = self.state();
                let mut items: Vec<PlanItem> = Vec::new();
                let mut i: usize = 0;
                proof { assert(l.items@.skip(0) =~= l.items@); }
                while i < l.items.len()
                    invariant
                                start == old(self).state(),
                        *block == Block::List(*l),
                        i <= l.items.len(),
                        items@.len() == i,
                        walk_list_items(self.state(), l.items@.skip(i as int), items_view(items@), *themes)
                            == walk_list_items(start, l.items@, Seq::empty(), *themes),
                    decreases l.items.len() - i,
                {
                    proof {
                        assert(l.items@.skip(i as int)[0] == l.items@[i as int]);
                        assert(l.items@.skip(i as int).drop_first() =~= l.items@.skip(i + 1));
                        lemma_items_view_len(items@);
                    }
                    proof {
                        assert(decreases_to!(block => l));
                        assert(decreases_to!(l => l.items));
                        assert(decreases_to!(l.items => l.items@));
                        assert(decreases_to!(l.items@ => l.items@[i as int]));
                        assert(decreases_to!(l.items@[i as int] => l.items@[i as int].body));
                        assert(decreases_to!(block => l.items@[i as int].body));
                    }
                    let item = &l.items[i];
                    let ghost pre = self.state();
                    let children = self.group(&item.body, themes);
                    match children {
                        Ok(children) => {
                            let node = PlanItem::Group {
                                kind: GroupKind::ListItem { term: clone_opt_text(&item.term), position: i + 1 },
                                children,
                            };
                            proof { lemma_items_view_push(items@, node); }
                            items.push(node);
                        },
                        Err(e) => {
                            proof {
                                let c = pre;
                                let rest = l.items@.skip(i as int);
                                assert(rest.len() > 0 && rest[0] == l.items@[i as int]);
                                let w = walk_blocks(PlanState { items: Seq::empty(), ..c }, item.body@, *themes);
                                assert(w is Err);
                                assert(walk_list_items(pre, rest, items_view(items@), *themes) == Err::<(PlanState, Seq<PlanView>), PlanFailure>(w->Err_0));
                            }
                            return Err(e);
                        },
                    }
                    i = i + 1;
                }
                proof { assert(l.items@.skip(i as int) =~= Seq::<ListItem>::empty()); }
                self.push(PlanItem::Group { kind: GroupKind::List(l.kind), children: items });
                Ok(())
            },
        }
    }
}

/// The views of a run of items are as many as the items, each the view of
/// the item in its place.
pub proof fn lemma_items_view_len(s: Seq<PlanItem>)
    ensures
        items_view(s).len() == s.len(),
        forall|i: int| 0 <= i < s.len() ==> #[trigger] items_view(s)[i] == item_view(s[i]),
    decreases s.len(),
{
    if s.len() > 0 {
        lemma_items_view_len(s.drop_last());
    }
}

// ---------------------------------------------------------------------------
// The plan of a whole document
// ---------------------------------------------------------------------------

/// The state planning starts from: the default theme, nothing pending, and
/// the title, if there is one.
pub open spec fn plan_start(title: Option<Seq<InlineView>>, default: Theme) -> PlanState {
    let empty = PlanState { current: default, pending: None, items: Seq::empty() };
    match title {
        Some(t) => pushed(empty, PlanView::Title(t)),
        None => empty,
    }
}

/// What planning `document` against `themes` produces: its items, or the
/// first section that named a theme the set does not define.
pub closed spec fn plan_spec(document: Document, themes: ThemeSet) -> Result<Seq<PlanView>, PlanFailure> {
    match walk_blocks(plan_start(opt_text_view(document.title), themes.default_spec()), document.body@, themes) {
        Ok(st) => Ok(st.items),
        Err(e) => Err(e),
    }
}

/// How many of `s`'s items are changes of page geometry.
pub open spec fn page_breaks(s: Seq<PlanView>) -> nat
    decreases s.len(),
{
    if s.len() == 0 {
        0
    } else {
        page_breaks(s.drop_last()) + match s.last() {
            PlanView::ThemeChange { transition: ThemeTransition::PageGeometry, .. } => 1nat,
            _ => 0nat,
        }
    }
}

/// A document flattened into the order it will be laid out in.
#[derive(Debug, PartialEq)]
pub struct LayoutPlan {
    initial: Theme,
    items: Vec<PlanItem>,
}

impl LayoutPlan {
    /// The theme in effect before the first item, in specifications.
    pub closed spec fn initial_spec(&self) -> Theme {
        self.initial
    }

    /// The items, in specifications.
    pub closed spec fn items_spec(&self) -> Seq<PlanView> {
        items_view(self.items@)
    }

    /// The theme in effect before the first item.
    pub fn initial_theme(&self) -> (r: Theme)
        ensures
            r == self.initial_spec(),
    {
        self.initial
    }

    /// The items, in document order.
    pub fn items(&self) -> (r: &[PlanItem])
        ensures
            items_view(r@) == self.items_spec(),
    {
        self.items.as_slice()
    }

    /// How many page breaks the theme changes in this plan force, so an author
    /// can be told what a theme choice will do before anything is rendered.
    pub fn forced_page_breaks(&self) -> (r: usize)
        ensures
            r == page_breaks(self.items_spec()),
    {
        let mut count: usize = 0;
        let mut i: usize = 0;
        while i < self.items.len()
            invariant
                i <= self.items@.len(),
                count <= i,
                count == page_breaks(items_view(self.items@.subrange(0, i as int))),
            decreases self.items.len() - i,
        {
            let ghost pre = self.items@.subrange(0, i as int);
            proof {
                assert(self.items@.subrange(0, i + 1) =~= pre.push(self.items@[i as int]));
                lemma_items_view_push(pre, self.items@[i as int]);
                assert(items_view(pre.push(self.items@[i as int])).drop_last() =~= items_view(pre));
            }
            match &self.items[i] {
                PlanItem::ThemeChange { transition: ThemeTransition::PageGeometry, .. } => {
                    count = count + 1;
                },
                _ => {},
            }
            i = i + 1;
        }
        proof { assert(self.items@.subrange(0, i as int) =~= self.items@); }
        count
    }
}

/// Resolves themes across a document and flattens it into a plan.
///
/// A section's declared theme applies to that section and everything nested
/// inside it, unless a nested section declares its own; leaving a section
/// restores the theme in effect outside it. A section naming a theme the set
/// does not define is refused with [`DomainError::UnknownTheme`], naming the
/// theme and the section's heading.
pub fn plan_document(document: &Document, themes: &ThemeSet) -> (r: Result<LayoutPlan, DomainError>)
    ensures
        match plan_spec(*document, *themes) {
            Ok(items) => r matches Ok(plan) && plan.initial_spec() == themes.default_spec()
                && plan.items_spec() == items,
            Err(e) => r matches Err(DomainError::UnknownTheme { id, section }) && id@ == e.0 && section@ == e.1,
        },
{
    let default = themes.default_theme();
    let mut planner = Planner { current: default, pending: None, items: Vec::new() };
    proof { assert(items_view(planner.items@) =~= Seq::<PlanView>::empty()); }
    match &document.title {
        Some(title) => planner.push(PlanItem::Title(title.clone())),
        None => {},
    }
    proof {
        assert(planner.state() == plan_start(opt_text_view(document.title), themes.default_spec()));
    }
    let walked = planner.walk(&document.body, themes);
    match walked {
        Ok(()) => Ok(LayoutPlan { initial: default, items: planner.items }),
        Err(e) => Err(e),
    }
}

// ---------------------------------------------------------------------------
// What every plan satisfies
// ---------------------------------------------------------------------------

/// Whether a run of items does not end in a change of theme.
pub open spec fn tail_ok(s: Seq<PlanView>) -> bool {
    s.len() == 0 || !(s.last() is ThemeChange)
}

/// Whether an item is well placed: a change of theme really changes
/// something, and a group's own items are well placed and do not end in a
/// change.
pub open spec fn item_ok(v: PlanView) -> bool
    decreases v,
{
    match v {
        PlanView::ThemeChange { transition, .. } => transition != ThemeTransition::Unchanged,
        PlanView::Group { children, .. } => seq_ok(children) && tail_ok(children),
        _ => true,
    }
}

/// Whether every item of a run is well placed, and no change of theme comes
/// directly after another.
pub open spec fn seq_ok(s: Seq<PlanView>) -> bool
    decreases s,
{
    if s.len() == 0 {
        true
    } else {
        seq_ok(s.drop_last()) && item_ok(s.last())
            && (s.last() is ThemeChange ==> tail_ok(s.drop_last()))
    }
}

/// Whether every change of theme in a run is directly followed by an item
/// that is not one.
pub open spec fn changes_followed(s: Seq<PlanView>) -> bool {
    forall|i: int| 0 <= i < s.len() && (#[trigger] s[i] is ThemeChange)
        ==> i + 1 < s.len() && !(s[i + 1] is ThemeChange)
}

/// Whether every section in `blocks`, at any depth, names a theme the set
/// defines (or names none).
pub closed spec fn blocks_defined(blocks: Seq<Block>, themes: ThemeSet) -> bool
    decreases blocks,
{
    if blocks.len() == 0 {
        true
    } else {
        block_defined(blocks[0], themes) && blocks_defined(blocks.drop_first(), themes)
    }
}

/// Whether every section in the items' bodies names a defined theme.
pub closed spec fn items_defined(items: Seq<ListItem>, themes: ThemeSet) -> bool
    decreases items,
{
    if items.len() == 0 {
        true
    } else {
        blocks_defined(items[0].body@, themes) && items_defined(items.drop_first(), themes)
    }
}

/// Whether every section in `block` names a defined theme.
pub closed spec fn block_defined(block: Block, themes: ThemeSet) -> bool
    decreases block,
{
    match block {
        Block::Section(section) => (match section.theme {
            Some(id) => themes.named_spec().contains_key(id.id_spec()),
            None => true,
        }) && blocks_defined(section.body@, themes),
        Block::Titled { block, .. } => block_defined(*block, themes),
        Block::Admonition(a) => blocks_defined(a.body@, themes),
        Block::Quotation(q) => blocks_defined(q.body@, themes),
        Block::Container(k) => blocks_defined(k.body@, themes),
        Block::List(l) => items_defined(l.items@, themes),
        _ => true,
    }
}

/// Whether every section of a document names a defined theme.
pub closed spec fn document_defined(document: Document, themes: ThemeSet) -> bool {
    blocks_defined(document.body@, themes)
}

proof fn lemma_groups_are_well_placed(s: Seq<PlanView>)
    requires
        forall|i: int| 0 <= i < s.len() ==> (#[trigger] s[i] is Group) && item_ok(s[i]),
    ensures
        seq_ok(s),
        tail_ok(s),
    decreases s.len(),
{
    if s.len() > 0 {
        assert forall|i: int| 0 <= i < s.drop_last().len() implies (#[trigger] s.drop_last()[i] is Group) && item_ok(s.drop_last()[i]) by {
            assert(s.drop_last()[i] == s[i]);
        }
        lemma_groups_are_well_placed(s.drop_last());
        assert(s.last() == s[s.len() - 1]);
    }
}

proof fn lemma_pushed_ok(st: PlanState, item: PlanView)
    requires
        seq_ok(st.items),
        tail_ok(st.items),
        item_ok(item),
        !(item is ThemeChange),
    ensures
        seq_ok(pushed(st, item).items),
        tail_ok(pushed(st, item).items),
        effective(pushed(st, item)) == effective(st),
        seq_ok(committed(st).items),
        effective(committed(st)) == effective(st),
{
    let c = committed(st);
    assert(seq_ok(c.items)) by {
        if let Some(p) = st.pending {
            let t = classify_spec(st.current, p);
            if t != ThemeTransition::Unchanged {
                let ch = PlanView::ThemeChange { theme: p, transition: t };
                assert(st.items.push(ch).drop_last() =~= st.items);
                assert(st.items.push(ch).last() == ch);
                assert(item_ok(ch));
                assert(seq_ok(st.items.push(ch)));
            }
        }
    }
    assert(c.items.push(item).drop_last() =~= c.items);
    assert(c.items.push(item).last() == item);
}

proof fn lemma_walk_blocks(st: PlanState, blocks: Seq<Block>, themes: ThemeSet)
    requires
        seq_ok(st.items),
        tail_ok(st.items),
    ensures
        match walk_blocks(st, blocks, themes) {
            Ok(after) => seq_ok(after.items) && tail_ok(after.items)
                && effective(after) == effective(st),
            Err(e) => !themes.named_spec().contains_key(e.0),
        },
        blocks_defined(blocks, themes) ==> walk_blocks(st, blocks, themes) is Ok,
    decreases blocks,
{
    if blocks.len() > 0 {
        lemma_walk_block(st, blocks[0], themes);
        match walk_block(st, blocks[0], themes) {
            Ok(next) => {
                lemma_walk_blocks(next, blocks.drop_first(), themes);
            },
            Err(e) => {},
        }
    }
}

proof fn lemma_walk_list_items(st: PlanState, items: Seq<ListItem>, done: Seq<PlanView>, themes: ThemeSet)
    requires
        seq_ok(st.items),
        tail_ok(st.items),
        forall|k: int| 0 <= k < done.len() ==> (#[trigger] done[k] is Group) && item_ok(done[k]),
    ensures
        match walk_list_items(st, items, done, themes) {
            Ok((after, all)) => seq_ok(after.items) && tail_ok(after.items) && effective(after) == effective(st)
                && forall|k: int| 0 <= k < all.len() ==> (#[trigger] all[k] is Group) && item_ok(all[k]),
            Err(e) => !themes.named_spec().contains_key(e.0),
        },
        items_defined(items, themes) ==> walk_list_items(st, items, done, themes) is Ok,
    decreases items,
{
    if items.len() > 0 {
        let item = items[0];
        let c = st;
        let start = PlanState { items: Seq::empty(), ..c };
        lemma_walk_blocks(start, item.body@, themes);
        match walk_blocks(start, item.body@, themes) {
            Ok(inner) => {
                let node = PlanView::Group {
                    kind: GroupView::ListItem { term: opt_text_view(item.term), position: done.len() + 1int },
                    children: inner.items,
                };
                assert forall|k: int| 0 <= k < done.push(node).len() implies (#[trigger] done.push(node)[k] is Group) && item_ok(done.push(node)[k]) by {
                    if k < done.len() {
                        assert(done.push(node)[k] == done[k]);
                    }
                }
                lemma_walk_list_items(PlanState { items: c.items, ..inner }, items.drop_first(), done.push(node), themes);
            },
            Err(e) => {},
        }
    }
}

proof fn lemma_walk_block(st: PlanState, block: Block, themes: ThemeSet)
    requires
        seq_ok(st.items),
        tail_ok(st.items),
    ensures
        match walk_block(st, block, themes) {
            Ok(after) => seq_ok(after.items) && tail_ok(after.items) && effective(after) == effective(st),
            Err(e) => !themes.named_spec().contains_key(e.0),
        },
        block_defined(block, themes) ==> walk_block(st, block, themes) is Ok,
    decreases block,
{
    match block {
        Block::Paragraph(p) => {
            lemma_pushed_ok(st, PlanView::Paragraph(p.text@));
        },
        Block::Heading { text, level } => {
            lemma_pushed_ok(st, PlanView::Heading { text: text@, level: level.value() });
        },
        Block::Verbatim(v) => {
            lemma_pushed_ok(st, PlanView::Verbatim { kind: v.kind_spec(), content: v.content_spec() });
        },
        Block::Break(k) => {
            lemma_pushed_ok(st, PlanView::Break(k));
        },
        Block::Titled { title, block: inner } => {
            lemma_pushed_ok(st, PlanView::BlockTitle(title@));
            lemma_walk_block(pushed(st, PlanView::BlockTitle(title@)), *inner, themes);
        },
        Block::Section(section) => {
            let heading = PlanView::Heading { text: section.heading@, level: section.level.value() };
            match section.theme {
                None => {
                    lemma_pushed_ok(st, heading);
                    lemma_walk_blocks(pushed(st, heading), section.body@, themes);
                },
                Some(id) => {
                    if themes.named_spec().contains_key(id.id_spec()) {
                        let set = PlanState { pending: Some(themes.named_spec()[id.id_spec()]), ..st };
                        assert(set.items == st.items);
                        lemma_pushed_ok(set, heading);
                        lemma_walk_blocks(pushed(set, heading), section.body@, themes);
                    }
                },
            }
        },
        Block::Admonition(a) => {
            let c = st;
            let start = PlanState { items: Seq::empty(), ..c };
            lemma_walk_blocks(start, a.body@, themes);
            if let Ok(inner) = walk_blocks(start, a.body@, themes) {
                lemma_pushed_ok(PlanState { items: c.items, ..inner }, PlanView::Group {
                    kind: GroupView::Admonition(a.kind),
                    children: inner.items,
                });
            }
        },
        Block::Quotation(q) => {
            let c = st;
            let start = PlanState { items: Seq::empty(), ..c };
            lemma_walk_blocks(start, q.body@, themes);
            if let Ok(inner) = walk_blocks(start, q.body@, themes) {
                lemma_pushed_ok(PlanState { items: c.items, ..inner }, PlanView::Group {
                    kind: GroupView::Quotation {
                        kind: q.kind,
                        attribution: opt_text_view(q.attribution),
                        citation: opt_text_view(q.citation),
                    },
                    children: inner.items,
                });
            }
        },
        Block::Container(k) => {
            let c = st;
            let start = PlanState { items: Seq::empty(), ..c };
            lemma_walk_blocks(start, k.body@, themes);
            if let Ok(inner) = walk_blocks(start, k.body@, themes) {
                lemma_pushed_ok(PlanState { items: c.items, ..inner }, PlanView::Group {
                    kind: GroupView::Container(k.kind),
                    children: inner.items,
                });
            }
        },
        Block::List(l) => {
            lemma_walk_list_items(st, l.items@, Seq::empty(), themes);
            if let Ok((after, all)) = walk_list_items(st, l.items@, Seq::empty(), themes) {
                lemma_groups_are_well_placed(all);
                let node = PlanView::Group { kind: GroupView::List(l.kind), children: all };
                assert(item_ok(node));
                lemma_pushed_ok(after, node);
            }
        },
    }
}

/// In a well-placed run, no change of theme comes directly after another.
proof fn lemma_no_change_follows_a_change(s: Seq<PlanView>)
    requires
        seq_ok(s),
    ensures
        forall|i: int| 0 <= i && i + 1 < s.len() && (#[trigger] s[i] is ThemeChange) ==> !(s[i + 1] is ThemeChange),
    decreases s.len(),
{
    if s.len() > 0 {
        let d = s.drop_last();
        lemma_no_change_follows_a_change(d);
        assert forall|i: int| 0 <= i && i + 1 < s.len() && (#[trigger] s[i] is ThemeChange) implies !(s[i + 1] is ThemeChange) by {
            if i + 1 == s.len() - 1 {
                assert(d.last() == s[i]);
                assert(s.last() == s[i + 1]);
            } else {
                assert(d[i] == s[i]);
                assert(d[i + 1] == s[i + 1]);
            }
        }
    }
}

/// In a well-placed run that does not end in a change, every change of theme
/// is directly followed by an item that is not one.
pub proof fn lemma_well_placed_changes_are_followed(s: Seq<PlanView>)
    requires
        seq_ok(s),
        tail_ok(s),
    ensures
        changes_followed(s),
{
    lemma_no_change_follows_a_change(s);
    assert forall|i: int| 0 <= i < s.len() && (#[trigger] s[i] is ThemeChange)
        implies i + 1 < s.len() && !(s[i + 1] is ThemeChange) by {
        if i == s.len() - 1 {
            assert(s.last() == s[i]);
        }
    }
}

/// Every plan is well placed: a change of theme always changes something,
/// every change of theme, at any depth, is directly followed by content that
/// is not a change, and so no run of items ends in one: leaving the last
/// themed section never produces a page with nothing on it.
pub proof fn lemma_plan_is_well_placed(document: Document, themes: ThemeSet)
    ensures
        plan_spec(document, themes) matches Ok(items) ==> seq_ok(items) && tail_ok(items) && changes_followed(items),
{
    let start = plan_start(opt_text_view(document.title), themes.default_spec());
    let empty = PlanState { current: themes.default_spec(), pending: None, items: Seq::empty() };
    if let Some(t) = opt_text_view(document.title) {
        lemma_pushed_ok(empty, PlanView::Title(t));
    }
    lemma_walk_blocks(start, document.body@, themes);
    if let Ok(items) = plan_spec(document, themes) {
        lemma_well_placed_changes_are_followed(items);
    }
}

/// Planning fails only on a section that names an undefined theme, and
/// succeeds whenever every section names a defined one.
pub proof fn lemma_plan_fails_only_on_undefined_themes(document: Document, themes: ThemeSet)
    ensures
        plan_spec(document, themes) matches Err(e) ==> !themes.named_spec().contains_key(e.0),
        document_defined(document, themes) ==> plan_spec(document, themes) is Ok,
{
    let start = plan_start(opt_text_view(document.title), themes.default_spec());
    let empty = PlanState { current: themes.default_spec(), pending: None, items: Seq::empty() };
    if let Some(t) = opt_text_view(document.title) {
        lemma_pushed_ok(empty, PlanView::Title(t));
    }
    lemma_walk_blocks(start, document.body@, themes);
}

/// Whatever a block declares, the theme in effect after it is the theme that
/// was in effect before it: a section's theme governs that section alone, and
/// leaving it restores the theme outside.
pub proof fn lemma_leaving_a_block_restores_the_theme(st: PlanState, block: Block, themes: ThemeSet)
    requires
        seq_ok(st.items),
        tail_ok(st.items),
    ensures
        walk_block(st, block, themes) matches Ok(after) ==> effective(after) == effective(st),
{
    lemma_walk_block(st, block, themes);
}

/// Whether `v` is the group for the list item `item` at index `k` of its list:
/// numbered `k + 1`, with the item's term.
pub open spec fn numbered_item(v: PlanView, item: ListItem, k: int) -> bool {
    v matches PlanView::Group { kind: GroupView::ListItem { term, position }, .. }
        && position == k + 1 && term == opt_text_view(item.term_spec())
}

proof fn lemma_list_items_numbered(st: PlanState, items: Seq<ListItem>, done: Seq<PlanView>, themes: ThemeSet)
    ensures
        walk_list_items(st, items, done, themes) matches Ok((after, all)) ==> {
            &&& all.len() == done.len() + items.len()
            &&& all.take(done.len() as int) == done
            &&& forall|k: int| 0 <= k < items.len() ==> numbered_item(#[trigger] all[done.len() + k], items[k], done.len() + k)
        },
    decreases items,
{
    if items.len() > 0 {
        let item = items[0];
        let start = PlanState { items: Seq::empty(), ..st };
        if let Ok(inner) = walk_blocks(start, item.body@, themes) {
            let node = PlanView::Group {
                kind: GroupView::ListItem { term: opt_text_view(item.term), position: done.len() + 1int },
                children: inner.items,
            };
            let next = PlanState { items: st.items, ..inner };
            item.lemma_term_spec();
            lemma_list_items_numbered(next, items.drop_first(), done.push(node), themes);
            if let Ok((after, all)) = walk_list_items(st, items, done, themes) {
                assert(walk_list_items(st, items, done, themes) == walk_list_items(next, items.drop_first(), done.push(node), themes));
                assert(all.take(done.len() + 1int) == done.push(node));
                assert(all[done.len() as int] == all.take(done.len() + 1int)[done.len() as int]);
                assert(all.take(done.len() as int) =~= all.take(done.len() + 1int).take(done.len() as int));
                assert(done.push(node).take(done.len() as int) =~= done);
                assert forall|k: int| 0 <= k < items.len() implies numbered_item(#[trigger] all[done.len() + k], items[k], done.len() + k) by {
                    if k == 0 {
                        assert(all[done.len() + k] == node);
                    } else {
                        assert(items.drop_first()[k - 1] == items[k]);
                        assert(numbered_item(all[done.push(node).len() + (k - 1)], items.drop_first()[k - 1], done.push(node).len() + (k - 1)));
                    }
                }
            }
        }
    }
}

/// Planning a group keeps what kind of group it is: an admonition becomes a
/// group of its own kind, a quotation keeps its kind, attribution and
/// citation, a container its kind, and a list its kind with one group per
/// item, numbered from one in order and keeping each item's term. The group is
/// the last item planned, and an admonition's, quotation's or container's
/// children are what its own content plans to.
pub proof fn lemma_groups_keep_their_kind(st: PlanState, block: Block, themes: ThemeSet)
    ensures
        walk_block(st, block, themes) matches Ok(after) ==> match block {
            Block::Admonition(a) => after.items.len() > 0 && after.items.last() == (PlanView::Group {
                kind: GroupView::Admonition(a.kind_spec()),
                children: walk_blocks(PlanState { items: Seq::empty(), ..st }, a.body_spec(), themes)->Ok_0.items,
            }),
            Block::Quotation(q) => after.items.len() > 0 && after.items.last() == (PlanView::Group {
                kind: GroupView::Quotation {
                    kind: q.kind_spec(),
                    attribution: opt_text_view(q.attribution_spec()),
                    citation: opt_text_view(q.citation_spec()),
                },
                children: walk_blocks(PlanState { items: Seq::empty(), ..st }, q.body_spec(), themes)->Ok_0.items,
            }),
            Block::Container(k) => after.items.len() > 0 && after.items.last() == (PlanView::Group {
                kind: GroupView::Container(k.kind_spec()),
                children: walk_blocks(PlanState { items: Seq::empty(), ..st }, k.body_spec(), themes)->Ok_0.items,
            }),
            Block::List(l) => after.items.len() > 0 && (after.items.last() matches PlanView::Group { kind, children }
                && kind == GroupView::List(l.kind_spec())
                && children.len() == l.items_spec().len()
                && forall|k: int| 0 <= k < children.len() ==> numbered_item(#[trigger] children[k], l.items_spec()[k], k)),
            _ => true,
        },
{
    match block {
        Block::Admonition(a) => crate::document::lemma_group_accessors(a, arbitrary(), arbitrary(), arbitrary()),
        Block::Quotation(q) => crate::document::lemma_group_accessors(arbitrary(), q, arbitrary(), arbitrary()),
        Block::Container(k) => crate::document::lemma_group_accessors(arbitrary(), arbitrary(), k, arbitrary()),
        Block::List(l) => crate::document::lemma_group_accessors(arbitrary(), arbitrary(), arbitrary(), l),
        _ => {},
    }
    match block {
        Block::List(l) => {
            lemma_list_items_numbered(st, l.items@, Seq::empty(), themes);
            if let Ok((after, all)) = walk_list_items(st, l.items@, Seq::empty(), themes) {
                assert forall|k: int| 0 <= k < all.len() implies numbered_item(#[trigger] all[k], l.items@[k], k) by {
                    assert(all[0 + k] == all[k]);
                }
                let node = PlanView::Group { kind: GroupView::List(l.kind), children: all };
                assert(walk_block(st, block, themes) == Ok::<PlanState, PlanFailure>(pushed(after, node)));
                assert(pushed(after, node).items.last() == node);
                assert(l.items_spec() == l.items@);
                assert(l.kind_spec() == l.kind);
                assert(all.len() == l.items@.len());
                assert forall|k: int| 0 <= k < all.len() implies numbered_item(#[trigger] all[k], l.items_spec()[k], k) by {
                    assert(numbered_item(all[k], l.items@[k], k));
                }
            }
        },
        Block::Admonition(a) => {
            let start = PlanState { items: Seq::empty(), ..st };
            if let Ok(inner) = walk_blocks(start, a.body@, themes) {
                let node = PlanView::Group { kind: GroupView::Admonition(a.kind), children: inner.items };
                assert(pushed(PlanState { items: st.items, ..inner }, node).items.last() == node);
            }
        },
        Block::Quotation(q) => {
            let start = PlanState { items: Seq::empty(), ..st };
            if let Ok(inner) = walk_blocks(start, q.body@, themes) {
                let node = PlanView::Group {
                    kind: GroupView::Quotation {
                        kind: q.kind,
                        attribution: opt_text_view(q.attribution),
                        citation: opt_text_view(q.citation),
                    },
                    children: inner.items,
                };
                assert(pushed(PlanState { items: st.items, ..inner }, node).items.last() == node);
            }
        },
        Block::Container(k) => {
            let start = PlanState { items: Seq::empty(), ..st };
            if let Ok(inner) = walk_blocks(start, k.body@, themes) {
                let node = PlanView::Group { kind: GroupView::Container(k.kind), children: inner.items };
                assert(pushed(PlanState { items: st.items, ..inner }, node).items.last() == node);
            }
        },
        _ => {},
    }
}

} // verus!
