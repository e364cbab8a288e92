//! The document model: the constructs this renderer understands.
//!
//! Text is kept exactly as it appeared in the source; escaping happens once, on
//! the way out. Structure is kept beside the text, never encoded into it.

use vstd::prelude::*;
use crate::presentation::{ListPresentation, ParagraphPresentation};
use crate::text::push_char;
use crate::theme::ThemeId;

verus! {

/// A presentation applied to a run of inline content.
#[derive(Debug, Clone, Copy, PartialEq, Eq, Hash)]
pub enum InlineStyle {
    /// Bold. AsciiDoc calls this *strong*.
    Strong,
    /// Italic. AsciiDoc calls this *emphasis*.
    Emphasis,
    /// Fixed-width, for code and literal text.
    Monospace,
    /// Raised above the baseline.
    Superscript,
    /// Lowered below the baseline.
    Subscript,
    /// Marked for attention.
    Highlight,
    /// A rule beneath the text (the `underline` role).
    Underline,
    /// A rule through the text (the `line-through` role).
    Strikethrough,
    /// Set larger than the text around it (the `big` role).
    Larger,
    /// Set smaller than the text around it (the `small` role).
    Smaller,
}

/// The style a role name asks for, if it names one.
pub open spec fn style_for_role(name: Seq<char>) -> Option<InlineStyle> {
    if name == "underline"@ {
        Some(InlineStyle::Underline)
    } else if name == "line-through"@ {
        Some(InlineStyle::Strikethrough)
    } else if name == "big"@ {
        Some(InlineStyle::Larger)
    } else if name == "small"@ {
        Some(InlineStyle::Smaller)
    } else {
        None
    }
}

impl InlineStyle {
    /// The style the inline role `name` asks for, if it has a typographic
    /// meaning here.
    pub fn from_role(name: &str) -> (r: Option<InlineStyle>)
        ensures
            r == style_for_role(name@),
    {
        proof {
            reveal_strlit("underline");
            reveal_strlit("line-through");
            reveal_strlit("big");
            reveal_strlit("small");
        }
        if crate::text::str_eq(name, "underline") {
            Some(InlineStyle::Underline)
        } else if crate::text::str_eq(name, "line-through") {
            Some(InlineStyle::Strikethrough)
        } else if crate::text::str_eq(name, "big") {
            Some(InlineStyle::Larger)
        } else if crate::text::str_eq(name, "small") {
            Some(InlineStyle::Smaller)
        } else {
            None
        }
    }
}

/// A piece of inline content.
#[derive(Debug, PartialEq, Eq)]
pub enum InlineNode {
    /// Text with no internal structure, exactly as it appeared in the source.
    Text(String),
    /// Content set under one presentation.
    Styled {
        /// How the content is presented.
        style: InlineStyle,
        /// What the presentation applies to.
        children: Vec<InlineNode>,
    },
    /// A break the author asked for.
    LineBreak,
}

/// The mathematical content of an inline node.
pub enum InlineView {
    /// Text.
    Text(Seq<char>),
    /// Content under one presentation.
    Styled { style: InlineStyle, children: Seq<InlineView> },
    /// An explicit line break.
    LineBreak,
}

/// The view of one node.
pub open spec fn node_view(n: InlineNode) -> InlineView
    decreases n,
{
    match n {
        InlineNode::Text(t) => InlineView::Text(t@),
        InlineNode::Styled { style, children } => InlineView::Styled {
            style,
            children: nodes_view(children@),
        },
        InlineNode::LineBreak => InlineView::LineBreak,
    }
}

/// The views of a run of nodes, in order.
pub open spec fn nodes_view(s: Seq<InlineNode>) -> Seq<InlineView>
    decreases s,
{
    if s.len() == 0 {
        Seq::empty()
    } else {
        nodes_view(s.drop_last()).push(node_view(s.last()))
    }
}

impl View for InlineNode {
    type V = InlineView;

    open spec fn view(&self) -> InlineView {
        node_view(*self)
    }
}

/// The text a reader sees in one node, presentation discarded; a line break
/// reads as a newline.
pub open spec fn view_plain(n: InlineView) -> Seq<char>
    decreases n,
{
    match n {
        InlineView::Text(t) => t,
        InlineView::Styled { children, .. } => views_plain(children),
        InlineView::LineBreak => seq!['\n'],
    }
}

/// The text a reader sees in a run of nodes.
pub open spec fn views_plain(s: Seq<InlineView>) -> Seq<char>
    decreases s,
{
    if s.len() == 0 {
        Seq::empty()
    } else {
        views_plain(s.drop_last()) + view_plain(s.last())
    }
}

/// The views of a run of nodes is as long as the run, element for element.
pub proof fn lemma_nodes_view(s: Seq<InlineNode>)
    ensures
        nodes_view(s).len() == s.len(),
        forall|i: int| 0 <= i < s.len() ==> #[trigger] nodes_view(s)[i] == node_view(s[i]),
    decreases s.len(),
{
    if s.len() > 0 {
        lemma_nodes_view(s.drop_last());
    }
}

/// Appending a node appends its view.
pub proof fn lemma_nodes_view_push(s: Seq<InlineNode>, n: InlineNode)
    ensures
        nodes_view(s.push(n)) == nodes_view(s).push(node_view(n)),
{
    assert(s.push(n).drop_last() =~= s);
}

/// Reading a concatenation reads one run after the other.
pub proof fn lemma_views_plain_concat(a: Seq<InlineView>, b: Seq<InlineView>)
    ensures
        views_plain(a + b) == views_plain(a) + views_plain(b),
    decreases b.len(),
{
    if b.len() == 0 {
        assert(a + b =~= a);
        assert(views_plain(b) =~= Seq::<char>::empty());
        assert(views_plain(a) + views_plain(b) =~= views_plain(a));
    } else {
        lemma_views_plain_concat(a, b.drop_last());
        assert((a + b).drop_last() =~= a + b.drop_last());
        assert((a + b).last() == b.last());
        assert(views_plain(a) + views_plain(b) =~= views_plain(a) + views_plain(b.drop_last()) + view_plain(b.last()));
    }
}

impl Clone for InlineNode {
    fn clone(&self) -> (r: InlineNode)
        ensures
            r@ == self@,
        decreases self,
    {
        match self {
            InlineNode::Text(t) => InlineNode::Text(t.clone()),
            InlineNode::Styled { style, children } => InlineNode::Styled {
                style: *style,
                children: clone_nodes(children),
            },
            InlineNode::LineBreak => InlineNode::LineBreak,
        }
    }
}

/// A copy of a run of nodes.
pub fn clone_nodes(nodes: &Vec<InlineNode>) -> (r: Vec<InlineNode>)
    ensures
        nodes_view(r@) == nodes_view(nodes@),
    decreases nodes,
{
    let mut out: Vec<InlineNode> = Vec::new();
    let mut i: usize = 0;
    while i < nodes.len()
        invariant
            i <= nodes.len(),
            nodes_view(out@) == nodes_view(nodes@.subrange(0, i as int)),
        decreases nodes.len() - i,
    {
        assert(decreases_to!(nodes => nodes@[i as int]));
        let c = nodes[i].clone();
        proof {
            lemma_nodes_view_push(out@, c);
            lemma_nodes_view_push(nodes@.subrange(0, i as int), nodes@[i as int]);
            assert(nodes@.subrange(0, i + 1) =~= nodes@.subrange(0, i as int).push(nodes@[i as int]));
        }
        out.push(c);
        i = i + 1;
    }
    assert(nodes@.subrange(0, nodes.len() as int) =~= nodes@);
    out
}

impl InlineNode {
    /// Creates a text node.
    pub fn text(text: &str) -> (r: InlineNode)
        ensures
            r@ == InlineView::Text(text@),
    {
        InlineNode::Text(text.to_owned())
    }

    /// Creates a styled node around some content.
    pub fn styled(style: InlineStyle, children: Vec<InlineNode>) -> (r: InlineNode)
        ensures
            r == (InlineNode::Styled { style, children }),
    {
        InlineNode::Styled { style, children }
    }

    /// Appends this node's text to `out`, ignoring presentation. A hard line
    /// break contributes a newline.
    pub fn write_plain_text(&self, out: &mut String)
        ensures
            final(out)@ == old(out)@ + view_plain(self@),
        decreases self,
    {
        match self {
            InlineNode::Text(text) => {
                out.append(text.as_str());
            },
            InlineNode::Styled { children, .. } => {
                write_nodes_plain(children, out);
            },
            InlineNode::LineBreak => {
                push_char(out, '\n');
                assert(final(out)@ =~= old(out)@ + seq!['\n']);
            },
        }
    }
}

/// Appends the plain text of every node in `nodes`, in order.
fn write_nodes_plain(nodes: &Vec<InlineNode>, out: &mut String)
    ensures
        final(out)@ == old(out)@ + views_plain(nodes_view(nodes@)),
    decreases nodes,
{
    let ghost start = out@;
    let mut i: usize = 0;
    while i < nodes.len()
        invariant
            i <= nodes.len(),
            out@ == start + views_plain(nodes_view(nodes@.subrange(0, i as int))),
        decreases nodes.len() - i,
    {
        assert(decreases_to!(nodes => nodes@[i as int]));
        nodes[i].write_plain_text(out);
        proof {
            let pre = nodes@.subrange(0, i as int);
            assert(nodes@.subrange(0, i + 1) =~= pre.push(nodes@[i as int]));
            lemma_nodes_view_push(pre, nodes@[i as int]);
            assert(nodes_view(pre.push(nodes@[i as int])).drop_last() =~= nodes_view(pre));
        }
        i = i + 1;
    }
    assert(nodes@.subrange(0, nodes.len() as int) =~= nodes@);
}

/// A run of inline content: text, and the presentations applied to parts of it.
#[derive(Debug, PartialEq, Eq, Default)]
pub struct InlineText {
    nodes: Vec<InlineNode>,
}

impl View for InlineText {
    type V = Seq<InlineView>;

    open spec fn view(&self) -> Seq<InlineView> {
        nodes_view(self.node_seq())
    }
}

impl Clone for InlineText {
    fn clone(&self) -> (r: InlineText)
        ensures
            r@ == self@,
    {
        InlineText { nodes: clone_nodes(&self.nodes) }
    }
}

impl InlineText {
    /// The nodes, as stored.
    pub closed spec fn node_seq(&self) -> Seq<InlineNode> {
        self.nodes@
    }

    /// Creates inline text from a run of source text with no structure. Empty
    /// text yields no nodes at all rather than one empty node.
    pub fn new(text: &str) -> (r: InlineText)
        ensures
            text@.len() == 0 ==> r@ == Seq::<InlineView>::empty(),
            text@.len() > 0 ==> r@ == seq![InlineView::Text(text@)],
    {
        if crate::text::str_is_empty(text) {
            let r = InlineText { nodes: Vec::new() };
            assert(r@ =~= Seq::<InlineView>::empty());
            r
        } else {
            let mut nodes = Vec::new();
            nodes.push(InlineNode::Text(text.to_owned()));
            let r = InlineText { nodes };
            proof {
                assert(nodes@ =~= Seq::<InlineNode>::empty().push(nodes@[0]));
                lemma_nodes_view_push(Seq::empty(), nodes@[0]);
                assert(nodes_view(Seq::<InlineNode>::empty()) =~= Seq::<InlineView>::empty());
                assert(r@ =~= seq![InlineView::Text(text@)]);
            }
            r
        }
    }

    /// Creates inline text from already-structured content.
    pub fn from_nodes(nodes: Vec<InlineNode>) -> (r: InlineText)
        ensures
            r.node_seq() == nodes@,
            r@ == nodes_view(nodes@),
    {
        InlineText { nodes }
    }

    /// The content, in document order.
    pub fn nodes(&self) -> (r: &[InlineNode])
        ensures
            r@ == self.node_seq(),
    {
        self.nodes.as_slice()
    }

    /// The nodes, as the vector that holds them.
    pub(crate) fn node_vec(&self) -> (r: &Vec<InlineNode>)
        ensures
            r@ == self.node_seq(),
    {
        &self.nodes
    }

    /// The text a reader would see, with every presentation discarded.
    pub fn plain_text(&self) -> (r: String)
        ensures
            r@ == views_plain(self@),
    {
        let mut out = String::new();
        write_nodes_plain(&self.nodes, &mut out);
        assert(out@ =~= views_plain(self@));
        out
    }

    /// Whether there is no text at all.
    pub fn is_empty(&self) -> (r: bool)
        ensures
            r == (self@.len() == 0 || views_plain(self@).len() == 0),
    {
        proof {
            lemma_nodes_view(self.nodes@);
        }
        if self.nodes.len() == 0 {
            true
        } else {
            let text = self.plain_text();
            crate::text::str_is_empty(text.as_str())
        }
    }
}

/// The lowest and highest heading levels.
pub const HEADING_LEVEL_MIN: u8 = 1;
/// The innermost heading level.
pub const HEADING_LEVEL_MAX: u8 = 6;

/// How deeply a heading is nested, from 1 to 6.
#[derive(Debug, Clone, Copy, PartialEq, Eq, PartialOrd, Ord, Hash)]
pub struct HeadingLevel {
    level: u8,
}

/// A heading level outside the permitted range.
#[derive(Debug, Clone, Copy, PartialEq, Eq)]
pub struct InvalidHeadingLevel {
    /// The level that was proposed.
    pub level: u8,
}

impl HeadingLevel {
    /// The outermost heading level.
    pub const MIN: u8 = 1;
    /// The innermost heading level.
    pub const MAX: u8 = 6;

    /// The level as a number, in specifications.
    pub closed spec fn value(&self) -> u8 {
        self.level
    }

    /// Every heading level lies between 1 and 6.
    pub closed spec fn wf(&self) -> bool {
        1 <= self.level <= 6
    }

    /// Creates a heading level; a level outside 1 to 6 is refused.
    pub fn new(level: u8) -> (r: Result<HeadingLevel, InvalidHeadingLevel>)
        ensures
            (1 <= level <= 6) ==> (r matches Ok(h) && h.value() == level && h.wf()),
            !(1 <= level <= 6) ==> r == Err::<HeadingLevel, InvalidHeadingLevel>(InvalidHeadingLevel { level }),
    {
        if 1 <= level && level <= 6 {
            Ok(HeadingLevel { level })
        } else {
            Err(InvalidHeadingLevel { level })
        }
    }

    /// The level as a number.
    pub fn get(self) -> (r: u8)
        ensures
            r == self.value(),
    {
        self.level
    }
}

impl InvalidHeadingLevel {
    /// The message describing the refusal.
    pub fn message(&self) -> (r: String)
        ensures
            r@ == "heading level must be between 1 and 6, got "@ + crate::fmt::decimal(self.level as nat),
    {
        let mut out = String::from_str("heading level must be between 1 and 6, got ");
        crate::fmt::push_decimal(&mut out, self.level as u64);
        out
    }
}

/// A paragraph of body text.
#[derive(Debug, PartialEq, Eq)]
pub struct Paragraph {
    pub(crate) text: InlineText,
    pub(crate) presentation: ParagraphPresentation,
}

impl Clone for Paragraph {
    fn clone(&self) -> (r: Paragraph)
        ensures
            r.text_spec()@ == self.text_spec()@,
            r.presentation_spec() == self.presentation_spec(),
    {
        Paragraph { text: self.text.clone(), presentation: self.presentation }
    }
}

impl Paragraph {
    /// The paragraph's text, in specifications.
    pub closed spec fn text_spec(&self) -> InlineText {
        self.text
    }

    /// How the paragraph asked to be set, in specifications.
    pub closed spec fn presentation_spec(&self) -> ParagraphPresentation {
        self.presentation
    }

    /// Creates a paragraph that asked for nothing special.
    pub fn new(text: InlineText) -> (r: Paragraph)
        ensures
            r.text_spec() == text,
            r.presentation_spec() == ParagraphPresentation::body_spec(),
    {
        Paragraph { text, presentation: ParagraphPresentation::body() }
    }

    /// Records how the paragraph asked to be set.
    pub fn with_presentation(self, presentation: ParagraphPresentation) -> (r: Paragraph)
        ensures
            r.text_spec() == self.text_spec(),
            r.presentation_spec() == presentation,
    {
        Paragraph { text: self.text, presentation }
    }

    /// The paragraph's text.
    pub fn text(&self) -> (r: &InlineText)
        ensures
            *r == self.text_spec(),
    {
        &self.text
    }

    /// How the paragraph asked to be set.
    pub fn presentation(&self) -> (r: ParagraphPresentation)
        ensures
            r == self.presentation_spec(),
    {
        self.presentation
    }
}

/// A section: a heading and everything beneath it.
#[derive(Debug, PartialEq)]
pub struct Section {
    pub(crate) heading: InlineText,
    pub(crate) level: HeadingLevel,
    pub(crate) theme: Option<ThemeId>,
    pub(crate) body: Vec<Block>,
}

impl Section {
    /// The heading, in specifications.
    pub closed spec fn heading_spec(&self) -> InlineText {
        self.heading
    }

    /// The level, in specifications.
    pub closed spec fn level_spec(&self) -> HeadingLevel {
        self.level
    }

    /// The declared theme, in specifications.
    pub closed spec fn theme_spec(&self) -> Option<ThemeId> {
        self.theme
    }

    /// The content, in specifications.
    pub closed spec fn body_spec(&self) -> Seq<Block> {
        self.body@
    }

    /// Creates a section with no theme override and no content.
    pub fn new(heading: InlineText, level: HeadingLevel) -> (r: Section)
        ensures
            r.heading_spec() == heading,
            r.level_spec() == level,
            r.theme_spec() == None::<ThemeId>,
            r.body_spec() == Seq::<Block>::empty(),
    {
        Section { heading, level, theme: None, body: Vec::new() }
    }

    /// A section with all of its parts given at once.
    pub(crate) fn from_parts(heading: InlineText, level: HeadingLevel, theme: Option<ThemeId>, body: Vec<Block>) -> (r: Section)
        ensures
            r.heading_spec() == heading,
            r.level_spec() == level,
            r.theme_spec() == theme,
            r.body_spec() == body@,
    {
        Section { heading, level, theme, body }
    }

    /// Declares the theme this section and its subtree render under.
    pub fn with_theme(self, theme: ThemeId) -> (r: Section)
        ensures
            r.heading_spec() == self.heading_spec(),
            r.level_spec() == self.level_spec(),
            r.theme_spec() == Some(theme),
            r.body_spec() == self.body_spec(),
    {
        Section { heading: self.heading, level: self.level, theme: Some(theme), body: self.body }
    }

    /// Appends a block to the section's content.
    pub fn with_block(self, block: Block) -> (r: Section)
        ensures
            r.heading_spec() == self.heading_spec(),
            r.level_spec() == self.level_spec(),
            r.theme_spec() == self.theme_spec(),
            r.body_spec() == self.body_spec().push(block),
    {
        let mut body = self.body;
        body.push(block);
        Section { heading: self.heading, level: self.level, theme: self.theme, body }
    }

    /// The section's heading text.
    pub fn heading(&self) -> (r: &InlineText)
        ensures
            *r == self.heading_spec(),
    {
        &self.heading
    }

    /// How deeply the heading is nested.
    pub fn level(&self) -> (r: HeadingLevel)
        ensures
            r == self.level_spec(),
    {
        self.level
    }

    /// The theme this section declares, if any.
    pub fn theme(&self) -> (r: Option<&ThemeId>)
        ensures
            r is Some == self.theme_spec() is Some,
            r matches Some(v) ==> *v == self.theme_spec()->0,
    {
        self.theme.as_ref()
    }

    /// The section's content.
    pub fn body(&self) -> (r: &[Block])
        ensures
            r@ == self.body_spec(),
    {
        self.body.as_slice()
    }
}

/// What kind of verbatim block this is.
#[derive(Debug, Clone, Copy, PartialEq, Eq, Hash)]
pub enum VerbatimKind {
    /// A literal block: text to be shown as typed.
    Literal,
    /// A listing block: output, a transcript, or unlabelled code.
    Listing,
    /// A source block: code in a named language.
    Source,
}

/// Content preserved exactly as written.
#[derive(Debug, PartialEq, Eq)]
pub struct Verbatim {
    pub(crate) kind: VerbatimKind,
    pub(crate) content: String,
}

impl Clone for Verbatim {
    fn clone(&self) -> (r: Verbatim)
        ensures
            r == *self,
    {
        Verbatim { kind: self.kind, content: self.content.clone() }
    }
}

impl Verbatim {
    /// The kind, in specifications.
    pub closed spec fn kind_spec(&self) -> VerbatimKind {
        self.kind
    }

    /// The content, in specifications.
    pub closed spec fn content_spec(&self) -> Seq<char> {
        self.content@
    }

    /// Creates a verbatim block.
    pub fn new(kind: VerbatimKind, content: &str) -> (r: Verbatim)
        ensures
            r.kind_spec() == kind,
            r.content_spec() == content@,
    {
        Verbatim { kind, content: content.to_owned() }
    }

    /// What kind of block it is.
    pub fn kind(&self) -> (r: VerbatimKind)
        ensures
            r == self.kind_spec(),
    {
        self.kind
    }

    /// The content, exactly as written.
    pub fn content(&self) -> (r: &str)
        ensures
            r@ == self.content_spec(),
    {
        self.content.as_str()
    }
}

/// Which admonition this is.
#[derive(Debug, Clone, Copy, PartialEq, Eq, Hash)]
pub enum AdmonitionKind {
    /// Something worth knowing.
    Note,
    /// Advice.
    Tip,
    /// Something the reader must not miss.
    Important,
    /// Something that could go wrong.
    Caution,
    /// Something that will go wrong.
    Warning,
}

/// The label a reader sees on an admonition.
pub open spec fn admonition_label(kind: AdmonitionKind) -> Seq<char> {
    match kind {
        AdmonitionKind::Note => "NOTE"@,
        AdmonitionKind::Tip => "TIP"@,
        AdmonitionKind::Important => "IMPORTANT"@,
        AdmonitionKind::Caution => "CAUTION"@,
        AdmonitionKind::Warning => "WARNING"@,
    }
}

impl AdmonitionKind {
    /// The label a reader sees.
    pub fn label(self) -> (r: &'static str)
        ensures
            r@ == admonition_label(self),
    {
        match self {
            AdmonitionKind::Note => "NOTE",
            AdmonitionKind::Tip => "TIP",
            AdmonitionKind::Important => "IMPORTANT",
            AdmonitionKind::Caution => "CAUTION",
            AdmonitionKind::Warning => "WARNING",
        }
    }
}

/// A passage set apart from the flow of the text and labelled.
#[derive(Debug, PartialEq)]
pub struct Admonition {
    pub(crate) kind: AdmonitionKind,
    pub(crate) body: Vec<Block>,
}

impl Admonition {
    /// The kind, in specifications.
    pub closed spec fn kind_spec(&self) -> AdmonitionKind {
        self.kind
    }

    /// The content, in specifications.
    pub closed spec fn body_spec(&self) -> Seq<Block> {
        self.body@
    }

    /// Creates an admonition.
    pub fn new(kind: AdmonitionKind, body: Vec<Block>) -> (r: Admonition)
        ensures
            r.kind_spec() == kind,
            r.body_spec() == body@,
    {
        Admonition { kind, body }
    }

    /// Which admonition it is.
    pub fn kind(&self) -> (r: AdmonitionKind)
        ensures
            r == self.kind_spec(),
    {
        self.kind
    }

    /// Its content.
    pub fn body(&self) -> (r: &[Block])
        ensures
            r@ == self.body_spec(),
    {
        self.body.as_slice()
    }
}

/// Whether a quotation is prose or verse.
#[derive(Debug, Clone, Copy, PartialEq, Eq, Hash)]
pub enum QuotationKind {
    /// Prose, which the layout engine may reflow.
    Quote,
    /// Verse, whose line breaks are the author's and must be kept.
    Verse,
}

/// A quotation, with whatever attribution the source supplied.
#[derive(Debug, PartialEq)]
pub struct Quotation {
    pub(crate) kind: QuotationKind,
    pub(crate) attribution: Option<InlineText>,
    pub(crate) citation: Option<InlineText>,
    pub(crate) body: Vec<Block>,
}

impl Quotation {
    /// The kind, in specifications.
    pub closed spec fn kind_spec(&self) -> QuotationKind {
        self.kind
    }

    /// The attribution, in specifications.
    pub closed spec fn attribution_spec(&self) -> Option<InlineText> {
        self.attribution
    }

    /// The citation, in specifications.
    pub closed spec fn citation_spec(&self) -> Option<InlineText> {
        self.citation
    }

    /// The content, in specifications.
    pub closed spec fn body_spec(&self) -> Seq<Block> {
        self.body@
    }

    /// Creates a quotation with no attribution.
    pub fn new(kind: QuotationKind, body: Vec<Block>) -> (r: Quotation)
        ensures
            r.kind_spec() == kind,
            r.attribution_spec() == None::<InlineText>,
            r.citation_spec() == None::<InlineText>,
            r.body_spec() == body@,
    {
        Quotation { kind, attribution: None, citation: None, body }
    }

    /// Names who is being quoted.
    pub fn with_attribution(self, attribution: InlineText) -> (r: Quotation)
        ensures
            r.kind_spec() == self.kind_spec(),
            r.attribution_spec() == Some(attribution),
            r.citation_spec() == self.citation_spec(),
            r.body_spec() == self.body_spec(),
    {
        Quotation { kind: self.kind, attribution: Some(attribution), citation: self.citation, body: self.body }
    }

    /// Names the work being quoted from.
    pub fn with_citation(self, citation: InlineText) -> (r: Quotation)
        ensures
            r.kind_spec() == self.kind_spec(),
            r.attribution_spec() == self.attribution_spec(),
            r.citation_spec() == Some(citation),
            r.body_spec() == self.body_spec(),
    {
        Quotation { kind: self.kind, attribution: self.attribution, citation: Some(citation), body: self.body }
    }

    /// Whether it is prose or verse.
    pub fn kind(&self) -> (r: QuotationKind)
        ensures
            r == self.kind_spec(),
    {
        self.kind
    }

    /// Who is being quoted, if the source said.
    pub fn attribution(&self) -> (r: Option<&InlineText>)
        ensures
            r is Some == self.attribution_spec() is Some,
            r matches Some(v) ==> *v == self.attribution_spec()->0,
    {
        self.attribution.as_ref()
    }

    /// The work being quoted from, if the source said.
    pub fn citation(&self) -> (r: Option<&InlineText>)
        ensures
            r is Some == self.citation_spec() is Some,
            r matches Some(v) ==> *v == self.citation_spec()->0,
    {
        self.citation.as_ref()
    }

    /// The quoted content.
    pub fn body(&self) -> (r: &[Block])
        ensures
            r@ == self.body_spec(),
    {
        self.body.as_slice()
    }
}

/// A container that holds other blocks.
#[derive(Debug, Clone, Copy, PartialEq, Eq, Hash)]
pub enum ContainerKind {
    /// An example, set apart from the text around it.
    Example,
    /// A sidebar, set apart more strongly still.
    Sidebar,
    /// An open block, which groups without a presentation of its own.
    Open,
}

/// A group of blocks.
#[derive(Debug, PartialEq)]
pub struct Container {
    pub(crate) kind: ContainerKind,
    pub(crate) body: Vec<Block>,
}

impl Container {
    /// The kind, in specifications.
    pub closed spec fn kind_spec(&self) -> ContainerKind {
        self.kind
    }

    /// The content, in specifications.
    pub closed spec fn body_spec(&self) -> Seq<Block> {
        self.body@
    }

    /// Creates a container.
    pub fn new(kind: ContainerKind, body: Vec<Block>) -> (r: Container)
        ensures
            r.kind_spec() == kind,
            r.body_spec() == body@,
    {
        Container { kind, body }
    }

    /// What kind of container it is.
    pub fn kind(&self) -> (r: ContainerKind)
        ensures
            r == self.kind_spec(),
    {
        self.kind
    }

    /// Its content.
    pub fn body(&self) -> (r: &[Block])
        ensures
            r@ == self.body_spec(),
    {
        self.body.as_slice()
    }
}

/// What kind of list this is.
#[derive(Debug, Clone, Copy, PartialEq, Eq, Hash)]
pub enum ListKind {
    /// Items marked but not numbered.
    Unordered,
    /// Items numbered by their position.
    Ordered,
    /// Terms, each with a description.
    Description,
}

/// One item of a list.
#[derive(Debug, PartialEq)]
pub struct ListItem {
    pub(crate) term: Option<InlineText>,
    pub(crate) checkbox: Option<bool>,
    pub(crate) body: Vec<Block>,
}

impl ListItem {
    /// The term, in specifications.
    pub closed spec fn term_spec(&self) -> Option<InlineText> {
        self.term
    }

    /// The term in specifications is the item's term.
    pub(crate) proof fn lemma_term_spec(&self)
        ensures
            self.term_spec() == self.term,
    {
    }

    /// The checkbox, in specifications.
    pub closed spec fn checkbox_spec(&self) -> Option<bool> {
        self.checkbox
    }

    /// The content, in specifications.
    pub closed spec fn body_spec(&self) -> Seq<Block> {
        self.body@
    }

    /// Creates an item with no term.
    pub fn new(body: Vec<Block>) -> (r: ListItem)
        ensures
            r.term_spec() == None::<InlineText>,
            r.checkbox_spec() == None::<bool>,
            r.body_spec() == body@,
    {
        ListItem { term: None, checkbox: None, body }
    }

    /// Gives the item the term it describes.
    pub fn with_term(self, term: InlineText) -> (r: ListItem)
        ensures
            r.term_spec() == Some(term),
            r.checkbox_spec() == self.checkbox_spec(),
            r.body_spec() == self.body_spec(),
    {
        ListItem { term: Some(term), checkbox: self.checkbox, body: self.body }
    }

    /// Marks the item as a checklist entry, done or not.
    pub fn with_checkbox(self, checked: bool) -> (r: ListItem)
        ensures
            r.term_spec() == self.term_spec(),
            r.checkbox_spec() == Some(checked),
            r.body_spec() == self.body_spec(),
    {
        ListItem { term: self.term, checkbox: Some(checked), body: self.body }
    }

    /// The term this item describes, if it has one.
    pub fn term(&self) -> (r: Option<&InlineText>)
        ensures
            r is Some == self.term_spec() is Some,
            r matches Some(v) ==> *v == self.term_spec()->0,
    {
        self.term.as_ref()
    }

    /// Whether the item is a checklist entry, and if so whether it is done.
    pub fn checkbox(&self) -> (r: Option<bool>)
        ensures
            r == self.checkbox_spec(),
    {
        self.checkbox
    }

    /// The item's content.
    pub fn body(&self) -> (r: &[Block])
        ensures
            r@ == self.body_spec(),
    {
        self.body.as_slice()
    }
}

/// A list of items.
#[derive(Debug, PartialEq)]
pub struct List {
    pub(crate) kind: ListKind,
    pub(crate) items: Vec<ListItem>,
    pub(crate) presentation: ListPresentation,
}

impl List {
    /// The kind, in specifications.
    pub closed spec fn kind_spec(&self) -> ListKind {
        self.kind
    }

    /// The items, in specifications.
    pub closed spec fn items_spec(&self) -> Seq<ListItem> {
        self.items@
    }

    /// The presentation, in specifications.
    pub closed spec fn presentation_spec(&self) -> ListPresentation {
        self.presentation
    }

    /// Creates a list that asked for nothing special.
    pub fn new(kind: ListKind, items: Vec<ListItem>) -> (r: List)
        ensures
            r.kind_spec() == kind,
            r.items_spec() == items@,
            r.presentation_spec() == ListPresentation::stacked_spec(),
    {
        List { kind, items, presentation: ListPresentation::stacked() }
    }

    /// Records how the list asked to be set.
    pub fn with_presentation(self, presentation: ListPresentation) -> (r: List)
        ensures
            r.kind_spec() == self.kind_spec(),
            r.items_spec() == self.items_spec(),
            r.presentation_spec() == presentation,
    {
        List { kind: self.kind, items: self.items, presentation }
    }

    /// What kind of list it is.
    pub fn kind(&self) -> (r: ListKind)
        ensures
            r == self.kind_spec(),
    {
        self.kind
    }

    /// Its items, in order.
    pub fn items(&self) -> (r: &[ListItem])
        ensures
            r@ == self.items_spec(),
    {
        self.items.as_slice()
    }

    /// How the list asked to be set.
    pub fn presentation(&self) -> (r: ListPresentation)
        ensures
            r == self.presentation_spec(),
    {
        self.presentation
    }
}

/// A break in the flow of the document.
#[derive(Debug, Clone, Copy, PartialEq, Eq, Hash)]
pub enum BreakKind {
    /// A visible division between passages.
    Thematic,
    /// The rest of the document starts on a new page.
    Page,
}

/// A unit of document content.
#[derive(Debug, PartialEq)]
pub enum Block {
    /// A section and everything nested beneath it.
    Section(Section),
    /// A heading that opens no section (a discrete heading).
    Heading {
        /// The heading text.
        text: InlineText,
        /// How deeply it sits.
        level: HeadingLevel,
    },
    /// A paragraph of body text.
    Paragraph(Paragraph),
    /// Content preserved exactly as written.
    Verbatim(Verbatim),
    /// A labelled passage, set apart from the text.
    Admonition(Admonition),
    /// A quotation, in prose or in verse.
    Quotation(Quotation),
    /// A group of blocks.
    Container(Container),
    /// A list of items.
    List(List),
    /// A thematic or page break.
    Break(BreakKind),
    /// A block with a title above it.
    Titled {
        /// The title.
        title: InlineText,
        /// What it titles.
        block: Box<Block>,
    },
}

/// A whole document.
#[derive(Debug, PartialEq, Default)]
pub struct Document {
    pub(crate) title: Option<InlineText>,
    pub(crate) body: Vec<Block>,
}

impl Document {
    /// The title, in specifications.
    pub closed spec fn title_spec(&self) -> Option<InlineText> {
        self.title
    }

    /// The top-level content, in specifications.
    pub closed spec fn body_spec(&self) -> Seq<Block> {
        self.body@
    }

    /// Creates an empty, untitled document.
    pub fn new() -> (r: Document)
        ensures
            r.title_spec() == None::<InlineText>,
            r.body_spec() == Seq::<Block>::empty(),
    {
        Document { title: None, body: Vec::new() }
    }

    /// A document with its title and content given at once.
    pub(crate) fn from_parts(title: Option<InlineText>, body: Vec<Block>) -> (r: Document)
        ensures
            r.title_spec() == title,
            r.body_spec() == body@,
    {
        Document { title, body }
    }

    /// Sets the document title.
    pub fn with_title(self, title: InlineText) -> (r: Document)
        ensures
            r.title_spec() == Some(title),
            r.body_spec() == self.body_spec(),
    {
        Document { title: Some(title), body: self.body }
    }

    /// Appends a block to the document body.
    pub fn with_block(self, block: Block) -> (r: Document)
        ensures
            r.title_spec() == self.title_spec(),
            r.body_spec() == self.body_spec().push(block),
    {
        let mut body = self.body;
        body.push(block);
        Document { title: self.title, body }
    }

    /// The document title, if it has one.
    pub fn title(&self) -> (r: Option<&InlineText>)
        ensures
            r is Some == self.title_spec() is Some,
            r matches Some(v) ==> *v == self.title_spec()->0,
    {
        self.title.as_ref()
    }

    /// The document's top-level content.
    pub fn body(&self) -> (r: &[Block])
        ensures
            r@ == self.body_spec(),
    {
        self.body.as_slice()
    }

    /// Whether the document has neither a title nor any content.
    pub fn is_empty(&self) -> (r: bool)
        ensures
            r == (self.title_spec() is None && self.body_spec().len() == 0),
    {
        self.title.is_none() && self.body.len() == 0
    }
}

/// The mathematical content of a block.
pub enum BlockView {
    Section { heading: Seq<InlineView>, level: u8, theme: Option<Seq<char>>, body: Seq<BlockView> },
    Heading { text: Seq<InlineView>, level: u8 },
    Paragraph { text: Seq<InlineView>, presentation: ParagraphPresentation },
    Verbatim { kind: VerbatimKind, content: Seq<char> },
    Admonition { kind: AdmonitionKind, body: Seq<BlockView> },
    Quotation {
        kind: QuotationKind,
        attribution: Option<Seq<InlineView>>,
        citation: Option<Seq<InlineView>>,
        body: Seq<BlockView>,
    },
    Container { kind: ContainerKind, body: Seq<BlockView> },
    List { kind: ListKind, items: Seq<ItemView>, presentation: ListPresentation },
    Break(BreakKind),
    Titled { title: Seq<InlineView>, block: Box<BlockView> },
}

/// The mathematical content of a list item.
pub struct ItemView {
    pub term: Option<Seq<InlineView>>,
    pub checkbox: Option<bool>,
    pub body: Seq<BlockView>,
}

/// The view of optional inline text.
pub open spec fn text_option_view(t: Option<InlineText>) -> Option<Seq<InlineView>> {
    match t {
        Some(t) => Some(t@),
        None => None,
    }
}

/// The view of a block.
pub open spec fn block_view(b: Block) -> BlockView
    decreases b,
{
    match b {
        Block::Section(s) => BlockView::Section {
            heading: s.heading_spec()@,
            level: s.level_spec().value(),
            theme: match s.theme_spec() {
                Some(id) => Some(id.id_spec()),
                None => None,
            },
            body: blocks_view(s.body_spec()),
        },
        Block::Heading { text, level } => BlockView::Heading { text: text@, level: level.value() },
        Block::Paragraph(p) => BlockView::Paragraph { text: p.text_spec()@, presentation: p.presentation_spec() },
        Block::Verbatim(v) => BlockView::Verbatim { kind: v.kind_spec(), content: v.content_spec() },
        Block::Admonition(a) => BlockView::Admonition { kind: a.kind_spec(), body: blocks_view(a.body_spec()) },
        Block::Quotation(q) => BlockView::Quotation {
            kind: q.kind_spec(),
            attribution: text_option_view(q.attribution_spec()),
            citation: text_option_view(q.citation_spec()),
            body: blocks_view(q.body_spec()),
        },
        Block::Container(c) => BlockView::Container { kind: c.kind_spec(), body: blocks_view(c.body_spec()) },
        Block::List(l) => BlockView::List {
            kind: l.kind_spec(),
            items: list_items_view(l.items_spec()),
            presentation: l.presentation_spec(),
        },
        Block::Break(k) => BlockView::Break(k),
        Block::Titled { title, block } => BlockView::Titled { title: title@, block: Box::new(block_view(*block)) },
    }
}

/// The views of a run of blocks, in order.
pub open spec fn blocks_view(s: Seq<Block>) -> Seq<BlockView>
    decreases s,
{
    if s.len() == 0 {
        Seq::empty()
    } else {
        blocks_view(s.drop_last()).push(block_view(s.last()))
    }
}

/// The view of a list item.
pub open spec fn list_item_view(i: ListItem) -> ItemView
    decreases i,
{
    ItemView { term: text_option_view(i.term_spec()), checkbox: i.checkbox_spec(), body: blocks_view(i.body_spec()) }
}

/// The views of a run of list items, in order.
pub open spec fn list_items_view(s: Seq<ListItem>) -> Seq<ItemView>
    decreases s,
{
    if s.len() == 0 {
        Seq::empty()
    } else {
        list_items_view(s.drop_last()).push(list_item_view(s.last()))
    }
}

/// Appending runs of blocks appends their views.
pub proof fn lemma_blocks_view_concat(a: Seq<Block>, b: Seq<Block>)
    ensures
        blocks_view(a + b) == blocks_view(a) + blocks_view(b),
    decreases b.len(),
{
    if b.len() == 0 {
        assert(a + b =~= a);
        assert(blocks_view(a) + blocks_view(b) =~= blocks_view(a));
    } else {
        lemma_blocks_view_concat(a, b.drop_last());
        assert((a + b).drop_last() =~= a + b.drop_last());
        assert(blocks_view(a) + blocks_view(b) =~= (blocks_view(a) + blocks_view(b.drop_last())).push(block_view(b.last())));
    }
}

/// One block's run is its one view.
pub proof fn lemma_blocks_view_single(b: Block)
    ensures
        blocks_view(seq![b]) == seq![block_view(b)],
{
    assert(seq![b].drop_last() =~= Seq::<Block>::empty());
    assert(blocks_view(Seq::<Block>::empty()) =~= Seq::<BlockView>::empty());
    assert(seq![b].last() == b);
    assert(blocks_view(seq![b]) =~= Seq::<BlockView>::empty().push(block_view(b)));
}

/// Appending an item appends its view.
pub proof fn lemma_list_items_view_push(s: Seq<ListItem>, i: ListItem)
    ensures
        list_items_view(s.push(i)) == list_items_view(s).push(list_item_view(i)),
{
    assert(s.push(i).drop_last() =~= s);
}

/// The specification accessors of the group blocks are their fields.
pub(crate) proof fn lemma_group_accessors(a: Admonition, q: Quotation, c: Container, l: List)
    ensures
        a.kind_spec() == a.kind && a.body_spec() == a.body@,
        q.kind_spec() == q.kind && q.attribution_spec() == q.attribution && q.citation_spec() == q.citation
            && q.body_spec() == q.body@,
        c.kind_spec() == c.kind && c.body_spec() == c.body@,
        l.kind_spec() == l.kind && l.items_spec() == l.items@,
{
}

} // verus!
