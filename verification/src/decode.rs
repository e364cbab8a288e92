//! Turning the marker-encoded stream the inline renderer writes back into a
//! tree of inline nodes.
//!
//! The decoder is a small state machine over the characters of the stream. Its
//! meaning is given by [`decode_spec`]: a stack of open spans, the text gathered
//! since the last marker, and the names of the constructs that were not
//! honoured.

use vstd::prelude::*;
use crate::document::{
    InlineNode, InlineText, InlineView, InlineStyle, nodes_view, node_view, lemma_nodes_view,
    lemma_nodes_view_push,
};
use crate::inline::{
    style_of, style_of_spec, SPAN_CLOSE, HARD_LINE_BREAK, UNSUPPORTED_OPEN,
    UNSUPPORTED_SEPARATOR,
};
use crate::text::{chars_of, string_of, char_is_whitespace, is_whitespace};

verus! {

/// What a newline inside decoded text means for the block being decoded.
#[derive(Debug, Clone, Copy, PartialEq, Eq, Structural)]
pub enum SoftBreaks {
    /// The newline is where the author's editor wrapped the source, and the
    /// layout engine decides where the line really ends.
    Fill,
    /// The newline is a line ending the author chose, and the reader must see it.
    Keep,
    /// The text is handed back exactly as it arrived.
    Preserve,
}

// ---------------------------------------------------------------------------
// Filling and line splitting
// ---------------------------------------------------------------------------

/// One run of white space as it is written back: a run holding a newline
/// becomes a single space, any other run is kept as typed.
pub open spec fn collapsed(run: Seq<char>) -> Seq<char> {
    if run.contains('\n') {
        seq![' ']
    } else {
        run
    }
}

/// `s` filled, with `run` the white space gathered just before it.
pub open spec fn fill_from(s: Seq<char>, run: Seq<char>) -> Seq<char>
    decreases s.len(),
{
    if s.len() == 0 {
        collapsed(run)
    } else if is_whitespace(s[0]) {
        fill_from(s.drop_first(), run.push(s[0]))
    } else {
        collapsed(run) + seq![s[0]] + fill_from(s.drop_first(), Seq::empty())
    }
}

/// `text` with every run of white space that holds a newline replaced by a
/// single space; the other runs are left as the author typed them.
pub open spec fn filled(text: Seq<char>) -> Seq<char> {
    fill_from(text, Seq::empty())
}

/// The nodes for `s`, with `line` the part of the current line read before it:
/// each newline becomes an explicit break, and no empty text is produced.
pub open spec fn lines_from(s: Seq<char>, line: Seq<char>) -> Seq<InlineView>
    decreases s.len(),
{
    let head = if line.len() == 0 {
        Seq::<InlineView>::empty()
    } else {
        seq![InlineView::Text(line)]
    };
    if s.len() == 0 {
        head
    } else if s[0] == '\n' {
        head + seq![InlineView::LineBreak] + lines_from(s.drop_first(), Seq::empty())
    } else {
        lines_from(s.drop_first(), line.push(s[0]))
    }
}

/// The nodes for `text` whose line endings the author chose. A trailing newline
/// ends the last line rather than starting an empty one, so it adds no break.
pub open spec fn lines_view(text: Seq<char>) -> Seq<InlineView> {
    let all = lines_from(text, Seq::empty());
    if text.len() > 0 && text.last() == '\n' {
        all.drop_last()
    } else {
        all
    }
}

/// The nodes that gathered text becomes, by what its newlines mean.
pub open spec fn gathered_views(text: Seq<char>, soft_breaks: SoftBreaks) -> Seq<InlineView> {
    match soft_breaks {
        SoftBreaks::Fill => seq![InlineView::Text(filled(text))],
        SoftBreaks::Keep => lines_view(text),
        SoftBreaks::Preserve => seq![InlineView::Text(text)],
    }
}

/// Appending runs of nodes appends their views.
pub proof fn lemma_nodes_view_concat(a: Seq<InlineNode>, b: Seq<InlineNode>)
    ensures
        nodes_view(a + b) == nodes_view(a) + nodes_view(b),
    decreases b.len(),
{
    if b.len() == 0 {
        assert(a + b =~= a);
        assert(nodes_view(b) =~= Seq::<InlineView>::empty());
        assert(nodes_view(a) + nodes_view(b) =~= nodes_view(a));
    } else {
        lemma_nodes_view_concat(a, b.drop_last());
        assert((a + b).drop_last() =~= a + b.drop_last());
        assert((a + b).last() == b.last());
        assert(nodes_view(a) + nodes_view(b) =~= (nodes_view(a) + nodes_view(b.drop_last())).push(
            node_view(b.last()),
        ));
    }
}

/// The filled form of `text`.
fn fill(text: &Vec<char>) -> (r: Vec<char>)
    ensures
        r@ == filled(text@),
{
    let mut out: Vec<char> = Vec::new();
    let mut run: Vec<char> = Vec::new();
    let mut run_has_newline = false;
    let mut i: usize = 0;
    proof {
        assert(text@.skip(0) =~= text@);
        assert(!run@.contains('\n'));
        assert(out@ + fill_from(text@.skip(0), run@) =~= filled(text@));
    }
    while i < text.len()
        invariant
            i <= text.len(),
            run_has_newline == run@.contains('\n'),
            out@ + fill_from(text@.skip(i as int), run@) == filled(text@),
        decreases text.len() - i,
    {
        let c = text[i];
        proof {
            let rest = text@.skip(i as int);
            assert(rest[0] == c);
            assert(rest.drop_first() =~= text@.skip(i + 1));
        }
        if char_is_whitespace(c) {
            proof {
                if c == '\n' {
                    assert(run@.push(c).last() == '\n');
                    assert(run@.push(c).contains('\n'));
                } else if run_has_newline {
                    let k = choose|k: int| 0 <= k < run@.len() && run@[k] == '\n';
                    assert(run@.push(c)[k] == '\n');
                } else {
                    assert forall|k: int| 0 <= k < run@.push(c).len() implies run@.push(c)[k]
                        != '\n' by {
                        if k < run@.len() {
                            assert(run@.push(c)[k] == run@[k]);
                        }
                    }
                }
            }
            run.push(c);
            run_has_newline = run_has_newline || c == '\n';
        } else {
            let ghost before = out@;
            let ghost old_run = run@;
            if run_has_newline {
                out.push(' ');
            } else {
                out.append(&mut run);
            }
            out.push(c);
            proof {
                assert(out@ =~= before + collapsed(old_run) + seq![c]);
            }
            run = Vec::new();
            run_has_newline = false;
            proof {
                assert(!Seq::<char>::empty().contains('\n'));
            }
        }
        i = i + 1;
    }
    let ghost before = out@;
    let ghost old_run = run@;
    if run_has_newline {
        out.push(' ');
    } else {
        out.append(&mut run);
    }
    proof {
        assert(text@.skip(i as int) =~= Seq::<char>::empty());
        assert(out@ =~= before + collapsed(old_run));
    }
    out
}

/// A text whose last character is a newline yields nodes that end in a break.
proof fn lemma_lines_from_ends_in_break(s: Seq<char>, line: Seq<char>)
    requires
        s.len() > 0,
        s.last() == '\n',
    ensures
        lines_from(s, line).len() > 0,
        lines_from(s, line).last() == InlineView::LineBreak,
    decreases s.len(),
{
    let head = if line.len() == 0 {
        Seq::<InlineView>::empty()
    } else {
        seq![InlineView::Text(line)]
    };
    if s[0] == '\n' {
        if s.len() == 1 {
            assert(s.drop_first().len() == 0);
            assert(lines_from(s.drop_first(), Seq::empty()) =~= Seq::<InlineView>::empty());
            assert(lines_from(s, line) =~= head + seq![InlineView::LineBreak]);
        } else {
            assert(s.drop_first().last() == s.last());
            lemma_lines_from_ends_in_break(s.drop_first(), Seq::empty());
        }
    } else {
        assert(s.len() > 1);
        assert(s.drop_first().last() == s.last());
        lemma_lines_from_ends_in_break(s.drop_first(), line.push(s[0]));
    }
}

/// Dropping the last node drops the last view.
proof fn lemma_nodes_view_drop_last(s: Seq<InlineNode>)
    requires
        s.len() > 0,
    ensures
        nodes_view(s.drop_last()) == nodes_view(s).drop_last(),
{
    assert(nodes_view(s) == nodes_view(s.drop_last()).push(node_view(s.last())));
    assert(nodes_view(s).drop_last() =~= nodes_view(s.drop_last()));
}

/// Appends the nodes for `text` as a run of lines to `nodes`.
fn push_lines(text: &Vec<char>, nodes: &mut Vec<InlineNode>)
    ensures
        nodes_view(final(nodes)@) == nodes_view(old(nodes)@) + lines_view(text@),
{
    let ghost start = nodes_view(nodes@);
    let mut line: Vec<char> = Vec::new();
    let mut i: usize = 0;
    proof {
        assert(text@.skip(0) =~= text@);
        assert(start + lines_from(text@, Seq::empty()) =~= nodes_view(nodes@) + lines_from(
            text@.skip(0),
            line@,
        ));
    }
    while i < text.len()
        invariant
            i <= text.len(),
            nodes_view(nodes@) + lines_from(text@.skip(i as int), line@) == start + lines_from(
                text@,
                Seq::empty(),
            ),
        decreases text.len() - i,
    {
        let c = text[i];
        let ghost rest = text@.skip(i as int);
        proof {
            assert(rest[0] == c);
            assert(rest.drop_first() =~= text@.skip(i + 1));
        }
        if c == '\n' {
            let ghost before = nodes_view(nodes@);
            let ghost head = if line@.len() == 0 {
                Seq::<InlineView>::empty()
            } else {
                seq![InlineView::Text(line@)]
            };
            if line.len() > 0 {
                let s = string_of(&line);
                proof { lemma_nodes_view_push(nodes@, InlineNode::Text(s)); }
                nodes.push(InlineNode::Text(s));
            }
            proof {
                assert(nodes_view(nodes@) =~= before + head);
                lemma_nodes_view_push(nodes@, InlineNode::LineBreak);
            }
            nodes.push(InlineNode::LineBreak);
            proof {
                assert(nodes_view(nodes@) =~= before + head + seq![InlineView::LineBreak]);
                assert(lines_from(rest, line@) == head + seq![InlineView::LineBreak] + lines_from(
                    rest.drop_first(),
                    Seq::empty(),
                ));
                assert(nodes_view(nodes@) + lines_from(rest.drop_first(), Seq::empty()) =~= before
                    + lines_from(rest, line@));
            }
            line = Vec::new();
        } else {
            line.push(c);
        }
        i = i + 1;
    }
    let ghost before = nodes_view(nodes@);
    if line.len() > 0 {
        let s = string_of(&line);
        proof { lemma_nodes_view_push(nodes@, InlineNode::Text(s)); }
        nodes.push(InlineNode::Text(s));
    }
    proof {
        assert(text@.skip(i as int) =~= Seq::<char>::empty());
        assert(nodes_view(nodes@) =~= before + lines_from(text@.skip(i as int), line@));
        assert(nodes_view(nodes@) == start + lines_from(text@, Seq::empty()));
    }
    if text.len() > 0 && text[text.len() - 1] == '\n' {
        proof {
            lemma_lines_from_ends_in_break(text@, Seq::empty());
            lemma_nodes_view_drop_last(nodes@);
            assert(nodes@.len() > 0) by {
                lemma_nodes_view(nodes@);
            }
        }
        nodes.pop();
        proof {
            assert((start + lines_from(text@, Seq::empty())).drop_last() =~= start + lines_from(
                text@,
                Seq::empty(),
            ).drop_last());
        }
    }
}

// ---------------------------------------------------------------------------
// The decoder's state machine
// ---------------------------------------------------------------------------

/// What an open marker started.
pub enum FrameView {
    /// A presentation, which becomes a styled node when it closes.
    Styled(InlineStyle),
    /// An unsupported construct, named; its content is kept and its
    /// presentation dropped when it closes.
    Unsupported(Seq<char>),
}

/// The decoder's state between two characters of the stream.
#[verifier::ext_equal]
pub struct DecodeState {
    /// The spans open around the current one, outermost first: what opened
    /// each inner span, and the nodes gathered in its enclosing span so far.
    pub saved: Seq<(FrameView, Seq<InlineView>)>,
    /// The nodes gathered in the innermost open span.
    pub current: Seq<InlineView>,
    /// Text read since the last marker.
    pub pending: Seq<char>,
    /// The constructs closed so far that were not honoured, in order.
    pub unsupported: Seq<Seq<char>>,
}

/// Nothing read yet.
pub open spec fn initial_state() -> DecodeState {
    DecodeState {
        saved: Seq::empty(),
        current: Seq::empty(),
        pending: Seq::empty(),
        unsupported: Seq::empty(),
    }
}

/// Gathered text moved into the innermost span.
pub open spec fn flushed(st: DecodeState, soft_breaks: SoftBreaks) -> DecodeState {
    if st.pending.len() == 0 {
        st
    } else {
        DecodeState {
            current: st.current + gathered_views(st.pending, soft_breaks),
            pending: Seq::empty(),
            ..st
        }
    }
}

/// A new span opened by `frame`.
pub open spec fn opened(st: DecodeState, frame: FrameView) -> DecodeState {
    DecodeState { saved: st.saved.push((frame, st.current)), current: Seq::empty(), ..st }
}

/// The innermost span closed and folded into the one around it. With no span
/// open, nothing happens: a stray close marker leaves the content alone.
pub open spec fn closed(st: DecodeState) -> DecodeState {
    if st.saved.len() == 0 {
        st
    } else {
        let (frame, parent) = st.saved.last();
        match frame {
            FrameView::Styled(style) => DecodeState {
                saved: st.saved.drop_last(),
                current: parent.push(InlineView::Styled { style, children: st.current }),
                ..st
            },
            FrameView::Unsupported(name) => DecodeState {
                saved: st.saved.drop_last(),
                current: parent + st.current,
                unsupported: st.unsupported.push(name),
                ..st
            },
        }
    }
}

/// Every open span closed, innermost first.
pub open spec fn closed_all(st: DecodeState) -> DecodeState
    decreases st.saved.len(),
{
    if st.saved.len() == 0 {
        st
    } else {
        closed_all(closed(st))
    }
}

/// One more character of text read.
pub open spec fn with_pending(st: DecodeState, c: char) -> DecodeState {
    DecodeState { pending: st.pending.push(c), ..st }
}

/// An explicit break appended to the innermost span.
pub open spec fn with_break(st: DecodeState) -> DecodeState {
    DecodeState { current: st.current.push(InlineView::LineBreak), ..st }
}

/// How many characters of `r` come before the first name separator (all of
/// them when there is none).
pub open spec fn separator_at(r: Seq<char>) -> nat
    decreases r.len(),
{
    if r.len() == 0 {
        0
    } else if r[0] == UNSUPPORTED_SEPARATOR {
        0
    } else {
        1 + separator_at(r.drop_first())
    }
}

/// The separator, if any, lies within `r`.
pub proof fn lemma_separator_at_bound(r: Seq<char>)
    ensures
        separator_at(r) <= r.len(),
        separator_at(r) < r.len() ==> r[separator_at(r) as int] == UNSUPPORTED_SEPARATOR,
    decreases r.len(),
{
    if r.len() > 0 && r[0] != UNSUPPORTED_SEPARATOR {
        lemma_separator_at_bound(r.drop_first());
    }
}

/// The entity `r` starts with, after its `&`, and how many characters it
/// spans: only the three the renderer writes are recognised.
pub open spec fn entity_at(r: Seq<char>) -> Option<(char, nat)> {
    if r.len() >= 3 && r[0] == 'l' && r[1] == 't' && r[2] == ';' {
        Some(('<', 3))
    } else if r.len() >= 3 && r[0] == 'g' && r[1] == 't' && r[2] == ';' {
        Some(('>', 3))
    } else if r.len() >= 4 && r[0] == 'a' && r[1] == 'm' && r[2] == 'p' && r[3] == ';' {
        Some(('&', 4))
    } else {
        None
    }
}

/// The state after reading `rest` from `st`.
pub open spec fn run(st: DecodeState, rest: Seq<char>, soft_breaks: SoftBreaks) -> DecodeState
    decreases rest.len(),
{
    if rest.len() == 0 {
        st
    } else {
        let c = rest[0];
        let tail = rest.drop_first();
        if style_of_spec(c) is Some {
            run(
                opened(flushed(st, soft_breaks), FrameView::Styled(style_of_spec(c)->0)),
                tail,
                soft_breaks,
            )
        } else if c == UNSUPPORTED_OPEN {
            let k = separator_at(tail);
            proof {
                lemma_separator_at_bound(tail);
            }
            let next: int = if k < tail.len() { k + 1int } else { k as int };
            run(
                opened(flushed(st, soft_breaks), FrameView::Unsupported(tail.take(k as int))),
                tail.skip(next),
                soft_breaks,
            )
        } else if c == SPAN_CLOSE {
            run(closed(flushed(st, soft_breaks)), tail, soft_breaks)
        } else if c == HARD_LINE_BREAK {
            run(with_break(flushed(st, soft_breaks)), tail, soft_breaks)
        } else if c == '&' {
            match entity_at(tail) {
                Some((d, n)) => run(with_pending(st, d), tail.skip(n as int), soft_breaks),
                None => run(with_pending(st, '&'), tail, soft_breaks),
            }
        } else {
            run(with_pending(st, c), tail, soft_breaks)
        }
    }
}

/// The state once the whole stream is read and every span is closed.
pub open spec fn final_state(encoded: Seq<char>, soft_breaks: SoftBreaks) -> DecodeState {
    closed_all(flushed(run(initial_state(), encoded, soft_breaks), soft_breaks))
}

/// What an open marker started.
enum Frame {
    Styled(InlineStyle),
    Unsupported(String),
}

spec fn frame_view(f: Frame) -> FrameView {
    match f {
        Frame::Styled(style) => FrameView::Styled(style),
        Frame::Unsupported(name) => FrameView::Unsupported(name@),
    }
}

spec fn saved_view(s: Seq<(Frame, Vec<InlineNode>)>) -> Seq<(FrameView, Seq<InlineView>)> {
    s.map_values(|p: (Frame, Vec<InlineNode>)| (frame_view(p.0), nodes_view(p.1@)))
}

/// The texts of a run of strings.
pub open spec fn strings_view(s: Seq<String>) -> Seq<Seq<char>> {
    s.map_values(|x: String| x@)
}

spec fn state_view(
    saved: Seq<(Frame, Vec<InlineNode>)>,
    current: Seq<InlineNode>,
    pending: Seq<char>,
    unsupported: Seq<String>,
) -> DecodeState {
    DecodeState {
        saved: saved_view(saved),
        current: nodes_view(current),
        pending,
        unsupported: strings_view(unsupported),
    }
}

/// Moves gathered text into the innermost span.
fn flush(pending: &mut Vec<char>, current: &mut Vec<InlineNode>, soft_breaks: SoftBreaks)
    ensures
        final(pending)@ == Seq::<char>::empty(),
        nodes_view(final(current)@) == (if old(pending)@.len() == 0 {
            nodes_view(old(current)@)
        } else {
            nodes_view(old(current)@) + gathered_views(old(pending)@, soft_breaks)
        }),
{
    if pending.len() == 0 {
        return;
    }
    let ghost start = nodes_view(current@);
    match soft_breaks {
        SoftBreaks::Fill => {
            let t = fill(pending);
            let s = string_of(&t);
            proof { lemma_nodes_view_push(current@, InlineNode::Text(s)); }
            current.push(InlineNode::Text(s));
            proof { assert(nodes_view(current@) =~= start + seq![InlineView::Text(filled(old(pending)@))]); }
        },
        SoftBreaks::Keep => {
            push_lines(pending, current);
        },
        SoftBreaks::Preserve => {
            let s = string_of(pending);
            proof { lemma_nodes_view_push(current@, InlineNode::Text(s)); }
            current.push(InlineNode::Text(s));
            proof { assert(nodes_view(current@) =~= start + seq![InlineView::Text(old(pending)@)]); }
        },
    }
    *pending = Vec::new();
}

/// Closes the innermost span, folding it into the one around it, and returns
/// the nodes of the span that is now innermost.
fn close(
    saved: &mut Vec<(Frame, Vec<InlineNode>)>,
    current: Vec<InlineNode>,
    unsupported: &mut Vec<String>,
) -> (r: Vec<InlineNode>)
    ensures
        state_view(final(saved)@, r@, Seq::empty(), final(unsupported)@) == closed(
            state_view(old(saved)@, current@, Seq::empty(), old(unsupported)@),
        ),
        old(saved)@.len() > 0 ==> final(saved)@.len() == old(saved)@.len() - 1,
{
    if saved.len() == 0 {
        return current;
    }
    let ghost before = saved@;
    let (frame, parent) = saved.pop().unwrap();
    proof {
        assert(saved_view(saved@) =~= saved_view(before).drop_last());
        assert(saved_view(before).last() == (frame_view(frame), nodes_view(parent@)));
    }
    let mut parent = parent;
    match frame {
        Frame::Styled(style) => {
            let node = InlineNode::Styled { style, children: current };
            proof { lemma_nodes_view_push(parent@, node); }
            parent.push(node);
        },
        Frame::Unsupported(name) => {
            let ghost u = unsupported@;
            unsupported.push(name);
            proof {
                assert(strings_view(unsupported@) =~= strings_view(u).push(name@));
            }
            let mut current = current;
            let ghost p = parent@;
            let ghost c = current@;
            parent.append(&mut current);
            proof { lemma_nodes_view_concat(p, c); }
        },
    }
    parent
}

/// Decodes `encoded`, reading its newlines as `soft_breaks` says, into the
/// nodes of the outermost span and the unhonoured constructs.
fn decode_with(encoded: &str, soft_breaks: SoftBreaks) -> (r: DecodedInline)
    ensures
        r.text@ == decoded_nodes(encoded@, soft_breaks),
        strings_view(r.unsupported@) == final_state(encoded@, soft_breaks).unsupported,
{
    let cs = chars_of(encoded);
    let mut saved: Vec<(Frame, Vec<InlineNode>)> = Vec::new();
    let mut current: Vec<InlineNode> = Vec::new();
    let mut pending: Vec<char> = Vec::new();
    let mut unsupported: Vec<String> = Vec::new();
    let mut i: usize = 0;
    proof {
        assert(cs@.skip(0) =~= cs@);
        assert(saved_view(saved@) =~= Seq::empty());
        assert(nodes_view(current@) =~= Seq::empty());
        assert(strings_view(unsupported@) =~= Seq::empty());
        assert(state_view(saved@, current@, pending@, unsupported@) =~= initial_state());
    }
    while i < cs.len()
        invariant
            i <= cs.len(),
            cs@ == encoded@,
            run(state_view(saved@, current@, pending@, unsupported@), cs@.skip(i as int), soft_breaks)
                == run(initial_state(), cs@, soft_breaks),
        decreases cs.len() - i,
    {
        let c = cs[i];
        let ghost rest = cs@.skip(i as int);
        let ghost st = state_view(saved@, current@, pending@, unsupported@);
        proof {
            assert(rest[0] == c);
            assert(rest.drop_first() =~= cs@.skip(i + 1));
        }
        let style = style_of(c);
        if let Some(style) = style {
            flush(&mut pending, &mut current, soft_breaks);
            let inner = current;
            proof {
                assert(state_view(saved@, inner@, pending@, unsupported@) =~= flushed(st, soft_breaks));
            }
            let ghost before = saved@;
            saved.push((Frame::Styled(style), inner));
            current = Vec::new();
            proof {
                assert(saved_view(saved@) =~= saved_view(before).push((FrameView::Styled(style), nodes_view(inner@))));
                assert(nodes_view(current@) =~= Seq::<InlineView>::empty());
                assert(state_view(saved@, current@, pending@, unsupported@) =~= opened(
                    flushed(st, soft_breaks),
                    FrameView::Styled(style),
                ));
            }
            i = i + 1;
        } else if c == UNSUPPORTED_OPEN {
            flush(&mut pending, &mut current, soft_breaks);
            let ghost fl = state_view(saved@, current@, pending@, unsupported@);
            proof { assert(fl =~= flushed(st, soft_breaks)); }
            let ghost tail = rest.drop_first();
            let mut name: Vec<char> = Vec::new();
            let mut j: usize = i + 1;
            proof {
                assert(cs@.skip(j as int) =~= tail);
            }
            while j < cs.len() && cs[j] != UNSUPPORTED_SEPARATOR
                invariant
                    i + 1 <= j <= cs.len(),
                    tail == cs@.skip(i + 1),
                    name@ == tail.take(j - (i + 1)),
                    separator_at(tail) == (j - (i + 1)) + separator_at(cs@.skip(j as int)),
                decreases cs.len() - j,
            {
                proof {
                    assert(cs@.skip(j as int).drop_first() =~= cs@.skip(j + 1));
                    assert(tail.take(j + 1 - (i + 1)) =~= tail.take(j - (i + 1)).push(cs@[j as int]));
                }
                name.push(cs[j]);
                j = j + 1;
            }
            let ghost k = separator_at(tail);
            proof {
                if j < cs.len() {
                    assert(cs@.skip(j as int)[0] == UNSUPPORTED_SEPARATOR);
                } else {
                    assert(cs@.skip(j as int).len() == 0);
                }
                assert(k == j - (i + 1));
            }
            let next = if j < cs.len() { j + 1 } else { j };
            proof {
                let nx: int = if k < tail.len() { k + 1int } else { k as int };
                assert(tail.skip(nx) =~= cs@.skip(next as int));
            }
            let n = string_of(&name);
            let inner = current;
            let ghost before = saved@;
            saved.push((Frame::Unsupported(n), inner));
            current = Vec::new();
            proof {
                assert(saved_view(saved@) =~= saved_view(before).push((FrameView::Unsupported(tail.take(k as int)), nodes_view(inner@))));
                assert(nodes_view(current@) =~= Seq::<InlineView>::empty());
                assert(state_view(saved@, current@, pending@, unsupported@) =~= opened(
                    fl,
                    FrameView::Unsupported(tail.take(k as int)),
                ));
            }
            i = next;
        } else if c == SPAN_CLOSE {
            flush(&mut pending, &mut current, soft_breaks);
            proof {
                assert(state_view(saved@, current@, pending@, unsupported@) =~= flushed(st, soft_breaks));
            }
            current = close(&mut saved, current, &mut unsupported);
            i = i + 1;
        } else if c == HARD_LINE_BREAK {
            flush(&mut pending, &mut current, soft_breaks);
            let ghost fl = state_view(saved@, current@, pending@, unsupported@);
            proof {
                assert(fl =~= flushed(st, soft_breaks));
                lemma_nodes_view_push(current@, InlineNode::LineBreak);
            }
            current.push(InlineNode::LineBreak);
            proof {
                assert(state_view(saved@, current@, pending@, unsupported@) =~= with_break(fl));
            }
            i = i + 1;
        } else if c == '&' {
            let tail_len = cs.len() - (i + 1);
            let ghost tail = rest.drop_first();
            proof {
                assert(tail =~= cs@.skip(i + 1));
                assert(tail.len() == tail_len);
                assert(forall|k: int| 0 <= k < tail.len() ==> tail[k] == cs@[i + 1 + k]);
            }
            if tail_len >= 3 && cs[i + 1] == 'l' && cs[i + 2] == 't' && cs[i + 3] == ';' {
                proof {
                    assert(entity_at(tail) == Some(('<', 3nat)));
                    assert(tail.skip(3) =~= cs@.skip(i + 4));
                }
                pending.push('<');
                proof {
                    assert(state_view(saved@, current@, pending@, unsupported@) =~= with_pending(st, '<'));
                }
                i = i + 4;
            } else if tail_len >= 3 && cs[i + 1] == 'g' && cs[i + 2] == 't' && cs[i + 3] == ';' {
                proof {
                    assert(entity_at(tail) == Some(('>', 3nat)));
                    assert(tail.skip(3) =~= cs@.skip(i + 4));
                }
                pending.push('>');
                proof {
                    assert(state_view(saved@, current@, pending@, unsupported@) =~= with_pending(st, '>'));
                }
                i = i + 4;
            } else if tail_len >= 4 && cs[i + 1] == 'a' && cs[i + 2] == 'm' && cs[i + 3] == 'p'
                && cs[i + 4] == ';' {
                proof {
                    assert(entity_at(tail) == Some(('&', 4nat)));
                    assert(tail.skip(4) =~= cs@.skip(i + 5));
                }
                pending.push('&');
                proof {
                    assert(state_view(saved@, current@, pending@, unsupported@) =~= with_pending(st, '&'));
                }
                i = i + 5;
            } else {
                proof {
                    assert(entity_at(tail) is None);
                }
                pending.push('&');
                proof {
                    assert(state_view(saved@, current@, pending@, unsupported@) =~= with_pending(st, '&'));
                }
                i = i + 1;
            }
        } else {
            pending.push(c);
            proof {
                assert(state_view(saved@, current@, pending@, unsupported@) =~= with_pending(st, c));
            }
            i = i + 1;
        }
    }
    let ghost last = state_view(saved@, current@, pending@, unsupported@);
    proof {
        assert(cs@.skip(i as int) =~= Seq::<char>::empty());
        assert(last == run(initial_state(), cs@, soft_breaks));
    }
    flush(&mut pending, &mut current, soft_breaks);
    proof {
        assert(state_view(saved@, current@, pending@, unsupported@) =~= flushed(last, soft_breaks));
    }
    while saved.len() > 0
        invariant
            cs@ == encoded@,
            pending@ == Seq::<char>::empty(),
            closed_all(state_view(saved@, current@, pending@, unsupported@)) == final_state(cs@, soft_breaks),
        decreases saved.len(),
    {
        current = close(&mut saved, current, &mut unsupported);
    }
    let nodes = match soft_breaks {
        SoftBreaks::Preserve => current,
        _ => tidy(&current),
    };
    DecodedInline { text: InlineText::from_nodes(nodes), unsupported }
}

// ---------------------------------------------------------------------------
// Tidying around explicit breaks
// ---------------------------------------------------------------------------

/// Whether `c` is a space or a tab, the only white space tidying removes.
pub open spec fn is_blank(c: char) -> bool {
    c == ' ' || c == '\t'
}

/// `t` without the spaces and tabs it ends with.
pub open spec fn trim_blank_end(t: Seq<char>) -> Seq<char>
    decreases t.len(),
{
    if t.len() > 0 && is_blank(t.last()) {
        trim_blank_end(t.drop_last())
    } else {
        t
    }
}

/// `t` without the spaces and tabs it starts with.
pub open spec fn trim_blank_start(t: Seq<char>) -> Seq<char>
    decreases t.len(),
{
    if t.len() > 0 && is_blank(t[0]) {
        trim_blank_start(t.drop_first())
    } else {
        t
    }
}

/// Node `i` of `s` once tidied: text loses the spaces and tabs that touch a
/// neighbouring break, and styled content is tidied in turn.
pub open spec fn tidied_at(s: Seq<InlineView>, i: int) -> InlineView
    decreases s, 0int, 0int,
{
    if 0 <= i < s.len() {
        match s[i] {
            InlineView::Text(t) => {
                let t1 = if i + 1 < s.len() && s[i + 1] is LineBreak {
                    trim_blank_end(t)
                } else {
                    t
                };
                let t2 = if i > 0 && s[i - 1] is LineBreak {
                    trim_blank_start(t1)
                } else {
                    t1
                };
                InlineView::Text(t2)
            },
            InlineView::Styled { style, children } => {
                proof {
                    assert(decreases_to!(s => s[i]));
                }
                InlineView::Styled { style, children: tidied_prefix(children, children.len() as int) }
            },
            InlineView::LineBreak => InlineView::LineBreak,
        }
    } else {
        InlineView::LineBreak
    }
}

/// The first `n` nodes of `s` tidied, with the text left empty dropped.
pub open spec fn tidied_prefix(s: Seq<InlineView>, n: int) -> Seq<InlineView>
    decreases s, 1int, n,
{
    if n <= 0 {
        Seq::empty()
    } else {
        let before = tidied_prefix(s, n - 1);
        let t = tidied_at(s, n - 1);
        if t matches InlineView::Text(x) && x.len() == 0 {
            before
        } else {
            before.push(t)
        }
    }
}

/// `s` tidied around its breaks.
pub open spec fn tidy_views(s: Seq<InlineView>) -> Seq<InlineView> {
    tidied_prefix(s, s.len() as int)
}

/// What decoding `encoded` produces: the nodes of the outermost span, tidied
/// unless the text is to be handed back exactly.
pub open spec fn decoded_nodes(encoded: Seq<char>, soft_breaks: SoftBreaks) -> Seq<InlineView> {
    let current = final_state(encoded, soft_breaks).current;
    if soft_breaks == SoftBreaks::Preserve {
        current
    } else {
        tidy_views(current)
    }
}

fn trimmed_blank_end(t: &Vec<char>) -> (r: Vec<char>)
    ensures
        r@ == trim_blank_end(t@),
{
    let mut n: usize = t.len();
    proof {
        assert(t@.take(t.len() as int) =~= t@);
    }
    while n > 0 && (t[n - 1] == ' ' || t[n - 1] == '\t')
        invariant
            n <= t.len(),
            trim_blank_end(t@.take(n as int)) == trim_blank_end(t@),
        decreases n,
    {
        proof {
            assert(t@.take(n as int).drop_last() =~= t@.take(n - 1));
        }
        n = n - 1;
    }
    proof {
        assert(t@.take(t.len() as int) =~= t@);
    }
    let mut r: Vec<char> = Vec::new();
    let mut i: usize = 0;
    while i < n
        invariant
            i <= n <= t.len(),
            r@ == t@.take(i as int),
        decreases n - i,
    {
        r.push(t[i]);
        i = i + 1;
        proof { assert(r@ =~= t@.take(i as int)); }
    }
    proof {
        if n > 0 {
            assert(t@.take(n as int).last() == t@[n - 1]);
        }
    }
    r
}

fn trimmed_blank_start(t: &Vec<char>) -> (r: Vec<char>)
    ensures
        r@ == trim_blank_start(t@),
{
    let mut k: usize = 0;
    proof { assert(t@.skip(0) =~= t@); }
    while k < t.len() && (t[k] == ' ' || t[k] == '\t')
        invariant
            k <= t.len(),
            trim_blank_start(t@.skip(k as int)) == trim_blank_start(t@),
        decreases t.len() - k,
    {
        proof {
            assert(t@.skip(k as int).drop_first() =~= t@.skip(k + 1));
        }
        k = k + 1;
    }
    let mut r: Vec<char> = Vec::new();
    let mut i: usize = k;
    while i < t.len()
        invariant
            k <= i <= t.len(),
            r@ == t@.subrange(k as int, i as int),
        decreases t.len() - i,
    {
        r.push(t[i]);
        i = i + 1;
        proof { assert(r@ =~= t@.subrange(k as int, i as int)); }
    }
    proof {
        assert(r@ =~= t@.skip(k as int));
        if k < t.len() {
            assert(t@.skip(k as int)[0] == t@[k as int]);
        }
    }
    r
}

/// Whether node `i` of `nodes` is an explicit break.
fn is_break_at(nodes: &Vec<InlineNode>, i: usize) -> (r: bool)
    requires
        i < nodes.len(),
    ensures
        r == (nodes_view(nodes@)[i as int] is LineBreak),
{
    proof { lemma_nodes_view(nodes@); }
    match &nodes[i] {
        InlineNode::LineBreak => true,
        _ => false,
    }
}

/// Removes the spaces and tabs a collapsed newline leaves beside an explicit
/// break, and the text that leaves empty, at every depth.
fn tidy(nodes: &Vec<InlineNode>) -> (r: Vec<InlineNode>)
    ensures
        nodes_view(r@) == tidy_views(nodes_view(nodes@)),
    decreases nodes,
{
    let ghost v = nodes_view(nodes@);
    proof { lemma_nodes_view(nodes@); }
    let mut out: Vec<InlineNode> = Vec::new();
    let mut i: usize = 0;
    while i < nodes.len()
        invariant
            i <= nodes.len(),
            v == nodes_view(nodes@),
            v.len() == nodes.len(),
            forall|k: int| 0 <= k < nodes.len() ==> #[trigger] v[k] == node_view(nodes@[k]),
            nodes_view(out@) == tidied_prefix(v, i as int),
        decreases nodes.len() - i,
    {
        let ghost t = tidied_at(v, i as int);
        match &nodes[i] {
            InlineNode::Text(text) => {
                let mut cs = chars_of(text.as_str());
                if i + 1 < nodes.len() && is_break_at(nodes, i + 1) {
                    cs = trimmed_blank_end(&cs);
                }
                if i > 0 && is_break_at(nodes, i - 1) {
                    cs = trimmed_blank_start(&cs);
                }
                proof { assert(t == InlineView::Text(cs@)); }
                if cs.len() > 0 {
                    let s = string_of(&cs);
                    proof { lemma_nodes_view_push(out@, InlineNode::Text(s)); }
                    out.push(InlineNode::Text(s));
                }
            },
            InlineNode::Styled { style, children } => {
                assert(decreases_to!(nodes => nodes@[i as int]));
                let inner = tidy(children);
                let node = InlineNode::Styled { style: *style, children: inner };
                proof {
                    assert(node_view(node) == t);
                    lemma_nodes_view_push(out@, node);
                }
                out.push(node);
            },
            InlineNode::LineBreak => {
                proof { lemma_nodes_view_push(out@, InlineNode::LineBreak); }
                out.push(InlineNode::LineBreak);
            },
        }
        i = i + 1;
    }
    out
}

// ---------------------------------------------------------------------------
// The public entry points
// ---------------------------------------------------------------------------

/// What a decoded run of inline content carried.
#[derive(Debug, PartialEq, Eq, Default)]
pub struct DecodedInline {
    /// The content, ready for the model.
    pub text: InlineText,
    /// The constructs that were not honoured, in document order.
    pub unsupported: Vec<String>,
}

/// Turns the encoded stream back into content and a list of what was skipped,
/// filling paragraphs: a newline inside text is where the source wrapped.
///
/// The entities are decoded in one left-to-right pass, so `&amp;lt;` becomes
/// the literal text `&lt;`.
pub fn decode(encoded: &str) -> (r: DecodedInline)
    ensures
        r.text@ == decoded_nodes(encoded@, SoftBreaks::Fill),
        strings_view(r.unsupported@) == final_state(encoded@, SoftBreaks::Fill).unsupported,
{
    decode_with(encoded, SoftBreaks::Fill)
}

/// The same, for verbatim content handed back exactly as it arrived: markers
/// and entities are resolved and nothing else is done to the text.
pub fn decode_preserving_text(encoded: &str) -> (r: DecodedInline)
    ensures
        r.text@ == decoded_nodes(encoded@, SoftBreaks::Preserve),
        strings_view(r.unsupported@) == final_state(encoded@, SoftBreaks::Preserve).unsupported,
{
    decode_with(encoded, SoftBreaks::Preserve)
}

/// The same, for a block whose line endings the author chose: each newline
/// becomes an explicit break.
pub fn decode_keeping_line_breaks(encoded: &str) -> (r: DecodedInline)
    ensures
        r.text@ == decoded_nodes(encoded@, SoftBreaks::Keep),
        strings_view(r.unsupported@) == final_state(encoded@, SoftBreaks::Keep).unsupported,
{
    decode_with(encoded, SoftBreaks::Keep)
}

// ---------------------------------------------------------------------------
// What reaches the page
// ---------------------------------------------------------------------------

/// Whether `c` is one of the markers the decoder reads as structure.
pub open spec fn structural(c: char) -> bool {
    style_of_spec(c) is Some || c == SPAN_CLOSE || c == HARD_LINE_BREAK || c == UNSUPPORTED_OPEN
}

/// Whether every character of `t` satisfies `ok`.
pub open spec fn chars_all(t: Seq<char>, ok: spec_fn(char) -> bool) -> bool {
    forall|k: int| 0 <= k < t.len() ==> ok(#[trigger] t[k])
}

/// Whether every character a reader sees in `v` satisfies `ok`.
pub open spec fn view_all(v: InlineView, ok: spec_fn(char) -> bool) -> bool
    decreases v,
{
    match v {
        InlineView::Text(t) => chars_all(t, ok),
        InlineView::Styled { children, .. } => views_all(children, ok),
        InlineView::LineBreak => ok('\n'),
    }
}

/// Whether every character a reader sees in `s` satisfies `ok`.
pub open spec fn views_all(s: Seq<InlineView>, ok: spec_fn(char) -> bool) -> bool
    decreases s,
{
    if s.len() == 0 {
        true
    } else {
        views_all(s.drop_last(), ok) && view_all(s.last(), ok)
    }
}

/// Whether `ok` holds of every character of every span's text in `st`.
pub open spec fn state_all(st: DecodeState, ok: spec_fn(char) -> bool) -> bool {
    &&& views_all(st.current, ok)
    &&& chars_all(st.pending, ok)
    &&& forall|i: int| 0 <= i < st.saved.len() ==> views_all(#[trigger] st.saved[i].1, ok)
}

/// Reading left to right, every name separator in `rest` ends the name of an
/// unsupported construct, as the renderer writes them.
pub open spec fn separators_paired(rest: Seq<char>) -> bool
    decreases rest.len(),
{
    if rest.len() == 0 {
        true
    } else {
        let tail = rest.drop_first();
        if rest[0] == UNSUPPORTED_OPEN {
            let k = separator_at(tail);
            proof {
                lemma_separator_at_bound(tail);
            }
            let next: int = if k < tail.len() { k + 1int } else { k as int };
            separators_paired(tail.skip(next))
        } else if rest[0] == UNSUPPORTED_SEPARATOR {
            false
        } else {
            separators_paired(tail)
        }
    }
}

proof fn lemma_views_all_single(v: InlineView, ok: spec_fn(char) -> bool)
    ensures
        views_all(seq![v], ok) == view_all(v, ok),
{
    assert(views_all(Seq::<InlineView>::empty(), ok));
    assert(seq![v].drop_last() =~= Seq::<InlineView>::empty());
}

proof fn lemma_views_all_concat(a: Seq<InlineView>, b: Seq<InlineView>, ok: spec_fn(char) -> bool)
    ensures
        views_all(a + b, ok) == (views_all(a, ok) && views_all(b, ok)),
    decreases b.len(),
{
    if b.len() == 0 {
        assert(a + b =~= a);
    } else {
        lemma_views_all_concat(a, b.drop_last(), ok);
        assert((a + b).drop_last() =~= a + b.drop_last());
    }
}

proof fn lemma_views_all_index(s: Seq<InlineView>, ok: spec_fn(char) -> bool)
    ensures
        views_all(s, ok) == (forall|i: int| 0 <= i < s.len() ==> view_all(#[trigger] s[i], ok)),
    decreases s.len(),
{
    if s.len() > 0 {
        lemma_views_all_index(s.drop_last(), ok);
        if views_all(s, ok) {
            assert forall|i: int| 0 <= i < s.len() implies view_all(#[trigger] s[i], ok) by {
                if i < s.len() - 1 {
                    assert(s.drop_last()[i] == s[i]);
                }
            }
        }
        if forall|i: int| 0 <= i < s.len() ==> view_all(#[trigger] s[i], ok) {
            assert forall|i: int| 0 <= i < s.drop_last().len() implies view_all(
                #[trigger] s.drop_last()[i],
                ok,
            ) by {
                assert(s.drop_last()[i] == s[i]);
            }
        }
    }
}

proof fn lemma_fill_from_all(s: Seq<char>, run: Seq<char>, ok: spec_fn(char) -> bool)
    requires
        chars_all(s, ok),
        chars_all(run, ok),
        ok(' '),
    ensures
        chars_all(fill_from(s, run), ok),
    decreases s.len(),
{
    if s.len() > 0 {
        assert(ok(s[0]));
        assert(chars_all(s.drop_first(), ok)) by {
            assert forall|k: int| 0 <= k < s.drop_first().len() implies ok(
                #[trigger] s.drop_first()[k],
            ) by {
                assert(s.drop_first()[k] == s[k + 1]);
            }
        }
        if is_whitespace(s[0]) {
            assert(chars_all(run.push(s[0]), ok)) by {
                assert forall|k: int| 0 <= k < run.push(s[0]).len() implies ok(
                    #[trigger] run.push(s[0])[k],
                ) by {
                    if k < run.len() {
                        assert(run.push(s[0])[k] == run[k]);
                    }
                }
            }
            lemma_fill_from_all(s.drop_first(), run.push(s[0]), ok);
        } else {
            lemma_fill_from_all(s.drop_first(), Seq::empty(), ok);
            let a = collapsed(run);
            let b = fill_from(s.drop_first(), Seq::empty());
            assert forall|k: int| 0 <= k < (a + seq![s[0]] + b).len() implies ok(
                #[trigger] (a + seq![s[0]] + b)[k],
            ) by {
                if k < a.len() {
                    assert((a + seq![s[0]] + b)[k] == a[k]);
                } else if k == a.len() {
                    assert((a + seq![s[0]] + b)[k] == s[0]);
                } else {
                    assert((a + seq![s[0]] + b)[k] == b[k - a.len() - 1]);
                }
            }
        }
    }
}

proof fn lemma_lines_from_all(s: Seq<char>, line: Seq<char>, ok: spec_fn(char) -> bool)
    requires
        chars_all(s, ok),
        chars_all(line, ok),
        ok('\n'),
    ensures
        views_all(lines_from(s, line), ok),
    decreases s.len(),
{
    let head = if line.len() == 0 {
        Seq::<InlineView>::empty()
    } else {
        seq![InlineView::Text(line)]
    };
    assert(views_all(head, ok)) by {
        if line.len() > 0 {
            lemma_views_all_single(InlineView::Text(line), ok);
        } else {
            assert(views_all(Seq::<InlineView>::empty(), ok));
        }
    }
    if s.len() > 0 {
        assert(chars_all(s.drop_first(), ok)) by {
            assert forall|k: int| 0 <= k < s.drop_first().len() implies ok(
                #[trigger] s.drop_first()[k],
            ) by {
                assert(s.drop_first()[k] == s[k + 1]);
            }
        }
        if s[0] == '\n' {
            lemma_lines_from_all(s.drop_first(), Seq::empty(), ok);
            lemma_views_all_single(InlineView::LineBreak, ok);
            lemma_views_all_concat(head, seq![InlineView::LineBreak], ok);
            lemma_views_all_concat(
                head + seq![InlineView::LineBreak],
                lines_from(s.drop_first(), Seq::empty()),
                ok,
            );
        } else {
            assert(ok(s[0]));
            assert(chars_all(line.push(s[0]), ok)) by {
                assert forall|k: int| 0 <= k < line.push(s[0]).len() implies ok(
                    #[trigger] line.push(s[0])[k],
                ) by {
                    if k < line.len() {
                        assert(line.push(s[0])[k] == line[k]);
                    }
                }
            }
            lemma_lines_from_all(s.drop_first(), line.push(s[0]), ok);
        }
    }
}

proof fn lemma_flushed_all(st: DecodeState, soft_breaks: SoftBreaks, ok: spec_fn(char) -> bool)
    requires
        state_all(st, ok),
        ok(' '),
        ok('\n'),
    ensures
        state_all(flushed(st, soft_breaks), ok),
{
    if st.pending.len() > 0 {
        let g = gathered_views(st.pending, soft_breaks);
        assert(views_all(g, ok)) by {
            match soft_breaks {
                SoftBreaks::Fill => {
                    lemma_fill_from_all(st.pending, Seq::empty(), ok);
                    lemma_views_all_single(InlineView::Text(filled(st.pending)), ok);
                    assert(chars_all(filled(st.pending), ok));
                    assert(views_all(g, ok));
                },
                SoftBreaks::Keep => {
                    lemma_lines_from_all(st.pending, Seq::empty(), ok);
                    let all = lines_from(st.pending, Seq::empty());
                    assert(views_all(all, ok));
                    if st.pending.last() == '\n' {
                        lemma_lines_from_ends_in_break(st.pending, Seq::empty());
                    }
                    if all.len() > 0 {
                        assert(views_all(all.drop_last(), ok));
                    }
                    assert(views_all(g, ok));
                },
                SoftBreaks::Preserve => {
                    lemma_views_all_single(InlineView::Text(st.pending), ok);
                    assert(views_all(g, ok));
                },
            }
        }
        lemma_views_all_concat(st.current, g, ok);
    }
}

proof fn lemma_closed_all(st: DecodeState, ok: spec_fn(char) -> bool)
    requires
        state_all(st, ok),
    ensures
        state_all(closed(st), ok),
{
    if st.saved.len() > 0 {
        let (frame, parent) = st.saved.last();
        assert(views_all(parent, ok));
        let c = closed(st);
        assert forall|i: int| 0 <= i < c.saved.len() implies views_all(#[trigger] c.saved[i].1, ok) by {
            assert(c.saved[i] == st.saved[i]);
        }
        match frame {
            FrameView::Styled(style) => {
                let node = InlineView::Styled { style, children: st.current };
                assert(view_all(node, ok) == views_all(st.current, ok));
                assert(parent.push(node).drop_last() =~= parent);
                assert(views_all(parent.push(node), ok));
                assert(c.current == parent.push(node));
            },
            FrameView::Unsupported(name) => {
                lemma_views_all_concat(parent, st.current, ok);
                assert(c.current == parent + st.current);
            },
        }
    }
}

proof fn lemma_closed_all_all(st: DecodeState, ok: spec_fn(char) -> bool)
    requires
        state_all(st, ok),
    ensures
        state_all(closed_all(st), ok),
    decreases st.saved.len(),
{
    if st.saved.len() > 0 {
        lemma_closed_all(st, ok);
        lemma_closed_all_all(closed(st), ok);
    }
}

proof fn lemma_opened_all(st: DecodeState, frame: FrameView, ok: spec_fn(char) -> bool)
    requires
        state_all(st, ok),
    ensures
        state_all(opened(st, frame), ok),
{
    let o = opened(st, frame);
    assert forall|i: int| 0 <= i < o.saved.len() implies views_all(#[trigger] o.saved[i].1, ok) by {
        if i < st.saved.len() {
            assert(o.saved[i] == st.saved[i]);
        }
    }
}

/// Whether every character of `rest` that is neither a structural marker nor
/// a separator satisfies `ok`.
pub open spec fn text_chars_all(rest: Seq<char>, ok: spec_fn(char) -> bool) -> bool {
    forall|k: int|
        0 <= k < rest.len() ==> structural(#[trigger] rest[k]) || rest[k] == UNSUPPORTED_SEPARATOR
            || ok(rest[k])
}

proof fn lemma_text_chars_all_skip(t: Seq<char>, n: int, ok: spec_fn(char) -> bool)
    requires
        text_chars_all(t, ok),
        0 <= n <= t.len(),
    ensures
        text_chars_all(t.skip(n), ok),
{
    assert forall|k: int| 0 <= k < t.skip(n).len() implies structural(#[trigger] t.skip(n)[k])
        || t.skip(n)[k] == UNSUPPORTED_SEPARATOR || ok(t.skip(n)[k]) by {
        assert(t.skip(n)[k] == t[k + n]);
    }
}

/// Skipping characters that are neither an unsupported marker nor a separator
/// leaves the pairing of separators as it was.
proof fn lemma_paired_skip_plain(rest: Seq<char>, n: int)
    requires
        0 <= n <= rest.len(),
        forall|k: int| 0 <= k < n ==> rest[k] != UNSUPPORTED_OPEN && rest[k] != UNSUPPORTED_SEPARATOR,
        separators_paired(rest),
    ensures
        separators_paired(rest.skip(n)),
    decreases n,
{
    if n > 0 {
        assert(rest.skip(1) =~= rest.drop_first());
        lemma_paired_skip_plain(rest.drop_first(), n - 1);
        assert(rest.drop_first().skip(n - 1) =~= rest.skip(n));
    } else {
        assert(rest.skip(0) =~= rest);
    }
}

proof fn lemma_run_all(st: DecodeState, rest: Seq<char>, soft_breaks: SoftBreaks, ok: spec_fn(char) -> bool)
    requires
        state_all(st, ok),
        text_chars_all(rest, ok),
        separators_paired(rest) || ok(UNSUPPORTED_SEPARATOR),
        ok(' '),
        ok('\n'),
        ok('<'),
        ok('>'),
        ok('&'),
    ensures
        state_all(run(st, rest, soft_breaks), ok),
    decreases rest.len(),
{
    if rest.len() > 0 {
        let c = rest[0];
        let tail = rest.drop_first();
        assert(tail =~= rest.skip(1));
        lemma_text_chars_all_skip(rest, 1, ok);
        if style_of_spec(c) is Some {
            lemma_flushed_all(st, soft_breaks, ok);
            lemma_opened_all(flushed(st, soft_breaks), FrameView::Styled(style_of_spec(c)->0), ok);
            lemma_run_all(
                opened(flushed(st, soft_breaks), FrameView::Styled(style_of_spec(c)->0)),
                tail,
                soft_breaks,
                ok,
            );
        } else if c == UNSUPPORTED_OPEN {
            let k = separator_at(tail);
            lemma_separator_at_bound(tail);
            let next: int = if k < tail.len() { k + 1int } else { k as int };
            lemma_flushed_all(st, soft_breaks, ok);
            lemma_opened_all(flushed(st, soft_breaks), FrameView::Unsupported(tail.take(k as int)), ok);
            lemma_text_chars_all_skip(tail, next, ok);
            lemma_run_all(
                opened(flushed(st, soft_breaks), FrameView::Unsupported(tail.take(k as int))),
                tail.skip(next),
                soft_breaks,
                ok,
            );
        } else if c == SPAN_CLOSE {
            lemma_flushed_all(st, soft_breaks, ok);
            lemma_closed_all(flushed(st, soft_breaks), ok);
            lemma_run_all(closed(flushed(st, soft_breaks)), tail, soft_breaks, ok);
        } else if c == HARD_LINE_BREAK {
            lemma_flushed_all(st, soft_breaks, ok);
            let f = flushed(st, soft_breaks);
            assert(f.current.push(InlineView::LineBreak).drop_last() =~= f.current);
            assert(view_all(InlineView::LineBreak, ok));
            assert(views_all(f.current.push(InlineView::LineBreak), ok));
            lemma_run_all(with_break(f), tail, soft_breaks, ok);
        } else if c == '&' {
            match entity_at(tail) {
                Some((d, n)) => {
                    let w = with_pending(st, d);
                    assert(chars_all(w.pending, ok)) by {
                        assert forall|k: int| 0 <= k < w.pending.len() implies ok(#[trigger] w.pending[k]) by {
                            if k < st.pending.len() {
                                assert(w.pending[k] == st.pending[k]);
                            }
                        }
                    }
                    lemma_text_chars_all_skip(tail, n as int, ok);
                    if !ok(UNSUPPORTED_SEPARATOR) {
                        lemma_paired_skip_plain(tail, n as int);
                    }
                    lemma_run_all(w, tail.skip(n as int), soft_breaks, ok);
                },
                None => {
                    let w = with_pending(st, '&');
                    assert(chars_all(w.pending, ok)) by {
                        assert forall|k: int| 0 <= k < w.pending.len() implies ok(#[trigger] w.pending[k]) by {
                            if k < st.pending.len() {
                                assert(w.pending[k] == st.pending[k]);
                            }
                        }
                    }
                    lemma_run_all(w, tail, soft_breaks, ok);
                },
            }
        } else {
            assert(ok(c)) by {
                assert(structural(rest[0]) || rest[0] == UNSUPPORTED_SEPARATOR || ok(rest[0]));
            }
            let w = with_pending(st, c);
            assert(chars_all(w.pending, ok)) by {
                assert forall|k: int| 0 <= k < w.pending.len() implies ok(#[trigger] w.pending[k]) by {
                    if k < st.pending.len() {
                        assert(w.pending[k] == st.pending[k]);
                    }
                }
            }
            lemma_run_all(w, tail, soft_breaks, ok);
        }
    }
}

proof fn lemma_trim_end_all(t: Seq<char>, ok: spec_fn(char) -> bool)
    requires
        chars_all(t, ok),
    ensures
        chars_all(trim_blank_end(t), ok),
    decreases t.len(),
{
    if t.len() > 0 && is_blank(t.last()) {
        assert forall|k: int| 0 <= k < t.drop_last().len() implies ok(#[trigger] t.drop_last()[k]) by {
            assert(t.drop_last()[k] == t[k]);
        }
        lemma_trim_end_all(t.drop_last(), ok);
    }
}

proof fn lemma_trim_start_all(t: Seq<char>, ok: spec_fn(char) -> bool)
    requires
        chars_all(t, ok),
    ensures
        chars_all(trim_blank_start(t), ok),
    decreases t.len(),
{
    if t.len() > 0 && is_blank(t[0]) {
        assert forall|k: int| 0 <= k < t.drop_first().len() implies ok(#[trigger] t.drop_first()[k]) by {
            assert(t.drop_first()[k] == t[k + 1]);
        }
        lemma_trim_start_all(t.drop_first(), ok);
    }
}

proof fn lemma_tidied_at_all(s: Seq<InlineView>, i: int, ok: spec_fn(char) -> bool)
    requires
        views_all(s, ok),
        0 <= i < s.len(),
    ensures
        view_all(tidied_at(s, i), ok),
    decreases s, 0int, 0int,
{
    lemma_views_all_index(s, ok);
    assert(view_all(s[i], ok));
    match s[i] {
        InlineView::Text(t) => {
            lemma_trim_end_all(t, ok);
            let t1 = if i + 1 < s.len() && s[i + 1] is LineBreak {
                trim_blank_end(t)
            } else {
                t
            };
            lemma_trim_start_all(t1, ok);
        },
        InlineView::Styled { style, children } => {
            assert(decreases_to!(s => s[i]));
            lemma_tidied_prefix_all(children, children.len() as int, ok);
        },
        InlineView::LineBreak => {},
    }
}

proof fn lemma_tidied_prefix_all(s: Seq<InlineView>, n: int, ok: spec_fn(char) -> bool)
    requires
        views_all(s, ok),
        n <= s.len(),
    ensures
        views_all(tidied_prefix(s, n), ok),
    decreases s, 1int, n,
{
    if n > 0 {
        lemma_tidied_prefix_all(s, n - 1, ok);
        lemma_tidied_at_all(s, n - 1, ok);
        let before = tidied_prefix(s, n - 1);
        let t = tidied_at(s, n - 1);
        assert(before.push(t).drop_last() =~= before);
    }
}

proof fn lemma_view_all_plain(v: InlineView, ok: spec_fn(char) -> bool)
    requires
        view_all(v, ok),
    ensures
        chars_all(crate::document::view_plain(v), ok),
    decreases v,
{
    match v {
        InlineView::Styled { children, .. } => {
            lemma_views_all_plain(children, ok);
        },
        _ => {},
    }
}

proof fn lemma_views_all_plain(s: Seq<InlineView>, ok: spec_fn(char) -> bool)
    requires
        views_all(s, ok),
    ensures
        chars_all(crate::document::views_plain(s), ok),
    decreases s,
{
    if s.len() > 0 {
        lemma_views_all_plain(s.drop_last(), ok);
        lemma_view_all_plain(s.last(), ok);
        let a = crate::document::views_plain(s.drop_last());
        let b = crate::document::view_plain(s.last());
        assert forall|k: int| 0 <= k < (a + b).len() implies ok(#[trigger] (a + b)[k]) by {
            if k < a.len() {
                assert((a + b)[k] == a[k]);
            } else {
                assert((a + b)[k] == b[k - a.len()]);
            }
        }
    }
}

/// Whatever `encoded` holds, every character of the decoded text that a reader
/// sees satisfies `ok`, given that `ok` holds of the characters the decoder
/// itself introduces and of every character the stream offers as text.
proof fn lemma_decoded_all(encoded: Seq<char>, soft_breaks: SoftBreaks, ok: spec_fn(char) -> bool)
    requires
        text_chars_all(encoded, ok),
        separators_paired(encoded) || ok(UNSUPPORTED_SEPARATOR),
        ok(' '),
        ok('\n'),
        ok('<'),
        ok('>'),
        ok('&'),
    ensures
        chars_all(crate::document::views_plain(decoded_nodes(encoded, soft_breaks)), ok),
{
    assert(views_all(Seq::<InlineView>::empty(), ok));
    assert(state_all(initial_state(), ok));
    lemma_run_all(initial_state(), encoded, soft_breaks, ok);
    lemma_flushed_all(run(initial_state(), encoded, soft_breaks), soft_breaks, ok);
    lemma_closed_all_all(flushed(run(initial_state(), encoded, soft_breaks), soft_breaks), ok);
    let current = final_state(encoded, soft_breaks).current;
    if soft_breaks != SoftBreaks::Preserve {
        lemma_tidied_prefix_all(current, current.len() as int, ok);
    }
    lemma_views_all_plain(decoded_nodes(encoded, soft_breaks), ok);
}

/// No marker the decoder reads as structure ever reaches the decoded text,
/// whatever the stream holds.
pub proof fn lemma_no_structure_reaches_the_page(encoded: Seq<char>, soft_breaks: SoftBreaks)
    ensures
        forall|k: int|
            0 <= k < crate::document::views_plain(decoded_nodes(encoded, soft_breaks)).len()
                ==> !structural(
                #[trigger] crate::document::views_plain(decoded_nodes(encoded, soft_breaks))[k],
            ),
{
    let ok = |c: char| !structural(c);
    lemma_decoded_all(encoded, soft_breaks, ok);
    let plain = crate::document::views_plain(decoded_nodes(encoded, soft_breaks));
    assert forall|k: int| 0 <= k < plain.len() implies !structural(#[trigger] plain[k]) by {
        assert(ok(plain[k]));
    }
}

/// Whatever the source said, the reader sees: when every reserved character
/// of the stream is a marker the renderer emits, and every name separator ends
/// the name of an unsupported construct, no reserved character reaches the
/// decoded text.
pub proof fn lemma_no_marker_reaches_the_page(encoded: Seq<char>, soft_breaks: SoftBreaks)
    requires
        forall|k: int|
            0 <= k < encoded.len() && crate::inline::reserved_marker(#[trigger] encoded[k])
                ==> crate::inline::emitted_marker(encoded[k]),
        separators_paired(encoded),
    ensures
        forall|k: int|
            0 <= k < crate::document::views_plain(decoded_nodes(encoded, soft_breaks)).len()
                ==> !crate::inline::reserved_marker(
                #[trigger] crate::document::views_plain(decoded_nodes(encoded, soft_breaks))[k],
            ),
{
    let ok = |c: char| !crate::inline::reserved_marker(c);
    assert forall|k: int| 0 <= k < encoded.len() implies structural(#[trigger] encoded[k])
        || encoded[k] == UNSUPPORTED_SEPARATOR || ok(encoded[k]) by {
        if crate::inline::reserved_marker(encoded[k]) {
            assert(crate::inline::emitted_marker(encoded[k]));
        }
    }
    lemma_decoded_all(encoded, soft_breaks, ok);
    let plain = crate::document::views_plain(decoded_nodes(encoded, soft_breaks));
    assert forall|k: int| 0 <= k < plain.len() implies !crate::inline::reserved_marker(
        #[trigger] plain[k],
    ) by {
        assert(ok(plain[k]));
    }
}

/// Whether `c` is read as text as it stands: no marker, no line break and no
/// `&` that could start an entity.
pub open spec fn reads_as_itself(c: char) -> bool {
    &&& style_of_spec(c) is None
    &&& c != UNSUPPORTED_OPEN
    &&& c != SPAN_CLOSE
    &&& c != HARD_LINE_BREAK
    &&& c != '&'
}

proof fn lemma_plain_run(st: DecodeState, rest: Seq<char>, soft_breaks: SoftBreaks)
    requires
        forall|k: int| 0 <= k < rest.len() ==> reads_as_itself(#[trigger] rest[k]),
    ensures
        run(st, rest, soft_breaks) == (DecodeState { pending: st.pending + rest, ..st }),
    decreases rest.len(),
{
    if rest.len() == 0 {
        assert(st.pending + rest =~= st.pending);
    } else {
        let c = rest[0];
        assert(reads_as_itself(c));
        let tail = rest.drop_first();
        assert forall|k: int| 0 <= k < tail.len() implies reads_as_itself(#[trigger] tail[k]) by {
            assert(tail[k] == rest[k + 1]);
        }
        lemma_plain_run(with_pending(st, c), tail, soft_breaks);
        assert(st.pending.push(c) + tail =~= st.pending + rest);
    }
}

/// Text that holds no marker and no `&` comes back from decoding that keeps
/// the text exactly as it is: one text node holding all of it (none for
/// empty text), and no construct reported as not honoured.
pub proof fn lemma_plain_text_reads_back(text: Seq<char>)
    requires
        forall|k: int| 0 <= k < text.len() ==> reads_as_itself(#[trigger] text[k]),
    ensures
        decoded_nodes(text, SoftBreaks::Preserve)
            == (if text.len() == 0 { Seq::<InlineView>::empty() } else { seq![InlineView::Text(text)] }),
        crate::document::views_plain(decoded_nodes(text, SoftBreaks::Preserve)) == text,
        final_state(text, SoftBreaks::Preserve).unsupported.len() == 0,
{
    lemma_plain_run(initial_state(), text, SoftBreaks::Preserve);
    assert(Seq::<char>::empty() + text =~= text);
    let nodes = decoded_nodes(text, SoftBreaks::Preserve);
    if text.len() == 0 {
        assert(nodes =~= Seq::<InlineView>::empty());
        assert(text =~= Seq::<char>::empty());
    } else {
        assert(Seq::<InlineView>::empty() + seq![InlineView::Text(text)] =~= seq![InlineView::Text(text)]);
        let one = seq![InlineView::Text(text)];
        assert(one.drop_last() =~= Seq::<InlineView>::empty());
        assert(one.last() == InlineView::Text(text));
        assert(crate::document::view_plain(one.last()) == text);
        assert(crate::document::views_plain(one.drop_last()) == Seq::<char>::empty());
        assert(crate::document::views_plain(one) == crate::document::views_plain(one.drop_last()) + crate::document::view_plain(one.last()));
        assert(Seq::<char>::empty() + text =~= text);
    }
}

/// What the encoder writes for a quote syntax that asks for a presentation
/// reads back as that presentation: decoding the quoted form of text that
/// holds no marker and no `&` gives one span, styled as the syntax named,
/// around the text unchanged, and reports nothing as not honoured.
pub proof fn lemma_styled_quote_reads_back(kind: crate::inline::QuoteKind, body: Seq<char>)
    requires
        crate::inline::quote_style(kind) is Some,
        forall|k: int| 0 <= k < body.len() ==> reads_as_itself(#[trigger] body[k]),
    ensures
        decoded_nodes(crate::inline::quote_spec(kind, body), SoftBreaks::Preserve) == seq![InlineView::Styled {
            style: crate::inline::quote_style(kind)->0,
            children: if body.len() == 0 { Seq::<InlineView>::empty() } else { seq![InlineView::Text(body)] },
        }],
        final_state(crate::inline::quote_spec(kind, body), SoftBreaks::Preserve).unsupported.len() == 0,
{
    let style = crate::inline::quote_style(kind)->0;
    crate::inline::lemma_quotes_mark_the_style_they_name(kind, body);
    let q = crate::inline::quote_spec(kind, body);
    let m = q[0];
    assert(style_of_spec(m) == Some(style));
    let mode = SoftBreaks::Preserve;
    let st0 = initial_state();
    assert(flushed(st0, mode) == st0);
    let st1 = opened(st0, FrameView::Styled(style));
    assert(q.drop_first() =~= body + seq![SPAN_CLOSE]);
    assert(run(st0, q, mode) == run(st1, body + seq![SPAN_CLOSE], mode));
    lemma_run_split(st1, body, seq![SPAN_CLOSE], mode);
    lemma_plain_run(st1, body, mode);
    let st2 = DecodeState { pending: st1.pending + body, ..st1 };
    assert(st1.pending + body =~= body);
    assert(style_of_spec(SPAN_CLOSE) is None);
    let st3 = closed(flushed(st2, mode));
    assert(seq![SPAN_CLOSE].drop_first() =~= Seq::<char>::empty());
    assert(run(st2, seq![SPAN_CLOSE], mode) == run(st3, Seq::<char>::empty(), mode));
    let inner: Seq<InlineView> = if body.len() == 0 { Seq::<InlineView>::empty() } else { seq![InlineView::Text(body)] };
    assert(flushed(st2, mode).current =~= inner);
    assert(st3.saved =~= Seq::<(FrameView, Seq<InlineView>)>::empty());
    assert(st3.current =~= seq![InlineView::Styled { style, children: inner }]);
    assert(st3.pending.len() == 0);
    assert(final_state(q, mode) == st3);
}

/// Reading `a` then `b` is reading `a + b`.
proof fn lemma_run_split(st: DecodeState, a: Seq<char>, b: Seq<char>, soft_breaks: SoftBreaks)
    requires
        forall|k: int| 0 <= k < a.len() ==> reads_as_itself(#[trigger] a[k]),
    ensures
        run(st, a + b, soft_breaks) == run(run(st, a, soft_breaks), b, soft_breaks),
    decreases a.len(),
{
    if a.len() == 0 {
        assert(a + b =~= b);
    } else {
        let c = a[0];
        assert(reads_as_itself(c));
        assert((a + b)[0] == c);
        assert((a + b).drop_first() =~= a.drop_first() + b);
        assert forall|k: int| 0 <= k < a.drop_first().len() implies reads_as_itself(#[trigger] a.drop_first()[k]) by {
            assert(a.drop_first()[k] == a[k + 1]);
        }
        lemma_run_split(with_pending(st, c), a.drop_first(), b, soft_breaks);
    }
}

} // verus!
