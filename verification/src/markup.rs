//! Putting author text into typesetting markup as content and nothing else.
//!
//! Every piece of author text reaches the markup as one string literal, so no
//! character of it can be read as an instruction.

use vstd::prelude::*;
use crate::fmt::{digit_char, hex_lower, is_control, push_hex_lower, char_is_control};
use crate::inline::{all_hex, hex_digit_value, hex_value, is_scalar};
use crate::text::{chars_of, push_char};
use crate::document::{
    lemma_nodes_view, node_view, nodes_view, InlineNode, InlineStyle, InlineText, InlineView, ListKind,
};

verus! {

/// How one character is written inside a string literal.
pub open spec fn literal_escape(c: char) -> Seq<char> {
    if c == '"' {
        seq!['\\', '"']
    } else if c == '\\' {
        seq!['\\', '\\']
    } else if c == '\n' {
        seq!['\\', 'n']
    } else if c == '\r' {
        seq!['\\', 'r']
    } else if c == '\t' {
        seq!['\\', 't']
    } else if is_control(c) {
        seq!['\\', 'u', '{'] + hex_lower(c as u32 as nat) + seq!['}']
    } else {
        seq![c]
    }
}

/// How a run of characters is written inside a string literal.
pub open spec fn literal_body(s: Seq<char>) -> Seq<char>
    decreases s.len(),
{
    if s.len() == 0 {
        Seq::empty()
    } else {
        literal_body(s.drop_last()) + literal_escape(s.last())
    }
}

/// `text` as one string literal.
pub open spec fn literal_spec(text: Seq<char>) -> Seq<char> {
    seq!['"'] + literal_body(text) + seq!['"']
}

/// Quotes `text` as a string literal of the typesetting language: quotes and
/// backslashes are escaped, newlines, carriage returns and tabs are written as
/// escapes, and any other control character as its code point.
pub fn string_literal(text: &str) -> (r: String)
    ensures
        r@ == literal_spec(text@),
{
    let cs = chars_of(text);
    let mut out = String::new();
    push_char(&mut out, '"');
    let mut i: usize = 0;
    while i < cs.len()
        invariant
            i <= cs.len(),
            out@ == seq!['"'] + literal_body(cs@.take(i as int)),
        decreases cs.len() - i,
    {
        let c = cs[i];
        let ghost before = out@;
        if c == '"' {
            push_char(&mut out, '\\');
            push_char(&mut out, '"');
        } else if c == '\\' {
            push_char(&mut out, '\\');
            push_char(&mut out, '\\');
        } else if c == '\n' {
            push_char(&mut out, '\\');
            push_char(&mut out, 'n');
        } else if c == '\r' {
            push_char(&mut out, '\\');
            push_char(&mut out, 'r');
        } else if c == '\t' {
            push_char(&mut out, '\\');
            push_char(&mut out, 't');
        } else if char_is_control(c) {
            push_char(&mut out, '\\');
            push_char(&mut out, 'u');
            push_char(&mut out, '{');
            push_hex_lower(&mut out, c as u32);
            push_char(&mut out, '}');
            proof {
                assert(out@ =~= before + (seq!['\\', 'u', '{'] + hex_lower(c as u32 as nat) + seq!['}']));
            }
        } else {
            push_char(&mut out, c);
        }
        proof {
            assert(out@ =~= before + literal_escape(c));
            assert(cs@.take(i + 1).drop_last() =~= cs@.take(i as int));
        }
        i = i + 1;
    }
    push_char(&mut out, '"');
    proof {
        assert(cs@.take(cs.len() as int) =~= cs@);
    }
    out
}

/// Whether, reading `s` left to right with each backslash escaping the
/// character after it, no quote ends the literal early.
pub open spec fn no_unescaped_quote(s: Seq<char>) -> bool
    decreases s.len(),
{
    if s.len() == 0 {
        true
    } else if s[0] == '\\' {
        s.len() >= 2 && no_unescaped_quote(s.skip(2))
    } else if s[0] == '"' {
        false
    } else {
        no_unescaped_quote(s.drop_first())
    }
}

proof fn lemma_plain_prefix(a: Seq<char>, b: Seq<char>)
    requires
        forall|k: int| 0 <= k < a.len() ==> a[k] != '"' && a[k] != '\\',
    ensures
        no_unescaped_quote(a + b) == no_unescaped_quote(b),
    decreases a.len(),
{
    if a.len() == 0 {
        assert(a + b =~= b);
    } else {
        assert((a + b)[0] == a[0]);
        assert((a + b).drop_first() =~= a.drop_first() + b);
        lemma_plain_prefix(a.drop_first(), b);
    }
}

proof fn lemma_hex_digits_plain(n: nat)
    ensures
        forall|k: int| 0 <= k < hex_lower(n).len() ==> hex_lower(n)[k] != '"' && hex_lower(n)[k] != '\\',
    decreases n,
{
    if n >= 16 {
        lemma_hex_digits_plain(n / 16);
    }
    assert forall|k: int| 0 <= k < hex_lower(n).len() implies hex_lower(n)[k] != '"' && hex_lower(n)[k] != '\\' by {
        if n >= 16 {
            if k < hex_lower(n / 16).len() {
                assert(hex_lower(n)[k] == hex_lower(n / 16)[k]);
            }
        }
    }
}

proof fn lemma_escape_then(c: char, b: Seq<char>)
    requires
        no_unescaped_quote(b),
    ensures
        no_unescaped_quote(literal_escape(c) + b),
{
    let e = literal_escape(c);
    if c == '"' || c == '\\' || c == '\n' || c == '\r' || c == '\t' {
        assert((e + b).skip(2) =~= b);
    } else if is_control(c) {
        let rest = seq!['{'] + hex_lower(c as u32 as nat) + seq!['}'];
        lemma_hex_digits_plain(c as u32 as nat);
        assert forall|k: int| 0 <= k < rest.len() implies rest[k] != '"' && rest[k] != '\\' by {
            if k >= 1 && k < rest.len() - 1 {
                assert(rest[k] == hex_lower(c as u32 as nat)[k - 1]);
            }
        }
        lemma_plain_prefix(rest, b);
        assert((e + b).skip(2) =~= rest + b);
    } else {
        assert((e + b).drop_first() =~= b);
    }
}

proof fn lemma_body_then(s: Seq<char>, b: Seq<char>)
    requires
        no_unescaped_quote(b),
    ensures
        no_unescaped_quote(literal_body(s) + b),
    decreases s.len(),
{
    if s.len() == 0 {
        assert(literal_body(s) + b =~= b);
    } else {
        lemma_escape_then(s.last(), b);
        lemma_body_then(s.drop_last(), literal_escape(s.last()) + b);
        assert(literal_body(s) + b =~= literal_body(s.drop_last()) + (literal_escape(s.last()) + b));
    }
}

/// Whatever the text, its literal is one literal: it opens and closes with a
/// quote, and no quote inside it can end it early, so nothing the author
/// wrote can escape into the markup as an instruction.
pub proof fn lemma_literal_cannot_be_closed_early(text: Seq<char>)
    ensures
        literal_spec(text).len() >= 2,
        literal_spec(text)[0] == '"',
        literal_spec(text).last() == '"',
        no_unescaped_quote(literal_spec(text).subrange(1, literal_spec(text).len() - 1)),
{
    let l = literal_spec(text);
    assert(l.subrange(1, l.len() - 1) =~= literal_body(text));
    assert(no_unescaped_quote(Seq::<char>::empty()));
    lemma_body_then(text, Seq::empty());
    assert(literal_body(text) + Seq::<char>::empty() =~= literal_body(text));
}

/// The character a two-character escape stands for, if `e` after a
/// backslash makes one.
pub open spec fn simple_escape(e: char) -> Option<char> {
    if e == '"' {
        Some('"')
    } else if e == '\\' {
        Some('\\')
    } else if e == 'n' {
        Some('\n')
    } else if e == 'r' {
        Some('\r')
    } else if e == 't' {
        Some('\t')
    } else {
        None
    }
}

/// How many hexadecimal digits `s` starts with.
pub open spec fn hex_run(s: Seq<char>) -> nat
    decreases s.len(),
{
    if s.len() == 0 || hex_digit_value(s[0]) is None {
        0
    } else {
        1 + hex_run(s.drop_first())
    }
}

/// `c` in front of the text read, if reading succeeded.
pub open spec fn prefixed(c: char, read: Option<Seq<char>>) -> Option<Seq<char>> {
    match read {
        Some(r) => Some(seq![c] + r),
        None => None,
    }
}

/// How the typesetting language reads the inside of a string literal back
/// into text: a backslash escape stands for one character (a quote, a
/// backslash, a newline, a carriage return, a tab, or a code point written
/// `u{..}` in hexadecimal); an unescaped quote cannot occur inside; any other
/// character stands for itself.
pub open spec fn literal_read(b: Seq<char>) -> Option<Seq<char>>
    decreases b.len(),
{
    if b.len() == 0 {
        Some(Seq::empty())
    } else if b[0] == '"' {
        None
    } else if b[0] != '\\' {
        prefixed(b[0], literal_read(b.drop_first()))
    } else if b.len() < 2 {
        None
    } else if simple_escape(b[1]) is Some {
        prefixed(simple_escape(b[1])->0, literal_read(b.skip(2)))
    } else if b[1] == 'u' && b.len() >= 3 && b[2] == '{' {
        let k = hex_run(b.skip(3)) as int;
        if k >= 1 && 3 + k < b.len() && b[3 + k] == '}' && is_scalar(hex_value(b.subrange(3, 3 + k))) {
            prefixed(hex_value(b.subrange(3, 3 + k)) as char, literal_read(b.skip(4 + k)))
        } else {
            None
        }
    } else {
        None
    }
}

proof fn lemma_digit_value(d: nat)
    requires
        d < 16,
    ensures
        hex_digit_value(digit_char(d)) == Some(d),
        digit_char(d) != '}',
{
}

proof fn lemma_hex_lower_reads_back(n: nat)
    ensures
        hex_lower(n).len() >= 1,
        all_hex(hex_lower(n)),
        hex_value(hex_lower(n)) == n,
    decreases n,
{
    if n < 16 {
        lemma_digit_value(n);
        let h = hex_lower(n);
        assert(h.drop_last() =~= Seq::<char>::empty());
        assert(hex_value(h.drop_last()) == 0);
        assert(hex_value(h) == hex_value(h.drop_last()) * 16 + hex_digit_value(h.last())->0);
    } else {
        lemma_hex_lower_reads_back(n / 16);
        lemma_digit_value(n % 16);
        let h = hex_lower(n);
        assert(h.drop_last() =~= hex_lower(n / 16));
        assert(h.last() == digit_char(n % 16));
        assert(hex_value(h) == hex_value(hex_lower(n / 16)) * 16 + (n % 16));
        assert(n == (n / 16) * 16 + n % 16);
        assert forall|i: int| 0 <= i < h.len() implies (#[trigger] hex_digit_value(h[i])) is Some by {
            if i < h.len() - 1 {
                assert(h[i] == hex_lower(n / 16)[i]);
            }
        }
    }
}

proof fn lemma_hex_run_of_digits(h: Seq<char>, rest: Seq<char>)
    requires
        all_hex(h),
        rest.len() >= 1,
        hex_digit_value(rest[0]) is None,
    ensures
        hex_run(h + rest) == h.len(),
    decreases h.len(),
{
    if h.len() == 0 {
        assert(h + rest =~= rest);
    } else {
        assert(hex_digit_value(h[0]) is Some);
        assert((h + rest)[0] == h[0]);
        assert((h + rest).drop_first() =~= h.drop_first() + rest);
        assert(all_hex(h.drop_first())) by {
            assert forall|i: int| 0 <= i < h.drop_first().len() implies (#[trigger] hex_digit_value(h.drop_first()[i])) is Some by {
                assert(h.drop_first()[i] == h[i + 1]);
            }
        }
        lemma_hex_run_of_digits(h.drop_first(), rest);
    }
}

proof fn lemma_read_escape(c: char, t: Seq<char>)
    ensures
        literal_read(literal_escape(c) + t) == prefixed(c, literal_read(t)),
{
    let b = literal_escape(c) + t;
    if c == '"' || c == '\\' || c == '\n' || c == '\r' || c == '\t' {
        assert(b.skip(2) =~= t);
    } else if is_control(c) {
        let n = c as u32 as nat;
        let h = hex_lower(n);
        lemma_hex_lower_reads_back(n);
        let rest = seq!['}'] + t;
        assert(b =~= seq!['\\', 'u', '{'] + (h + rest));
        assert(b.skip(3) =~= h + rest);
        lemma_hex_run_of_digits(h, rest);
        let k = h.len() as int;
        assert(b[3 + k] == '}');
        assert(b.subrange(3, 3 + k) =~= h);
        assert(b.skip(4 + k) =~= t);
        assert(is_scalar(n));
        assert((n as char) == c);
    } else {
        assert(b[0] == c);
        assert(b.drop_first() =~= t);
    }
}

proof fn lemma_read_concat(p: Seq<char>, t: Seq<char>)
    ensures
        literal_read(literal_body(p) + t) == match literal_read(t) {
            Some(r) => Some(p + r),
            None => None,
        },
    decreases p.len(),
{
    if p.len() == 0 {
        assert(literal_body(p) + t =~= t);
        match literal_read(t) {
            Some(r) => assert(p + r =~= r),
            None => {},
        }
    } else {
        let q = p.drop_last();
        let x = p.last();
        assert(literal_body(p) + t =~= literal_body(q) + (literal_escape(x) + t));
        lemma_read_concat(q, literal_escape(x) + t);
        lemma_read_escape(x, t);
        match literal_read(t) {
            Some(r) => assert(q + (seq![x] + r) =~= p + r),
            None => {},
        }
    }
}

/// Whatever the text, reading its literal back gives exactly the text: the
/// quoting loses nothing and adds nothing.
pub proof fn lemma_literal_reads_back(text: Seq<char>)
    ensures
        literal_read(literal_spec(text).subrange(1, literal_spec(text).len() - 1)) == Some(text),
{
    let l = literal_spec(text);
    assert(l.subrange(1, l.len() - 1) =~= literal_body(text));
    lemma_read_concat(text, Seq::empty());
    assert(literal_body(text) + Seq::<char>::empty() =~= literal_body(text));
    assert(literal_read(Seq::<char>::empty()) == Some(Seq::<char>::empty()));
    assert(text + Seq::<char>::empty() =~= text);
}

// ---------------------------------------------------------------------------
// Inline content as an expression
// ---------------------------------------------------------------------------

/// The function a presentation is applied with, opening its argument list.
pub open spec fn style_call(style: InlineStyle, monospace_family: Seq<char>) -> Seq<char> {
    match style {
        InlineStyle::Strong => "strong("@,
        InlineStyle::Emphasis => "emph("@,
        InlineStyle::Monospace => "text(font: "@ + literal_spec(monospace_family) + ", "@,
        InlineStyle::Superscript => "super("@,
        InlineStyle::Subscript => "sub("@,
        InlineStyle::Highlight => "highlight("@,
        InlineStyle::Underline => "underline("@,
        InlineStyle::Strikethrough => "strike("@,
        InlineStyle::Larger => "text(size: 6em / 5, "@,
        InlineStyle::Smaller => "text(size: 4em / 5, "@,
    }
}

/// One inline node as a content expression: text is a string literal and
/// nothing else; a presentation is a call around its content, which is an
/// empty literal when there is none.
pub open spec fn node_expression(n: InlineView, monospace_family: Seq<char>) -> Seq<char>
    decreases n,
{
    match n {
        InlineView::Text(t) => literal_spec(t),
        InlineView::LineBreak => "linebreak()"@,
        InlineView::Styled { style, children } => {
            let inner = if children.len() == 0 {
                literal_spec(Seq::empty())
            } else {
                nodes_expression(children, monospace_family)
            };
            style_call(style, monospace_family) + inner + ")"@
        },
    }
}

/// A run of nodes as one expression: their expressions joined by ` + `.
pub open spec fn nodes_expression(s: Seq<InlineView>, monospace_family: Seq<char>) -> Seq<char>
    decreases s,
{
    if s.len() == 0 {
        Seq::empty()
    } else if s.len() == 1 {
        node_expression(s[0], monospace_family)
    } else {
        nodes_expression(s.drop_last(), monospace_family) + " + "@ + node_expression(s.last(), monospace_family)
    }
}

/// Inline content as an expression; empty content is the empty literal, so
/// the result is always a valid expression.
pub open spec fn content_expression_spec(s: Seq<InlineView>, monospace_family: Seq<char>) -> Seq<char> {
    if s.len() == 0 {
        literal_spec(Seq::empty())
    } else {
        nodes_expression(s, monospace_family)
    }
}

fn push_str(out: &mut String, s: &str)
    ensures
        final(out)@ == old(out)@ + s@,
{
    out.append(s);
}

/// Appends one node's expression to `out`.
fn push_node_expression(out: &mut String, node: &InlineNode, monospace_family: &str)
    ensures
        final(out)@ == old(out)@ + node_expression(node@, monospace_family@),
    decreases node,
{
    match node {
        InlineNode::Text(t) => {
            let l = string_literal(t.as_str());
            push_str(out, l.as_str());
        },
        InlineNode::LineBreak => {
            push_str(out, "linebreak()");
            proof { reveal_strlit("linebreak()"); }
        },
        InlineNode::Styled { style, children } => {
            let ghost start = out@;
            match style {
                InlineStyle::Strong => push_str(out, "strong("),
                InlineStyle::Emphasis => push_str(out, "emph("),
                InlineStyle::Monospace => {
                    push_str(out, "text(font: ");
                    let l = string_literal(monospace_family);
                    push_str(out, l.as_str());
                    push_str(out, ", ");
                },
                InlineStyle::Superscript => push_str(out, "super("),
                InlineStyle::Subscript => push_str(out, "sub("),
                InlineStyle::Highlight => push_str(out, "highlight("),
                InlineStyle::Underline => push_str(out, "underline("),
                InlineStyle::Strikethrough => push_str(out, "strike("),
                InlineStyle::Larger => push_str(out, "text(size: 6em / 5, "),
                InlineStyle::Smaller => push_str(out, "text(size: 4em / 5, "),
            }
            proof {
                assert(out@ =~= start + style_call(*style, monospace_family@));
            }
            let ghost mid = out@;
            proof { lemma_nodes_view(children@); }
            if children.len() == 0 {
                let l = string_literal("");
                proof { reveal_strlit(""); }
                push_str(out, l.as_str());
            } else {
                push_nodes_expression(out, children, monospace_family);
            }
            push_str(out, ")");
            proof { reveal_strlit(")"); }
        },
    }
}

/// Appends the expression of a non-empty run of nodes to `out`.
fn push_nodes_expression(out: &mut String, nodes: &Vec<InlineNode>, monospace_family: &str)
    requires
        nodes@.len() > 0,
    ensures
        final(out)@ == old(out)@ + nodes_expression(nodes_view(nodes@), monospace_family@),
    decreases nodes,
{
    let ghost start = out@;
    proof { lemma_nodes_view(nodes@); }
    assert(decreases_to!(nodes => nodes@[0]));
    push_node_expression(out, &nodes[0], monospace_family);
    proof {
        let v1 = nodes_view(nodes@.take(1));
        lemma_nodes_view(nodes@.take(1));
        assert(v1.len() == 1);
        assert(v1[0] == nodes_view(nodes@)[0]);
    }
    let mut i: usize = 1;
    while i < nodes.len()
        invariant
            1 <= i <= nodes.len(),
            out@ == start + nodes_expression(nodes_view(nodes@.take(i as int)), monospace_family@),
        decreases nodes.len() - i,
    {
        push_str(out, " + ");
        proof { reveal_strlit(" + "); }
        assert(decreases_to!(nodes => nodes@[i as int]));
        push_node_expression(out, &nodes[i], monospace_family);
        proof {
            let pre = nodes@.take(i as int);
            let next = nodes@.take(i + 1);
            assert(next =~= pre.push(nodes@[i as int]));
            crate::document::lemma_nodes_view_push(pre, nodes@[i as int]);
            lemma_nodes_view(pre);
            let v = nodes_view(next);
            assert(v.len() == i + 1);
            assert(v.drop_last() =~= nodes_view(pre));
            assert(v.last() == node_view(nodes@[i as int]));
        }
        i = i + 1;
    }
    proof { assert(nodes@.take(nodes@.len() as int) =~= nodes@); }
}

/// Renders inline content as one content expression, in code mode: every run
/// of text is a string literal, every presentation a call from a closed
/// vocabulary, and the parts are joined with `+`. Monospaced content is set in
/// `monospace_family`, which is quoted like any other text.
pub fn content_expression(text: &InlineText, monospace_family: &str) -> (r: String)
    ensures
        r@ == content_expression_spec(text@, monospace_family@),
{
    let nodes = text.node_vec();
    let mut out = String::new();
    proof { lemma_nodes_view(text.node_seq()); }
    if nodes.len() == 0 {
        let l = string_literal("");
        proof { reveal_strlit(""); }
        push_str(&mut out, l.as_str());
    } else {
        push_nodes_expression(&mut out, text.node_vec(), monospace_family);
    }
    out
}

/// The element of the typesetting language that sets a list of `kind`.
pub open spec fn list_element_spec(kind: ListKind) -> Seq<char> {
    match kind {
        ListKind::Unordered => "list"@,
        ListKind::Ordered => "enum"@,
        ListKind::Description => "terms"@,
    }
}

/// The element that sets a list of `kind`: the engine places the markers,
/// numbers and hanging indents itself.
pub fn list_element(kind: ListKind) -> (r: &'static str)
    ensures
        r@ == list_element_spec(kind),
{
    match kind {
        ListKind::Unordered => {
            proof { reveal_strlit("list"); }
            "list"
        },
        ListKind::Ordered => {
            proof { reveal_strlit("enum"); }
            "enum"
        },
        ListKind::Description => {
            proof { reveal_strlit("terms"); }
            "terms"
        },
    }
}

/// The words under a quotation: its attribution and its citation, whichever
/// the source gave, joined by a comma; nothing at all when it gave neither.
pub open spec fn attribution_spec(
    attribution: Option<Seq<InlineView>>,
    citation: Option<Seq<InlineView>>,
    monospace_family: Seq<char>,
) -> Option<Seq<char>> {
    match (attribution, citation) {
        (None, None) => None,
        (Some(a), None) => Some(content_expression_spec(a, monospace_family)),
        (None, Some(c)) => Some(content_expression_spec(c, monospace_family)),
        (Some(a), Some(c)) => Some(
            content_expression_spec(a, monospace_family) + " + \", \" + "@
                + content_expression_spec(c, monospace_family),
        ),
    }
}

/// The view of the text an option may borrow.
pub open spec fn borrowed_view(t: Option<&InlineText>) -> Option<Seq<InlineView>> {
    match t {
        Some(t) => Some(t@),
        None => None,
    }
}

/// The expression for the line under a quotation, if there is anything to put
/// on it.
pub fn attribution_expression(
    attribution: Option<&InlineText>,
    citation: Option<&InlineText>,
    monospace_family: &str,
) -> (r: Option<String>)
    ensures
        r matches Some(e) ==> attribution_spec(
            borrowed_view(attribution),
            borrowed_view(citation),
            monospace_family@,
        ) == Some(e@),
        r is None <==> attribution_spec(
            borrowed_view(attribution),
            borrowed_view(citation),
            monospace_family@,
        ) is None,
{
    match (attribution, citation) {
        (None, None) => None,
        (Some(a), None) => Some(content_expression(a, monospace_family)),
        (None, Some(c)) => Some(content_expression(c, monospace_family)),
        (Some(a), Some(c)) => {
            let mut out = content_expression(a, monospace_family);
            push_str(&mut out, " + \", \" + ");
            proof { reveal_strlit(" + \", \" + "); }
            let e = content_expression(c, monospace_family);
            push_str(&mut out, e.as_str());
            Some(out)
        },
    }
}

} // verus!
