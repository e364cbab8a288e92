//! Character-level helpers the rest of the library builds strings with.

use vstd::prelude::*;

verus! {

/// The characters of `s`, in order.
pub(crate) fn chars_of(s: &str) -> (out: Vec<char>)
    ensures
        out@ == s@,
{
    broadcast use vstd::string::axiom_spec_iter;
    let mut out: Vec<char> = Vec::new();
    for c in it: s.chars()
        invariant
            it.seq() == s@,
            out@ == it.seq().take(it.index() as int),
    {
        assert(it.seq().take(it.index() as int).push(c) =~= it.seq().take(it.index() + 1));
        out.push(c);
    }
    assert(s@.take(s@.len() as int) =~= s@);
    out
}

/// Appends one character to a string with `String::push`: the contract claims
/// the string afterwards is the string before with `c` added at its end, as the
/// standard library documents.
#[verifier::external_body]
pub(crate) fn push_char(s: &mut String, c: char)
    ensures
        final(s)@ == old(s)@.push(c),
{
    s.push(c);
}

/// Builds a string holding exactly `chars`.
pub fn string_of(chars: &Vec<char>) -> (out: String)
    ensures
        out@ == chars@,
{
    let mut out = String::new();
    let mut i: usize = 0;
    while i < chars.len()
        invariant
            i <= chars.len(),
            out@ == chars@.subrange(0, i as int),
        decreases chars.len() - i,
    {
        push_char(&mut out, chars[i]);
        i = i + 1;
        assert(out@ =~= chars@.subrange(0, i as int));
    }
    assert(chars@.subrange(0, chars.len() as int) =~= chars@);
    out
}


/// Whether two strings hold the same characters.
pub fn str_eq(a: &str, b: &str) -> (r: bool)
    ensures
        r == (a@ == b@),
{
    let x = chars_of(a);
    let y = chars_of(b);
    chars_eq(&x, &y)
}

/// Whether two character vectors are equal.
pub fn chars_eq(x: &Vec<char>, y: &Vec<char>) -> (r: bool)
    ensures
        r == (x@ == y@),
{
    if x.len() != y.len() {
        return false;
    }
    let mut i: usize = 0;
    while i < x.len()
        invariant
            x.len() == y.len(),
            i <= x.len(),
            x@.subrange(0, i as int) == y@.subrange(0, i as int),
        decreases x.len() - i,
    {
        if x[i] != y[i] {
            assert(x@[i as int] != y@[i as int]);
            return false;
        }
        i = i + 1;
        assert(x@.subrange(0, i as int) =~= x@.subrange(0, i - 1).push(x@[i - 1]));
        assert(y@.subrange(0, i as int) =~= y@.subrange(0, i - 1).push(y@[i - 1]));
    }
    assert(x@ =~= x@.subrange(0, i as int));
    assert(y@ =~= y@.subrange(0, i as int));
    true
}

/// Whether a string holds no characters.
pub fn str_is_empty(s: &str) -> (r: bool)
    ensures
        r == (s@.len() == 0),
{
    chars_of(s).len() == 0
}

/// Whether `c` is white space in the Unicode sense (the `White_Space`
/// property), which is what trimming removes.
pub open spec fn is_whitespace(c: char) -> bool {
    let v = c as u32;
    (0x9 <= v && v <= 0xd) || v == 0x20 || v == 0x85 || v == 0xa0 || v == 0x1680
        || (0x2000 <= v && v <= 0x200a) || v == 0x2028 || v == 0x2029 || v == 0x202f
        || v == 0x205f || v == 0x3000
}

/// Whether `c` is white space.
pub fn char_is_whitespace(c: char) -> (r: bool)
    ensures
        r == is_whitespace(c),
{
    let v = c as u32;
    (0x9 <= v && v <= 0xd) || v == 0x20 || v == 0x85 || v == 0xa0 || v == 0x1680
        || (0x2000 <= v && v <= 0x200a) || v == 0x2028 || v == 0x2029 || v == 0x202f
        || v == 0x205f || v == 0x3000
}

/// `s` without its leading white space.
pub open spec fn trim_start(s: Seq<char>) -> Seq<char>
    decreases s.len(),
{
    if s.len() > 0 && is_whitespace(s[0]) {
        trim_start(s.drop_first())
    } else {
        s
    }
}

/// `s` without its trailing white space.
pub open spec fn trim_end(s: Seq<char>) -> Seq<char>
    decreases s.len(),
{
    if s.len() > 0 && is_whitespace(s.last()) {
        trim_end(s.drop_last())
    } else {
        s
    }
}

/// `s` without white space at either end.
pub open spec fn trim(s: Seq<char>) -> Seq<char> {
    trim_end(trim_start(s))
}

/// The characters of `s` from `from` on, without leading white space.
fn trim_start_from(s: &Vec<char>, from: usize) -> (r: usize)
    requires
        from <= s.len(),
    ensures
        from <= r <= s.len(),
        trim_start(s@.subrange(from as int, s.len() as int)) == s@.subrange(r as int, s.len() as int),
    decreases s.len() - from,
{
    if from < s.len() && char_is_whitespace(s[from]) {
        assert(s@.subrange(from as int, s.len() as int).drop_first() =~= s@.subrange(from + 1, s.len() as int));
        trim_start_from(s, from + 1)
    } else {
        r_noop(s, from)
    }
}

fn r_noop(s: &Vec<char>, from: usize) -> (r: usize)
    requires
        from <= s.len(),
        !(from < s.len() && is_whitespace(s@[from as int])),
    ensures
        r == from,
        trim_start(s@.subrange(from as int, s.len() as int)) == s@.subrange(r as int, s.len() as int),
{
    from
}

/// Where the text ends once trailing white space is dropped.
fn trim_end_to(s: &Vec<char>, lo: usize, to: usize) -> (r: usize)
    requires
        lo <= to <= s.len(),
    ensures
        lo <= r <= to,
        trim_end(s@.subrange(lo as int, to as int)) == s@.subrange(lo as int, r as int),
    decreases to,
{
    if to > lo && char_is_whitespace(s[to - 1]) {
        assert(s@.subrange(lo as int, to as int).drop_last() =~= s@.subrange(lo as int, to - 1));
        trim_end_to(s, lo, to - 1)
    } else {
        to
    }
}

/// `s` with white space trimmed from both ends.
pub fn trimmed(s: &str) -> (r: Vec<char>)
    ensures
        r@ == trim(s@),
{
    let v = chars_of(s);
    let lo = trim_start_from(&v, 0);
    assert(v@.subrange(0, v.len() as int) =~= v@);
    let hi = trim_end_to(&v, lo, v.len());
    let mut out = Vec::new();
    let mut i = lo;
    while i < hi
        invariant
            lo <= i <= hi <= v.len(),
            out@ == v@.subrange(lo as int, i as int),
        decreases hi - i,
    {
        out.push(v[i]);
        i = i + 1;
        assert(out@ =~= v@.subrange(lo as int, i as int));
    }
    out
}

/// Whether `c` is an ASCII decimal digit.
pub open spec fn is_digit(c: char) -> bool {
    '0' <= c && c <= '9'
}

/// The value of a run of decimal digits.
pub open spec fn digits_value(s: Seq<char>) -> nat
    decreases s.len(),
{
    if s.len() == 0 {
        0
    } else {
        digits_value(s.drop_last()) * 10 + ((s.last() as u32 - 48) as nat)
    }
}

/// `s` without one leading `+`, if it has one.
pub open spec fn sign_stripped(s: Seq<char>) -> Seq<char> {
    if s.len() > 0 && s[0] == '+' {
        s.drop_first()
    } else {
        s
    }
}

/// Whether every character of `s` is a decimal digit.
pub open spec fn all_digits(s: Seq<char>) -> bool {
    forall|i: int| 0 <= i < s.len() ==> is_digit(#[trigger] s[i])
}

/// The digits of an unsigned number as the standard parser reads them: an
/// optional `+`, then at least one decimal digit and nothing else.
pub open spec fn unsigned_digits(s: Seq<char>) -> Option<Seq<char>> {
    let d = sign_stripped(s);
    if d.len() > 0 && all_digits(d) {
        Some(d)
    } else {
        None
    }
}

/// The unsigned number `s` spells, if it spells one no larger than `max`.
pub open spec fn parse_unsigned(s: Seq<char>, max: nat) -> Option<nat> {
    match unsigned_digits(s) {
        Some(d) => if digits_value(d) <= max { Some(digits_value(d)) } else { None },
        None => None,
    }
}

/// Reads an unsigned number no larger than `max`, the way the standard
/// library's integer parsing does.
pub fn parse_unsigned_chars(s: &Vec<char>, max: u64) -> (r: Option<u64>)
    ensures
        r matches Some(v) ==> parse_unsigned(s@, max as nat) == Some(v as nat),
        r is None ==> parse_unsigned(s@, max as nat) is None,
{
    let start: usize = if s.len() > 0 && s[0] == '+' { 1 } else { 0 };
    let ghost d = sign_stripped(s@);
    assert(d =~= s@.subrange(start as int, s.len() as int));
    if start >= s.len() {
        assert(d.len() == 0);
        return None;
    }
    let mut value: u64 = 0;
    let mut i = start;
    while i < s.len()
        invariant
            start <= i <= s.len(),
            d == s@.subrange(start as int, s.len() as int),
            d == sign_stripped(s@),
            forall|j: int| start <= j < i ==> is_digit(#[trigger] s@[j]),
            value as nat == digits_value(s@.subrange(start as int, i as int)),
            value <= max,
        decreases s.len() - i,
    {
        let c = s[i];
        if !('0' <= c && c <= '9') {
            proof {
                let k = (i - start) as int;
                assert(d[k] == c);
                assert(!is_digit(d[k]));
                assert(!all_digits(d));
                assert(unsigned_digits(s@) is None);
            }
            return None;
        }
        let digit = (c as u32 - 48) as u64;
        assert(s@.subrange(start as int, i + 1).drop_last() =~= s@.subrange(start as int, i as int));
        if value > max / 10 || (value == max / 10 && digit > max % 10) {
            proof {
                assert(value * 10 + digit > max) by (nonlinear_arith)
                    requires
                        value > max / 10 || (value == max / 10 && digit > max % 10),
                ;
                let pre = s@.subrange(start as int, i + 1);
                assert(pre.drop_last() =~= s@.subrange(start as int, i as int));
                assert(pre.last() == c);
                assert(digits_value(pre) == value * 10 + digit);
                if all_digits(d) {
                    lemma_digits_value_prefix_bound(d, (i + 1 - start) as int);
                    assert(d.subrange(0, (i + 1 - start) as int) =~= pre);
                    assert(digits_value(d) > max);
                    assert(unsigned_digits(s@) == Some(d));
                } else {
                    assert(unsigned_digits(s@) is None);
                }
                assert(parse_unsigned(s@, max as nat) is None);
            }
            return None;
        }
        proof {
            let q = max / 10;
            let m = max % 10;
            assert(max == q * 10 + m);
            assert(digit <= 9);
            if value < q {
                assert(value * 10 <= q * 10 - 10) by (nonlinear_arith)
                    requires value < q, value >= 0;
            } else {
                assert(value == q);
                assert(value * 10 == q * 10);
            }
        }
        value = value * 10 + digit;
        i = i + 1;
    }
    assert(s@.subrange(start as int, s.len() as int) =~= d);
    Some(value)
}

/// A number only grows as more digits follow.
pub proof fn lemma_digits_value_prefix_bound(d: Seq<char>, k: int)
    requires
        0 <= k <= d.len(),
        forall|i: int| 0 <= i < d.len() ==> is_digit(#[trigger] d[i]),
    ensures
        digits_value(d.subrange(0, k)) <= digits_value(d),
    decreases d.len() - k,
{
    if k < d.len() {
        lemma_digits_value_prefix_bound(d, k + 1);
        assert(d.subrange(0, k + 1).drop_last() =~= d.subrange(0, k));
    } else {
        assert(d.subrange(0, k) =~= d);
    }
}

} // verus!
