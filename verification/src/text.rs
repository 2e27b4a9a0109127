//! Plain text: whitespace, words, trimming, shortening, ordering and decimal numbers.
//!
//! A text is modelled as the sequence of its characters.
use crate::order::{lemma_lex_orders, lex_lt, orders_all};
use vstd::prelude::*;
use vstd::utf8::*;

verus! {

/// `String::push` appends one character at the end of the string.
pub assume_specification[ String::push ](s: &mut String, c: char)
    ensures
        final(s)@ == old(s)@.push(c),
;

/// The text that `String::from_utf8_lossy` makes of a byte string.
pub uninterp spec fn lossy_text(bytes: Seq<u8>) -> Seq<char>;

/// Calls `String::from_utf8_lossy`, whose result depends on the bytes alone. Where the bytes are
/// valid UTF-8, the result is the text that they encode. Which replacement characters stand for
/// which malformed bytes is left to `lossy_text`.
#[verifier::external_body]
fn decode_lossy(bytes: &[u8]) -> (r: String)
    ensures
        r@ == lossy_text(bytes@),
        valid_utf8(bytes@) ==> r@ == decode_utf8(bytes@),
{
    String::from_utf8_lossy(bytes).into_owned()
}

// ---------------------------------------------------------------------------------------------
// Model
// ---------------------------------------------------------------------------------------------
/// The characters with the Unicode property `White_Space`.
pub open spec fn is_space(c: char) -> bool {
    let n = c as u32;
    ||| 0x09 <= n <= 0x0d
    ||| n == 0x20
    ||| n == 0x85
    ||| n == 0xa0
    ||| n == 0x1680
    ||| 0x2000 <= n <= 0x200a
    ||| n == 0x2028
    ||| n == 0x2029
    ||| n == 0x202f
    ||| n == 0x205f
    ||| n == 0x3000
}

/// The maximal runs of consecutive characters that `keep` holds of, from left to right.
pub open spec fn runs(s: Seq<char>, keep: spec_fn(char) -> bool) -> Seq<Seq<char>>
    decreases s.len(),
{
    if s.len() == 0 {
        Seq::empty()
    } else {
        let before = runs(s.drop_last(), keep);
        if !keep(s.last()) {
            before
        } else if s.len() > 1 && keep(s[s.len() - 2]) {
            before.drop_last().push(before.last().push(s.last()))
        } else {
            before.push(seq![s.last()])
        }
    }
}

/// Holds of the characters that words are made of.
pub open spec fn word_char() -> spec_fn(char) -> bool {
    |c: char| !is_space(c)
}

/// Holds of the characters that lines are made of.
pub open spec fn line_char() -> spec_fn(char) -> bool {
    |c: char| c != '\n'
}

/// The words of a text: what whitespace separates.
pub open spec fn words(s: Seq<char>) -> Seq<Seq<char>> {
    runs(s, word_char())
}

/// The lines of a text that hold at least one character.
pub open spec fn full_lines(s: Seq<char>) -> Seq<Seq<char>> {
    runs(s, line_char())
}

/// A non-empty text without whitespace.
pub open spec fn is_word(w: Seq<char>) -> bool {
    &&& w.len() > 0
    &&& forall|i: int| 0 <= i < w.len() ==> !is_space(#[trigger] w[i])
}

pub open spec fn all_words(ws: Seq<Seq<char>>) -> bool {
    forall|i: int| 0 <= i < ws.len() ==> is_word(#[trigger] ws[i])
}

/// The parts one after the other, with `sep` between neighbours.
pub open spec fn join(parts: Seq<Seq<char>>, sep: Seq<char>) -> Seq<char>
    decreases parts.len(),
{
    if parts.len() == 0 {
        Seq::empty()
    } else if parts.len() == 1 {
        parts[0]
    } else {
        join(parts.drop_last(), sep) + sep + parts.last()
    }
}

/// The text with each stretch of whitespace turned into one space, and none at either end.
pub open spec fn collapsed(s: Seq<char>) -> Seq<char> {
    join(words(s), " "@)
}

/// The collapsed text, cut to `max_chars` characters and marked with an ellipsis where it is longer.
pub open spec fn shortened(s: Seq<char>, max_chars: nat) -> Seq<char> {
    if collapsed(s).len() <= max_chars {
        collapsed(s)
    } else {
        collapsed(s).take(max_chars as int) + "..."@
    }
}

pub open spec fn without_leading_space(s: Seq<char>) -> Seq<char>
    decreases s.len(),
{
    if s.len() > 0 && is_space(s[0]) {
        without_leading_space(s.drop_first())
    } else {
        s
    }
}

pub open spec fn without_trailing_space(s: Seq<char>) -> Seq<char>
    decreases s.len(),
{
    if s.len() > 0 && is_space(s.last()) {
        without_trailing_space(s.drop_last())
    } else {
        s
    }
}

/// The text without the whitespace at its two ends.
pub open spec fn trimmed(s: Seq<char>) -> Seq<char> {
    without_trailing_space(without_leading_space(s))
}

/// Whether `a` comes before `b` in dictionary order by code point.
pub open spec fn text_lt(a: Seq<char>, b: Seq<char>) -> bool {
    lex_lt(a, b, |x: char, y: char| x < y)
}

/// The decimal digits of `n`, without leading zeros.
pub open spec fn decimal(n: nat) -> Seq<char>
    decreases n,
{
    if n < 10 {
        seq![digit(n)]
    } else {
        decimal(n / 10).push(digit(n % 10))
    }
}

pub open spec fn digit(n: nat) -> char {
    (48 + n) as char
}

/// The texts that a list of strings holds.
pub open spec fn texts(v: Seq<String>) -> Seq<Seq<char>> {
    Seq::new(v.len(), |i: int| v[i]@)
}

/// The text that an optional string holds.
pub open spec fn opt_text(o: Option<String>) -> Option<Seq<char>> {
    match o {
        Some(s) => Some(s@),
        None => None,
    }
}

// ---------------------------------------------------------------------------------------------
// Laws
// ---------------------------------------------------------------------------------------------
/// Dictionary order is a strict total order of texts.
pub proof fn lemma_text_lt_orders()
    ensures
        orders_all(|a: Seq<char>, b: Seq<char>| text_lt(a, b)),
{
    lemma_lex_orders(|x: char, y: char| x < y);
    let lex = |a: Seq<char>, b: Seq<char>| lex_lt(a, b, |x: char, y: char| x < y);
    let lt = |a: Seq<char>, b: Seq<char>| text_lt(a, b);
    assert forall|a: Seq<char>| !#[trigger] lt(a, a) by {
        assert(!lex(a, a));
    }
    assert forall|a: Seq<char>, b: Seq<char>, c: Seq<char>| #[trigger] lt(a, b) && #[trigger] lt(
        b,
        c,
    ) implies lt(a, c) by {
        assert(lex(a, b) && lex(b, c));
    }
    assert forall|a: Seq<char>, b: Seq<char>| #[trigger] lt(a, b) || a == b || lt(b, a) by {
        assert(lex(a, b) || a == b || lex(b, a));
    }
}

/// No text comes before itself.
pub proof fn lemma_text_lt_irreflexive(a: Seq<char>)
    ensures
        !text_lt(a, a),
{
    let lt = |a: Seq<char>, b: Seq<char>| text_lt(a, b);
    lemma_text_lt_orders();
    assert(!lt(a, a));
}

/// What comes before a text comes before all that the text comes before.
pub proof fn lemma_text_lt_transitive(a: Seq<char>, b: Seq<char>, c: Seq<char>)
    requires
        text_lt(a, b),
        text_lt(b, c),
    ensures
        text_lt(a, c),
{
    let lt = |a: Seq<char>, b: Seq<char>| text_lt(a, b);
    lemma_text_lt_orders();
    assert(lt(a, b) && lt(b, c));
}

/// Of two different texts one comes before the other.
pub proof fn lemma_text_lt_total(a: Seq<char>, b: Seq<char>)
    ensures
        a == b || text_lt(a, b) || text_lt(b, a),
{
    let lt = |a: Seq<char>, b: Seq<char>| text_lt(a, b);
    lemma_text_lt_orders();
    assert(lt(a, b) || a == b || lt(b, a));
}

// ---------------------------------------------------------------------------------------------
// Operations
// ---------------------------------------------------------------------------------------------
pub fn is_whitespace(c: char) -> (r: bool)
    ensures
        r == is_space(c),
{
    let n: u32 = c as u32;
    (0x09 <= n && n <= 0x0d) || n == 0x20 || n == 0x85 || n == 0xa0 || n == 0x1680 || (0x2000 <= n
        && n <= 0x200a) || n == 0x2028 || n == 0x2029 || n == 0x202f || n == 0x205f || n == 0x3000
}

pub fn same_text(a: &str, b: &str) -> (r: bool)
    ensures
        r == (a@ == b@),
{
    a.to_owned() == b.to_owned()
}

/// The characters of a text.
pub fn char_list(text: &str) -> (r: Vec<char>)
    ensures
        r@ == text@,
{
    let mut out: Vec<char> = Vec::new();
    for c in it: text.chars()
        invariant
            it.seq() == text@,
            out@ == text@.take(it.index() as int),
    {
        out.push(c);
        assert(text@.take(it.index() + 1) =~= text@.take(it.index() as int).push(c));
    }
    assert(text@.take(text@.len() as int) =~= text@);
    out
}

fn split_runs(
    text: &str,
    keep: impl Fn(char) -> bool,
    Ghost(kept): Ghost<spec_fn(char) -> bool>,
) -> (r: Vec<String>)
    requires
        forall|c: char| keep.requires((c,)),
        forall|c: char, b: bool| keep.ensures((c,), b) ==> b == kept(c),
    ensures
        texts(r@) == runs(text@, kept),
{
    let mut out: Vec<String> = Vec::new();
    let mut current = String::new();
    let mut inside = false;
    for c in it: text.chars()
        invariant
            it.seq() == text@,
            forall|c: char| keep.requires((c,)),
            forall|c: char, b: bool| keep.ensures((c,), b) ==> b == kept(c),
            inside == (it.index() > 0 && kept(text@[it.index() - 1])),
            inside ==> texts(out@).push(current@) == runs(text@.take(it.index() as int), kept),
            !inside ==> texts(out@) == runs(text@.take(it.index() as int), kept),
            !inside ==> current@.len() == 0,
    {
        let ghost i = it.index() as int;
        let ghost next = text@.take(i + 1);
        let ghost old_out = texts(out@);
        let ghost old_current = current@;
        assert(next.drop_last() =~= text@.take(i));
        assert(next.last() == c);
        if keep(c) {
            current.push(c);
            proof {
                if inside {
                    let before = runs(text@.take(i), kept);
                    assert(before.drop_last() =~= old_out);
                    assert(runs(next, kept) == old_out.push(old_current.push(c)));
                } else {
                    assert(current@ =~= seq![c]);
                    assert(runs(next, kept) == old_out.push(seq![c]));
                }
            }
            inside = true;
        } else {
            if inside {
                out.push(current);
                current = String::new();
                assert(texts(out@) =~= old_out.push(old_current));
            }
            inside = false;
        }
    }
    assert(text@.take(text@.len() as int) =~= text@);
    let ghost old_out = texts(out@);
    let ghost old_current = current@;
    if inside {
        out.push(current);
        assert(texts(out@) =~= old_out.push(old_current));
    }
    out
}

/// The words of a text, in order.
pub fn split_words(text: &str) -> (r: Vec<String>)
    ensures
        texts(r@) == words(text@),
{
    let keep = |c: char| -> (b: bool)
        ensures
            b == !is_space(c),
        { !is_whitespace(c) };
    split_runs(text, keep, Ghost(word_char()))
}

/// The lines of a text that hold at least one character, in order.
pub fn split_full_lines(text: &str) -> (r: Vec<String>)
    ensures
        texts(r@) == full_lines(text@),
{
    let keep = |c: char| -> (b: bool)
        ensures
            b == (c != '\n'),
        { c != '\n' };
    split_runs(text, keep, Ghost(line_char()))
}

pub fn join_texts(parts: &[String], sep: &str) -> (r: String)
    ensures
        r@ == join(texts(parts@), sep@),
{
    assert(texts(parts@).take(parts@.len() as int) =~= texts(parts@));
    join_first(parts, parts.len(), sep)
}

/// Joins the first `count` parts, or all of them where there are fewer.
pub fn join_first(parts: &[String], count: usize, sep: &str) -> (r: String)
    ensures
        r@ == join(
            texts(parts@).take(
                if count <= parts@.len() {
                    count as int
                } else {
                    parts@.len() as int
                },
            ),
            sep@,
        ),
{
    let mut out = String::new();
    let n: usize = if count <= parts.len() {
        count
    } else {
        parts.len()
    };
    for i in 0..n
        invariant
            n <= parts@.len(),
            out@ == join(texts(parts@).take(i as int), sep@),
    {
        let ghost next = texts(parts@).take(i + 1);
        assert(next.drop_last() =~= texts(parts@).take(i as int));
        if i > 0 {
            out.append(sep);
        }
        out.append(parts[i].as_str());
        assert(out@ =~= join(next, sep@));
    }
    out
}

/// The text with each stretch of whitespace turned into one space, and none at either end.
pub fn collapse_whitespace(text: &str) -> (r: String)
    ensures
        r@ == collapsed(text@),
{
    join_texts(split_words(text).as_slice(), " ")
}

/// The text with its whitespace collapsed, cut to `max_chars` characters and marked with `...`
/// where it is longer than that.
pub fn shorten(text: &str, max_chars: usize) -> (r: String)
    requires
        max_chars < usize::MAX,
    ensures
        r@ == shortened(text@, max_chars as nat),
{
    let collapsed = collapse_whitespace(text);
    if collapsed.as_str().unicode_len() <= max_chars {
        return collapsed;
    }
    let mut out = collapsed.as_str().substring_char(0, max_chars).to_owned();
    out.append("...");
    out
}

/// The length to which a path is shortened.
pub const PATH_CHAR_LIMIT: usize = 72;

/// The text of a path, given by its encoded bytes, shortened. Bytes that are no valid UTF-8 are
/// shown by replacement characters.
pub fn shorten_path(path: &[u8]) -> (r: String)
    ensures
        r@ == shortened(lossy_text(path@), PATH_CHAR_LIMIT as nat),
        valid_utf8(path@) ==> r@ == shortened(decode_utf8(path@), PATH_CHAR_LIMIT as nat),
{
    shorten(decode_lossy(path).as_str(), PATH_CHAR_LIMIT)
}

/// The bounds of what is left of `chars[from..to]` without the whitespace at its two ends.
pub fn trim_bounds(chars: &Vec<char>, from: usize, to: usize) -> (r: (usize, usize))
    requires
        from <= to <= chars@.len(),
    ensures
        from <= r.0 <= r.1 <= to,
        chars@.subrange(r.0 as int, r.1 as int) == trimmed(chars@.subrange(from as int, to as int)),
{
    let mut a = from;
    let mut b = to;
    while a < b && is_whitespace(chars[a])
        invariant
            from <= a <= b,
            b == to <= chars@.len(),
            without_leading_space(chars@.subrange(from as int, to as int))
                == without_leading_space(chars@.subrange(a as int, to as int)),
        decreases b - a,
    {
        assert(chars@.subrange(a as int, to as int).drop_first() =~= chars@.subrange(
            a + 1,
            to as int,
        ));
        a = a + 1;
    }
    let ghost middle = chars@.subrange(a as int, to as int);
    assert(without_leading_space(middle) == middle);
    while a < b && is_whitespace(chars[b - 1])
        invariant
            from <= a <= b <= to <= chars@.len(),
            without_trailing_space(middle) == without_trailing_space(
                chars@.subrange(a as int, b as int),
            ),
        decreases b - a,
    {
        assert(chars@.subrange(a as int, b as int).drop_last() =~= chars@.subrange(
            a as int,
            b - 1,
        ));
        b = b - 1;
    }
    (a, b)
}

/// The text without the whitespace at its two ends.
pub fn trim(text: &str) -> (r: &str)
    ensures
        r@ == trimmed(text@),
{
    let chars = char_list(text);
    let (a, b) = trim_bounds(&chars, 0, chars.len());
    assert(chars@.subrange(0, chars@.len() as int) =~= text@);
    text.substring_char(a, b)
}

/// Whether `a` comes before `b` in dictionary order by code point.
pub fn text_before(a: &str, b: &str) -> (r: bool)
    ensures
        r == text_lt(a@, b@),
{
    let left = char_list(a);
    let right = char_list(b);
    let mut i: usize = 0;
    assert(left@.skip(0) =~= left@);
    assert(right@.skip(0) =~= right@);
    while i < left.len() && i < right.len() && left[i] == right[i]
        invariant
            left@ == a@,
            right@ == b@,
            i <= left@.len(),
            i <= right@.len(),
            text_lt(a@, b@) == text_lt(left@.skip(i as int), right@.skip(i as int)),
        decreases left@.len() - i,
    {
        assert(left@.skip(i as int).drop_first() =~= left@.skip(i + 1));
        assert(right@.skip(i as int).drop_first() =~= right@.skip(i + 1));
        i = i + 1;
    }
    if i >= right.len() {
        false
    } else if i >= left.len() {
        true
    } else {
        left[i] < right[i]
    }
}

/// The decimal digits of a number.
pub fn decimal_text(n: usize) -> (r: String)
    ensures
        r@ == decimal(n as nat),
    decreases n,
{
    let mut out = if n < 10 {
        String::new()
    } else {
        decimal_text(n / 10)
    };
    let d: u8 = (n % 10) as u8;
    let c: char = (48u8 + d) as char;
    assert(c == digit((n % 10) as nat));
    out.push(c);
    assert(n < 10 ==> out@ =~= seq![c]);
    out
}

} // verus!
