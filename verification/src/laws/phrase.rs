//! What holds of repetition keys and phrase samples.
use crate::laws::text::{
    law_runs_concat, law_runs_gap, law_runs_kept, law_shortened, law_words_of_join, lemma_runs_all,
};
use crate::phrase::{
    expanded, expanded_words, first_prose_line, is_alnum, is_fence, key_char, key_chars, key_of,
    key_words, lowered, sample_of, PHRASE_CHAR_LIMIT,
};
use crate::text::{
    all_words, full_lines, is_space, is_word, join, runs, shortened, trimmed, word_char, words,
};
use vstd::prelude::*;
use vstd::utf8::{encode_utf8, is_ascii_chars, is_ascii_chars_encode_utf8};

verus! {

/// The characters of which the words of keys are made.
pub open spec fn key_letter(c: char) -> bool {
    '0' <= c <= '9' || 'a' <= c <= 'z'
}

/// A word of a key.
pub open spec fn key_word(w: Seq<char>) -> bool {
    &&& w.len() > 0
    &&& forall|i: int| 0 <= i < w.len() ==> key_letter(#[trigger] w[i])
}

/// The tails of the contractions that are written out.
pub open spec fn is_tail(w: Seq<char>) -> bool {
    w == "ll"@ || w == "ve"@ || w == "re"@ || w == "m"@
}

// ---------------------------------------------------------------------------------------------
// Lemmas
// ---------------------------------------------------------------------------------------------
proof fn lemma_key_char(c: char)
    ensures
        is_alnum(c) ==> key_letter(key_char(c)),
        !is_alnum(c) ==> key_char(c) == ' ',
        is_space(key_char(c)) <==> !is_alnum(c),
        key_letter(c) ==> key_char(c) == c && is_alnum(c),
        key_letter(c) ==> !is_space(c),
        key_char(' ') == ' ',
{
}

proof fn lemma_runs_same(
    s: Seq<char>,
    keep: spec_fn(char) -> bool,
    other: spec_fn(char) -> bool,
)
    requires
        forall|i: int| 0 <= i < s.len() ==> keep(#[trigger] s[i]) == other(s[i]),
    ensures
        runs(s, keep) == runs(s, other),
    decreases s.len(),
{
    if s.len() > 0 {
        let rest = s.drop_last();
        assert forall|i: int| 0 <= i < rest.len() implies keep(#[trigger] rest[i]) == other(
            rest[i],
        ) by {
            assert(keep(s[i]) == other(s[i]));
        }
        lemma_runs_same(rest, keep, other);
        assert(keep(s[s.len() - 1]) == other(s[s.len() - 1]));
        if s.len() > 1 {
            assert(keep(s[s.len() - 2]) == other(s[s.len() - 2]));
        }
    }
}

/// The words of a text of key characters are words of a key.
proof fn lemma_found_words(s: Seq<char>)
    ensures
        forall|i: int|
            0 <= i < words(key_chars(s)).len() ==> key_word(#[trigger] words(key_chars(s))[i]),
{
    let t = key_chars(s);
    let other = |c: char| key_letter(c);
    assert forall|i: int| 0 <= i < t.len() implies word_char()(#[trigger] t[i]) == other(t[i]) by {
        lemma_key_char(s[i]);
    }
    lemma_runs_same(t, word_char(), other);
    law_runs_kept(t, other);
    assert forall|i: int| 0 <= i < words(t).len() implies key_word(#[trigger] words(t)[i]) by {
        let w = words(t)[i];
        assert(runs(t, other)[i].len() > 0);
        assert forall|j: int| 0 <= j < w.len() implies key_letter(#[trigger] w[j]) by {
            assert(other(runs(t, other)[i][j]));
        }
    }
}

proof fn lemma_expanded(w: Seq<char>)
    requires
        key_word(w),
    ensures
        key_word(expanded(w)),
        expanded(expanded(w)) == expanded(w),
{
    reveal_strlit("ll");
    reveal_strlit("ve");
    reveal_strlit("re");
    reveal_strlit("m");
    reveal_strlit("will");
    reveal_strlit("have");
    reveal_strlit("are");
    reveal_strlit("am");
    assert("will"@.len() == 4 && "have"@.len() == 4 && "are"@.len() == 3 && "am"@.len() == 2);
    assert("ll"@.len() == 2 && "ve"@.len() == 2 && "re"@.len() == 2 && "m"@.len() == 1);
    assert("am"@[0] == 'a' && "ll"@[0] == 'l' && "ve"@[0] == 'v' && "re"@[0] == 'r');
}

/// The words of a key are words of lower-case letters and digits, and are written out.
pub proof fn law_key_words(s: Seq<char>)
    ensures
        forall|i: int| 0 <= i < key_words(s).len() ==> key_word(#[trigger] key_words(s)[i]),
        all_words(key_words(s)),
        expanded_words(key_words(s)) == key_words(s),
{
    let ws = words(key_chars(s));
    let ks = key_words(s);
    lemma_found_words(s);
    assert forall|i: int| 0 <= i < ks.len() implies key_word(#[trigger] ks[i]) by {
        assert(key_word(ws[i]));
        lemma_expanded(ws[i]);
    }
    assert forall|i: int| 0 <= i < ks.len() implies is_word(#[trigger] ks[i]) by {
        let w = ks[i];
        assert(key_word(w));
        assert forall|j: int| 0 <= j < w.len() implies !is_space(#[trigger] w[j]) by {
            assert(key_letter(w[j]));
            lemma_key_char(w[j]);
        }
    }
    assert forall|i: int| 0 <= i < ks.len() implies expanded_words(ks)[i] == ks[i] by {
        assert(key_word(ws[i]));
        lemma_expanded(ws[i]);
    }
    assert(expanded_words(ks) =~= ks);
}

proof fn lemma_joined_chars(ws: Seq<Seq<char>>)
    requires
        forall|i: int| 0 <= i < ws.len() ==> key_word(#[trigger] ws[i]),
    ensures
        forall|i: int|
            0 <= i < join(ws, " "@).len() ==> key_letter(#[trigger] join(ws, " "@)[i]) || join(
                ws,
                " "@,
            )[i] == ' ',
    decreases ws.len(),
{
    reveal_strlit(" ");
    if ws.len() > 0 {
        assert(key_word(ws[ws.len() - 1]));
        if ws.len() > 1 {
            let rest = ws.drop_last();
            assert forall|i: int| 0 <= i < rest.len() implies key_word(#[trigger] rest[i]) by {
                assert(key_word(ws[i]));
            }
            lemma_joined_chars(rest);
            let a = join(rest, " "@);
            let t = join(ws, " "@);
            assert(t == a + " "@ + ws.last());
            assert forall|i: int| 0 <= i < t.len() implies key_letter(#[trigger] t[i]) || t[i]
                == ' ' by {
                if i < a.len() {
                    assert(t[i] == a[i]);
                } else if i > a.len() {
                    assert(t[i] == ws.last()[i - a.len() - 1]);
                }
            }
        }
    }
}

proof fn lemma_key_chars_concat(a: Seq<char>, b: Seq<char>)
    ensures
        key_chars(a + b) == key_chars(a) + key_chars(b),
{
    assert(key_chars(a + b) =~= key_chars(a) + key_chars(b));
}

// ---------------------------------------------------------------------------------------------
// Keys
// ---------------------------------------------------------------------------------------------
/// The words of a key, joined by spaces, make a text of lower-case ASCII letters, digits and spaces,
/// which has as many bytes as characters: the least length of a key can be taken in either.
pub proof fn law_key_is_ascii(s: Seq<char>)
    ensures
        ({
            let key = join(key_words(s), " "@);
            &&& forall|i: int|
                0 <= i < key.len() ==> key_letter(#[trigger] key[i]) || key[i] == ' '
            &&& encode_utf8(key).len() == key.len()
        }),
{
    let key = join(key_words(s), " "@);
    law_key_words(s);
    lemma_joined_chars(key_words(s));
    assert(is_ascii_chars(key)) by {
        assert forall|i: int| 0 <= i < key.len() implies '\0' <= #[trigger] key[i] <= '\u{7f}' by {
            assert(key_letter(key[i]) || key[i] == ' ');
        }
    }
    is_ascii_chars_encode_utf8(key);
}

/// A key is long enough to tell something: it has at least four words and 24 characters.
pub proof fn law_key_length(s: Seq<char>)
    requires
        key_of(s) is Some,
    ensures
        key_of(s)->0.len() >= 24,
        words(key_of(s)->0).len() >= 4,
        words(key_of(s)->0) == key_words(s),
{
    law_key_words(s);
    law_words_of_join(key_words(s));
}

/// The key of a key is that key.
pub proof fn law_key_idempotent(s: Seq<char>)
    requires
        key_of(s) is Some,
    ensures
        key_of(key_of(s)->0) == key_of(s),
{
    let key = key_of(s)->0;
    law_key_words(s);
    law_words_of_join(key_words(s));
    lemma_joined_chars(key_words(s));
    assert(key_chars(key) =~= key) by {
        assert forall|i: int| 0 <= i < key.len() implies key_char(#[trigger] key[i]) == key[i] by {
            assert(key_letter(key[i]) || key[i] == ' ');
            lemma_key_char(key[i]);
        }
    }
}

/// Neither the case of letters nor the kind of the other characters makes a difference.
pub proof fn law_key_ignores_case_and_marks(s: Seq<char>, t: Seq<char>)
    requires
        s.len() == t.len(),
        forall|i: int|
            0 <= i < s.len() ==> {
                ||| lowered(#[trigger] s[i]) == lowered(t[i])
                ||| !is_alnum(s[i]) && !is_alnum(t[i])
            },
    ensures
        key_of(s) == key_of(t),
{
    assert forall|i: int| 0 <= i < s.len() implies key_char(#[trigger] s[i]) == key_char(t[i]) by {
        lemma_key_char(s[i]);
        lemma_key_char(t[i]);
    }
    assert(key_chars(s) =~= key_chars(t));
}

/// It makes no difference how many characters that are no letters or digits stand between two words,
/// nor whether any stand at the ends.
pub proof fn law_key_ignores_gaps(a: Seq<char>, gap: Seq<char>, b: Seq<char>)
    requires
        gap.len() > 0,
        forall|i: int| 0 <= i < gap.len() ==> !is_alnum(#[trigger] gap[i]),
    ensures
        key_of(a + gap + b) == key_of(a + " "@ + b),
        key_of(gap + b) == key_of(b),
        key_of(a + gap) == key_of(a),
{
    reveal_strlit(" ");
    let keep = word_char();
    let none = Seq::<char>::empty();
    let (ka, kg, kb) = (key_chars(a), key_chars(gap), key_chars(b));
    assert forall|i: int| 0 <= i < kg.len() implies !keep(#[trigger] kg[i]) by {
        lemma_key_char(gap[i]);
    }
    assert(key_chars(" "@) =~= " "@);
    lemma_key_chars_concat(a, gap);
    lemma_key_chars_concat(a + gap, b);
    lemma_key_chars_concat(a, " "@);
    lemma_key_chars_concat(a + " "@, b);
    lemma_key_chars_concat(gap, b);
    law_runs_gap(ka, kg, kb, keep);
    law_runs_gap(ka, " "@, kb, keep);
    law_runs_gap(none, kg, kb, keep);
    law_runs_gap(ka, kg, none, keep);
    assert(none + kg + kb =~= kg + kb);
    assert(ka + kg + none =~= ka + kg);
    assert(runs(none, keep) + runs(kb, keep) =~= runs(kb, keep));
    assert(runs(ka, keep) + runs(none, keep) =~= runs(ka, keep));
}

proof fn lemma_word_between(a: Seq<char>, mark: char, w: Seq<char>, b: Seq<char>)
    requires
        key_word(w),
        !is_alnum(mark),
        b.len() == 0 || !is_alnum(b[0]),
    ensures
        words(key_chars(a.push(mark) + w + b)) == words(key_chars(a)) + seq![w] + words(
            key_chars(b),
        ),
{
    let keep = word_char();
    let (ka, kb) = (key_chars(a), key_chars(b));
    lemma_key_char(mark);
    assert(key_chars(a.push(mark)) =~= ka + seq![' ']);
    assert(key_chars(w) =~= w) by {
        assert forall|i: int| 0 <= i < w.len() implies key_char(#[trigger] w[i]) == w[i] by {
            assert(key_letter(w[i]));
            lemma_key_char(w[i]);
        }
    }
    lemma_key_chars_concat(a.push(mark), w);
    lemma_key_chars_concat(a.push(mark) + w, b);
    law_runs_gap(ka, seq![' '], w, keep);
    assert forall|i: int| 0 <= i < w.len() implies keep(#[trigger] w[i]) by {
        assert(key_letter(w[i]));
        lemma_key_char(w[i]);
    }
    lemma_runs_all(w, keep);
    if b.len() > 0 {
        lemma_key_char(b[0]);
        assert(!keep(kb[0]));
    }
    law_runs_concat(ka + seq![' '] + w, kb, keep);
}

proof fn lemma_has_word(a: Seq<char>, at: int)
    requires
        0 <= at < a.len(),
        is_alnum(a[at]),
    ensures
        words(key_chars(a)).len() > 0,
    decreases a.len(),
{
    let t = key_chars(a);
    lemma_key_char(a[at]);
    if at == a.len() - 1 {
        law_runs_kept(t, word_char());
        assert(word_char()(t.last()));
    } else {
        lemma_has_word(a.drop_last(), at);
        assert(t.drop_last() =~= key_chars(a.drop_last()));
    }
}

/// A contraction has the same key as the words that it stands for: after some word, `'ll` counts as
/// `will`, `'ve` as `have`, `'re` as `are` and `'m` as `am`, whatever mark stands before the tail.
pub proof fn law_key_expands_contractions(
    a: Seq<char>,
    at: int,
    mark: char,
    tail: Seq<char>,
    b: Seq<char>,
)
    requires
        0 <= at < a.len(),
        is_alnum(a[at]),
        !is_alnum(mark),
        is_tail(tail),
        b.len() == 0 || !is_alnum(b[0]),
    ensures
        key_of(a.push(mark) + tail + b) == key_of(a + " "@ + expanded(tail) + b),
{
    reveal_strlit(" ");
    reveal_strlit("ll");
    reveal_strlit("ve");
    reveal_strlit("re");
    reveal_strlit("m");
    assert(key_word(tail));
    lemma_expanded(tail);
    let full = expanded(tail);
    lemma_word_between(a, mark, tail, b);
    lemma_word_between(a, ' ', full, b);
    assert(a.push(' ') =~= a + " "@);
    lemma_has_word(a, at);
    let n = words(key_chars(a)).len() as int;
    let left = words(key_chars(a.push(mark) + tail + b));
    let right = words(key_chars(a + " "@ + full + b));
    assert forall|i: int| 0 <= i < left.len() implies #[trigger] expanded_words(left)[i]
        == expanded_words(right)[i] by {
        if i == n {
            assert(left[i] == tail && right[i] == full);
        } else {
            assert(left[i] == right[i]);
        }
    }
    assert(expanded_words(left) =~= expanded_words(right));
}

// ---------------------------------------------------------------------------------------------
// Samples
// ---------------------------------------------------------------------------------------------
/// A sample has a repetition key and at most 120 characters and an ellipsis.
pub proof fn law_sample(s: Seq<char>)
    requires
        sample_of(s) is Some,
    ensures
        key_of(sample_of(s)->0) is Some,
        sample_of(s)->0.len() <= 123,
{
    let line = first_prose_line(full_lines(s))->0;
    law_shortened(line, PHRASE_CHAR_LIMIT as nat);
}

// ---------------------------------------------------------------------------------------------
// Nothing is lost
// ---------------------------------------------------------------------------------------------
/// Every character of a phrase counts towards its key: digits and lower-case ASCII letters stay,
/// upper-case ones become lower case, and every other character separates words.
pub proof fn law_key_chars(s: Seq<char>)
    ensures
        key_chars(s).len() == s.len(),
        forall|i: int|
            0 <= i < s.len() ==> {
                let c = s[i];
                &&& '0' <= c <= '9' || 'a' <= c <= 'z' ==> #[trigger] key_chars(s)[i] == c
                &&& 'A' <= c <= 'Z' ==> key_chars(s)[i] as u32 == c as u32 + 32
                &&& !('0' <= c <= '9' || 'a' <= c <= 'z' || 'A' <= c <= 'Z') ==> key_chars(s)[i]
                    == ' '
            },
{
}

/// The tails of contractions are written out, and no other word is changed.
pub proof fn law_expanded(w: Seq<char>)
    ensures
        expanded("ll"@) == "will"@,
        expanded("ve"@) == "have"@,
        expanded("re"@) == "are"@,
        expanded("m"@) == "am"@,
        !is_tail(w) ==> expanded(w) == w,
{
    reveal_strlit("ll");
    reveal_strlit("ve");
    reveal_strlit("re");
    reveal_strlit("m");
    assert("ll"@[0] == 'l' && "ve"@[0] == 'v' && "re"@[0] == 'r');
    assert("ll"@.len() == 2 && "ve"@.len() == 2 && "re"@.len() == 2 && "m"@.len() == 1);
}

/// A key keeps every word of the phrase: its first word as it is, and each later one written out.
pub proof fn law_key_keeps_words(s: Seq<char>)
    requires
        key_of(s) is Some,
    ensures
        ({
            let found = words(key_chars(s));
            let kept = words(key_of(s)->0);
            &&& kept.len() == found.len()
            &&& kept[0] == found[0]
            &&& forall|i: int| 0 < i < found.len() ==> #[trigger] kept[i] == expanded(found[i])
        }),
{
    law_key_words(s);
    law_words_of_join(key_words(s));
}

/// A phrase has a key exactly where it has at least four words, and these have at least 24 characters
/// when they are written out with single spaces between them.
pub proof fn law_key_exists(s: Seq<char>, written: Seq<Seq<char>>)
    requires
        written.len() == words(key_chars(s)).len(),
        forall|i: int|
            0 <= i < written.len() ==> #[trigger] written[i] == (if i == 0 {
                words(key_chars(s))[i]
            } else {
                expanded(words(key_chars(s))[i])
            }),
    ensures
        key_of(s) is Some <==> written.len() >= 4 && join(written, " "@).len() >= 24,
        key_of(s) is Some ==> key_of(s)->0 == join(written, " "@),
{
    assert(written =~= key_words(s));
}

/// Phrases that have the same key have the same words, once contractions are written out: two phrases
/// that differ in any word have different keys.
pub proof fn law_key_tells_apart(s: Seq<char>, t: Seq<char>)
    requires
        key_of(s) is Some,
        key_of(s) == key_of(t),
    ensures
        ({
            let (a, b) = (words(key_chars(s)), words(key_chars(t)));
            &&& a.len() == b.len()
            &&& a[0] == b[0]
            &&& forall|i: int| 0 < i < a.len() ==> expanded(#[trigger] a[i]) == expanded(b[i])
        }),
{
    law_key_keeps_words(s);
    law_key_keeps_words(t);
    let (a, b) = (words(key_chars(s)), words(key_chars(t)));
    assert forall|i: int| 0 < i < a.len() implies expanded(#[trigger] a[i]) == expanded(b[i]) by {
        assert(words(key_of(s)->0)[i] == expanded(a[i]));
        assert(words(key_of(t)->0)[i] == expanded(b[i]));
    }
}

/// Whether a line is passed over: it is blank, or begins with three backticks.
pub open spec fn passed_over(line: Seq<char>) -> bool {
    let t = trimmed(line);
    t.len() == 0 || (t.len() >= 3 && t[0] == '`' && t[1] == '`' && t[2] == '`')
}

/// The sample of a message is its first line that is neither blank nor a code fence, trimmed and
/// shortened to 120 characters, where that has a key; all other lines make no difference.
pub proof fn law_sample_line(s: Seq<char>, at: int)
    requires
        0 <= at < full_lines(s).len(),
        forall|i: int| 0 <= i < at ==> passed_over(#[trigger] full_lines(s)[i]),
        !passed_over(full_lines(s)[at]),
    ensures
        ({
            let sample = shortened(trimmed(full_lines(s)[at]), 120);
            &&& key_of(sample) is Some ==> sample_of(s) == Some(sample)
            &&& key_of(sample) is None ==> sample_of(s) is None
        }),
{
    lemma_first_prose(full_lines(s), at);
}

/// A message without a line of prose has no sample.
pub proof fn law_no_sample(s: Seq<char>)
    requires
        forall|i: int| 0 <= i < full_lines(s).len() ==> passed_over(#[trigger] full_lines(s)[i]),
    ensures
        sample_of(s) is None,
{
    lemma_no_prose(full_lines(s));
}

proof fn lemma_fence(line: Seq<char>)
    ensures
        is_fence(line) <==> line.len() >= 3 && line[0] == '`' && line[1] == '`' && line[2] == '`',
{
    reveal_strlit("```");
    let f = "```"@;
    if is_fence(line) {
        assert(line.subrange(0, 3)[0] == f[0]);
        assert(line.subrange(0, 3)[1] == f[1]);
        assert(line.subrange(0, 3)[2] == f[2]);
    }
    if line.len() >= 3 && line[0] == '`' && line[1] == '`' && line[2] == '`' {
        assert(line.subrange(0, 3) =~= f);
    }
}

proof fn lemma_first_prose(lines: Seq<Seq<char>>, at: int)
    requires
        0 <= at < lines.len(),
        forall|i: int| 0 <= i < at ==> passed_over(#[trigger] lines[i]),
        !passed_over(lines[at]),
    ensures
        first_prose_line(lines) == Some(trimmed(lines[at])),
    decreases lines.len(),
{
    lemma_fence(trimmed(lines[0]));
    if at > 0 {
        let rest = lines.drop_first();
        assert(passed_over(lines[0]));
        assert forall|i: int| 0 <= i < at - 1 implies passed_over(#[trigger] rest[i]) by {
            assert(passed_over(lines[i + 1]));
        }
        lemma_first_prose(rest, at - 1);
    }
}

proof fn lemma_no_prose(lines: Seq<Seq<char>>)
    requires
        forall|i: int| 0 <= i < lines.len() ==> passed_over(#[trigger] lines[i]),
    ensures
        first_prose_line(lines) is None,
    decreases lines.len(),
{
    if lines.len() > 0 {
        let rest = lines.drop_first();
        lemma_fence(trimmed(lines[0]));
        assert(passed_over(lines[0]));
        assert forall|i: int| 0 <= i < rest.len() implies passed_over(#[trigger] rest[i]) by {
            assert(passed_over(lines[i + 1]));
        }
        lemma_no_prose(rest);
    }
}

} // verus!
