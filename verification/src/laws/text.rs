//! What holds of collapsed, shortened and trimmed texts, and of numbers as texts.
use crate::text::{
    all_words, collapsed, decimal, digit, full_lines, is_space, is_word, join, line_char, runs,
    shortened, trimmed, without_leading_space, without_trailing_space, word_char, words,
};
use vstd::prelude::*;

verus! {

// ---------------------------------------------------------------------------------------------
// Runs
// ---------------------------------------------------------------------------------------------
/// Runs are not empty, and every character of a run is kept.
pub proof fn law_runs_kept(s: Seq<char>, keep: spec_fn(char) -> bool)
    ensures
        forall|i: int| 0 <= i < runs(s, keep).len() ==> (#[trigger] runs(s, keep)[i]).len() > 0,
        forall|i: int, j: int|
            0 <= i < runs(s, keep).len() && 0 <= j < runs(s, keep)[i].len() ==> keep(
                #[trigger] runs(s, keep)[i][j],
            ),
        s.len() > 0 && keep(s.last()) ==> runs(s, keep).len() > 0,
    decreases s.len(),
{
    if s.len() > 0 {
        let rest = s.drop_last();
        law_runs_kept(rest, keep);
        let before = runs(rest, keep);
        let after = runs(s, keep);
        if keep(s.last()) && s.len() > 1 && keep(s[s.len() - 2]) {
            assert(rest.last() == s[s.len() - 2]);
            let l = before.len() - 1;
            assert forall|i: int, j: int| 0 <= i < after.len() && 0 <= j < after[i].len() implies keep(
                #[trigger] after[i][j],
            ) by {
                if i < l {
                    assert(after[i] == before[i]);
                    assert(keep(before[i][j]));
                } else if j < before[l].len() {
                    assert(keep(before[l][j]));
                }
            }
        } else {
            assert forall|i: int, j: int| 0 <= i < after.len() && 0 <= j < after[i].len() implies keep(
                #[trigger] after[i][j],
            ) by {
                if i < before.len() {
                    assert(after[i] == before[i]);
                    assert(keep(before[i][j]));
                }
            }
        }
    }
}

/// Two texts that do not touch in kept characters have the runs of the first and then those of the
/// second.
pub proof fn law_runs_concat(a: Seq<char>, b: Seq<char>, keep: spec_fn(char) -> bool)
    requires
        a.len() == 0 || b.len() == 0 || !keep(a.last()) || !keep(b[0]),
    ensures
        runs(a + b, keep) == runs(a, keep) + runs(b, keep),
    decreases b.len(),
{
    let s = a + b;
    if b.len() == 0 {
        assert(s =~= a);
        assert(runs(a, keep) + runs(b, keep) =~= runs(a, keep));
    } else {
        let b1 = b.drop_last();
        let c = b.last();
        assert(s.drop_last() =~= a + b1);
        assert(s.last() == c);
        if b1.len() > 0 {
            assert(b1[0] == b[0]);
        }
        law_runs_concat(a, b1, keep);
        let before = runs(a + b1, keep);
        if keep(c) {
            if b1.len() > 0 {
                assert(s[s.len() - 2] == b1.last());
                assert(b[b.len() - 2] == b1.last());
                if keep(b1.last()) {
                    law_runs_kept(b1, keep);
                    assert(before.last() == runs(b1, keep).last());
                    assert(runs(s, keep) =~= runs(a, keep) + runs(b, keep));
                } else {
                    assert(runs(s, keep) =~= runs(a, keep) + runs(b, keep));
                }
            } else {
                if a.len() > 0 {
                    assert(s[s.len() - 2] == a.last());
                }
                assert(runs(b1, keep) =~= Seq::<Seq<char>>::empty());
                assert(runs(b, keep) =~= seq![seq![c]]);
                assert(before =~= runs(a, keep));
                assert(runs(s, keep) =~= runs(a, keep) + runs(b, keep));
            }
        } else {
            assert(runs(s, keep) =~= runs(a, keep) + runs(b, keep));
        }
    }
}

/// Kept characters alone are one run.
pub proof fn lemma_runs_all(w: Seq<char>, keep: spec_fn(char) -> bool)
    requires
        w.len() > 0,
        forall|i: int| 0 <= i < w.len() ==> keep(#[trigger] w[i]),
    ensures
        runs(w, keep) == seq![w],
    decreases w.len(),
{
    let rest = w.drop_last();
    assert(keep(w[w.len() - 1]));
    if rest.len() > 0 {
        assert forall|i: int| 0 <= i < rest.len() implies keep(#[trigger] rest[i]) by {
            assert(keep(w[i]));
        }
        lemma_runs_all(rest, keep);
        assert(keep(w[w.len() - 2]));
        assert(rest.push(w.last()) =~= w);
        assert(runs(w, keep) =~= seq![w]);
    } else {
        assert(w =~= seq![w.last()]);
        assert(runs(rest, keep) =~= Seq::<Seq<char>>::empty());
        assert(runs(w, keep) =~= seq![w]);
    }
}

/// Where no character is kept there is no run.
pub proof fn lemma_runs_none(gap: Seq<char>, keep: spec_fn(char) -> bool)
    requires
        forall|i: int| 0 <= i < gap.len() ==> !keep(#[trigger] gap[i]),
    ensures
        runs(gap, keep) == Seq::<Seq<char>>::empty(),
    decreases gap.len(),
{
    if gap.len() > 0 {
        let rest = gap.drop_last();
        assert forall|i: int| 0 <= i < rest.len() implies !keep(#[trigger] rest[i]) by {
            assert(!keep(gap[i]));
        }
        assert(!keep(gap[gap.len() - 1]));
        lemma_runs_none(rest, keep);
    }
}

/// What is not kept separates runs, however much there is of it.
pub proof fn law_runs_gap(a: Seq<char>, gap: Seq<char>, b: Seq<char>, keep: spec_fn(char) -> bool)
    requires
        gap.len() > 0,
        forall|i: int| 0 <= i < gap.len() ==> !keep(#[trigger] gap[i]),
    ensures
        runs(a + gap + b, keep) == runs(a, keep) + runs(b, keep),
{
    assert(!keep(gap[0]));
    assert(!keep(gap[gap.len() - 1]));
    assert((a + gap).last() == gap.last());
    law_runs_concat(a, gap, keep);
    law_runs_concat(a + gap, b, keep);
    lemma_runs_none(gap, keep);
    assert(runs(a, keep) + Seq::<Seq<char>>::empty() =~= runs(a, keep));
}

// ---------------------------------------------------------------------------------------------
// Words
// ---------------------------------------------------------------------------------------------
/// The words of a text are not empty and hold no whitespace.
pub proof fn law_words(s: Seq<char>)
    ensures
        all_words(words(s)),
{
    law_runs_kept(s, word_char());
    assert forall|i: int| 0 <= i < words(s).len() implies is_word(#[trigger] words(s)[i]) by {
        let w = words(s)[i];
        assert forall|j: int| 0 <= j < w.len() implies !is_space(#[trigger] w[j]) by {
            assert(word_char()(runs(s, word_char())[i][j]));
        }
    }
}

/// Words that are joined by spaces are found again.
pub proof fn law_words_of_join(ws: Seq<Seq<char>>)
    requires
        all_words(ws),
    ensures
        words(join(ws, " "@)) == ws,
    decreases ws.len(),
{
    reveal_strlit(" ");
    let keep = word_char();
    if ws.len() == 0 {
        assert(words(join(ws, " "@)) =~= ws);
    } else {
        let w = ws.last();
        assert(is_word(ws[ws.len() - 1]));
        lemma_runs_all(w, keep);
        if ws.len() == 1 {
            assert(ws =~= seq![w]);
        } else {
            let rest = ws.drop_last();
            assert(all_words(rest)) by {
                assert forall|i: int| 0 <= i < rest.len() implies is_word(#[trigger] rest[i]) by {
                    assert(is_word(ws[i]));
                }
            }
            law_words_of_join(rest);
            law_runs_gap(join(rest, " "@), " "@, w, keep);
            assert(ws =~= rest + seq![w]);
        }
    }
}

// ---------------------------------------------------------------------------------------------
// Collapsing and shortening
// ---------------------------------------------------------------------------------------------
/// Collapsing keeps the words.
pub proof fn law_collapse_keeps_words(s: Seq<char>)
    ensures
        words(collapsed(s)) == words(s),
{
    law_words(s);
    law_words_of_join(words(s));
}

/// Collapsing a collapsed text changes nothing.
pub proof fn law_collapse_idempotent(s: Seq<char>)
    ensures
        collapsed(collapsed(s)) == collapsed(s),
{
    law_collapse_keeps_words(s);
}

/// It makes no difference which whitespace, and how much of it, stands between two words.
pub proof fn law_collapse_gap(a: Seq<char>, gap: Seq<char>, b: Seq<char>)
    requires
        gap.len() > 0,
        forall|i: int| 0 <= i < gap.len() ==> is_space(#[trigger] gap[i]),
    ensures
        collapsed(a + gap + b) == collapsed(a + " "@ + b),
        collapsed(gap + b) == collapsed(b),
        collapsed(a + gap) == collapsed(a),
{
    reveal_strlit(" ");
    let keep = word_char();
    let none = Seq::<char>::empty();
    assert forall|i: int| 0 <= i < gap.len() implies !keep(#[trigger] gap[i]) by {
        assert(is_space(gap[i]));
    }
    law_runs_gap(a, gap, b, keep);
    law_runs_gap(a, " "@, b, keep);
    law_runs_gap(none, gap, b, keep);
    law_runs_gap(a, gap, none, keep);
    assert(none + gap + b =~= gap + b);
    assert(a + gap + none =~= a + gap);
    assert(runs(none, keep) + runs(b, keep) =~= runs(b, keep));
    assert(runs(a, keep) + runs(none, keep) =~= runs(a, keep));
}

/// A text that is joined of words begins and ends with no whitespace, and holds no other whitespace
/// than single spaces.
proof fn lemma_join_tidy(ws: Seq<Seq<char>>)
    requires
        all_words(ws),
    ensures
        tidy(join(ws, " "@)),
        ws.len() > 0 ==> join(ws, " "@).len() > 0,
    decreases ws.len(),
{
    reveal_strlit(" ");
    if ws.len() > 0 {
        let w = ws.last();
        assert(is_word(ws[ws.len() - 1]));
        if ws.len() > 1 {
            let rest = ws.drop_last();
            assert(all_words(rest)) by {
                assert forall|i: int| 0 <= i < rest.len() implies is_word(#[trigger] rest[i]) by {
                    assert(is_word(ws[i]));
                }
            }
            lemma_join_tidy(rest);
            let a = join(rest, " "@);
            let t = join(ws, " "@);
            assert(t == a + " "@ + w);
            assert forall|i: int| 0 <= i < t.len() && is_space(#[trigger] t[i]) implies {
                &&& t[i] == ' '
                &&& 0 < i < t.len() - 1
                &&& !is_space(t[i - 1])
            } by {
                if i < a.len() {
                    assert(is_space(a[i]));
                    assert(t[i - 1] == a[i - 1]);
                } else if i == a.len() {
                    assert(t[i - 1] == a.last());
                    if is_space(a[a.len() - 1]) {
                        assert(0 < a.len() - 1 < a.len() - 1);
                    }
                } else {
                    assert(t[i] == w[i - a.len() - 1]);
                }
            }
        }
    }
}

/// A text without whitespace at its ends, and with no other whitespace than single spaces.
pub open spec fn tidy(t: Seq<char>) -> bool {
    forall|i: int|
        0 <= i < t.len() && is_space(#[trigger] t[i]) ==> {
            &&& t[i] == ' '
            &&& 0 < i < t.len() - 1
            &&& !is_space(t[i - 1])
        }
}

/// A collapsed text has no whitespace at its ends, and no other whitespace than single spaces; it is
/// empty only where the text is blank.
pub proof fn law_collapsed_tidy(s: Seq<char>)
    ensures
        tidy(collapsed(s)),
        collapsed(s).len() == 0 <==> words(s).len() == 0,
{
    law_words(s);
    lemma_join_tidy(words(s));
}

/// A shortened text has at most the asked number of characters and an ellipsis; one that is short
/// enough is only collapsed; and collapsing a text before makes no difference.
pub proof fn law_shortened(s: Seq<char>, max_chars: nat)
    ensures
        shortened(s, max_chars).len() <= max_chars + 3,
        collapsed(s).len() <= max_chars ==> shortened(s, max_chars) == collapsed(s),
        collapsed(s).len() > max_chars ==> {
            &&& shortened(s, max_chars).len() == max_chars + 3
            &&& shortened(s, max_chars).take(max_chars as int) == collapsed(s).take(
                max_chars as int,
            )
            &&& shortened(s, max_chars).skip(max_chars as int) == "..."@
        },
        shortened(collapsed(s), max_chars) == shortened(s, max_chars),
{
    reveal_strlit("...");
    law_collapse_idempotent(s);
    if collapsed(s).len() > max_chars {
        let t = shortened(s, max_chars);
        assert(t.take(max_chars as int) =~= collapsed(s).take(max_chars as int));
        assert(t.skip(max_chars as int) =~= "..."@);
    }
}

/// A shortened text is on one line.
pub proof fn law_shortened_on_one_line(s: Seq<char>, max_chars: nat)
    ensures
        forall|i: int|
            0 <= i < shortened(s, max_chars).len() && is_space(
                #[trigger] shortened(s, max_chars)[i],
            ) ==> shortened(s, max_chars)[i] == ' ',
{
    reveal_strlit("...");
    law_collapsed_tidy(s);
    let t = shortened(s, max_chars);
    assert forall|i: int| 0 <= i < t.len() && is_space(#[trigger] t[i]) implies t[i] == ' ' by {
        if i < collapsed(s).len() && (collapsed(s).len() <= max_chars || i < max_chars) {
            assert(t[i] == collapsed(s)[i]);
        }
    }
}

// ---------------------------------------------------------------------------------------------
// Trimming
// ---------------------------------------------------------------------------------------------
proof fn lemma_leading(s: Seq<char>) -> (n: int)
    ensures
        0 <= n <= s.len(),
        without_leading_space(s) == s.skip(n),
        forall|i: int| 0 <= i < n ==> is_space(#[trigger] s[i]),
        n < s.len() ==> !is_space(s[n]),
    decreases s.len(),
{
    if s.len() > 0 && is_space(s[0]) {
        let m = lemma_leading(s.drop_first());
        assert(s.drop_first().skip(m) =~= s.skip(m + 1));
        assert forall|i: int| 0 <= i < m + 1 implies is_space(#[trigger] s[i]) by {
            if i > 0 {
                assert(is_space(s.drop_first()[i - 1]));
            }
        }
        if m + 1 < s.len() {
            assert(s.drop_first()[m] == s[m + 1]);
        }
        m + 1
    } else {
        assert(s.skip(0) =~= s);
        0
    }
}

proof fn lemma_trailing(s: Seq<char>) -> (n: int)
    ensures
        0 <= n <= s.len(),
        without_trailing_space(s) == s.take(n),
        forall|i: int| n <= i < s.len() ==> is_space(#[trigger] s[i]),
        n > 0 ==> !is_space(s[n - 1]),
    decreases s.len(),
{
    if s.len() > 0 && is_space(s.last()) {
        let rest = s.drop_last();
        let n = lemma_trailing(rest);
        assert(rest.take(n) =~= s.take(n));
        assert forall|i: int| n <= i < s.len() implies is_space(#[trigger] s[i]) by {
            if i < rest.len() {
                assert(is_space(rest[i]));
            }
        }
        n
    } else {
        assert(s.take(s.len() as int) =~= s);
        s.len() as int
    }
}

/// Trimming takes away whitespace only, and leaves none at either end.
pub proof fn law_trimmed(s: Seq<char>) -> (bounds: (int, int))
    ensures
        0 <= bounds.0 <= bounds.1 <= s.len(),
        trimmed(s) == s.subrange(bounds.0, bounds.1),
        forall|i: int| 0 <= i < bounds.0 ==> is_space(#[trigger] s[i]),
        forall|i: int| bounds.1 <= i < s.len() ==> is_space(#[trigger] s[i]),
        trimmed(s).len() > 0 ==> !is_space(trimmed(s)[0]) && !is_space(trimmed(s).last()),
{
    let a = lemma_leading(s);
    let t = s.skip(a);
    let n = lemma_trailing(t);
    assert(t.take(n) =~= s.subrange(a, a + n));
    assert forall|i: int| a + n <= i < s.len() implies is_space(#[trigger] s[i]) by {
        assert(is_space(t[i - a]));
    }
    if n > 0 {
        assert(t[0] == s[a]);
    }
    (a, a + n)
}

/// Trimming a trimmed text changes nothing.
pub proof fn law_trim_idempotent(s: Seq<char>)
    ensures
        trimmed(trimmed(s)) == trimmed(s),
{
    law_trimmed(s);
}

// ---------------------------------------------------------------------------------------------
// Numbers
// ---------------------------------------------------------------------------------------------
/// A number as text is not empty, holds digits only, and begins with no zero unless it is zero.
pub proof fn law_decimal_digits(n: nat)
    ensures
        decimal(n).len() > 0,
        forall|i: int| 0 <= i < decimal(n).len() ==> '0' <= #[trigger] decimal(n)[i] <= '9',
        n > 0 ==> decimal(n)[0] != '0',
    decreases n,
{
    if n >= 10 {
        law_decimal_digits(n / 10);
    }
}

/// Different numbers have different texts.
pub proof fn law_decimal_injective(a: nat, b: nat)
    requires
        decimal(a) == decimal(b),
    ensures
        a == b,
    decreases a,
{
    law_decimal_digits(a / 10);
    law_decimal_digits(b / 10);
    assert(decimal(a).last() == digit(a % 10));
    assert(decimal(b).last() == digit(b % 10));
    assert(digit(a % 10) == digit(b % 10));
    if a >= 10 && b >= 10 {
        assert(decimal(a).drop_last() =~= decimal(a / 10));
        assert(decimal(b).drop_last() =~= decimal(b / 10));
        law_decimal_injective(a / 10, b / 10);
    } else {
        assert(decimal(a).len() == decimal(b).len());
    }
}

// ---------------------------------------------------------------------------------------------
// What decides words, lines, joins and numbers
// ---------------------------------------------------------------------------------------------
/// The characters with the Unicode property `White_Space`, one by one.
pub proof fn law_space(c: char)
    ensures
        is_space(c) <==> seq![
            '\t',
            '\n',
            '\u{b}',
            '\u{c}',
            '\r',
            ' ',
            '\u{85}',
            '\u{a0}',
            '\u{1680}',
            '\u{2000}',
            '\u{2001}',
            '\u{2002}',
            '\u{2003}',
            '\u{2004}',
            '\u{2005}',
            '\u{2006}',
            '\u{2007}',
            '\u{2008}',
            '\u{2009}',
            '\u{200a}',
            '\u{2028}',
            '\u{2029}',
            '\u{202f}',
            '\u{205f}',
            '\u{3000}',
        ].contains(c),
{
    let all = seq![
        '\t',
        '\n',
        '\u{b}',
        '\u{c}',
        '\r',
        ' ',
        '\u{85}',
        '\u{a0}',
        '\u{1680}',
        '\u{2000}',
        '\u{2001}',
        '\u{2002}',
        '\u{2003}',
        '\u{2004}',
        '\u{2005}',
        '\u{2006}',
        '\u{2007}',
        '\u{2008}',
        '\u{2009}',
        '\u{200a}',
        '\u{2028}',
        '\u{2029}',
        '\u{202f}',
        '\u{205f}',
        '\u{3000}',
    ];
    if is_space(c) {
        let n = c as u32;
        let k: int = if n <= 0x0d {
            n - 0x09
        } else if n == 0x20 {
            5
        } else if n == 0x85 {
            6
        } else if n == 0xa0 {
            7
        } else if n == 0x1680 {
            8
        } else if n <= 0x200a {
            9 + n - 0x2000
        } else if n == 0x2028 {
            20
        } else if n == 0x2029 {
            21
        } else if n == 0x202f {
            22
        } else if n == 0x205f {
            23
        } else {
            24
        };
        assert(all[k] == c);
    }
}

/// A text without whitespace is one word, whitespace alone holds none, and whitespace parts a text into
/// the words before it and the words behind it.
pub proof fn law_words_by_parts(a: Seq<char>, w: Seq<char>, gap: Seq<char>, b: Seq<char>)
    requires
        w.len() > 0,
        forall|i: int| 0 <= i < w.len() ==> !is_space(#[trigger] w[i]),
        gap.len() > 0,
        forall|i: int| 0 <= i < gap.len() ==> is_space(#[trigger] gap[i]),
    ensures
        words(w) == seq![w],
        words(gap) == Seq::<Seq<char>>::empty(),
        words(Seq::empty()) == Seq::<Seq<char>>::empty(),
        words(a + gap + b) == words(a) + words(b),
{
    let keep = word_char();
    assert forall|i: int| 0 <= i < w.len() implies keep(#[trigger] w[i]) by {
        assert(!is_space(w[i]));
    }
    assert forall|i: int| 0 <= i < gap.len() implies !keep(#[trigger] gap[i]) by {
        assert(is_space(gap[i]));
    }
    lemma_runs_all(w, keep);
    lemma_runs_none(gap, keep);
    lemma_runs_none(Seq::empty(), keep);
    law_runs_gap(a, gap, b, keep);
}

/// A text without line breaks is one line, unless it is empty, and a line break parts a text into the
/// lines before it and the lines behind it.
pub proof fn law_lines_by_parts(a: Seq<char>, line: Seq<char>, b: Seq<char>)
    requires
        line.len() > 0,
        forall|i: int| 0 <= i < line.len() ==> #[trigger] line[i] != '\n',
    ensures
        full_lines(line) == seq![line],
        full_lines(Seq::empty()) == Seq::<Seq<char>>::empty(),
        full_lines(a + seq!['\n'] + b) == full_lines(a) + full_lines(b),
{
    let keep = line_char();
    assert forall|i: int| 0 <= i < line.len() implies keep(#[trigger] line[i]) by {
        assert(line[i] != '\n');
    }
    lemma_runs_all(line, keep);
    lemma_runs_none(Seq::empty(), keep);
    law_runs_gap(a, seq!['\n'], b, keep);
}

/// Joining nothing gives the empty text, joining one part gives that part, and two lists are joined by
/// joining each and putting the separator between.
pub proof fn law_join(a: Seq<Seq<char>>, b: Seq<Seq<char>>, part: Seq<char>, sep: Seq<char>)
    ensures
        join(Seq::empty(), sep) == Seq::<char>::empty(),
        join(seq![part], sep) == part,
        a.len() > 0 && b.len() > 0 ==> join(a + b, sep) == join(a, sep) + sep + join(b, sep),
    decreases b.len(),
{
    if a.len() > 0 && b.len() > 0 {
        let last = b.last();
        assert((a + b).last() == last);
        if b.len() == 1 {
            assert((a + b).drop_last() =~= a);
            assert(b[0] == last);
        } else {
            assert((a + b).drop_last() =~= a + b.drop_last());
            law_join(a, b.drop_last(), part, sep);
            assert(join(a + b, sep) =~= join(a, sep) + sep + join(b, sep));
        }
    }
}

/// The number that a text of decimal digits stands for.
pub open spec fn number_of(s: Seq<char>) -> int
    decreases s.len(),
{
    if s.len() == 0 {
        0
    } else {
        10 * number_of(s.drop_last()) + (s.last() as u32 - '0' as u32)
    }
}

/// The text of a number stands for that number.
pub proof fn law_decimal_value(n: nat)
    ensures
        number_of(decimal(n)) == n,
    decreases n,
{
    let s = decimal(n);
    if n < 10 {
        assert(s.drop_last() =~= Seq::<char>::empty());
        assert(number_of(s.drop_last()) == 0);
    } else {
        law_decimal_value(n / 10);
        assert(s.drop_last() =~= decimal(n / 10));
    }
}

} // verus!
