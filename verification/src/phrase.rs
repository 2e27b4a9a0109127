//! What an assistant says again and again: samples of its messages, and the keys by which two
//! samples count as the same phrase.
use crate::text::{
    full_lines, join, join_texts, opt_text, same_text, shorten, shortened, split_full_lines,
    split_words, texts, trim, trimmed, words,
};
use vstd::prelude::*;

verus! {

/// The length to which a phrase sample is shortened.
pub const PHRASE_CHAR_LIMIT: usize = 120;

/// The least length of a repetition key.
pub const KEY_MIN_CHARS: usize = 24;

/// The least number of words of a repetition key.
pub const KEY_MIN_WORDS: usize = 4;

// ---------------------------------------------------------------------------------------------
// Model
// ---------------------------------------------------------------------------------------------
/// The ASCII letters and digits.
pub open spec fn is_alnum(c: char) -> bool {
    ||| '0' <= c <= '9'
    ||| 'a' <= c <= 'z'
    ||| 'A' <= c <= 'Z'
}

/// The lower-case form of an ASCII letter; every other character as it is.
pub open spec fn lowered(c: char) -> char {
    if 'A' <= c <= 'Z' {
        (c as u32 + 32) as char
    } else {
        c
    }
}

/// What a key keeps of a character: letters in lower case and digits; all else separates words.
pub open spec fn key_char(c: char) -> char {
    if is_alnum(c) {
        lowered(c)
    } else {
        ' '
    }
}

pub open spec fn key_chars(s: Seq<char>) -> Seq<char> {
    Seq::new(s.len(), |i: int| key_char(s[i]))
}

/// The word that the tail of a contraction stands for (the `ll` of `I'll` for `will`).
pub open spec fn expanded(w: Seq<char>) -> Seq<char> {
    if w == "ll"@ {
        "will"@
    } else if w == "ve"@ {
        "have"@
    } else if w == "re"@ {
        "are"@
    } else if w == "m"@ {
        "am"@
    } else {
        w
    }
}

/// The words with every contraction tail written out; a first word is no tail.
pub open spec fn expanded_words(ws: Seq<Seq<char>>) -> Seq<Seq<char>> {
    Seq::new(
        ws.len(),
        |i: int|
            if i > 0 {
                expanded(ws[i])
            } else {
                ws[i]
            },
    )
}

/// The words by which a phrase is recognised.
pub open spec fn key_words(s: Seq<char>) -> Seq<Seq<char>> {
    expanded_words(words(key_chars(s)))
}

/// The key of a phrase, if it is long enough to tell anything.
pub open spec fn key_of(s: Seq<char>) -> Option<Seq<char>> {
    let key = join(key_words(s), " "@);
    if key.len() < KEY_MIN_CHARS || key_words(s).len() < KEY_MIN_WORDS {
        None
    } else {
        Some(key)
    }
}

/// A line that opens or closes a code block.
pub open spec fn is_fence(line: Seq<char>) -> bool {
    "```"@.is_prefix_of(line)
}

/// The first line, trimmed, that is neither blank nor a code fence.
pub open spec fn first_prose_line(lines: Seq<Seq<char>>) -> Option<Seq<char>>
    decreases lines.len(),
{
    if lines.len() == 0 {
        None
    } else {
        let line = trimmed(lines[0]);
        if line.len() > 0 && !is_fence(line) {
            Some(line)
        } else {
            first_prose_line(lines.drop_first())
        }
    }
}

/// The sample that stands for an assistant message: its first line of prose, shortened, where that
/// has a key.
pub open spec fn sample_of(s: Seq<char>) -> Option<Seq<char>> {
    match first_prose_line(full_lines(s)) {
        Some(line) => {
            let sample = shortened(line, PHRASE_CHAR_LIMIT as nat);
            if key_of(sample) is Some {
                Some(sample)
            } else {
                None
            }
        },
        None => None,
    }
}

// ---------------------------------------------------------------------------------------------
// Operations
// ---------------------------------------------------------------------------------------------
fn to_key_char(c: char) -> (r: char)
    ensures
        r == key_char(c),
{
    if 'A' <= c && c <= 'Z' {
        ((c as u8) + 32u8) as char
    } else if ('0' <= c && c <= '9') || ('a' <= c && c <= 'z') {
        c
    } else {
        ' '
    }
}

fn to_key_chars(text: &str) -> (r: String)
    ensures
        r@ == key_chars(text@),
{
    let mut out = String::new();
    for c in it: text.chars()
        invariant
            it.seq() == text@,
            out@ == key_chars(text@).take(it.index() as int),
    {
        out.push(to_key_char(c));
        assert(out@ =~= key_chars(text@).take(it.index() + 1));
    }
    assert(key_chars(text@).take(text@.len() as int) =~= key_chars(text@));
    out
}

fn expand(word: String) -> (r: String)
    ensures
        r@ == expanded(word@),
{
    if same_text(word.as_str(), "ll") {
        "will".to_owned()
    } else if same_text(word.as_str(), "ve") {
        "have".to_owned()
    } else if same_text(word.as_str(), "re") {
        "are".to_owned()
    } else if same_text(word.as_str(), "m") {
        "am".to_owned()
    } else {
        word
    }
}

/// The key of a phrase: its words in lower case without punctuation, contractions written out.
/// Short phrases have none.
pub fn repetition_key(text: &str) -> (r: Option<String>)
    ensures
        opt_text(r) == key_of(text@),
{
    let found = split_words(to_key_chars(text).as_str());
    let mut normalized_words: Vec<String> = Vec::new();
    for i in 0..found.len()
        invariant
            texts(found@) == words(key_chars(text@)),
            texts(normalized_words@) == key_words(text@).take(i as int),
    {
        let word = found[i].clone();
        assert(texts(found@)[i as int] == word@);
        let next = if i > 0 {
            expand(word)
        } else {
            word
        };
        let ghost done = texts(normalized_words@);
        assert(next@ == key_words(text@)[i as int]);
        normalized_words.push(next);
        assert(texts(normalized_words@) =~= done.push(next@));
        assert(key_words(text@).take(i + 1) =~= done.push(next@));
    }
    assert(texts(found@).len() == found@.len());
    assert(key_words(text@).take(found@.len() as int) =~= key_words(text@));
    assert(texts(normalized_words@).len() == normalized_words@.len());
    let normalized = join_texts(normalized_words.as_slice(), " ");
    if normalized.as_str().unicode_len() < KEY_MIN_CHARS || normalized_words.len() < KEY_MIN_WORDS {
        return None;
    }
    Some(normalized)
}

fn opens_fence(line: &str) -> (r: bool)
    ensures
        r == is_fence(line@),
{
    proof {
        reveal_strlit("```");
    }
    if line.unicode_len() < 3 {
        return false;
    }
    let head = line.substring_char(0, 3);
    let r = same_text(head, "```");
    assert(head@ =~= line@.take(3));
    assert(is_fence(line@) == (line@.take(3) =~= "```"@)) by {
        if is_fence(line@) {
            assert(line@.take(3) =~= "```"@);
        }
    }
    r
}

fn find_prose_line(lines: &Vec<String>) -> (r: Option<String>)
    ensures
        opt_text(r) == first_prose_line(texts(lines@)),
{
    assert(texts(lines@).skip(0) =~= texts(lines@));
    for i in 0..lines.len()
        invariant
            first_prose_line(texts(lines@)) == first_prose_line(texts(lines@).skip(i as int)),
    {
        let line = trim(lines[i].as_str());
        assert(texts(lines@).skip(i as int)[0] == lines@[i as int]@);
        if !line.is_empty() && !opens_fence(line) {
            return Some(line.to_owned());
        }
        assert(texts(lines@).skip(i as int).drop_first() =~= texts(lines@).skip(i + 1));
    }
    None
}

/// The sample that stands for an assistant message: its first line that is neither blank nor a code
/// fence, shortened; none where that line has no repetition key.
pub fn assistant_phrase_sample(text: &str) -> (r: Option<String>)
    ensures
        opt_text(r) == sample_of(text@),
{
    match find_prose_line(&split_full_lines(text)) {
        Some(first_line) => {
            let shortened = shorten(first_line.as_str(), PHRASE_CHAR_LIMIT);
            match repetition_key(shortened.as_str()) {
                Some(_) => Some(shortened),
                None => None,
            }
        },
        None => None,
    }
}

} // verus!
