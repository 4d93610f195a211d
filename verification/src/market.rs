//! What the market's questions say: each question asks which party will win
//! a constituency, and so names the constituency.
use crate::text::{
    chars_of, find, first_occurrence, lemma_first_occurrence_unique, occurs_at, occurs_in,
    text_after, text_before,
};
use vstd::pervasive::unreached;
use vstd::prelude::*;
use vstd::string::StrSliceExecFns;

verus! {

/// The words after which most questions name the constituency.
pub open spec fn asks_in() -> Seq<char> {
    "Which party will win in "@
}

/// The words after which the other questions name the constituency.
pub open spec fn asks() -> Seq<char> {
    "Which party will win "@
}

/// Whether the question names a constituency: it holds the words that come
/// before the name.
pub open spec fn names_constituency(question: Seq<char>) -> bool {
    occurs_in(question, asks_in()) || occurs_in(question, asks())
}

/// The constituency that the question names: what stands between the first
/// time that it asks, with "in" where it has that, and the question mark, or
/// the next time that it asks, or its end, whichever comes first.
pub open spec fn constituency_in(question: Seq<char>) -> Seq<char> {
    let words = if occurs_in(question, asks_in()) {
        asks_in()
    } else {
        asks()
    };
    text_before(text_before(text_after(question, words), words), "?"@)
}

/// The characters from place `from` up to, not including, place `to`.
fn chars_between(chars: &Vec<char>, from: usize, to: usize) -> (part: Vec<char>)
    requires
        from <= to <= chars.len(),
    ensures
        part@ == chars@.subrange(from as int, to as int),
{
    let mut part: Vec<char> = Vec::new();
    let mut at: usize = from;
    while at < to
        invariant
            from <= at <= to <= chars.len(),
            part@ == chars@.subrange(from as int, at as int),
        decreases to - at,
    {
        part.push(chars[at]);
        assert(part@ =~= chars@.subrange(from as int, at + 1));
        at += 1;
    }
    part
}

/// How many characters of `text` stand before the first `pattern`: all of
/// them where there is none.
fn length_before(text: &Vec<char>, pattern: &Vec<char>) -> (len: usize)
    ensures
        len <= text.len(),
        text@.take(len as int) == text_before(text@, pattern@),
{
    match find(text, pattern) {
        Some(at) => {
            proof {
                assert(occurs_at(text@, pattern@, at as int));
                let chosen = choose|chosen: int| first_occurrence(text@, pattern@, chosen);
                lemma_first_occurrence_unique(text@, pattern@, at as int, chosen);
            }
            at
        },
        None => {
            assert(text@.take(text.len() as int) =~= text@);
            text.len()
        },
    }
}

/// Whether the question names a constituency.
pub fn asks_for_constituency(market_question: &str) -> (named: bool)
    ensures
        named == names_constituency(market_question@),
{
    let chars = chars_of(market_question);
    let plain = chars_of("Which party will win ");
    let with_in = chars_of("Which party will win in ");
    find(&chars, &with_in).is_some() || find(&chars, &plain).is_some()
}

/// The constituency that a question of the market names. The question has
/// the form "... Which party will win in Altrincham and Sale West?", and some
/// leave the "in" out.
pub fn extract_constituency_name(market_question: &str) -> (name: String)
    requires
        names_constituency(market_question@),
    ensures
        name@ == constituency_in(market_question@),
{
    let chars = chars_of(market_question);
    let with_in = chars_of("Which party will win in ");
    let plain = chars_of("Which party will win ");
    let question_mark = chars_of("?");
    let found_with_in = find(&chars, &with_in);
    let found_plain = find(&chars, &plain);
    let words = if found_with_in.is_some() {
        with_in
    } else {
        plain
    };
    let at: usize = match found_with_in {
        Some(at) => at,
        None => match found_plain {
            Some(at) => at,
            None => unreached(),
        },
    };
    proof {
        assert(first_occurrence(chars@, words@, at as int));
        assert(occurs_at(chars@, words@, at as int));
        let chosen = choose|chosen: int| first_occurrence(chars@, words@, chosen);
        lemma_first_occurrence_unique(chars@, words@, at as int, chosen);
    }
    let end: usize = chars.len();
    let start: usize = at + words.len();
    let rest = chars_between(&chars, start, end);
    assert(rest@ =~= text_after(chars@, words@));
    let first_len = length_before(&rest, &words);
    let first = chars_between(&rest, 0, first_len);
    let len = length_before(&first, &question_mark);
    proof {
        assert(first@ =~= text_before(rest@, words@));
        assert(chars@.subrange(start as int, start + len) =~= first@.take(len as int));
    }
    market_question.substring_char(start, start + len).to_string()
}

} // verus!
