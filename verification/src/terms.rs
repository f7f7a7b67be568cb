//! From a raw query to the terms that are searched for.

use vstd::prelude::*;

use crate::classes::{is_term_char, term_char, CharClass};
use crate::order::{distinct_sorted, law_distinct_sorted, sort_distinct};
use crate::runs::{runs, runs_of};
use crate::text::{
    byte_len, byte_len_of, chars_of, lemma_texts_add, lemma_texts_push, lowercase, same_text, texts,
};

verus! {

/// Words left out of full-text queries to reduce noise.
pub const FTS_STOP_WORDS: [&'static str; 29] = [
    "a",
    "an",
    "and",
    "the",
    "or",
    "in",
    "of",
    "for",
    "to",
    "with",
    "is",
    "it",
    "this",
    "that",
    "by",
    "from",
    "on",
    "at",
    "as",
    "be",
    "are",
    "was",
    "were",
    "been",
    "all",
    "each",
    "how",
    "what",
    "when",
];

/// The fewest bytes that a term may have.
pub const MIN_TERM_BYTES: usize = 2;

/// The reason given when a query holds no term at all.
pub const REASON_NO_CHARACTERS: &'static str = "the query has no searchable characters";

/// The reason given when a query holds stop words only.
pub const REASON_STOP_WORDS: &'static str = "every word in the query is a stop word";

/// The reason given when every remaining term is too short.
pub const REASON_TOO_SHORT: &'static str =
    "every term is shorter than the 2-character minimum the index tokenizer stores";

/// Whether a word is a stop word, in whatever case it is written.
pub open spec fn stop_word(word: Seq<char>) -> bool {
    exists|i: int|
        0 <= i < FTS_STOP_WORDS@.len() && #[trigger] FTS_STOP_WORDS@[i]@ == lowercase(word)
}

/// The words that are searched for.
pub open spec fn not_a_stop_word() -> spec_fn(Seq<char>) -> bool {
    |word: Seq<char>| !stop_word(word)
}

/// The terms of a query: its runs of term characters. White space and punctuation separate
/// them; nothing is glued together across a separator.
pub open spec fn raw_terms(query: Seq<char>) -> Seq<Seq<char>> {
    runs(query, CharClass::Term.members())
}

/// The terms of a query that are not stop words.
pub open spec fn query_words(query: Seq<char>) -> Seq<Seq<char>> {
    raw_terms(query).filter(not_a_stop_word())
}

/// A text with everything but its term characters taken out.
pub open spec fn sanitized(text: Seq<char>) -> Seq<char> {
    text.filter(CharClass::Term.members())
}

/// Tokens between white space that hold something to search for.
pub open spec fn counts_as_user_word() -> spec_fn(Seq<char>) -> bool {
    |word: Seq<char>| sanitized(word).len() > 0 && !stop_word(sanitized(word))
}

/// How many words the user typed, counted between white space.
pub open spec fn user_word_count(query: Seq<char>) -> nat {
    runs(query, CharClass::NonSpace.members()).filter(counts_as_user_word()).len()
}

/// The tokens between white space of one text.
pub open spec fn tokens_of() -> spec_fn(Seq<char>) -> Seq<Seq<char>> {
    |text: Seq<char>| runs(text, CharClass::NonSpace.members())
}

/// The tokens of all the words, given how each word splits into parts.
pub open spec fn identifier_tokens(splits: Seq<Seq<char>>) -> Seq<Seq<char>> {
    splits.map_values(tokens_of()).flatten()
}

/// [`sanitized`] as a function value.
pub open spec fn sanitizing() -> spec_fn(Seq<char>) -> Seq<char> {
    |text: Seq<char>| sanitized(text)
}

/// The terms that are long enough for the index.
pub open spec fn long_enough() -> spec_fn(Seq<char>) -> bool {
    |term: Seq<char>| byte_len(term) >= MIN_TERM_BYTES
}

/// The terms of a MATCH query: the tokens and what they stand for as acronyms, each once and in
/// order, then reduced to term characters, then without those that are too short.
pub open spec fn match_terms(
    tokens: Seq<Seq<char>>,
    expansions: Seq<Seq<Seq<char>>>,
) -> Seq<Seq<char>> {
    distinct_sorted(tokens + expansions.flatten()).map_values(sanitizing()).filter(long_enough())
}

/// The terms of a substring scan: the runs of scripts without spaces, each once and in order.
pub open spec fn scan_terms(query: Seq<char>) -> Seq<Seq<char>> {
    distinct_sorted(runs(query, CharClass::UnsegmentedScript.members()))
}

/// Why no term of a query was searched for.
pub open spec fn no_terms_reason(query: Seq<char>) -> Seq<char> {
    if raw_terms(query).len() == 0 {
        REASON_NO_CHARACTERS@
    } else if query_words(query).len() == 0 {
        REASON_STOP_WORDS@
    } else {
        REASON_TOO_SHORT@
    }
}

/// The texts of a sequence of lists of strings.
pub open spec fn text_lists(lists: Seq<Vec<String>>) -> Seq<Seq<Seq<char>>> {
    lists.map_values(|list: Vec<String>| texts(list@))
}

/// Every word is a stop word exactly where none is left.
pub proof fn law_no_words_left_iff_all_stop_words(query: Seq<char>)
    ensures
        query_words(query).len() == 0 <==> forall|i: int|
            0 <= i < raw_terms(query).len() ==> stop_word(#[trigger] raw_terms(query)[i]),
{
    let all = raw_terms(query);
    let p = not_a_stop_word();
    if all.filter(p).len() == 0 {
        assert forall|i: int| 0 <= i < all.len() implies stop_word(#[trigger] all[i]) by {
            if p(all[i]) {
                all.lemma_filter_contains(p, i);
                assert(all.filter(p).contains(all[i]));
            }
        }
    } else {
        all.lemma_filter_pred(p, 0);
        let w = all.filter(p)[0];
        assert(all.filter(p).contains(w));
        all.lemma_filter_contains_rev(p, w);
        assert(all.contains(w));
        let i = choose|i: int| 0 <= i < all.len() && all[i] == w;
        assert(!stop_word(all[i]));
    }
}

/// A term for MATCH holds term characters only, and at least two bytes of them: nothing in it
/// can be read as query syntax.
pub proof fn law_match_terms_are_clean(tokens: Seq<Seq<char>>, expansions: Seq<Seq<Seq<char>>>)
    ensures
        forall|i: int|
            0 <= i < match_terms(tokens, expansions).len() ==> clean_term(
                #[trigger] match_terms(tokens, expansions)[i],
            ),
{
    let words = distinct_sorted(tokens + expansions.flatten());
    let reduced = words.map_values(sanitizing());
    let terms = reduced.filter(long_enough());
    assert forall|i: int| 0 <= i < terms.len() implies clean_term(#[trigger] terms[i]) by {
        reduced.lemma_filter_pred(long_enough(), i);
        assert(terms.contains(terms[i]));
        reduced.lemma_filter_contains_rev(long_enough(), terms[i]);
        assert(reduced.contains(terms[i]));
        let k = choose|k: int| 0 <= k < reduced.len() && reduced[k] == terms[i];
        law_sanitized_is_clean(words[k]);
    }
}

/// A MATCH term is what sanitizing leaves of a token or of what one stands for, if that is long
/// enough; and whatever is long enough is a term.
pub proof fn law_match_terms_are_the_words(
    tokens: Seq<Seq<char>>,
    expansions: Seq<Seq<Seq<char>>>,
    term: Seq<char>,
)
    ensures
        match_terms(tokens, expansions).contains(term) <==> byte_len(term) >= MIN_TERM_BYTES
            && exists|word: Seq<char>| #[trigger]
            (tokens + expansions.flatten()).contains(word) && sanitized(word) == term,
{
    let all = tokens + expansions.flatten();
    let words = distinct_sorted(all);
    let reduced = words.map_values(sanitizing());
    let terms = reduced.filter(long_enough());
    law_distinct_sorted(all);
    if terms.contains(term) {
        let i = choose|i: int| 0 <= i < terms.len() && terms[i] == term;
        reduced.lemma_filter_pred(long_enough(), i);
        reduced.lemma_filter_contains_rev(long_enough(), term);
        let k = choose|k: int| 0 <= k < reduced.len() && reduced[k] == term;
        assert(words.contains(words[k]));
        assert(all.contains(words[k]));
    }
    if byte_len(term) >= MIN_TERM_BYTES && exists|word: Seq<char>| #[trigger]
        all.contains(word) && sanitized(word) == term {
        let word = choose|word: Seq<char>| #[trigger] all.contains(word) && sanitized(word) == term;
        assert(words.contains(word));
        let k = choose|k: int| 0 <= k < words.len() && words[k] == word;
        assert(reduced[k] == term);
        reduced.lemma_filter_contains(long_enough(), k);
    }
}

/// A text made of term characters, long enough to be searched for.
pub open spec fn clean_term(term: Seq<char>) -> bool {
    &&& forall|i: int| 0 <= i < term.len() ==> term_char(#[trigger] term[i])
    &&& byte_len(term) >= MIN_TERM_BYTES
}

/// What sanitizing leaves are term characters; a text made of them is left as it is.
pub proof fn law_sanitized_is_clean(text: Seq<char>)
    ensures
        forall|i: int| 0 <= i < sanitized(text).len() ==> term_char(#[trigger] sanitized(text)[i]),
        (forall|i: int| 0 <= i < text.len() ==> term_char(#[trigger] text[i])) ==> sanitized(text)
            == text,
    decreases text.len(),
{
    let p = CharClass::Term.members();
    assert forall|i: int| 0 <= i < sanitized(text).len() implies term_char(
        #[trigger] sanitized(text)[i],
    ) by {
        text.lemma_filter_pred(p, i);
    }
    if text.len() > 0 && (forall|i: int| 0 <= i < text.len() ==> term_char(#[trigger] text[i])) {
        let init = text.drop_last();
        assert forall|i: int| 0 <= i < init.len() implies term_char(#[trigger] init[i]) by {
            assert(term_char(text[i]));
        }
        law_sanitized_is_clean(init);
        assert(term_char(text[text.len() - 1]));
        assert(init.push(text.last()) =~= text);
        init.lemma_filter_push(text.last(), p);
    }
}

/// Whether a word is a stop word.
pub fn is_stop_word(word: &str) -> (r: bool)
    ensures
        r == stop_word(word@),
{
    let lower = word.to_lowercase();
    let words = FTS_STOP_WORDS;
    let mut i: usize = 0;
    while i < words.len()
        invariant
            words == FTS_STOP_WORDS,
            lower@ == lowercase(word@),
            i <= words@.len(),
            forall|j: int| 0 <= j < i ==> #[trigger] FTS_STOP_WORDS@[j]@ != lower@,
        decreases words@.len() - i,
    {
        if same_text(words[i], lower.as_str()) {
            assert(FTS_STOP_WORDS@[i as int]@ == lowercase(word@));
            return true;
        }
        i += 1;
    }
    false
}

/// A text with everything but its term characters taken out.
pub fn sanitize(text: &str) -> (r: String)
    ensures
        r@ == sanitized(text@),
{
    let chars = chars_of(text);
    let ghost p = CharClass::Term.members();
    let mut kept: String = String::new();
    let mut i: usize = 0;
    assert(text@.take(0).filter(p) =~= Seq::<char>::empty());
    while i < chars.len()
        invariant
            chars@ == text@,
            p == CharClass::Term.members(),
            i <= text@.len(),
            kept@ == text@.take(i as int).filter(p),
        decreases text@.len() - i,
    {
        let c = chars[i];
        proof {
            assert(text@.take(i + 1) =~= text@.take(i as int).push(c));
            text@.take(i as int).lemma_filter_push(c, p);
        }
        if is_term_char(c) {
            kept.push(c);
        }
        i += 1;
    }
    assert(text@.take(text@.len() as int) =~= text@);
    kept
}

/// The terms of a query that are not stop words, in the order in which they stand.
pub fn searchable_words(raw: &Vec<String>) -> (r: Vec<String>)
    ensures
        texts(r@) == texts(raw@).filter(not_a_stop_word()),
{
    let mut kept: Vec<String> = Vec::new();
    let ghost all = texts(raw@);
    let ghost p = not_a_stop_word();
    let mut i: usize = 0;
    assert(all.take(0).filter(p) =~= texts(kept@));
    while i < raw.len()
        invariant
            all == texts(raw@),
            p == not_a_stop_word(),
            i <= raw@.len(),
            texts(kept@) == all.take(i as int).filter(p),
        decreases raw@.len() - i,
    {
        proof {
            assert(all.take(i + 1) =~= all.take(i as int).push(all[i as int]));
            all.take(i as int).lemma_filter_push(all[i as int], p);
        }
        if !is_stop_word(raw[i].as_str()) {
            let word = raw[i].clone();
            proof {
                lemma_texts_push(kept@, word);
            }
            kept.push(word);
        }
        i += 1;
    }
    assert(all.take(all.len() as int) =~= all);
    kept
}

/// How many words the user typed, counted between white space: a token counts when its term
/// characters are there and are no stop word.
pub fn count_user_words(query: &str) -> (n: usize)
    ensures
        n == user_word_count(query@),
{
    let tokens = runs_of(query, CharClass::NonSpace);
    let ghost all = texts(tokens@);
    let ghost p = counts_as_user_word();
    let mut n: usize = 0;
    let mut i: usize = 0;
    while i < tokens.len()
        invariant
            all == texts(tokens@),
            p == counts_as_user_word(),
            i <= tokens@.len(),
            n <= i,
            n == all.take(i as int).filter(p).len(),
        decreases tokens@.len() - i,
    {
        proof {
            assert(all.take(i + 1) =~= all.take(i as int).push(all[i as int]));
            all.take(i as int).lemma_filter_push(all[i as int], p);
        }
        let bare = sanitize(tokens[i].as_str());
        if !bare.as_str().is_empty() && !is_stop_word(bare.as_str()) {
            n += 1;
        }
        i += 1;
    }
    assert(all.take(all.len() as int) =~= all);
    n
}

/// The tokens between white space of the splits, in order.
pub fn collect_tokens(splits: &Vec<String>) -> (r: Vec<String>)
    ensures
        texts(r@) == identifier_tokens(texts(splits@)),
{
    let mut tokens: Vec<String> = Vec::new();
    let ghost parts = texts(splits@).map_values(tokens_of());
    let mut i: usize = 0;
    assert(texts(tokens@) =~= parts.take(0).flatten());
    while i < splits.len()
        invariant
            parts == texts(splits@).map_values(tokens_of()),
            i <= splits@.len(),
            texts(tokens@) == parts.take(i as int).flatten(),
        decreases splits@.len() - i,
    {
        let mut more = runs_of(splits[i].as_str(), CharClass::NonSpace);
        proof {
            assert(texts(more@) == parts[i as int]);
            assert(parts.take(i + 1) =~= parts.take(i as int).push(parts[i as int]));
            parts.take(i as int).lemma_flatten_push(parts[i as int]);
            lemma_texts_add(tokens@, more@);
        }
        tokens.append(&mut more);
        i += 1;
    }
    assert(parts.take(parts.len() as int) =~= parts);
    tokens
}

/// The terms of a MATCH query.
pub fn collect_match_terms(tokens: Vec<String>, expansions: Vec<Vec<String>>) -> (r: Vec<String>)
    ensures
        texts(r@) == match_terms(texts(tokens@), text_lists(expansions@)),
{
    let ghost lists = text_lists(expansions@);
    let ghost given = texts(tokens@);
    let mut words = tokens;
    let mut i: usize = 0;
    assert(texts(words@) =~= given + lists.take(0).flatten());
    while i < expansions.len()
        invariant
            lists == text_lists(expansions@),
            i <= expansions@.len(),
            texts(words@) == given + lists.take(i as int).flatten(),
        decreases expansions@.len() - i,
    {
        let mut more = copy_strings(&expansions[i]);
        proof {
            assert(texts(more@) == lists[i as int]);
            assert(lists.take(i + 1) =~= lists.take(i as int).push(lists[i as int]));
            lists.take(i as int).lemma_flatten_push(lists[i as int]);
            lemma_texts_add(words@, more@);
            assert(given + lists.take(i as int).flatten() + lists[i as int] =~= given + (
            lists.take(i as int).flatten() + lists[i as int]));
        }
        words.append(&mut more);
        i += 1;
    }
    assert(lists.take(lists.len() as int) =~= lists);
    let sorted = sort_distinct(words);
    let ghost reduced = texts(sorted@).map_values(sanitizing());
    let ghost p = long_enough();
    let mut terms: Vec<String> = Vec::new();
    let mut k: usize = 0;
    assert(reduced.take(0).filter(p) =~= texts(terms@));
    while k < sorted.len()
        invariant
            reduced == texts(sorted@).map_values(sanitizing()),
            p == long_enough(),
            k <= sorted@.len(),
            texts(terms@) == reduced.take(k as int).filter(p),
        decreases sorted@.len() - k,
    {
        let term = sanitize(sorted[k].as_str());
        proof {
            assert(term@ == reduced[k as int]);
            assert(reduced.take(k + 1) =~= reduced.take(k as int).push(reduced[k as int]));
            reduced.take(k as int).lemma_filter_push(reduced[k as int], p);
            lemma_texts_push(terms@, term);
        }
        if byte_len_of(term.as_str()) >= MIN_TERM_BYTES {
            terms.push(term);
        }
        k += 1;
    }
    assert(reduced.take(reduced.len() as int) =~= reduced);
    terms
}

/// A list of strings with the same texts.
pub fn copy_strings(list: &Vec<String>) -> (r: Vec<String>)
    ensures
        texts(r@) == texts(list@),
{
    let mut copy: Vec<String> = Vec::new();
    let mut i: usize = 0;
    while i < list.len()
        invariant
            i <= list@.len(),
            texts(copy@) == texts(list@).take(i as int),
        decreases list@.len() - i,
    {
        let s = list[i].clone();
        proof {
            lemma_texts_push(copy@, s);
            assert(texts(list@).take(i + 1) =~= texts(list@).take(i as int).push(s@));
        }
        copy.push(s);
        i += 1;
    }
    assert(texts(list@).take(list@.len() as int) =~= texts(list@));
    copy
}

/// The terms of a substring scan: each maximal run of a script without spaces is one term.
pub fn collect_scan_terms(query: &str) -> (r: Vec<String>)
    ensures
        texts(r@) == scan_terms(query@),
{
    sort_distinct(runs_of(query, CharClass::UnsegmentedScript))
}

/// Why no term of a query was searched for.
pub fn explain_no_terms(raw: &Vec<String>, words: &Vec<String>) -> (r: &'static str)
    ensures
        r@ == (if raw@.len() == 0 {
            REASON_NO_CHARACTERS@
        } else if words@.len() == 0 {
            REASON_STOP_WORDS@
        } else {
            REASON_TOO_SHORT@
        }),
{
    if raw.len() == 0 {
        REASON_NO_CHARACTERS
    } else if words.len() == 0 {
        REASON_STOP_WORDS
    } else {
        REASON_TOO_SHORT
    }
}

} // verus!
