//! What is looked for, said of the query itself: characters by their code points, words by where
//! they stand, terms by what they come from.

use vstd::prelude::*;
use vstd::utf8::encode_utf8;

use crate::bytes::{bytes_less, law_order_is_byte_order};
use crate::classes::{term_char, unicode_alphanumeric, unsegmented_script, white_space, CharClass};
use crate::guarantees::index_terms;
use crate::index::{query_shape, query_tokens, Index, QueryShape};
use crate::order::{distinct_sorted, law_distinct_sorted, text_less};
use crate::runs::{are_the_maximal_segments, law_runs_are_the_maximal_segments, runs};
use crate::search::{RequestView, SearchView};
use crate::sql::read_phrases;
use crate::terms::{
    clean_term, counts_as_user_word, law_match_terms_are_the_words, long_enough, no_terms_reason,
    not_a_stop_word, query_words, raw_terms, sanitized, sanitizing, scan_terms, stop_word,
    tokens_of, user_word_count, FTS_STOP_WORDS,
};
use crate::text::lowercase;

verus! {

/// The ASCII characters that terms are made of: `0` to `9`, `A` to `Z`, `a` to `z` and `_`.
pub open spec fn ascii_term_code(u: u32) -> bool {
    0x30 <= u <= 0x39 || 0x41 <= u <= 0x5A || 0x61 <= u <= 0x7A || u == 0x5F
}

/// The code points of white space beyond ASCII.
pub open spec fn wide_space_code(u: u32) -> bool {
    u == 0x85 || u == 0xA0 || u == 0x1680 || 0x2000 <= u <= 0x200A || u == 0x2028 || u == 0x2029
        || u == 0x202F || u == 0x205F || u == 0x3000
}

/// Within ASCII, exactly the letters, the digits and `_` are part of a term: every other
/// character ends one, white space and punctuation alike. Beyond ASCII, whatever counts as
/// alphanumeric and is not white space is part of a term.
pub proof fn law_term_characters(c: char)
    ensures
        (c as u32) < 0x80 ==> (term_char(c) <==> ascii_term_code(c as u32)),
        c as u32 >= 0x80 ==> (term_char(c) <==> unicode_alphanumeric(c) && !wide_space_code(
            c as u32,
        )),
{
}

/// White space by its code points.
pub proof fn law_white_space(c: char)
    ensures
        white_space(c) <==> 0x09 <= c as u32 <= 0x0D || c as u32 == 0x20 || wide_space_code(c as u32),
{
}

/// The scripts written without spaces, by their code points: kana, CJK ideographs with their
/// extensions and compatibility forms, precomposed Hangul, and half-width katakana.
pub proof fn law_unsegmented_scripts(c: char)
    ensures
        unsegmented_script(c) <==> {
            let u = c as u32;
            (u >= 0x3040 && u < 0x3100) || (u >= 0x3400 && u < 0x4DC0) || (u >= 0x4E00 && u
                < 0xA000) || (u >= 0xAC00 && u < 0xD7B0) || (u >= 0xF900 && u < 0xFB00) || (u
                >= 0xFF66 && u < 0xFF9E) || (u >= 0x20000 && u < 0x2A6E0) || (u >= 0x2A700 && u
                < 0x2EBF0)
        },
{
}

/// Whether a text is one of the words that queries leave out.
pub open spec fn is_noise(word: Seq<char>) -> bool {
    ||| word == "a"@ || word == "an"@ || word == "and"@ || word == "the"@ || word == "or"@
    ||| word == "in"@ || word == "of"@ || word == "for"@ || word == "to"@ || word == "with"@
    ||| word == "is"@ || word == "it"@ || word == "this"@ || word == "that"@ || word == "by"@
    ||| word == "from"@ || word == "on"@ || word == "at"@ || word == "as"@ || word == "be"@
    ||| word == "are"@ || word == "was"@ || word == "were"@ || word == "been"@ || word == "all"@
    ||| word == "each"@ || word == "how"@ || word == "what"@ || word == "when"@
}

/// A word is left out exactly where its lowercase form is one of these words.
pub proof fn law_stop_words(word: Seq<char>)
    ensures
        stop_word(word) <==> is_noise(lowercase(word)),
{
    let w = FTS_STOP_WORDS@;
    let low = lowercase(word);
    assert(w.len() == 29);
    assert(w[0]@ == "a"@ && w[1]@ == "an"@ && w[2]@ == "and"@ && w[3]@ == "the"@ && w[4]@ == "or"@);
    assert(w[5]@ == "in"@ && w[6]@ == "of"@ && w[7]@ == "for"@ && w[8]@ == "to"@ && w[9]@
        == "with"@);
    assert(w[10]@ == "is"@ && w[11]@ == "it"@ && w[12]@ == "this"@ && w[13]@ == "that"@ && w[14]@
        == "by"@);
    assert(w[15]@ == "from"@ && w[16]@ == "on"@ && w[17]@ == "at"@ && w[18]@ == "as"@ && w[19]@
        == "be"@);
    assert(w[20]@ == "are"@ && w[21]@ == "was"@ && w[22]@ == "were"@ && w[23]@ == "been"@ && w[24]@
        == "all"@);
    assert(w[25]@ == "each"@ && w[26]@ == "how"@ && w[27]@ == "what"@ && w[28]@ == "when"@);
}

/// The characters that terms are made of.
pub open spec fn in_term() -> spec_fn(char) -> bool {
    |c: char| term_char(c)
}

/// The characters that words between white space are made of.
pub open spec fn between_spaces() -> spec_fn(char) -> bool {
    |c: char| !white_space(c)
}

/// The characters of scripts written without spaces.
pub open spec fn in_script() -> spec_fn(char) -> bool {
    |c: char| unsegmented_script(c)
}

/// Where the pieces of a text stand: one after the other with something between, every character
/// of a piece inside, the characters next to it outside, and no character inside left over.
pub open spec fn stand_at(
    text: Seq<char>,
    inside: spec_fn(char) -> bool,
    found: Seq<Seq<char>>,
    spans: Seq<(int, int)>,
) -> bool {
    &&& spans.len() == found.len()
    &&& forall|k: int|
        0 <= k < spans.len() ==> {
            let (from, to) = #[trigger] spans[k];
            &&& 0 <= from < to <= text.len()
            &&& found[k] == text.subrange(from, to)
            &&& forall|i: int| from <= i < to ==> inside(#[trigger] text[i])
            &&& from > 0 ==> !inside(text[from - 1])
            &&& to < text.len() ==> !inside(text[to])
        }
    &&& forall|k: int, l: int|
        0 <= k < l < spans.len() ==> (#[trigger] spans[k]).1 < (#[trigger] spans[l]).0
    &&& forall|i: int|
        0 <= i < text.len() && inside(#[trigger] text[i]) ==> exists|k: int|
            0 <= k < spans.len() && (#[trigger] spans[k]).0 <= i < spans[k].1
}

/// Whether a text was cut exactly where its characters are outside.
pub open spec fn cut_at_outside(
    text: Seq<char>,
    inside: spec_fn(char) -> bool,
    found: Seq<Seq<char>>,
) -> bool {
    exists|spans: Seq<(int, int)>| stand_at(text, inside, found, spans)
}

proof fn lemma_runs_cut(text: Seq<char>, inside: spec_fn(char) -> bool)
    ensures
        cut_at_outside(text, inside, runs(text, inside)),
{
    law_runs_are_the_maximal_segments(text, inside);
    let found = runs(text, inside);
    let spans = choose|spans: Seq<(int, int)>| #[trigger]
        are_the_maximal_segments(text, inside, spans) && spans.len() == runs(text, inside).len()
            && forall|k: int|
            0 <= k < spans.len() ==> #[trigger] runs(text, inside)[k] == text.subrange(
                spans[k].0,
                spans[k].1,
            );
    assert forall|k: int| 0 <= k < spans.len() implies {
        let (from, to) = #[trigger] spans[k];
        &&& 0 <= from < to <= text.len()
        &&& found[k] == text.subrange(from, to)
        &&& forall|i: int| from <= i < to ==> inside(#[trigger] text[i])
        &&& from > 0 ==> !inside(text[from - 1])
        &&& to < text.len() ==> !inside(text[to])
    } by {
        assert(runs(text, inside)[k] == text.subrange(spans[k].0, spans[k].1));
        assert(crate::runs::maximal_segment(text, inside, spans[k].0, spans[k].1));
    }
    assert(stand_at(text, inside, found, spans));
}

/// The terms of a query are what stands between its other characters; the words that the user
/// typed are what stands between white space; what a substring scan looks for is what stands
/// between characters of other scripts.
pub proof fn law_queries_are_cut_at_what_separates(query: Seq<char>)
    ensures
        cut_at_outside(query, in_term(), raw_terms(query)),
        cut_at_outside(
            query,
            between_spaces(),
            runs(query, CharClass::NonSpace.members()),
        ),
        cut_at_outside(
            query,
            in_script(),
            runs(query, CharClass::UnsegmentedScript.members()),
        ),
{
    lemma_runs_cut(query, in_term());
    lemma_runs_cut(query, between_spaces());
    lemma_runs_cut(query, in_script());
    assert(CharClass::Term.members() =~= in_term());
    assert(CharClass::NonSpace.members() =~= between_spaces());
    assert(CharClass::UnsegmentedScript.members() =~= in_script());
}

/// No term of a query holds an ASCII character other than a letter, a digit or `_`.
pub proof fn law_terms_hold_no_punctuation(query: Seq<char>, i: int, k: int)
    requires
        0 <= i < raw_terms(query).len(),
        0 <= k < raw_terms(query)[i].len(),
    ensures
        (raw_terms(query)[i][k] as u32) < 0x80 ==> ascii_term_code(raw_terms(query)[i][k] as u32),
{
    crate::runs::law_runs_hold_the_class(query, CharClass::Term.members());
    let c = raw_terms(query)[i][k];
    assert((CharClass::Term.members())(runs(query, CharClass::Term.members())[i][k]));
    law_term_characters(c);
}

/// No phrase of a MATCH expression that a search asks for holds an ASCII character other than a
/// letter, a digit or `_`, and each has at least two bytes.
pub proof fn law_phrases_hold_no_punctuation(search: SearchView, expression: Seq<char>, i: int)
    requires
        search.well_formed(),
        search.pending() matches Some(RequestView::Match { expression: asked, .. }) && asked
            == expression,
        0 <= i < read_phrases(expression).closed.len(),
    ensures
        encode_utf8(read_phrases(expression).closed[i]).len() >= 2,
        forall|k: int|
            0 <= k < read_phrases(expression).closed[i].len() && (
            #[trigger] read_phrases(expression).closed[i][k] as u32) < 0x80 ==> ascii_term_code(
                read_phrases(expression).closed[i][k] as u32,
            ),
{
    crate::guarantees::law_expressions_are_phrases(search);
    let phrase = read_phrases(expression).closed[i];
    assert(clean_term(phrase));
    assert forall|k: int| 0 <= k < phrase.len() && (#[trigger] phrase[k] as u32)
        < 0x80 implies ascii_term_code(phrase[k] as u32) by {
        assert(term_char(phrase[k]));
        law_term_characters(phrase[k]);
    }
}

/// A text with only its term characters kept.
pub open spec fn kept(text: Seq<char>) -> Seq<char> {
    text.filter(in_term())
}

proof fn lemma_kept(text: Seq<char>)
    ensures
        sanitized(text) == kept(text),
{
    assert(CharClass::Term.members() =~= in_term());
}

/// The words of a query are its terms without the noise, in their order.
pub proof fn law_words_are_terms_without_noise(query: Seq<char>)
    ensures
        query_words(query) == raw_terms(query).filter(
            |word: Seq<char>| !is_noise(lowercase(word)),
        ),
{
    let p = |word: Seq<char>| !is_noise(lowercase(word));
    assert forall|word: Seq<char>| #[trigger] not_a_stop_word()(word) == p(word) by {
        law_stop_words(word);
    }
    assert(not_a_stop_word() =~= p);
}

/// The words that the user typed are counted between white space; one counts if its term
/// characters are there and are no noise.
pub proof fn law_typed_words_are_counted(query: Seq<char>)
    ensures
        exists|typed: Seq<Seq<char>>| #[trigger]
            cut_at_outside(query, between_spaces(), typed) && user_word_count(query)
                == typed.filter(
                |word: Seq<char>| kept(word).len() > 0 && !is_noise(lowercase(kept(word))),
            ).len(),
{
    law_queries_are_cut_at_what_separates(query);
    let typed = runs(query, CharClass::NonSpace.members());
    let p = |word: Seq<char>| kept(word).len() > 0 && !is_noise(lowercase(kept(word)));
    assert forall|word: Seq<char>| #[trigger] counts_as_user_word()(word) == p(word) by {
        lemma_kept(word);
        law_stop_words(sanitized(word));
    }
    assert(counts_as_user_word() =~= p);
    assert(cut_at_outside(query, between_spaces(), typed));
}

/// Whether a token comes out of a word of the query: one of the pieces, between white space, of
/// how the word splits.
pub open spec fn token_of(index: Index, word: Seq<char>, token: Seq<char>) -> bool {
    exists|tokens: Seq<Seq<char>>| #[trigger]
        cut_at_outside((index.split)(word), between_spaces(), tokens) && tokens.contains(
            token,
        )
}

/// Whether a text is a token of the query, or what such a token stands for.
pub open spec fn comes_from(index: Index, query: Seq<char>, text: Seq<char>) -> bool {
    exists|word: Seq<char>, token: Seq<char>| #[trigger]
        token_of(index, word, token) && query_words(query).contains(word) && (text == token || (
        index.expand)(token).contains(text))
}

proof fn lemma_flatten_contains<T>(lists: Seq<Seq<T>>, x: T)
    ensures
        lists.flatten().contains(x) <==> exists|i: int|
            0 <= i < lists.len() && (#[trigger] lists[i]).contains(x),
    decreases lists.len(),
{
    if lists.len() == 0 {
        assert(lists.flatten() =~= Seq::<T>::empty());
    } else {
        let init = lists.drop_last();
        let last = lists.last();
        lemma_flatten_contains(init, x);
        assert(init.push(last) =~= lists);
        init.lemma_flatten_push(last);
        let whole = init.flatten() + last;
        if whole.contains(x) {
            let k = choose|k: int| 0 <= k < whole.len() && whole[k] == x;
            if k < init.flatten().len() {
                assert(init.flatten()[k] == x);
                assert(init.flatten().contains(x));
                let i = choose|i: int| 0 <= i < init.len() && (#[trigger] init[i]).contains(x);
                assert(lists[i].contains(x));
            } else {
                assert(last[k - init.flatten().len()] == x);
                assert(lists[lists.len() - 1].contains(x));
            }
        }
        if exists|i: int| 0 <= i < lists.len() && (#[trigger] lists[i]).contains(x) {
            let i = choose|i: int| 0 <= i < lists.len() && (#[trigger] lists[i]).contains(x);
            if i < init.len() {
                assert(init[i].contains(x));
                let k = choose|k: int| 0 <= k < init.flatten().len() && init.flatten()[k] == x;
                assert(whole[k] == x);
            } else {
                let k = choose|k: int| 0 <= k < last.len() && last[k] == x;
                assert(whole[init.flatten().len() + k] == x);
            }
        }
    }
}

proof fn lemma_cut_is_unique(text: Seq<char>, inside: spec_fn(char) -> bool, found: Seq<Seq<char>>)
    requires
        cut_at_outside(text, inside, found),
    ensures
        forall|x: Seq<char>| found.contains(x) <==> #[trigger] runs(text, inside).contains(x),
{
    lemma_runs_cut(text, inside);
    let other = runs(text, inside);
    lemma_cut_members(text, inside, found, other);
    lemma_cut_members(text, inside, other, found);
    assert forall|x: Seq<char>| found.contains(x) <==> #[trigger] other.contains(x) by {}
}

proof fn lemma_cut_members(
    text: Seq<char>,
    inside: spec_fn(char) -> bool,
    a: Seq<Seq<char>>,
    b: Seq<Seq<char>>,
)
    requires
        cut_at_outside(text, inside, a),
        cut_at_outside(text, inside, b),
    ensures
        forall|x: Seq<char>| #[trigger] a.contains(x) ==> b.contains(x),
{
    let s = choose|spans: Seq<(int, int)>| stand_at(text, inside, a, spans);
    let t = choose|spans: Seq<(int, int)>| stand_at(text, inside, b, spans);
    assert forall|x: Seq<char>| #[trigger] a.contains(x) implies b.contains(x) by {
        let k = choose|k: int| 0 <= k < a.len() && a[k] == x;
        let (from, to) = s[k];
        assert(inside(text[from]));
        let l = choose|l: int| 0 <= l < t.len() && (#[trigger] t[l]).0 <= from < t[l].1;
        let (start, end) = t[l];
        if start < from {
            assert(inside(text[from - 1]));
        }
        if end < to {
            assert(inside(text[end]));
        }
        if to < end {
            assert(inside(text[to]));
        }
        assert(b[l] == text.subrange(start, end));
        assert(b[l] == x);
    }
}

proof fn lemma_tokens(index: Index, query: Seq<char>, token: Seq<char>)
    ensures
        query_tokens(index, query).contains(token) <==> exists|word: Seq<char>|
            query_words(query).contains(word) && #[trigger] token_of(index, word, token),
{
    let words = query_words(query);
    let lists = words.map_values(index.split).map_values(tokens_of());
    lemma_flatten_contains(lists, token);
    let inside = between_spaces();
    assert(CharClass::NonSpace.members() =~= inside);
    if exists|i: int| 0 <= i < lists.len() && (#[trigger] lists[i]).contains(token) {
        let i = choose|i: int| 0 <= i < lists.len() && (#[trigger] lists[i]).contains(token);
        let word = words[i];
        assert(words.contains(word));
        lemma_runs_cut((index.split)(word), inside);
        assert(lists[i] == runs((index.split)(word), inside));
        assert(token_of(index, word, token));
    }
    if exists|word: Seq<char>| words.contains(word) && #[trigger] token_of(index, word, token) {
        let word = choose|word: Seq<char>|
            words.contains(word) && #[trigger] token_of(index, word, token);
        let i = choose|i: int| 0 <= i < words.len() && words[i] == word;
        let tokens = choose|tokens: Seq<Seq<char>>| #[trigger]
            cut_at_outside((index.split)(word), between_spaces(), tokens)
                && tokens.contains(token);
        lemma_cut_is_unique((index.split)(word), inside, tokens);
        assert(runs((index.split)(word), inside).contains(token));
        assert(lists[i] == runs((index.split)(word), inside));
        assert(lists[i].contains(token));
    }
}

proof fn lemma_all_texts(index: Index, query: Seq<char>, text: Seq<char>)
    ensures
        ({
            let tokens = query_tokens(index, query);
            (tokens + tokens.map_values(index.expand).flatten()).contains(text) <==> comes_from(
                index,
                query,
                text,
            )
        }),
{
    let tokens = query_tokens(index, query);
    let lists = tokens.map_values(index.expand);
    let all = tokens + lists.flatten();
    lemma_flatten_contains(lists, text);
    if all.contains(text) {
        let k = choose|k: int| 0 <= k < all.len() && all[k] == text;
        if k < tokens.len() {
            assert(tokens[k] == text);
            assert(tokens.contains(text));
            lemma_tokens(index, query, text);
            let word = choose|word: Seq<char>|
                query_words(query).contains(word) && #[trigger] token_of(index, word, text);
            assert(token_of(index, word, text));
        } else {
            assert(lists.flatten()[k - tokens.len()] == text);
            assert(lists.flatten().contains(text));
            let i = choose|i: int| 0 <= i < lists.len() && (#[trigger] lists[i]).contains(text);
            let token = tokens[i];
            assert(tokens.contains(token));
            lemma_tokens(index, query, token);
            let word = choose|word: Seq<char>|
                query_words(query).contains(word) && #[trigger] token_of(index, word, token);
            assert(token_of(index, word, token));
        }
    }
    if comes_from(index, query, text) {
        let (word, token) = choose|word: Seq<char>, token: Seq<char>| #[trigger]
            token_of(index, word, token) && query_words(query).contains(word) && (text == token || (
            index.expand)(token).contains(text));
        lemma_tokens(index, query, token);
        assert(tokens.contains(token));
        let i = choose|i: int| 0 <= i < tokens.len() && tokens[i] == token;
        if text == token {
            assert(all[i] == text);
        } else {
            assert(lists[i].contains(text));
            let k = choose|k: int| 0 <= k < lists.flatten().len() && lists.flatten()[k] == text;
            assert(all[tokens.len() + k] == text);
        }
    }
}

/// A term is looked for exactly where it has at least two bytes and is what is kept of a token of
/// the query's words, or of what such a token stands for.
pub proof fn law_what_is_looked_for(index: Index, query: Seq<char>, term: Seq<char>)
    ensures
        index_terms(index, query).contains(term) <==> encode_utf8(term).len() >= 2 && exists|
            text: Seq<char>,
        | #[trigger] comes_from(index, query, text) && term == kept(text),
{
    let tokens = query_tokens(index, query);
    let lists = tokens.map_values(index.expand);
    let all = tokens + lists.flatten();
    law_match_terms_are_the_words(tokens, lists, term);
    if index_terms(index, query).contains(term) {
        let word = choose|word: Seq<char>| #[trigger] all.contains(word) && sanitized(word) == term;
        lemma_all_texts(index, query, word);
        lemma_kept(word);
        assert(comes_from(index, query, word));
    }
    if exists|text: Seq<char>| #[trigger] comes_from(index, query, text) && term == kept(text) {
        let text = choose|text: Seq<char>| #[trigger]
            comes_from(index, query, text) && term == kept(text);
        lemma_all_texts(index, query, text);
        lemma_kept(text);
        assert(all.contains(text));
    }
}

/// Whether each text comes before all the later ones, byte by byte.
pub open spec fn in_byte_order(texts: Seq<Seq<char>>) -> bool {
    forall|i: int, j: int|
        0 <= i < j < texts.len() ==> bytes_less(
            encode_utf8(#[trigger] texts[i]),
            encode_utf8(#[trigger] texts[j]),
        )
}

/// What is kept of a text, as a function value.
pub open spec fn keeping() -> spec_fn(Seq<char>) -> Seq<char> {
    |text: Seq<char>| kept(text)
}

/// The texts of at least two bytes.
pub open spec fn of_two_bytes() -> spec_fn(Seq<char>) -> bool {
    |text: Seq<char>| encode_utf8(text).len() >= 2
}

/// The terms follow the order of the UTF-8 bytes of what they come from, each text taken once.
pub proof fn law_terms_stand_in_byte_order(index: Index, query: Seq<char>)
    ensures
        exists|texts: Seq<Seq<char>>| #[trigger]
            in_byte_order(texts) && index_terms(index, query) == texts.map_values(keeping()).filter(
                of_two_bytes(),
            ) && forall|text: Seq<char>|
                texts.contains(text) <==> #[trigger] comes_from(index, query, text),
{
    let tokens = query_tokens(index, query);
    let all = tokens + tokens.map_values(index.expand).flatten();
    let texts = distinct_sorted(all);
    law_distinct_sorted(all);
    assert forall|text: Seq<char>| texts.contains(text) <==> #[trigger] comes_from(index, query, text) by {
        lemma_all_texts(index, query, text);
        assert(texts.contains(text) <==> all.contains(text));
    }
    assert forall|i: int, j: int| 0 <= i < j < texts.len() implies bytes_less(
        encode_utf8(#[trigger] texts[i]),
        encode_utf8(#[trigger] texts[j]),
    ) by {
        assert(text_less(texts[i], texts[j]));
        law_order_is_byte_order(texts[i], texts[j]);
    }
    let f = keeping();
    let p = of_two_bytes();
    assert forall|text: Seq<char>| #[trigger] sanitizing()(text) == f(text) by {
        lemma_kept(text);
    }
    assert(sanitizing() =~= f);
    assert(long_enough() =~= p);
    assert(index_terms(index, query) == texts.map_values(f).filter(p));
    assert(in_byte_order(texts));
}

/// The terms of a substring scan are the runs of scripts without spaces, each once, in the order
/// of their UTF-8 bytes.
pub proof fn law_scan_terms_stand_in_byte_order(query: Seq<char>, found: Seq<Seq<char>>)
    requires
        cut_at_outside(query, in_script(), found),
    ensures
        forall|term: Seq<char>| scan_terms(query).contains(term) <==> #[trigger] found.contains(term),
        in_byte_order(scan_terms(query)),
{
    let inside = in_script();
    assert(CharClass::UnsegmentedScript.members() =~= inside);
    let all = runs(query, inside);
    let terms = scan_terms(query);
    law_distinct_sorted(all);
    lemma_cut_is_unique(query, inside, found);
    assert forall|term: Seq<char>| terms.contains(term) <==> #[trigger] found.contains(term) by {
        assert(found.contains(term) <==> all.contains(term));
    }
    assert forall|i: int, j: int| 0 <= i < j < terms.len() implies bytes_less(
        encode_utf8(#[trigger] terms[i]),
        encode_utf8(#[trigger] terms[j]),
    ) by {
        assert(text_less(terms[i], terms[j]));
        law_order_is_byte_order(terms[i], terms[j]);
    }
}

/// Why nothing is looked for: the query has no term, or all its terms are noise, or what is left
/// is too short.
pub proof fn law_reasons(query: Seq<char>)
    ensures
        raw_terms(query).len() == 0 ==> no_terms_reason(query)
            == "the query has no searchable characters"@,
        raw_terms(query).len() > 0 && (forall|i: int|
            0 <= i < raw_terms(query).len() ==> is_noise(lowercase(#[trigger] raw_terms(query)[i])))
            ==> no_terms_reason(query) == "every word in the query is a stop word"@,
        (exists|i: int|
            0 <= i < raw_terms(query).len() && !is_noise(
                lowercase(#[trigger] raw_terms(query)[i]),
            )) ==> no_terms_reason(query)
            == "every term is shorter than the 2-character minimum the index tokenizer stores"@,
{
    crate::terms::law_no_words_left_iff_all_stop_words(query);
    let all = raw_terms(query);
    assert forall|i: int| 0 <= i < all.len() implies stop_word(#[trigger] all[i]) == is_noise(
        lowercase(all[i]),
    ) by {
        law_stop_words(all[i]);
    }
}

/// What a query is made of: words that the user listed, where two or more were typed; else the
/// pieces of one word, where punctuation leaves several; else one word to look up, where its term
/// characters have at least two bytes.
pub proof fn law_query_shapes(query: Seq<char>)
    ensures
        user_word_count(query) >= 2 ==> query_shape(query) is ListedWords,
        user_word_count(query) <= 1 && query_words(query).len() >= 2 ==> query_shape(
            query,
        ) is PiecesOfOneWord,
        user_word_count(query) <= 1 && query_words(query).len() == 1 && encode_utf8(
            kept(query_words(query)[0]),
        ).len() >= 2 ==> query_shape(query) == QueryShape::OneWord(kept(query_words(query)[0])),
        user_word_count(query) <= 1 && query_words(query).len() == 1 && encode_utf8(
            kept(query_words(query)[0]),
        ).len() < 2 ==> query_shape(query) is ListedWords,
{
    if query_words(query).len() == 1 {
        lemma_kept(query_words(query)[0]);
    }
}

} // verus!
