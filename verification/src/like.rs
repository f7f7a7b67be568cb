//! LIKE patterns with `\` as the escape character.

use vstd::prelude::*;

use crate::text::{chars_of, lemma_texts_push, texts};

verus! {

/// A character of a LIKE pattern that stands for itself: `\`, `%` and `_` behind a `\`.
pub open spec fn escaped_char(c: char) -> Seq<char> {
    if c == '\\' || c == '%' || c == '_' {
        seq!['\\', c]
    } else {
        seq![c]
    }
}

/// [`escaped_char`] as a function value.
pub open spec fn escaping() -> spec_fn(char) -> Seq<char> {
    |c: char| escaped_char(c)
}

/// A text as the part of a LIKE pattern that matches it literally.
pub open spec fn escaped_like(text: Seq<char>) -> Seq<char> {
    text.map_values(escaping()).flatten()
}

/// The LIKE pattern of the texts that hold this one.
pub open spec fn holding_pattern(text: Seq<char>) -> Seq<char> {
    seq!['%'] + escaped_like(text) + seq!['%']
}

/// [`holding_pattern`] as a function value.
pub open spec fn to_holding_pattern() -> spec_fn(Seq<char>) -> Seq<char> {
    |text: Seq<char>| holding_pattern(text)
}

/// What one piece of a LIKE pattern asks for.
pub enum LikeItem {
    /// `%`: any text, also none.
    AnyText,
    /// `_`: any one character.
    AnyChar,
    /// This character.
    Literal(char),
}

/// The piece that asks for one character.
pub open spec fn exactly(c: char) -> LikeItem {
    LikeItem::Literal(c)
}

/// A LIKE pattern with `\` as its escape character, piece by piece.
pub open spec fn like_items(pattern: Seq<char>) -> Seq<LikeItem>
    decreases pattern.len(),
{
    if pattern.len() == 0 {
        Seq::empty()
    } else if pattern[0] == '\\' && pattern.len() >= 2 {
        seq![exactly(pattern[1])] + like_items(pattern.skip(2))
    } else {
        seq![
            if pattern[0] == '%' {
                LikeItem::AnyText
            } else if pattern[0] == '_' {
                LikeItem::AnyChar
            } else {
                exactly(pattern[0])
            },
        ] + like_items(pattern.skip(1))
    }
}

/// Whether a text satisfies a pattern, given which characters count as the same.
pub open spec fn like_matches(
    items: Seq<LikeItem>,
    text: Seq<char>,
    same: spec_fn(char, char) -> bool,
) -> bool
    decreases items.len(), text.len(),
{
    if items.len() == 0 {
        text.len() == 0
    } else {
        let rest = items.drop_first();
        match items[0] {
            LikeItem::AnyText => like_matches(rest, text, same) || (text.len() > 0 && like_matches(
                items,
                text.skip(1),
                same,
            )),
            LikeItem::AnyChar => text.len() > 0 && like_matches(rest, text.skip(1), same),
            LikeItem::Literal(c) => text.len() > 0 && same(c, text[0]) && like_matches(
                rest,
                text.skip(1),
                same,
            ),
        }
    }
}

/// Whether a text stands at a position of another.
pub open spec fn stands_at(
    text: Seq<char>,
    part: Seq<char>,
    at: int,
    same: spec_fn(char, char) -> bool,
) -> bool {
    &&& 0 <= at
    &&& at + part.len() <= text.len()
    &&& forall|i: int| 0 <= i < part.len() ==> same(#[trigger] part[i], text[at + i])
}

/// The pieces that ask for a text character by character.
pub open spec fn literally(text: Seq<char>) -> Seq<LikeItem> {
    text.map_values(|c: char| exactly(c))
}

proof fn lemma_escaped_items(text: Seq<char>, rest: Seq<char>)
    ensures
        like_items(escaped_like(text) + rest) == literally(text) + like_items(rest),
    decreases text.len(),
{
    if text.len() == 0 {
        assert(escaped_like(text) + rest =~= rest);
        assert(literally(text) + like_items(rest) =~= like_items(rest));
    } else {
        let c = text[0];
        let tail = text.drop_first();
        lemma_escaped_items(tail, rest);
        let parts = text.map_values(escaping());
        assert(parts.drop_first() =~= tail.map_values(escaping()));
        assert(parts.first() == escaped_char(c));
        let later = escaped_like(tail) + rest;
        let pattern = escaped_like(text) + rest;
        assert(pattern =~= escaped_char(c) + later);
        assert(pattern.skip(escaped_char(c).len() as int) =~= later);
        assert(literally(text) =~= seq![exactly(c)] + literally(tail));
        assert(like_items(pattern) == seq![exactly(c)] + like_items(later));
        assert(like_items(pattern) =~= literally(text) + like_items(rest));
    }
}

proof fn lemma_literal_match(
    part: Seq<char>,
    rest: Seq<LikeItem>,
    text: Seq<char>,
    same: spec_fn(char, char) -> bool,
)
    ensures
        like_matches(literally(part) + rest, text, same) <==> stands_at(text, part, 0, same)
            && like_matches(rest, text.skip(part.len() as int), same),
    decreases part.len(),
{
    let items = literally(part) + rest;
    if part.len() == 0 {
        assert(items =~= rest);
        assert(text.skip(0) =~= text);
    } else {
        let c = part[0];
        let tail = part.drop_first();
        assert(items[0] == exactly(c));
        assert(items.drop_first() =~= literally(tail) + rest);
        if text.len() > 0 {
            let later = text.skip(1);
            lemma_literal_match(tail, rest, later, same);
            if part.len() <= text.len() {
                assert(later.skip(tail.len() as int) =~= text.skip(part.len() as int));
            }
            if stands_at(text, part, 0, same) {
                assert forall|i: int| 0 <= i < tail.len() implies same(
                    #[trigger] tail[i],
                    later[0 + i],
                ) by {
                    assert(same(part[i + 1], text[0 + (i + 1)]));
                }
                assert(same(part[0], text[0int + 0int]));
            }
            if same(c, text[0]) && stands_at(later, tail, 0, same) {
                assert forall|i: int| 0 <= i < part.len() implies same(
                    #[trigger] part[i],
                    text[0 + i],
                ) by {
                    if i > 0 {
                        assert(same(tail[i - 1], later[0 + (i - 1)]));
                    }
                }
            }
        }
    }
}

/// `%` skips some number of characters.
proof fn lemma_any_text_skips(
    items: Seq<LikeItem>,
    text: Seq<char>,
    same: spec_fn(char, char) -> bool,
)
    requires
        items.len() > 0,
        items[0] is AnyText,
    ensures
        like_matches(items, text, same) <==> exists|k: int|
            0 <= k <= text.len() && #[trigger] like_matches(
                items.drop_first(),
                text.skip(k),
                same,
            ),
    decreases text.len(),
{
    let rest = items.drop_first();
    assert(text.skip(0) =~= text);
    if text.len() > 0 {
        let later = text.skip(1);
        lemma_any_text_skips(items, later, same);
        if like_matches(items, later, same) {
            let k = choose|k: int|
                0 <= k <= later.len() && #[trigger] like_matches(rest, later.skip(k), same);
            assert(later.skip(k) =~= text.skip(k + 1));
            assert(like_matches(rest, text.skip(k + 1), same));
        } else if like_matches(rest, text, same) {
            assert(like_matches(rest, text.skip(0), same));
        }
        if exists|k: int|
            0 <= k <= text.len() && #[trigger] like_matches(rest, text.skip(k), same) {
            let k = choose|k: int|
                0 <= k <= text.len() && #[trigger] like_matches(rest, text.skip(k), same);
            if k > 0 {
                assert(text.skip(k) =~= later.skip(k - 1));
                assert(like_matches(rest, later.skip(k - 1), same));
            }
        }
    } else {
        if like_matches(rest, text, same) {
            assert(like_matches(rest, text.skip(0), same));
        }
    }
}

proof fn lemma_any_text_matches(text: Seq<char>, same: spec_fn(char, char) -> bool)
    ensures
        like_matches(seq![LikeItem::AnyText], text, same),
{
    let items = seq![LikeItem::AnyText];
    let k = text.len() as int;
    assert(items.drop_first() =~= Seq::<LikeItem>::empty());
    assert(like_matches(items.drop_first(), text.skip(k), same));
    lemma_any_text_skips(items, text, same);
}

proof fn lemma_trailing_any_text()
    ensures
        like_items(seq!['%']) == seq![LikeItem::AnyText],
{
    let pattern = seq!['%'];
    assert(pattern.skip(1) =~= Seq::<char>::empty());
    assert(like_items(Seq::<char>::empty()) =~= Seq::<LikeItem>::empty());
    assert(like_items(pattern) =~= seq![LikeItem::AnyText]);
}

/// The pattern of a text matches exactly the texts that hold it somewhere: none of its
/// characters acts as a wildcard, whichever characters count as the same.
pub proof fn law_holding_pattern_is_literal(
    part: Seq<char>,
    text: Seq<char>,
    same: spec_fn(char, char) -> bool,
)
    ensures
        like_matches(like_items(holding_pattern(part)), text, same) <==> exists|at: int|
            stands_at(text, part, at, same),
{
    let pattern = holding_pattern(part);
    let inner = escaped_like(part) + seq!['%'];
    let items = literally(part) + seq![LikeItem::AnyText];
    assert(pattern.skip(1) =~= inner);
    lemma_escaped_items(part, seq!['%']);
    lemma_trailing_any_text();
    assert(like_items(inner) == items);
    let whole = like_items(pattern);
    assert(whole == seq![LikeItem::AnyText] + items);
    assert(whole.drop_first() =~= items);
    assert forall|k: int| 0 <= k <= text.len() implies #[trigger] like_matches(
        items,
        text.skip(k),
        same,
    ) == stands_at(text, part, k, same) by {
        let later = text.skip(k);
        lemma_literal_match(part, seq![LikeItem::AnyText], later, same);
        lemma_any_text_matches(later.skip(part.len() as int), same);
        if stands_at(text, part, k, same) {
            assert forall|i: int| 0 <= i < part.len() implies same(
                #[trigger] part[i],
                later[0 + i],
            ) by {
                assert(same(part[i], text[k + i]));
            }
        }
        if stands_at(later, part, 0, same) {
            assert forall|i: int| 0 <= i < part.len() implies same(
                #[trigger] part[i],
                text[k + i],
            ) by {
                assert(same(part[i], later[0 + i]));
            }
        }
    }
    lemma_any_text_skips(whole, text, same);
    if exists|at: int| stands_at(text, part, at, same) {
        let at = choose|at: int| stands_at(text, part, at, same);
        assert(like_matches(items, text.skip(at), same));
    }
    if like_matches(whole, text, same) {
        let k = choose|k: int|
            0 <= k <= text.len() && #[trigger] like_matches(
                whole.drop_first(),
                text.skip(k),
                same,
            );
        assert(stands_at(text, part, k, same));
    }
}

/// The escaped text with `%` behind it matches exactly the texts that begin with it.
pub proof fn law_prefix_pattern_is_literal(
    part: Seq<char>,
    text: Seq<char>,
    same: spec_fn(char, char) -> bool,
)
    ensures
        like_matches(like_items(escaped_like(part) + seq!['%']), text, same) <==> stands_at(
            text,
            part,
            0,
            same,
        ),
{
    lemma_escaped_items(part, seq!['%']);
    lemma_trailing_any_text();
    lemma_literal_match(part, seq![LikeItem::AnyText], text, same);
    lemma_any_text_matches(text.skip(part.len() as int), same);
}

/// A text without `\`, `%` and `_` is escaped to itself.
pub proof fn law_nothing_to_escape(text: Seq<char>)
    requires
        forall|i: int|
            0 <= i < text.len() ==> #[trigger] text[i] != '\\' && text[i] != '%' && text[i] != '_',
    ensures
        escaped_like(text) == text,
    decreases text.len(),
{
    if text.len() == 0 {
        assert(escaped_like(text) =~= text);
    } else {
        let tail = text.drop_first();
        assert forall|i: int| 0 <= i < tail.len() implies #[trigger] tail[i] != '\\' && tail[i]
            != '%' && tail[i] != '_' by {
            assert(text[i + 1] != '\\');
        }
        law_nothing_to_escape(tail);
        let parts = text.map_values(escaping());
        assert(parts.drop_first() =~= tail.map_values(escaping()));
        assert(text[0] != '\\');
        assert(escaped_like(text) =~= seq![text[0]] + tail);
        assert(seq![text[0]] + tail =~= text);
    }
}

/// A text as the part of a LIKE pattern that matches it literally.
pub fn escape_like(text: &str) -> (r: String)
    ensures
        r@ == escaped_like(text@),
{
    let chars = chars_of(text);
    let ghost parts = text@.map_values(escaping());
    let mut s: String = String::new();
    let mut i: usize = 0;
    assert(s@ =~= parts.take(0).flatten());
    while i < chars.len()
        invariant
            chars@ == text@,
            parts == text@.map_values(escaping()),
            i <= text@.len(),
            s@ == parts.take(i as int).flatten(),
        decreases text@.len() - i,
    {
        let c = chars[i];
        let ghost before = s@;
        proof {
            assert(parts.take(i + 1) =~= parts.take(i as int).push(parts[i as int]));
            parts.take(i as int).lemma_flatten_push(parts[i as int]);
        }
        if c == '\\' || c == '%' || c == '_' {
            s.push('\\');
        }
        s.push(c);
        assert(s@ =~= before + escaped_char(c));
        i += 1;
    }
    assert(parts.take(parts.len() as int) =~= parts);
    s
}

/// The LIKE pattern of the texts that hold this one.
pub fn pattern_holding(text: &str) -> (r: String)
    ensures
        r@ == holding_pattern(text@),
{
    let mut s: String = String::new();
    s.push('%');
    let escaped = escape_like(text);
    s.append(escaped.as_str());
    s.push('%');
    assert(s@ =~= holding_pattern(text@));
    s
}

/// The LIKE patterns of the texts that hold each of these.
pub fn patterns_holding(list: &Vec<String>) -> (r: Vec<String>)
    ensures
        texts(r@) == texts(list@).map_values(to_holding_pattern()),
{
    let mut out: Vec<String> = Vec::new();
    let ghost all = texts(list@).map_values(to_holding_pattern());
    let mut i: usize = 0;
    assert(texts(out@) =~= all.take(0));
    while i < list.len()
        invariant
            all == texts(list@).map_values(to_holding_pattern()),
            i <= list@.len(),
            texts(out@) == all.take(i as int),
        decreases list@.len() - i,
    {
        let p = pattern_holding(list[i].as_str());
        proof {
            lemma_texts_push(out@, p);
            assert(all.take(i + 1) =~= all.take(i as int).push(p@));
        }
        out.push(p);
        i += 1;
    }
    assert(all.take(all.len() as int) =~= all);
    out
}

} // verus!
