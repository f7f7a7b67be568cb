//! How conditions are read: what a text of ANDs and ORs says, character by character.
//!
//! Nothing here builds a statement or an expression. A text is cut where a separator stands
//! outside parentheses; OR binds less than AND, and a group in parentheses is read on its own.

use vstd::prelude::*;

use crate::sql::join;

verus! {

/// How many parentheses a text leaves open.
pub open spec fn depth(text: Seq<char>) -> int
    decreases text.len(),
{
    if text.len() == 0 {
        0
    } else if text.last() == '(' {
        depth(text.drop_last()) + 1
    } else if text.last() == ')' {
        depth(text.drop_last()) - 1
    } else {
        depth(text.drop_last())
    }
}

/// Whether a text ends with another.
pub open spec fn ends_with(text: Seq<char>, end: Seq<char>) -> bool {
    text.len() >= end.len() && text.skip(text.len() - end.len()) == end
}

/// Whether a text ends with a separator outside parentheses.
pub open spec fn cuts(text: Seq<char>, separator: Seq<char>) -> bool {
    depth(text) == 0 && ends_with(text, separator)
}

/// What is read of a text from the left: the pieces that a separator has ended, and the rest.
pub struct Pieces {
    pub done: Seq<Seq<char>>,
    pub rest: Seq<char>,
}

/// Reads a text up to its end, cutting it behind every separator outside parentheses.
pub open spec fn read_pieces(text: Seq<char>, separator: Seq<char>) -> Pieces
    decreases text.len(),
{
    if text.len() == 0 {
        Pieces { done: Seq::empty(), rest: Seq::empty() }
    } else {
        let before = read_pieces(text.drop_last(), separator);
        let more = before.rest.push(text.last());
        if cuts(more, separator) {
            Pieces {
                done: before.done.push(more.take(more.len() - separator.len())),
                rest: Seq::empty(),
            }
        } else {
            Pieces { done: before.done, rest: more }
        }
    }
}

/// The pieces of a text between the separators that stand outside parentheses.
pub open spec fn pieces(text: Seq<char>, separator: Seq<char>) -> Seq<Seq<char>> {
    read_pieces(text, separator).done.push(read_pieces(text, separator).rest)
}

/// Whether all the pieces between ANDs hold.
pub open spec fn all_hold(text: Seq<char>, truth: spec_fn(Seq<char>) -> bool) -> bool {
    forall|i: int| 0 <= i < pieces(text, " AND "@).len() ==> truth(#[trigger] pieces(text, " AND "@)[i])
}

/// What a text without groups says, given which of its pieces hold.
pub open spec fn flat_holds(text: Seq<char>, truth: spec_fn(Seq<char>) -> bool) -> bool {
    exists|i: int|
        0 <= i < pieces(text, " OR "@).len() && all_hold(#[trigger] pieces(text, " OR "@)[i], truth)
}

/// Which pieces hold when some of them are groups in parentheses.
pub open spec fn grouping(truth: spec_fn(Seq<char>) -> bool) -> spec_fn(Seq<char>) -> bool {
    |piece: Seq<char>|
        if piece.len() >= 2 && piece[0] == '(' && piece.last() == ')' {
            flat_holds(piece.subrange(1, piece.len() - 1), truth)
        } else {
            truth(piece)
        }
}

/// What a condition says, given which of its simplest parts hold.
pub open spec fn condition_holds(text: Seq<char>, truth: spec_fn(Seq<char>) -> bool) -> bool {
    flat_holds(text, grouping(truth))
}

/// Whether a text holds no such character.
pub open spec fn free_of(text: Seq<char>, c: char) -> bool {
    forall|i: int| 0 <= i < text.len() ==> #[trigger] text[i] != c
}

/// Whether nothing is cut off before the separator behind a text is complete.
pub open spec fn uncut(text: Seq<char>, separator: Seq<char>) -> bool {
    forall|k: int|
        0 < k < text.len() + separator.len() ==> !cuts(
            #[trigger] (text + separator).take(k),
            separator,
        )
}

pub proof fn lemma_depth_add(a: Seq<char>, b: Seq<char>)
    ensures
        depth(a + b) == depth(a) + depth(b),
    decreases b.len(),
{
    if b.len() == 0 {
        assert(a + b =~= a);
    } else {
        assert((a + b).drop_last() =~= a + b.drop_last());
        lemma_depth_add(a, b.drop_last());
    }
}

pub proof fn lemma_depth_none(text: Seq<char>)
    requires
        free_of(text, '('),
        free_of(text, ')'),
    ensures
        depth(text) == 0,
    decreases text.len(),
{
    if text.len() > 0 {
        let init = text.drop_last();
        assert forall|i: int| 0 <= i < init.len() implies #[trigger] init[i] != '(' && init[i]
            != ')' by {
            assert(text[i] != '(' && text[i] != ')');
        }
        lemma_depth_none(init);
        assert(text[text.len() - 1] != '(' && text[text.len() - 1] != ')');
    }
}

proof fn lemma_grow(before: Seq<char>, text: Seq<char>, separator: Seq<char>, k: int)
    requires
        read_pieces(before, separator).rest.len() == 0,
        0 <= k <= text.len(),
        forall|j: int| 0 < j <= k ==> !cuts(#[trigger] text.take(j), separator),
    ensures
        read_pieces(before + text.take(k), separator).done == read_pieces(before, separator).done,
        read_pieces(before + text.take(k), separator).rest == text.take(k),
    decreases k,
{
    if k == 0 {
        assert(before + text.take(0) =~= before);
        assert(read_pieces(before, separator).rest =~= text.take(0));
    } else {
        lemma_grow(before, text, separator, k - 1);
        let longer = before + text.take(k);
        assert(longer.drop_last() =~= before + text.take(k - 1));
        assert(text.take(k - 1).push(longer.last()) =~= text.take(k));
        assert(!cuts(text.take(k), separator));
    }
}

proof fn lemma_read_part(before: Seq<char>, part: Seq<char>, separator: Seq<char>)
    requires
        read_pieces(before, separator).rest.len() == 0,
        separator.len() > 0,
        uncut(part, separator),
        depth(part) == 0,
        depth(separator) == 0,
    ensures
        read_pieces(before + part, separator).done == read_pieces(before, separator).done,
        read_pieces(before + part, separator).rest == part,
        read_pieces(before + part + separator, separator).done == read_pieces(
            before,
            separator,
        ).done.push(part),
        read_pieces(before + part + separator, separator).rest.len() == 0,
{
    let full = part + separator;
    let n = full.len() as int;
    lemma_grow(before, full, separator, part.len() as int);
    assert(full.take(part.len() as int) =~= part);
    lemma_grow(before, full, separator, n - 1);
    let whole = before + part + separator;
    assert(whole.drop_last() =~= before + full.take(n - 1));
    let more = full.take(n - 1).push(whole.last());
    assert(more =~= full);
    lemma_depth_add(part, separator);
    assert(full.skip(n - separator.len()) =~= separator);
    assert(full.take(n - separator.len()) =~= part);
}

/// Parts with a separator between them come apart again where they were put together.
pub proof fn lemma_pieces_of_join(parts: Seq<Seq<char>>, separator: Seq<char>)
    requires
        parts.len() > 0,
        separator.len() > 0,
        depth(separator) == 0,
        forall|i: int|
            0 <= i < parts.len() ==> uncut(#[trigger] parts[i], separator) && depth(parts[i]) == 0,
    ensures
        pieces(join(parts, separator), separator) == parts,
        read_pieces(join(parts, separator) + separator, separator).done == parts,
        read_pieces(join(parts, separator) + separator, separator).rest.len() == 0,
    decreases parts.len(),
{
    let init = parts.drop_last();
    let last = parts.last();
    assert(parts[parts.len() - 1] == last);
    assert(init.push(last) =~= parts);
    if parts.len() == 1 {
        let nothing = Seq::<char>::empty();
        assert(read_pieces(nothing, separator).done =~= init);
        lemma_read_part(nothing, last, separator);
        assert(nothing + last =~= last);
    } else {
        assert forall|i: int| 0 <= i < init.len() implies uncut(#[trigger] init[i], separator)
            && depth(init[i]) == 0 by {
            assert(init[i] == parts[i]);
        }
        lemma_pieces_of_join(init, separator);
        lemma_read_part(join(init, separator) + separator, last, separator);
    }
}

/// A text in which no separator is complete is one piece.
pub proof fn lemma_one_piece(text: Seq<char>, separator: Seq<char>)
    requires
        forall|k: int| 0 < k <= text.len() ==> !cuts(#[trigger] text.take(k), separator),
    ensures
        pieces(text, separator) == seq![text],
{
    let nothing = Seq::<char>::empty();
    lemma_grow(nothing, text, separator, text.len() as int);
    assert(nothing + text.take(text.len() as int) =~= text);
    assert(text.take(text.len() as int) =~= text);
    assert(read_pieces(nothing, separator).done =~= Seq::<Seq<char>>::empty());
    assert(pieces(text, separator) =~= seq![text]);
}

/// A character that stands once in the separator, and not in the text, keeps the text uncut.
pub proof fn lemma_uncut_by_mark(text: Seq<char>, separator: Seq<char>, mark: int)
    requires
        0 <= mark < separator.len(),
        forall|i: int|
            0 <= i < separator.len() && i != mark ==> #[trigger] separator[i] != separator[mark],
        free_of(text, separator[mark]),
    ensures
        uncut(text, separator),
        forall|k: int| 0 < k <= text.len() ==> !cuts(#[trigger] text.take(k), separator),
{
    let full = text + separator;
    assert forall|k: int| 0 < k < full.len() implies !cuts(
        #[trigger] full.take(k),
        separator,
    ) by {
        let t = full.take(k);
        if ends_with(t, separator) {
            let at = k - separator.len() + mark;
            assert(t.skip(t.len() - separator.len())[mark] == t[at]);
            if at < text.len() {
                assert(text[at] != separator[mark]);
            } else {
                assert(separator[at - text.len()] == separator[mark]);
            }
        }
    }
    assert forall|k: int| 0 < k <= text.len() implies !cuts(#[trigger] text.take(k), separator) by {
        assert(full.take(k) =~= text.take(k));
    }
}

/// A text without spaces is uncut by a separator that begins and ends with a space.
pub proof fn lemma_uncut_by_space(text: Seq<char>, separator: Seq<char>)
    requires
        separator.len() > 0,
        separator[0] == ' ',
        free_of(text, ' '),
    ensures
        uncut(text, separator),
        forall|k: int| 0 < k <= text.len() ==> !cuts(#[trigger] text.take(k), separator),
{
    let full = text + separator;
    assert forall|k: int| 0 < k < full.len() implies !cuts(
        #[trigger] full.take(k),
        separator,
    ) by {
        let t = full.take(k);
        if ends_with(t, separator) {
            let at = k - separator.len();
            assert(t.skip(t.len() - separator.len())[0] == t[at]);
            assert(text[at] != ' ');
        }
    }
    assert forall|k: int| 0 < k <= text.len() implies !cuts(#[trigger] text.take(k), separator) by {
        assert(full.take(k) =~= text.take(k));
    }
}

/// A group in parentheses is uncut by AND.
pub proof fn lemma_group_uncut(inner: Seq<char>)
    requires
        free_of(inner, '('),
        free_of(inner, ')'),
    ensures
        uncut(seq!['('] + inner + seq![')'], " AND "@),
        depth(seq!['('] + inner + seq![')']) == 0,
        forall|k: int|
            0 < k <= inner.len() + 1 ==> depth(
                #[trigger] (seq!['('] + inner + seq![')']).take(k),
            ) == 1,
{
    reveal_strlit(" AND ");
    let separator = " AND "@;
    let group = seq!['('] + inner + seq![')'];
    let full = group + separator;
    let open = seq!['('];
    let close = seq![')'];
    assert(open.drop_last() =~= Seq::<char>::empty());
    assert(close.drop_last() =~= Seq::<char>::empty());
    assert(depth(Seq::<char>::empty()) == 0);
    assert(depth(open) == 1);
    lemma_depth_none(inner);
    lemma_depth_add(open, inner);
    lemma_depth_add(open + inner, close);
    assert forall|k: int| 0 < k <= inner.len() + 1 implies depth(#[trigger] group.take(k)) == 1 by {
        let part = inner.take(k - 1);
        assert forall|i: int| 0 <= i < part.len() implies #[trigger] part[i] != '(' && part[i]
            != ')' by {
            assert(inner[i] != '(' && inner[i] != ')');
        }
        lemma_depth_none(part);
        lemma_depth_add(open, part);
        assert(depth(open + part) == 1);
        assert(group.take(k) =~= open + part);
    }
    assert forall|k: int| 0 < k < full.len() implies !cuts(
        #[trigger] full.take(k),
        separator,
    ) by {
        let t = full.take(k);
        if k < group.len() {
            assert(t =~= group.take(k));
        } else if ends_with(t, separator) {
            assert(t.skip(t.len() - 5)[4] == t[k - 1]);
            assert(t.skip(t.len() - 5)[3] == t[k - 2]);
        }
    }
}

} // verus!
