//! Lines of markup in the one order that makes a page byte-stable: sorted by
//! their text.

use crate::manifest::texts;
use vstd::prelude::*;
use vstd::relations::{sorted_by, total_ordering};
use vstd::string::*;

verus! {

/// Whether `left` comes no later than `right` when strings are compared
/// character by character, a shorter string before any longer one that it
/// starts.
pub open spec fn text_le(left: Seq<char>, right: Seq<char>) -> bool
    decreases left.len(),
{
    if left.len() == 0 {
        true
    } else if right.len() == 0 {
        false
    } else if left[0] != right[0] {
        (left[0] as int) < (right[0] as int)
    } else {
        text_le(left.skip(1), right.skip(1))
    }
}

/// The order of strings as a relation.
pub open spec fn by_text() -> spec_fn(Seq<char>, Seq<char>) -> bool {
    |left: Seq<char>, right: Seq<char>| text_le(left, right)
}

proof fn lemma_text_le_reflexive(text: Seq<char>)
    ensures
        text_le(text, text),
    decreases text.len(),
{
    if text.len() > 0 {
        lemma_text_le_reflexive(text.skip(1));
    }
}

proof fn lemma_text_le_antisymmetric(left: Seq<char>, right: Seq<char>)
    requires
        text_le(left, right),
        text_le(right, left),
    ensures
        left == right,
    decreases left.len(),
{
    if left.len() == 0 || right.len() == 0 {
        assert(left =~= right);
    } else {
        lemma_text_le_antisymmetric(left.skip(1), right.skip(1));
        assert(left =~= seq![left[0]] + left.skip(1));
        assert(right =~= seq![right[0]] + right.skip(1));
    }
}

proof fn lemma_text_le_transitive(first: Seq<char>, second: Seq<char>, third: Seq<char>)
    requires
        text_le(first, second),
        text_le(second, third),
    ensures
        text_le(first, third),
    decreases first.len(),
{
    if first.len() > 0 && first[0] == second[0] && second[0] == third[0] {
        lemma_text_le_transitive(first.skip(1), second.skip(1), third.skip(1));
    }
}

proof fn lemma_text_le_connected(left: Seq<char>, right: Seq<char>)
    ensures
        text_le(left, right) || text_le(right, left),
    decreases left.len(),
{
    if left.len() > 0 && right.len() > 0 && left[0] == right[0] {
        lemma_text_le_connected(left.skip(1), right.skip(1));
    }
}

/// Any two strings compare, and the comparison is an order.
pub proof fn lemma_text_order_is_total()
    ensures
        total_ordering(by_text()),
{
    let leq = by_text();
    assert forall|text: Seq<char>| #[trigger] leq(text, text) by {
        lemma_text_le_reflexive(text);
    }
    assert forall|left: Seq<char>, right: Seq<char>| #[trigger]
        leq(left, right) && #[trigger] leq(right, left) implies left == right by {
        lemma_text_le_antisymmetric(left, right);
    }
    assert forall|first: Seq<char>, second: Seq<char>, third: Seq<char>| #[trigger]
        leq(first, second) && #[trigger] leq(second, third) implies leq(first, third) by {
        lemma_text_le_transitive(first, second, third);
    }
    assert forall|left: Seq<char>, right: Seq<char>| #[trigger]
        leq(left, right) || #[trigger] leq(right, left) by {
        lemma_text_le_connected(left, right);
    }
}

/// `sort` of the standard library on a vector of strings: afterwards the
/// vector holds the same strings as often as before, in ascending order.
///
/// Trusted. Strings are compared byte by byte, which for UTF-8 is the order
/// of their characters' code points.
#[verifier::external_body]
pub(crate) fn sort_lines(lines: &mut Vec<String>)
    ensures
        texts(final(lines)@).to_multiset() == texts(old(lines)@).to_multiset(),
        sorted_by(texts(final(lines)@), by_text()),
{
    lines.sort()
}

/// The text made of each line followed by a line break.
pub open spec fn joined(lines: Seq<Seq<char>>) -> Seq<char>
    decreases lines.len(),
{
    if lines.len() == 0 {
        Seq::empty()
    } else {
        joined(lines.drop_last()) + lines.last() + "\n"@
    }
}

/// Appends each line, followed by a line break, to `text`.
pub fn append_lines(text: &mut String, lines: &Vec<String>)
    ensures
        final(text)@ == old(text)@ + joined(texts(lines@)),
{
    let ghost before = text@;
    let mut i: usize = 0;
    proof {
        assert(text@ =~= before + joined(texts(lines@).take(0)));
    }
    while i < lines.len()
        invariant
            i <= lines@.len(),
            text@ == before + joined(texts(lines@).take(i as int)),
        decreases lines@.len() - i,
    {
        proof {
            let longer = texts(lines@).take(i + 1);
            assert(longer.drop_last() =~= texts(lines@).take(i as int));
            assert(longer.last() == lines@[i as int]@);
        }
        text.append(lines[i].as_str());
        text.append("\n");
        i = i + 1;
        proof {
            assert(text@ =~= before + joined(texts(lines@).take(i as int)));
        }
    }
    proof {
        assert(texts(lines@).take(i as int) =~= texts(lines@));
    }
}

/// Two lists without repetitions that hold the same things hold each of
/// them equally often.
pub proof fn lemma_same_members_same_counts<A>(left: Seq<A>, right: Seq<A>)
    requires
        left.no_duplicates(),
        right.no_duplicates(),
        left.to_set() == right.to_set(),
    ensures
        left.to_multiset() == right.to_multiset(),
{
    left.lemma_multiset_has_no_duplicates();
    right.lemma_multiset_has_no_duplicates();
    left.to_multiset_ensures();
    right.to_multiset_ensures();
    assert forall|item: A| left.to_multiset().count(item) == right.to_multiset().count(item) by {
        assert(left.contains(item) <==> left.to_set().contains(item));
        assert(right.contains(item) <==> right.to_set().contains(item));
        if left.contains(item) {
            assert(left.to_multiset().contains(item));
            assert(right.to_multiset().contains(item));
        }
    }
    assert(left.to_multiset() =~= right.to_multiset());
}

/// Lists that hold the same things equally often still do after each thing
/// was replaced by what `change` makes of it.
pub proof fn lemma_map_keeps_counts<A, B>(left: Seq<A>, right: Seq<A>, change: spec_fn(A) -> B)
    requires
        left.to_multiset() == right.to_multiset(),
    ensures
        left.map_values(change).to_multiset() == right.map_values(change).to_multiset(),
    decreases left.len(),
{
    left.to_multiset_ensures();
    right.to_multiset_ensures();
    if left.len() == 0 {
        assert(right.len() == 0);
        assert(left.map_values(change) =~= right.map_values(change));
    } else {
        let item = left.last();
        assert(left[left.len() - 1] == item);
        assert(left.contains(item));
        assert(right.to_multiset().count(item) > 0);
        assert(right.contains(item));
        let at = choose|at: int| 0 <= at < right.len() && right[at] == item;
        let shorter_left = left.drop_last();
        let shorter_right = right.remove(at);
        assert(left.remove(left.len() - 1) =~= shorter_left);
        assert(shorter_left.to_multiset() =~= left.to_multiset().remove(item));
        assert(shorter_right.to_multiset() =~= right.to_multiset().remove(item));
        lemma_map_keeps_counts(shorter_left, shorter_right, change);
        let changed_left = left.map_values(change);
        let changed_right = right.map_values(change);
        changed_left.to_multiset_ensures();
        changed_right.to_multiset_ensures();
        assert(changed_left.remove(left.len() - 1) =~= shorter_left.map_values(change));
        assert(changed_right.remove(at) =~= shorter_right.map_values(change));
        assert(changed_left[left.len() - 1] == change(item));
        assert(changed_right[at] == change(item));
        assert(changed_left.to_multiset().count(change(item)) > 0) by {
            assert(changed_left.contains(change(item)));
        }
        assert(changed_right.to_multiset().count(change(item)) > 0) by {
            assert(changed_right.contains(change(item)));
        }
        assert(changed_left.to_multiset() =~= changed_left.to_multiset().remove(
            change(item),
        ).insert(change(item)));
        assert(changed_right.to_multiset() =~= changed_right.to_multiset().remove(
            change(item),
        ).insert(change(item)));
    }
}

/// Sorted lists that hold the same strings equally often are the same list.
pub proof fn lemma_sorted_lines_agree(left: Seq<Seq<char>>, right: Seq<Seq<char>>)
    requires
        sorted_by(left, by_text()),
        sorted_by(right, by_text()),
        left.to_multiset() == right.to_multiset(),
    ensures
        left == right,
{
    lemma_text_order_is_total();
    vstd::seq_lib::lemma_sorted_unique(left, right, by_text());
}

} // verus!
