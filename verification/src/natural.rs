//! Natural order: numbers inside names are compared by value, so page 2 comes before page 10.

use crate::text::{is_digit, leading_digits, leading_number, starts_with_number};
use vstd::prelude::*;
use vstd::seq_lib::*;

verus! {

/// Whether `alphanumeric_sort::compare_str` does not order the first text after the second.
pub uninterp spec fn natural_le(a: Seq<char>, b: Seq<char>) -> bool;

/// A list of numbered names, each name by its characters.
pub open spec fn keyed(items: Seq<(usize, String)>) -> Seq<(usize, Seq<char>)> {
    items.map_values(|item: (usize, String)| (item.0, item.1@))
}

/// Whether the numbers of a list rise from each item to the next.
pub open spec fn numbered_upwards<T>(items: Seq<(usize, T)>) -> bool {
    forall|i: int, j: int| 0 <= i < j < items.len() ==> (#[trigger] items[i]).0 < (#[trigger] items[j]).0
}

/// Whether two names are equal up to a place where both have a number that starts there, and
/// differ in those numbers.
pub open spec fn differ_in_number_at(a: Seq<char>, b: Seq<char>, at: int) -> bool {
    &&& 0 <= at <= a.len() && at <= b.len()
    &&& a.take(at) == b.take(at)
    &&& at == 0 || !is_digit(a[at - 1])
    &&& starts_with_number(a.skip(at))
    &&& starts_with_number(b.skip(at))
    &&& leading_number(a.skip(at)) != leading_number(b.skip(at))
}

/// Whether two names are equal up to different numbers.
pub open spec fn differ_in_number(a: Seq<char>, b: Seq<char>) -> bool {
    exists|at: int| differ_in_number_at(a, b, at)
}

/// Whether the first of two names has the smaller number, where they differ in a number.
pub open spec fn has_smaller_number(a: Seq<char>, b: Seq<char>) -> bool {
    exists|at: int| #[trigger]
        differ_in_number_at(a, b, at) && leading_number(a.skip(at)) < leading_number(b.skip(at))
}

/// Whether an item stands before another one: where the names are equal up to different numbers, by
/// those; else by name, and by place where the names are equal.
pub open spec fn stands_before(a: (usize, Seq<char>), b: (usize, Seq<char>)) -> bool {
    if differ_in_number(a.1, b.1) {
        has_smaller_number(a.1, b.1)
    } else {
        &&& natural_le(a.1, b.1)
        &&& natural_le(b.1, a.1) ==> a.1 == b.1
        &&& a.1 == b.1 ==> a.0 < b.0
    }
}

/// Names differ in a number at one place at most.
proof fn lemma_one_difference(a: Seq<char>, b: Seq<char>, i: int, j: int)
    requires
        differ_in_number_at(a, b, i),
        differ_in_number_at(a, b, j),
    ensures
        i == j,
{
    if i < j {
        lemma_same_number(a, b, i, j);
    } else if j < i {
        lemma_same_number(a, b, j, i);
    }
}

proof fn lemma_same_number(a: Seq<char>, b: Seq<char>, at: int, end: int)
    requires
        0 <= at < end <= a.len(),
        end <= b.len(),
        a.take(end) == b.take(end),
        !is_digit(a[end - 1]),
    ensures
        leading_digits(a.skip(at)) == leading_digits(b.skip(at)),
    decreases end - at,
{
    let (x, y) = (a.skip(at), b.skip(at));
    assert(x[0] == a.take(end)[at]);
    assert(y[0] == b.take(end)[at]);
    if is_digit(x[0]) {
        assert(at < end - 1);
        assert(x.drop_first() =~= a.skip(at + 1));
        assert(y.drop_first() =~= b.skip(at + 1));
        lemma_same_number(a, b, at + 1, end);
    }
}

proof fn lemma_difference_is_mutual(a: Seq<char>, b: Seq<char>, at: int)
    requires
        differ_in_number_at(a, b, at),
    ensures
        differ_in_number_at(b, a, at),
{
    if at > 0 {
        assert(a.take(at)[at - 1] == b.take(at)[at - 1]);
    }
}

/// Of two items at most one stands before the other.
proof fn lemma_stands_before_is_strict(a: (usize, Seq<char>), b: (usize, Seq<char>))
    requires
        stands_before(a, b),
    ensures
        !stands_before(b, a),
{
    if stands_before(b, a) {
        if differ_in_number(a.1, b.1) {
            let i = choose|at: int| #[trigger]
                differ_in_number_at(a.1, b.1, at) && leading_number(a.1.skip(at)) < leading_number(
                    b.1.skip(at),
                );
            lemma_difference_is_mutual(a.1, b.1, i);
            let j = choose|at: int| #[trigger]
                differ_in_number_at(b.1, a.1, at) && leading_number(b.1.skip(at)) < leading_number(
                    a.1.skip(at),
                );
            lemma_one_difference(b.1, a.1, i, j);
        } else if differ_in_number(b.1, a.1) {
            let i = choose|at: int| differ_in_number_at(b.1, a.1, at);
            lemma_difference_is_mutual(b.1, a.1, i);
        }
    }
}

/// Names that are equal up to different numbers stand in the order of those, wherever the numbers
/// start: after the same text, chapter 2 comes before chapter 10.
pub proof fn law_numbers_count_by_value(
    prefix: Seq<char>,
    a: (usize, Seq<char>),
    b: (usize, Seq<char>),
)
    requires
        prefix.len() == 0 || !is_digit(prefix.last()),
        starts_with_number(a.1),
        starts_with_number(b.1),
        leading_number(a.1) < leading_number(b.1),
    ensures
        stands_before((a.0, prefix + a.1), (b.0, prefix + b.1)),
        !stands_before((b.0, prefix + b.1), (a.0, prefix + a.1)),
{
    let at = prefix.len() as int;
    let (x, y) = (prefix + a.1, prefix + b.1);
    assert(x.take(at) =~= prefix && y.take(at) =~= prefix);
    assert(x.skip(at) =~= a.1 && y.skip(at) =~= b.1);
    assert(differ_in_number_at(x, y, at));
    lemma_stands_before_is_strict((a.0, x), (b.0, y));
}

/// Whether one list holds the items of another one in natural order.
pub open spec fn is_natural_order(
    items: Seq<(usize, Seq<char>)>,
    sorted: Seq<(usize, Seq<char>)>,
) -> bool {
    &&& sorted.to_multiset() == items.to_multiset()
    &&& forall|i: int, j: int|
        0 <= i < j < sorted.len() ==> stands_before(#[trigger] sorted[i], #[trigger] sorted[j])
}

/// The items of a list in natural order.
pub open spec fn natural_order(items: Seq<(usize, Seq<char>)>) -> Seq<(usize, Seq<char>)> {
    choose|sorted: Seq<(usize, Seq<char>)>| is_natural_order(items, sorted)
}

/// There is one natural order: two lists that hold the same items in it are equal.
pub proof fn law_natural_order_is_unique(
    items: Seq<(usize, Seq<char>)>,
    a: Seq<(usize, Seq<char>)>,
    b: Seq<(usize, Seq<char>)>,
)
    requires
        is_natural_order(items, a),
        is_natural_order(items, b),
    ensures
        a == b,
    decreases a.len(),
{
    broadcast use group_to_multiset_ensures;

    a.to_multiset_ensures();
    b.to_multiset_ensures();
    assert(a.len() == b.len());
    if a.len() > 0 {
        if a[0] != b[0] {
            assert(a.contains(a[0]) && b.contains(b[0]));
            assert(b.to_multiset().count(a[0]) > 0);
            assert(a.to_multiset().count(b[0]) > 0);
            assert(b.contains(a[0]) && a.contains(b[0]));
            let i = choose|i: int| 0 <= i < a.len() && a[i] == b[0];
            let j = choose|j: int| 0 <= j < b.len() && b[j] == a[0];
            assert(stands_before(a[0], a[i]));
            assert(stands_before(b[0], b[j]));
            lemma_stands_before_is_strict(a[0], b[0]);
        }
        let rest = a.remove(0);
        assert(rest.to_multiset() =~= a.to_multiset().remove(a[0]));
        assert(b.remove(0).to_multiset() =~= b.to_multiset().remove(b[0]));
        law_natural_order_is_unique(rest, rest, b.remove(0));
        assert(a =~= seq![a[0]] + rest);
        assert(b =~= seq![b[0]] + b.remove(0));
    } else {
        assert(a =~= b);
    }
}

/// A list in natural order is the natural order.
pub proof fn lemma_natural_order(
    items: Seq<(usize, Seq<char>)>,
    sorted: Seq<(usize, Seq<char>)>,
)
    requires
        is_natural_order(items, sorted),
    ensures
        sorted == natural_order(items),
{
    law_natural_order_is_unique(items, sorted, natural_order(items));
}

/// Sorts names with `alphanumeric_sort::sort_slice_by_str_key`.
///
/// That function keeps the items and orders them by `compare_str`, which is a total order in which
/// only identical texts are equal, and in which texts that are equal up to different numbers stand
/// in the order of those; it is stable, so equal names stay in their order.
#[verifier::external_body]
fn sort_by_name(items: &mut Vec<(usize, String)>)
    requires
        numbered_upwards(old(items)@),
    ensures
        keyed(final(items)@).to_multiset() == keyed(old(items)@).to_multiset(),
        forall|i: int, j: int|
            #![trigger final(items)@[i], final(items)@[j]]
            0 <= i < j < final(items)@.len() ==> {
                let (a, b) = (final(items)@[i], final(items)@[j]);
                if differ_in_number(a.1@, b.1@) {
                    has_smaller_number(a.1@, b.1@)
                } else {
                    &&& natural_le(a.1@, b.1@)
                    &&& natural_le(b.1@, a.1@) ==> a.1@ == b.1@
                    &&& a.1@ == b.1@ ==> a.0 < b.0
                }
            },
{
    alphanumeric_sort::sort_slice_by_str_key(items, |item| &item.1);
}

/// Sorts paths with `alphanumeric_sort::sort_slice_by_path_key`.
///
/// On paths that are text, that function orders by `compare_str` as well, and is stable too.
#[verifier::external_body]
fn sort_by_path(items: &mut Vec<(usize, String)>)
    requires
        numbered_upwards(old(items)@),
    ensures
        keyed(final(items)@).to_multiset() == keyed(old(items)@).to_multiset(),
        forall|i: int, j: int|
            #![trigger final(items)@[i], final(items)@[j]]
            0 <= i < j < final(items)@.len() ==> {
                let (a, b) = (final(items)@[i], final(items)@[j]);
                if differ_in_number(a.1@, b.1@) {
                    has_smaller_number(a.1@, b.1@)
                } else {
                    &&& natural_le(a.1@, b.1@)
                    &&& natural_le(b.1@, a.1@) ==> a.1@ == b.1@
                    &&& a.1@ == b.1@ ==> a.0 < b.0
                }
            },
{
    alphanumeric_sort::sort_slice_by_path_key(items, |item| &item.1);
}

/// Puts numbered names into natural order.
pub fn sort_names(items: &mut Vec<(usize, String)>)
    requires
        numbered_upwards(old(items)@),
    ensures
        keyed(final(items)@) == natural_order(keyed(old(items)@)),
        is_natural_order(keyed(old(items)@), keyed(final(items)@)),
        final(items)@.len() == old(items)@.len(),
{
    sort_by_name(items);
    proof {
        let sorted = keyed(items@);
        assert forall|i: int, j: int| 0 <= i < j < sorted.len() implies stands_before(
            #[trigger] sorted[i],
            #[trigger] sorted[j],
        ) by {
            let (a, b) = (items@[i], items@[j]);
        }
        lemma_natural_order(keyed(old(items)@), keyed(items@));
        keyed(old(items)@).to_multiset_ensures();
        keyed(items@).to_multiset_ensures();
    }
}

/// Puts numbered paths into natural order.
pub fn sort_paths(items: &mut Vec<(usize, String)>)
    requires
        numbered_upwards(old(items)@),
    ensures
        keyed(final(items)@) == natural_order(keyed(old(items)@)),
        is_natural_order(keyed(old(items)@), keyed(final(items)@)),
        final(items)@.len() == old(items)@.len(),
{
    sort_by_path(items);
    proof {
        let sorted = keyed(items@);
        assert forall|i: int, j: int| 0 <= i < j < sorted.len() implies stands_before(
            #[trigger] sorted[i],
            #[trigger] sorted[j],
        ) by {
            let (a, b) = (items@[i], items@[j]);
        }
        lemma_natural_order(keyed(old(items)@), keyed(items@));
        keyed(old(items)@).to_multiset_ensures();
        keyed(items@).to_multiset_ensures();
    }
}

/// Numbered names keep their places, their numbers and their characters.
pub proof fn law_keyed(items: Seq<(usize, String)>, i: int)
    requires
        0 <= i < items.len(),
    ensures
        keyed(items).len() == items.len(),
        keyed(items)[i].0 == items[i].0,
        keyed(items)[i].1 == items[i].1@,
{
}

/// Where numbers rise in a list, each is smaller than all that follow.
pub proof fn law_numbered_upwards(items: Seq<(usize, String)>, i: int, j: int)
    requires
        numbered_upwards(items),
        0 <= i < j < items.len(),
    ensures
        items[i].0 < items[j].0,
{
}

/// A list in natural order has the items of the list that it orders, each as often.
pub proof fn law_natural_order_keeps_items(
    items: Seq<(usize, Seq<char>)>,
    sorted: Seq<(usize, Seq<char>)>,
    i: int,
    j: int,
)
    requires
        is_natural_order(items, sorted),
    ensures
        sorted.len() == items.len(),
        sorted.to_multiset() == items.to_multiset(),
        0 <= i < j < sorted.len() ==> stands_before(sorted[i], sorted[j]),
        sorted == natural_order(items),
{
    items.to_multiset_ensures();
    sorted.to_multiset_ensures();
    lemma_natural_order(items, sorted);
}

} // verus!
