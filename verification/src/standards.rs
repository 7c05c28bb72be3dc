//! The calibration standards as (dose, response) points: their order by
//! dose, their weakest and strongest response, and the steepest rise between
//! neighbours.
//!
//! Every number is the binary64 encoding of a value, and every comparison is
//! one of encodings.

use vstd::prelude::*;
use vstd::seq_lib::{to_multiset_build, to_multiset_remove};
use crate::binary64::{exceeds, greater, nan, total_le, total_rank, value_rank};

verus! {

/// The points with the given dose.
pub open spec fn has_dose(dose: u64) -> spec_fn((u64, u64)) -> bool {
    |point: (u64, u64)| point.0 == dose
}

/// Whether the doses never go down, in the total order.
pub open spec fn dose_ordered(points: Seq<(u64, u64)>) -> bool {
    forall|i: int, j: int|
        0 <= i < j < points.len() ==> total_rank(#[trigger] points[i].0) <= total_rank(
            #[trigger] points[j].0,
        )
}

/// Whether `sorted` is `points` in dose order, points of one dose keeping the
/// order they had: the same points, each as often as before, with doses that
/// never go down, and for every dose the points that have it in the order in
/// which `points` has them.
pub open spec fn is_dose_ordering_of(sorted: Seq<(u64, u64)>, points: Seq<(u64, u64)>) -> bool {
    &&& sorted.len() == points.len()
    &&& sorted.to_multiset() == points.to_multiset()
    &&& dose_ordered(sorted)
    &&& forall|dose: u64| #[trigger]
        sorted.filter(has_dose(dose)) == points.filter(has_dose(dose))
}

/// Whether `response` is the response of some point, and first among all the
/// responses in the total order.
pub open spec fn is_weakest(points: Seq<(u64, u64)>, response: u64) -> bool {
    &&& exists|i: int| 0 <= i < points.len() && (#[trigger] points[i]).1 == response
    &&& forall|j: int|
        0 <= j < points.len() ==> total_rank(response) <= total_rank((#[trigger] points[j]).1)
}

/// Whether `response` is the response of some point, and last among all the
/// responses in the total order.
pub open spec fn is_strongest(points: Seq<(u64, u64)>, response: u64) -> bool {
    &&& exists|i: int| 0 <= i < points.len() && (#[trigger] points[i]).1 == response
    &&& forall|j: int|
        0 <= j < points.len() ==> total_rank((#[trigger] points[j]).1) <= total_rank(response)
}

/// The weakest response among the points.
pub open spec fn weakest(points: Seq<(u64, u64)>) -> u64 {
    choose|response: u64| is_weakest(points, response)
}

/// The strongest response among the points.
pub open spec fn strongest(points: Seq<(u64, u64)>) -> u64 {
    choose|response: u64| is_strongest(points, response)
}

/// Whether pair `i` is the steepest rise: its incline is above zero and above
/// every earlier incline that is a number, and no later incline is above it.
pub open spec fn is_steepest(inclines: Seq<u64>, i: int) -> bool {
    &&& 0 <= i < inclines.len()
    &&& greater(inclines[i], 0)
    &&& forall|j: int|
        0 <= j < i ==> nan(#[trigger] inclines[j]) || greater(inclines[i], inclines[j])
    &&& forall|j: int| i < j < inclines.len() ==> !greater(#[trigger] inclines[j], inclines[i])
}

/// The points in dose order. Points of one dose keep the order they had.
pub fn sort_by_dose(points: &Vec<(u64, u64)>) -> (sorted: Vec<(u64, u64)>)
    ensures
        is_dose_ordering_of(sorted@, points@),
{
    let mut sorted: Vec<(u64, u64)> = Vec::new();
    let mut i: usize = 0;
    proof {
        assert(sorted@ =~= points@.take(0));
    }
    while i < points.len()
        invariant
            i <= points@.len(),
            sorted@.len() == i,
            sorted@.to_multiset() == points@.take(i as int).to_multiset(),
            dose_ordered(sorted@),
            forall|dose: u64| #[trigger]
                sorted@.filter(has_dose(dose)) == points@.take(i as int).filter(has_dose(dose)),
        decreases points@.len() - i,
    {
        let point = points[i];
        let mut p: usize = sorted.len();
        while p > 0 && !total_le(sorted[p - 1].0, point.0)
            invariant
                p <= sorted@.len(),
                forall|k: int|
                    p <= k < sorted@.len() ==> total_rank((#[trigger] sorted@[k]).0) > total_rank(
                        point.0,
                    ),
            decreases p,
        {
            p -= 1;
        }
        let ghost before = sorted@;
        sorted.insert(p, point);
        proof {
            lemma_insert_in_order(before, p as int, point);
            lemma_insert_multiset(before, p as int, point);
            assert(points@.take(i + 1) =~= points@.take(i as int).push(point));
            to_multiset_build(points@.take(i as int), point);
            assert forall|dose: u64| #[trigger]
                sorted@.filter(has_dose(dose)) == points@.take(i + 1).filter(has_dose(dose)) by {
                let seen = points@.take(i as int);
                assert(points@.take(i + 1) =~= seen.push(point));
                seen.lemma_filter_push(point, has_dose(dose));
                lemma_insert_filter(before, p as int, point, dose);
                assert(before.filter(has_dose(dose)) == seen.filter(has_dose(dose)));
            }
        }
        i += 1;
    }
    assert(points@.take(points@.len() as int) =~= points@);
    sorted
}

/// The weakest response among the points.
pub fn lowest_response(points: &Vec<(u64, u64)>) -> (response: u64)
    requires
        points@.len() > 0,
    ensures
        is_weakest(points@, response),
        response == weakest(points@),
{
    let mut response: u64 = points[0].1;
    let mut i: usize = 1;
    while i < points.len()
        invariant
            1 <= i <= points@.len(),
            exists|k: int| 0 <= k < i && (#[trigger] points@[k]).1 == response,
            forall|j: int|
                0 <= j < i ==> total_rank(response) <= total_rank((#[trigger] points@[j]).1),
        decreases points@.len() - i,
    {
        if !total_le(response, points[i].1) {
            response = points[i].1;
        }
        i += 1;
    }
    proof {
        lemma_weakest_is_unique(points@, response, weakest(points@));
    }
    response
}

/// The strongest response among the points.
pub fn highest_response(points: &Vec<(u64, u64)>) -> (response: u64)
    requires
        points@.len() > 0,
    ensures
        is_strongest(points@, response),
        response == strongest(points@),
{
    let mut response: u64 = points[0].1;
    let mut i: usize = 1;
    while i < points.len()
        invariant
            1 <= i <= points@.len(),
            exists|k: int| 0 <= k < i && (#[trigger] points@[k]).1 == response,
            forall|j: int|
                0 <= j < i ==> total_rank((#[trigger] points@[j]).1) <= total_rank(response),
        decreases points@.len() - i,
    {
        if !total_le(points[i].1, response) {
            response = points[i].1;
        }
        i += 1;
    }
    proof {
        lemma_strongest_is_unique(points@, response, strongest(points@));
    }
    response
}

/// The pair of neighbouring standards between which the response rises most
/// steeply, given the incline of each pair: the first pair whose incline is
/// above zero and above that of every pair before it, and that no later pair
/// beats. None where no incline is above zero.
pub fn steepest_rise(inclines: &Vec<u64>) -> (pair: Option<usize>)
    ensures
        match pair {
            Some(i) => is_steepest(inclines@, i as int),
            None => forall|j: int|
                0 <= j < inclines@.len() ==> !greater(#[trigger] inclines@[j], 0),
        },
{
    let mut pair: Option<usize> = None;
    let mut top: u64 = 0;
    let mut i: usize = 0;
    while i < inclines.len()
        invariant
            i <= inclines@.len(),
            !nan(top),
            value_rank(top) >= 0,
            match pair {
                Some(b) => {
                    &&& b < i
                    &&& top == inclines@[b as int]
                    &&& greater(top, 0)
                    &&& forall|j: int|
                        0 <= j < b ==> nan(#[trigger] inclines@[j]) || greater(top, inclines@[j])
                    &&& forall|j: int| b < j < i ==> !greater(#[trigger] inclines@[j], top)
                },
                None => top == 0 && forall|j: int|
                    0 <= j < i ==> !greater(#[trigger] inclines@[j], 0),
            },
        decreases inclines@.len() - i,
    {
        if exceeds(inclines[i], top) {
            top = inclines[i];
            pair = Some(i);
        }
        i += 1;
    }
    pair
}

/// There is only one way to put points in dose order with points of one dose
/// keeping the order they had.
pub proof fn lemma_dose_ordering_is_unique(
    points: Seq<(u64, u64)>,
    first: Seq<(u64, u64)>,
    second: Seq<(u64, u64)>,
)
    requires
        is_dose_ordering_of(first, points),
        is_dose_ordering_of(second, points),
    ensures
        first == second,
{
    lemma_same_order(first, second);
}

/// Two sequences in dose order that agree, for every dose, on the points of
/// that dose and their order are the same sequence.
proof fn lemma_same_order(a: Seq<(u64, u64)>, b: Seq<(u64, u64)>)
    requires
        a.len() == b.len(),
        dose_ordered(a),
        dose_ordered(b),
        forall|dose: u64| #[trigger] a.filter(has_dose(dose)) == b.filter(has_dose(dose)),
    ensures
        a =~= b,
    decreases a.len(),
{
    if a.len() > 0 {
        let x = a.last();
        let y = b.last();
        let front = a.drop_last();
        let back = b.drop_last();
        assert(a =~= front.push(x));
        assert(b =~= back.push(y));
        lemma_last_dose_is_shared(a, b);
        lemma_last_dose_is_shared(b, a);
        assert(x.0 == y.0);
        assert forall|dose: u64| #[trigger]
            front.filter(has_dose(dose)) == back.filter(has_dose(dose)) by {
            front.lemma_filter_push(x, has_dose(dose));
            back.lemma_filter_push(y, has_dose(dose));
            assert(a.filter(has_dose(dose)) == b.filter(has_dose(dose)));
            if x.0 == dose {
                let kept = front.filter(has_dose(dose));
                let other = back.filter(has_dose(dose));
                assert(kept.push(x) == other.push(y));
                assert(kept =~= kept.push(x).drop_last());
                assert(other =~= other.push(y).drop_last());
            }
        }
        assert(x == y) by {
            front.lemma_filter_push(x, has_dose(x.0));
            back.lemma_filter_push(y, has_dose(x.0));
            assert(a.filter(has_dose(x.0)) == b.filter(has_dose(x.0)));
            assert(front.filter(has_dose(x.0)).push(x).last() == x);
            assert(back.filter(has_dose(x.0)).push(y).last() == y);
        }
        assert(dose_ordered(front)) by {
            assert forall|i: int, j: int| 0 <= i < j < front.len() implies total_rank(
                #[trigger] front[i].0,
            ) <= total_rank(#[trigger] front[j].0) by {
                assert(front[i] == a[i] && front[j] == a[j]);
            }
        }
        assert(dose_ordered(back)) by {
            assert forall|i: int, j: int| 0 <= i < j < back.len() implies total_rank(
                #[trigger] back[i].0,
            ) <= total_rank(#[trigger] back[j].0) by {
                assert(back[i] == b[i] && back[j] == b[j]);
            }
        }
        lemma_same_order(front, back);
    }
}

/// The last dose of one sequence in dose order does not come before the last
/// dose of another that holds points of the same doses.
proof fn lemma_last_dose_is_shared(a: Seq<(u64, u64)>, b: Seq<(u64, u64)>)
    requires
        a.len() > 0,
        b.len() > 0,
        dose_ordered(a),
        forall|dose: u64| #[trigger] a.filter(has_dose(dose)) == b.filter(has_dose(dose)),
    ensures
        total_rank(b.last().0) <= total_rank(a.last().0),
{
    let y = b.last();
    let pred = has_dose(y.0);
    b.lemma_filter_contains(pred, b.len() - 1);
    assert(b.filter(pred).contains(y));
    assert(a.filter(pred) == b.filter(pred));
    a.lemma_filter_contains_rev(pred, y);
    let k = choose|k: int| 0 <= k < a.len() && a[k] == y;
    if k < a.len() - 1 {
        assert(total_rank(a[k].0) <= total_rank(a[a.len() - 1].0));
    }
}

/// Only one response can be the weakest.
pub proof fn lemma_weakest_is_unique(points: Seq<(u64, u64)>, r: u64, s: u64)
    requires
        is_weakest(points, r),
        s == weakest(points),
    ensures
        r == s,
{
    assert(is_weakest(points, s));
}

/// Among one or more points some response is the weakest.
pub proof fn lemma_weakest_exists(points: Seq<(u64, u64)>)
    requires
        points.len() > 0,
    ensures
        is_weakest(points, weakest(points)),
    decreases points.len(),
{
    if points.len() == 1 {
        assert(is_weakest(points, points[0].1));
    } else {
        let rest = points.drop_last();
        lemma_weakest_exists(rest);
        let w = weakest(rest);
        let i = choose|i: int| 0 <= i < rest.len() && (#[trigger] rest[i]).1 == w;
        assert(points[i].1 == w);
        let last = points.last().1;
        if total_rank(last) < total_rank(w) {
            assert forall|k: int| 0 <= k < points.len() implies total_rank(last) <= total_rank(
                (#[trigger] points[k]).1,
            ) by {
                if k < rest.len() {
                    assert(rest[k] == points[k]);
                }
            }
            assert(points[points.len() - 1].1 == last);
            assert(is_weakest(points, last));
        } else {
            assert forall|k: int| 0 <= k < points.len() implies total_rank(w) <= total_rank(
                (#[trigger] points[k]).1,
            ) by {
                if k < rest.len() {
                    assert(rest[k] == points[k]);
                }
            }
            assert(is_weakest(points, w));
        }
    }
}

/// The weakest response does not depend on the order of the points.
pub proof fn lemma_weakest_of_rearrangement(points: Seq<(u64, u64)>, rearranged: Seq<(u64, u64)>)
    requires
        points.len() > 0,
        points.to_multiset() == rearranged.to_multiset(),
    ensures
        weakest(rearranged) == weakest(points),
{
    lemma_weakest_exists(points);
    let w = weakest(points);
    points.to_multiset_ensures();
    rearranged.to_multiset_ensures();
    let i = choose|i: int| 0 <= i < points.len() && (#[trigger] points[i]).1 == w;
    assert(points.contains(points[i]));
    assert(points.to_multiset().count(points[i]) > 0);
    assert(rearranged.to_multiset().count(points[i]) > 0);
    assert(rearranged.contains(points[i]));
    let k = choose|k: int| 0 <= k < rearranged.len() && rearranged[k] == points[i];
    assert(rearranged[k].1 == w);
    assert forall|j: int| 0 <= j < rearranged.len() implies total_rank(w) <= total_rank(
        (#[trigger] rearranged[j]).1,
    ) by {
        assert(rearranged.contains(rearranged[j]));
        assert(rearranged.to_multiset().count(rearranged[j]) > 0);
        assert(points.to_multiset().count(rearranged[j]) > 0);
        assert(points.contains(rearranged[j]));
        let m = choose|m: int| 0 <= m < points.len() && points[m] == rearranged[j];
        assert(total_rank(w) <= total_rank(points[m].1));
    }
    assert(is_weakest(rearranged, w));
    lemma_weakest_is_unique(rearranged, w, weakest(rearranged));
}

/// Only one response can be the strongest.
pub proof fn lemma_strongest_is_unique(points: Seq<(u64, u64)>, r: u64, s: u64)
    requires
        is_strongest(points, r),
        s == strongest(points),
    ensures
        r == s,
{
    assert(is_strongest(points, s));
}

/// Only one pair can be the steepest rise.
pub proof fn lemma_steepest_is_unique(inclines: Seq<u64>, i: int, j: int)
    requires
        is_steepest(inclines, i),
        is_steepest(inclines, j),
    ensures
        i == j,
{
    if i < j {
        assert(nan(inclines[i]) || greater(inclines[j], inclines[i]));
    } else if j < i {
        assert(nan(inclines[j]) || greater(inclines[i], inclines[j]));
    }
}

/// A point put in behind everything that does not come after it leaves the
/// doses in order.
proof fn lemma_insert_in_order(before: Seq<(u64, u64)>, p: int, point: (u64, u64))
    requires
        0 <= p <= before.len(),
        dose_ordered(before),
        p > 0 ==> total_rank(before[p - 1].0) <= total_rank(point.0),
        forall|k: int|
            p <= k < before.len() ==> total_rank((#[trigger] before[k]).0) > total_rank(point.0),
    ensures
        dose_ordered(before.insert(p, point)),
{
    let after = before.insert(p, point);
    before.insert_ensures(p, point);
    assert forall|i: int, j: int| 0 <= i < j < after.len() implies total_rank(
        #[trigger] after[i].0,
    ) <= total_rank(#[trigger] after[j].0) by {
        if i < p {
            assert(after[i] == before[i]);
            if p > 0 && i < p - 1 {
                assert(total_rank(before[i].0) <= total_rank(before[p - 1].0));
            }
        } else if i > p {
            assert(after[i] == before[i - 1]);
        }
        if j < p {
            assert(after[j] == before[j]);
        } else if j > p {
            assert(after[j] == before[j - 1]);
        }
    }
}

/// What a point put in at place `p` does to the points of one dose: nothing
/// if it has another dose; if it has that dose and none behind `p` has it, it
/// becomes the last of them.
proof fn lemma_insert_filter(before: Seq<(u64, u64)>, p: int, point: (u64, u64), dose: u64)
    requires
        0 <= p <= before.len(),
        forall|k: int| p <= k < before.len() ==> (#[trigger] before[k]).0 != point.0,
    ensures
        before.insert(p, point).filter(has_dose(dose)) == if point.0 == dose {
            before.filter(has_dose(dose)).push(point)
        } else {
            before.filter(has_dose(dose))
        },
{
    let pred = has_dose(dose);
    let front = before.subrange(0, p);
    let back = before.subrange(p, before.len() as int);
    assert(before =~= front + back);
    Seq::filter_distributes_over_add(front, back, pred);
    Seq::filter_distributes_over_add(front.push(point), back, pred);
    front.lemma_filter_push(point, pred);
    if point.0 == dose {
        lemma_filter_none(back, pred);
        assert(front.filter(pred).push(point) + back.filter(pred) =~= (front.filter(pred)
            + back.filter(pred)).push(point));
    }
}

/// A point put in anywhere is one more point, and the others are as before.
proof fn lemma_insert_multiset(before: Seq<(u64, u64)>, p: int, point: (u64, u64))
    requires
        0 <= p <= before.len(),
    ensures
        before.insert(p, point).to_multiset() =~= before.to_multiset().insert(point),
{
    let after = before.insert(p, point);
    before.insert_ensures(p, point);
    assert(after.remove(p) =~= before);
    to_multiset_remove(after, p);
    after.to_multiset_ensures();
    assert(after.contains(point));
}

/// Where no item passes, the filter leaves nothing.
proof fn lemma_filter_none(items: Seq<(u64, u64)>, pred: spec_fn((u64, u64)) -> bool)
    requires
        forall|k: int| 0 <= k < items.len() ==> !pred(#[trigger] items[k]),
    ensures
        items.filter(pred) =~= Seq::<(u64, u64)>::empty(),
    decreases items.len(),
{
    if items.len() == 0 {
        items.lemma_filter_len(pred);
    } else {
        lemma_filter_none(items.drop_last(), pred);
        items.drop_last().lemma_filter_push(items.last(), pred);
        assert(items.drop_last().push(items.last()) =~= items);
    }
}

} // verus!
