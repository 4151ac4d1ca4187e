//! The lexicographic order of byte runs.

use vstd::prelude::*;

verus! {

/// Whether `a` comes before `b` in lexicographic order, decided at position `i`.
pub open spec fn precedes_at(a: Seq<u8>, b: Seq<u8>, i: int) -> bool {
    &&& 0 <= i <= a.len()
    &&& i < b.len()
    &&& forall|j: int| 0 <= j < i ==> a[j] == b[j]
    &&& i == a.len() || a[i] < b[i]
}

/// Whether `a` comes before `b` in lexicographic order.
pub open spec fn precedes(a: Seq<u8>, b: Seq<u8>) -> bool {
    exists|i: int| precedes_at(a, b, i)
}

/// How two byte runs stand to each other.
#[derive(Clone, Copy, Debug, PartialEq, Eq, Structural)]
pub enum Order {
    Before,
    Same,
    After,
}

/// How `a` stands to `b`.
pub fn order_of(a: &[u8], b: &[u8]) -> (order: Order)
    ensures
        match order {
            Order::Before => precedes(a@, b@),
            Order::Same => a@ == b@,
            Order::After => precedes(b@, a@),
        },
{
    let mut index: usize = 0;
    while index < a.len() && index < b.len()
        invariant
            index <= a@.len(),
            index <= b@.len(),
            forall|j: int| 0 <= j < index ==> a@[j] == b@[j],
        decreases a@.len() - index,
    {
        if a[index] < b[index] {
            assert(precedes_at(a@, b@, index as int));
            return Order::Before;
        }
        if b[index] < a[index] {
            assert(precedes_at(b@, a@, index as int));
            return Order::After;
        }
        index += 1;
    }
    if index < b.len() {
        assert(precedes_at(a@, b@, index as int));
        Order::Before
    } else if index < a.len() {
        assert(precedes_at(b@, a@, index as int));
        Order::After
    } else {
        assert(a@ =~= b@);
        Order::Same
    }
}

/// The order is transitive.
pub proof fn lemma_precedes_transitive(a: Seq<u8>, b: Seq<u8>, c: Seq<u8>)
    requires
        precedes(a, b),
        precedes(b, c),
    ensures
        precedes(a, c),
{
    let i = choose|i: int| precedes_at(a, b, i);
    let j = choose|j: int| precedes_at(b, c, j);
    if i <= j {
        assert(precedes_at(a, c, i));
    } else {
        assert(precedes_at(a, c, j));
    }
}

/// The order is strict.
pub proof fn lemma_precedes_strict(a: Seq<u8>, b: Seq<u8>)
    requires
        precedes(a, b),
    ensures
        a != b,
        !precedes(b, a),
{
    let i = choose|i: int| precedes_at(a, b, i);
    if precedes(b, a) {
        let j = choose|j: int| precedes_at(b, a, j);
        assert(i < j || j < i || i == j);
    }
}

/// The order is total.
pub proof fn lemma_precedes_total(a: Seq<u8>, b: Seq<u8>)
    ensures
        a == b || precedes(a, b) || precedes(b, a),
{
    lemma_precedes_total_from(a, b, 0);
}

proof fn lemma_precedes_total_from(a: Seq<u8>, b: Seq<u8>, i: int)
    requires
        0 <= i <= a.len(),
        i <= b.len(),
        forall|j: int| 0 <= j < i ==> a[j] == b[j],
    ensures
        a == b || precedes(a, b) || precedes(b, a),
    decreases a.len() - i,
{
    if i < a.len() && i < b.len() && a[i] == b[i] {
        lemma_precedes_total_from(a, b, i + 1);
    } else if i < b.len() && (i == a.len() || a[i] < b[i]) {
        assert(precedes_at(a, b, i));
    } else if i < a.len() {
        assert(precedes_at(b, a, i));
    } else {
        assert(a =~= b);
    }
}

/// Two byte runs are ordered by the first byte in which they differ, and a run comes before every
/// longer one that starts with it.
pub proof fn law_first_difference_decides(
    common: Seq<u8>,
    first: u8,
    second: u8,
    rest: Seq<u8>,
    other: Seq<u8>,
)
    requires
        first < second,
    ensures
        precedes(common + seq![first] + rest, common + seq![second] + other),
        !precedes(common + seq![second] + other, common + seq![first] + rest),
        precedes(common, common + seq![first] + rest),
        !precedes(common + seq![first] + rest, common),
        !precedes(common, common),
{
    let place = common.len() as int;
    let a = common + seq![first] + rest;
    let b = common + seq![second] + other;
    assert(precedes_at(a, b, place));
    lemma_precedes_strict(a, b);
    assert(precedes_at(common, a, place));
    lemma_precedes_strict(common, a);
    if precedes(common, common) {
        lemma_precedes_strict(common, common);
    }
}

/// Comparing two byte runs tells which comes first, and comparing them the other way round tells
/// the opposite.
pub proof fn law_comparisons_agree(a: &[u8], b: &[u8], forth: Order, back: Order)
    requires
        call_ensures(order_of, (a, b), forth),
        call_ensures(order_of, (b, a), back),
    ensures
        forth == Order::Same <==> a@ == b@,
        forth == Order::Before <==> precedes(a@, b@),
        forth == Order::After <==> precedes(b@, a@),
        forth == Order::Before <==> back == Order::After,
        forth == Order::Same <==> back == Order::Same,
{
    lemma_precedes_total(a@, b@);
    if precedes(a@, b@) {
        lemma_precedes_strict(a@, b@);
    }
    if precedes(b@, a@) {
        lemma_precedes_strict(b@, a@);
    }
}

} // verus!
