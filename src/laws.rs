//! Laws that relate several operations of the book and the engine.

use vstd::prelude::*;

use crate::book::{
    holds_id, ids_increasing_below, is_first_match, lemma_first_match_exists,
    lemma_without_id_keeps_order, without_id,
};
use crate::engine::{buy_result, Settlement, Step};
use crate::order::{Order, Side};

verus! {

/// Taking out an identity that the sequence does not hold changes nothing.
pub proof fn lemma_without_absent_id(s: Seq<Order>, id: u64)
    requires
        !holds_id(s, id),
    ensures
        without_id(s, id) == s,
    decreases s.len(),
{
    if s.len() > 0 {
        let p = s.drop_last();
        assert(!holds_id(p, id)) by {
            if holds_id(p, id) {
                let j = choose|j: int| 0 <= j < p.len() && #[trigger] p[j].id == id;
                assert(s[j].id == id);
            }
        }
        lemma_without_absent_id(p, id);
        assert(s[s.len() - 1].id != id);
        assert(p.push(s.last()) =~= s);
    }
}

/// Removing an identity a second time is a no-op: after the first removal
/// no order of that identity is left.
pub proof fn lemma_remove_twice(s: Seq<Order>, id: u64)
    ensures
        without_id(without_id(s, id), id) == without_id(s, id),
{
    let r = without_id(s, id);
    lemma_without_id_keeps_order(s, id, 0);
    assert(!holds_id(r, id)) by {
        if holds_id(r, id) {
            let j = choose|j: int| 0 <= j < r.len() && #[trigger] r[j].id == id;
            assert(r[j].id != id);
        }
    }
    lemma_without_absent_id(r, id);
}

/// In a sequence with unique identities, taking out the identity of the
/// order at `i` takes out exactly that order.
pub proof fn lemma_without_present_id(s: Seq<Order>, bound: u64, i: int)
    requires
        ids_increasing_below(s, bound),
        0 <= i < s.len(),
    ensures
        without_id(s, s[i].id) == s.remove(i),
        without_id(s, s[i].id).len() == s.len() - 1,
    decreases s.len(),
{
    let id = s[i].id;
    let p = s.drop_last();
    assert(ids_increasing_below(p, bound));
    if i == s.len() - 1 {
        assert(!holds_id(p, id)) by {
            if holds_id(p, id) {
                let j = choose|j: int| 0 <= j < p.len() && #[trigger] p[j].id == id;
                assert(s[j].id == id);
            }
        }
        lemma_without_absent_id(p, id);
        assert(s.remove(i) =~= p);
    } else {
        assert(p[i] == s[i]);
        lemma_without_present_id(p, bound, i);
        assert(s.last().id != id);
        assert(p.remove(i).push(s.last()) =~= s.remove(i));
    }
}

/// A buy that is accepted settles exactly its own amount against the
/// earliest compatible sell, and completing it takes exactly that one order
/// off the book, whatever the order's own amount.
pub proof fn lemma_buy_match_removes_one(s: Seq<Order>, bound: u64, price: u64, amount: u64, balance: u64)
    requires
        ids_increasing_below(s, bound),
        buy_result(s, price, amount, balance) is Ok,
    ensures
        exists|i: int| {
            &&& #[trigger] is_first_match(s, Side::Buy, price, i)
            &&& buy_result(s, price, amount, balance) == Ok::<Step, crate::error::MarketError>(
                Step::Settle(Settlement { order_id: s[i].id, amount }),
            )
            &&& without_id(s, s[i].id) == s.remove(i)
            &&& without_id(s, s[i].id).len() == s.len() - 1
        },
{
    lemma_first_match_exists(s, Side::Buy, price);
    let i = choose|i: int| is_first_match(s, Side::Buy, price, i);
    lemma_without_present_id(s, bound, i);
    assert(is_first_match(s, Side::Buy, price, i));
}

/// In a book from which nothing was removed, where as many identities were
/// handed out as orders rest, each order's identity is its position; so the
/// next sell is queued under the book's length.
pub proof fn lemma_ids_are_positions(s: Seq<Order>, next: u64)
    requires
        ids_increasing_below(s, next),
        next == s.len(),
    ensures
        forall|i: int| 0 <= i < s.len() ==> #[trigger] s[i].id == i,
{
    assert forall|i: int| 0 <= i < s.len() implies #[trigger] s[i].id == i by {
        lemma_id_at_least_position(s, next, i);
        lemma_id_at_most_position(s, next, i);
    }
}

proof fn lemma_id_at_least_position(s: Seq<Order>, next: u64, i: int)
    requires
        ids_increasing_below(s, next),
        0 <= i < s.len(),
    ensures
        s[i].id >= i,
    decreases i,
{
    if i > 0 {
        lemma_id_at_least_position(s, next, i - 1);
    }
}

proof fn lemma_id_at_most_position(s: Seq<Order>, next: u64, i: int)
    requires
        ids_increasing_below(s, next),
        0 <= i < s.len(),
    ensures
        s[i].id + (s.len() - 1 - i) < next,
    decreases s.len() - i,
{
    if i < s.len() - 1 {
        lemma_id_at_most_position(s, next, i + 1);
    }
}

} // verus!
