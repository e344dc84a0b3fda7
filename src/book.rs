//! The order book: resting orders in the order they were inserted.

use vstd::prelude::*;

use crate::order::{compatible, is_compatible, Order, Side};

verus! {

/// Whether the order at index `i` is the first one in `s` that can fill a
/// request on `side` at limit `price`.
pub open spec fn is_first_match(s: Seq<Order>, side: Side, price: u64, i: int) -> bool {
    &&& 0 <= i < s.len()
    &&& compatible(side, price, s[i])
    &&& forall|j: int| 0 <= j < i ==> !compatible(side, price, #[trigger] s[j])
}

/// Whether some order in `s` can fill a request on `side` at limit `price`.
pub open spec fn has_match(s: Seq<Order>, side: Side, price: u64) -> bool {
    exists|i: int| 0 <= i < s.len() && compatible(side, price, #[trigger] s[i])
}

/// `s` with every order of identity `id` taken out, the rest kept in order.
pub open spec fn without_id(s: Seq<Order>, id: u64) -> Seq<Order>
    decreases s.len(),
{
    if s.len() == 0 {
        s
    } else {
        let rest = without_id(s.drop_last(), id);
        if s.last().id == id {
            rest
        } else {
            rest.push(s.last())
        }
    }
}

/// Whether the identities in `s` strictly increase along the sequence and
/// stay below `bound`; in particular no two orders share an identity.
pub open spec fn ids_increasing_below(s: Seq<Order>, bound: u64) -> bool {
    &&& forall|i: int, j: int| 0 <= i < j < s.len() ==> s[i].id < s[j].id
    &&& forall|i: int| 0 <= i < s.len() ==> #[trigger] s[i].id < bound
}

/// Whether `s` holds an order of identity `id`.
pub open spec fn holds_id(s: Seq<Order>, id: u64) -> bool {
    exists|i: int| 0 <= i < s.len() && #[trigger] s[i].id == id
}

/// Resting orders of one market, scanned in insertion order.
pub struct OrderBook {
    orders: Vec<Order>,
    next_id: u64,
}

impl View for OrderBook {
    type V = Seq<Order>;

    closed spec fn view(&self) -> Seq<Order> {
        self.orders@
    }
}

impl OrderBook {
    /// The identity that the next inserted order receives: the number of
    /// orders ever inserted, which equals the length until an order leaves.
    pub closed spec fn next_id_spec(&self) -> u64 {
        self.next_id
    }

    /// Identities are unique, increase with insertion time and are never
    /// handed out twice.
    pub closed spec fn wf(&self) -> bool {
        ids_increasing_below(self.orders@, self.next_id)
    }

    /// An empty book.
    pub fn new() -> (r: OrderBook)
        ensures
            r.wf(),
            r@ == Seq::<Order>::empty(),
            r.next_id_spec() == 0,
    {
        OrderBook { orders: Vec::new(), next_id: 0 }
    }

    /// The number of resting orders.
    pub fn len(&self) -> (r: usize)
        ensures
            r == self@.len(),
    {
        self.orders.len()
    }

    /// The identity that the next inserted order receives.
    pub fn next_id(&self) -> (r: u64)
        ensures
            r == self.next_id_spec(),
    {
        self.next_id
    }

    /// The resting orders, in insertion order.
    pub fn orders(&self) -> (r: &Vec<Order>)
        ensures
            r@ == self@,
    {
        &self.orders
    }

    /// Appends a new order and returns it. Its identity is the book's count
    /// of insertions, so it is the book's length while nothing was removed.
    pub fn insert(&mut self, side: Side, price: u64, amount: u64) -> (r: Order)
        requires
            old(self).wf(),
            old(self).next_id_spec() < u64::MAX,
        ensures
            final(self).wf(),
            r == (Order { id: old(self).next_id_spec(), side, price, amount }),
            final(self)@ == old(self)@.push(r),
            final(self).next_id_spec() == old(self).next_id_spec() + 1,
    {
        let order = Order { id: self.next_id, side, price, amount };
        self.orders.push(order);
        self.next_id = self.next_id + 1;
        order
    }

    /// The earliest-inserted resting order that can fill a request on
    /// `side` at limit `price`, if any.
    pub fn find_first_match(&self, side: Side, price: u64) -> (r: Option<Order>)
        ensures
            r is None <==> !has_match(self@, side, price),
            r matches Some(o) ==> exists|i: int| is_first_match(self@, side, price, i) && self@[i] == o,
    {
        let mut i: usize = 0;
        while i < self.orders.len()
            invariant
                0 <= i <= self@.len(),
                forall|j: int| 0 <= j < i ==> !compatible(side, price, #[trigger] self@[j]),
            decreases self@.len() - i,
        {
            if is_compatible(side, price, &self.orders[i]) {
                assert(is_first_match(self@, side, price, i as int));
                return Some(self.orders[i]);
            }
            i = i + 1;
        }
        None
    }

    /// Takes every order of identity `id` off the book; with no such order
    /// the book is left as it is.
    pub fn remove(&mut self, id: u64)
        requires
            old(self).wf(),
        ensures
            final(self).wf(),
            final(self)@ == without_id(old(self)@, id),
            final(self).next_id_spec() == old(self).next_id_spec(),
    {
        let ghost s = self.orders@;
        let mut kept: Vec<Order> = Vec::new();
        let mut i: usize = 0;
        while i < self.orders.len()
            invariant
                0 <= i <= s.len(),
                self.orders@ == s,
                kept@ == without_id(s.subrange(0, i as int), id),
            decreases s.len() - i,
        {
            let o = self.orders[i];
            assert(s.subrange(0, i + 1).drop_last() =~= s.subrange(0, i as int));
            if o.id != id {
                kept.push(o);
            }
            i = i + 1;
        }
        assert(s.subrange(0, s.len() as int) =~= s);
        proof {
            lemma_without_id_keeps_order(s, id, self.next_id);
        }
        self.orders = kept;
    }
}

/// Every order left by [`without_id`] comes from the sequence, none has
/// identity `id`, and the increasing-identity invariant carries over.
pub proof fn lemma_without_id_keeps_order(s: Seq<Order>, id: u64, bound: u64)
    ensures
        forall|k: int| 0 <= k < without_id(s, id).len()
            ==> #[trigger] without_id(s, id)[k].id != id,
        forall|k: int| 0 <= k < without_id(s, id).len()
            ==> s.contains(#[trigger] without_id(s, id)[k]),
        ids_increasing_below(s, bound) ==> ids_increasing_below(without_id(s, id), bound),
    decreases s.len(),
{
    if s.len() > 0 {
        let p = s.drop_last();
        lemma_without_id_keeps_order(p, id, bound);
        let r = without_id(p, id);
        assert forall|k: int| 0 <= k < without_id(s, id).len()
            implies s.contains(#[trigger] without_id(s, id)[k]) by {
            if k < r.len() {
                let j = choose|j: int| 0 <= j < p.len() && p[j] == r[k];
                assert(s[j] == r[k]);
            } else {
                assert(s[s.len() - 1] == s.last());
            }
        }
        if ids_increasing_below(s, bound) {
            assert(ids_increasing_below(p, bound));
            assert forall|k: int| 0 <= k < r.len() implies #[trigger] r[k].id < s.last().id by {
                let j = choose|j: int| 0 <= j < p.len() && p[j] == r[k];
                assert(s[j] == r[k]);
            }
        }
    }
}

/// When some order can fill a request, there is an earliest one that can.
pub proof fn lemma_first_match_exists(s: Seq<Order>, side: Side, price: u64)
    requires
        has_match(s, side, price),
    ensures
        exists|i: int| is_first_match(s, side, price, i),
    decreases s.len(),
{
    let p = s.drop_last();
    if has_match(p, side, price) {
        lemma_first_match_exists(p, side, price);
        let i = choose|i: int| is_first_match(p, side, price, i);
        assert(p[i] == s[i]);
        assert forall|j: int| 0 <= j < i implies !compatible(side, price, #[trigger] s[j]) by {
            assert(p[j] == s[j]);
        }
        assert(is_first_match(s, side, price, i));
    } else {
        let k = choose|k: int| 0 <= k < s.len() && compatible(side, price, #[trigger] s[k]);
        if k < s.len() - 1 {
            assert(compatible(side, price, p[k]));
        }
        assert forall|j: int| 0 <= j < s.len() - 1 implies !compatible(side, price, #[trigger] s[j]) by {
            assert(p[j] == s[j]);
        }
        assert(is_first_match(s, side, price, s.len() - 1));
    }
}

} // verus!
