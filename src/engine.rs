//! The matching engine. A submission is decided in two steps around the
//! transfer that settles a trade: `submit` queues a sell or finds the
//! resting sell that a buy takes, and `complete_settlement` takes that
//! order off the book once the transfer is known to have gone through.

use vstd::prelude::*;

use crate::book::{has_match, is_first_match, without_id, OrderBook};
use crate::error::MarketError;
use crate::instruction::{decode_instruction, instruction_of, well_formed};
use crate::order::{Order, Side};
use solana_program::pubkey::Pubkey;

verus! {

/// A transfer that a matched buy asks for: `amount` from the buyer to the
/// market's vault, for the resting order `order_id`.
#[derive(Clone, Copy, Debug, PartialEq, Eq, Structural)]
pub struct Settlement {
    pub order_id: u64,
    pub amount: u64,
}

/// How a submission ended.
#[derive(Clone, Copy, Debug, PartialEq, Eq, Structural)]
pub enum Outcome {
    /// A buy filled the resting order of this identity.
    TradeExecuted(u64),
    /// A sell rests in the book under this identity.
    OrderQueued(u64),
}

/// What a submission leads to: an outcome, or a transfer to perform before
/// the trade can be completed.
#[derive(Clone, Copy, Debug, PartialEq, Eq, Structural)]
pub enum Step {
    Done(Outcome),
    Settle(Settlement),
}

/// One market: its order book and the vault that settled funds go to.
pub struct Market {
    pub book: OrderBook,
    pub vault: Pubkey,
}

/// The result of submitting a buy of `amount` at limit `price` by a
/// requester holding `balance`, on a book holding `s`.
pub open spec fn buy_result(s: Seq<Order>, price: u64, amount: u64, balance: u64) -> Result<Step, MarketError> {
    if balance < amount {
        Err(MarketError::InsufficientFunds)
    } else if !has_match(s, Side::Buy, price) {
        Err(MarketError::NoMatchingOrder)
    } else {
        let i = choose|i: int| is_first_match(s, Side::Buy, price, i);
        Ok(Step::Settle(Settlement { order_id: s[i].id, amount }))
    }
}

impl Market {
    pub open spec fn wf(&self) -> bool {
        self.book.wf()
    }

    /// A market with an empty book, settling into `vault`.
    pub fn new(vault: Pubkey) -> (r: Market)
        ensures
            r.wf(),
            r.book@ == Seq::<Order>::empty(),
            r.book.next_id_spec() == 0,
            r.vault == vault,
    {
        Market { book: OrderBook::new(), vault }
    }

    /// Submits an order. A sell is queued at once. A buy needs a balance of
    /// at least `amount` and a resting sell at or below `price`; the earliest
    /// such sell is the match, and the answer is the transfer to perform,
    /// with the book not yet changed.
    pub fn submit(&mut self, side: Side, price: u64, amount: u64, requester_balance: u64) -> (r: Result<Step, MarketError>)
        requires
            old(self).wf(),
            side == Side::Sell ==> old(self).book.next_id_spec() < u64::MAX,
        ensures
            final(self).wf(),
            final(self).vault == old(self).vault,
            side == Side::Sell ==> {
                let o = Order { id: old(self).book.next_id_spec(), side: Side::Sell, price, amount };
                &&& r == Ok::<Step, MarketError>(Step::Done(Outcome::OrderQueued(o.id)))
                &&& final(self).book@ == old(self).book@.push(o)
                &&& final(self).book.next_id_spec() == old(self).book.next_id_spec() + 1
            },
            side == Side::Buy ==> {
                &&& r == buy_result(old(self).book@, price, amount, requester_balance)
                &&& final(self).book@ == old(self).book@
                &&& final(self).book.next_id_spec() == old(self).book.next_id_spec()
            },
    {
        match side {
            Side::Sell => {
                let order = self.book.insert(Side::Sell, price, amount);
                Ok(Step::Done(Outcome::OrderQueued(order.id)))
            },
            Side::Buy => {
                if requester_balance < amount {
                    return Err(MarketError::InsufficientFunds);
                }
                match self.book.find_first_match(Side::Buy, price) {
                    None => Err(MarketError::NoMatchingOrder),
                    Some(o) => {
                        proof {
                            let s = self.book@;
                            let i = choose|i: int| is_first_match(s, Side::Buy, price, i) && s[i] == o;
                            let k = choose|k: int| is_first_match(s, Side::Buy, price, k);
                            lemma_first_match_unique(s, Side::Buy, price, i, k);
                        }
                        Ok(Step::Settle(Settlement { order_id: o.id, amount }))
                    },
                }
            },
        }
    }

    /// Decodes an instruction and submits the order it carries. A malformed
    /// instruction is invalid input and leaves the book as it was.
    pub fn submit_instruction(&mut self, data: &[u8], requester_balance: u64) -> (r: Result<Step, MarketError>)
        requires
            old(self).wf(),
            old(self).book.next_id_spec() < u64::MAX,
        ensures
            final(self).wf(),
            final(self).vault == old(self).vault,
            !well_formed(data@) ==> {
                &&& r == Err::<Step, MarketError>(MarketError::InvalidInput)
                &&& final(self).book@ == old(self).book@
                &&& final(self).book.next_id_spec() == old(self).book.next_id_spec()
            },
            well_formed(data@) && instruction_of(data@).side == Side::Sell ==> {
                let ins = instruction_of(data@);
                let o = Order { id: old(self).book.next_id_spec(), side: Side::Sell, price: ins.price, amount: ins.amount };
                &&& r == Ok::<Step, MarketError>(Step::Done(Outcome::OrderQueued(o.id)))
                &&& final(self).book@ == old(self).book@.push(o)
                &&& final(self).book.next_id_spec() == old(self).book.next_id_spec() + 1
            },
            well_formed(data@) && instruction_of(data@).side == Side::Buy ==> {
                let ins = instruction_of(data@);
                &&& r == buy_result(old(self).book@, ins.price, ins.amount, requester_balance)
                &&& final(self).book@ == old(self).book@
                &&& final(self).book.next_id_spec() == old(self).book.next_id_spec()
            },
    {
        match decode_instruction(data) {
            Err(e) => Err(e),
            Ok(ins) => self.submit(ins.side, ins.price, ins.amount, requester_balance),
        }
    }

    /// Completes a matched buy once its transfer has been tried: when it
    /// went through, the matched order leaves the book whatever its own
    /// amount; when it failed, the book is left as it was.
    pub fn complete_settlement(&mut self, settlement: Settlement, settled: bool) -> (r: Result<Outcome, MarketError>)
        requires
            old(self).wf(),
        ensures
            final(self).wf(),
            final(self).vault == old(self).vault,
            final(self).book.next_id_spec() == old(self).book.next_id_spec(),
            settled ==> r == Ok::<Outcome, MarketError>(Outcome::TradeExecuted(settlement.order_id))
                && final(self).book@ == without_id(old(self).book@, settlement.order_id),
            !settled ==> r == Err::<Outcome, MarketError>(MarketError::SettlementFailed)
                && final(self).book@ == old(self).book@,
    {
        if settled {
            self.book.remove(settlement.order_id);
            Ok(Outcome::TradeExecuted(settlement.order_id))
        } else {
            Err(MarketError::SettlementFailed)
        }
    }
}

/// There is only one first match.
pub proof fn lemma_first_match_unique(s: Seq<Order>, side: Side, price: u64, i: int, k: int)
    requires
        is_first_match(s, side, price, i),
        is_first_match(s, side, price, k),
    ensures
        i == k,
{
    if i < k {
        assert(!crate::order::compatible(side, price, s[i]));
    } else if k < i {
        assert(!crate::order::compatible(side, price, s[k]));
    }
}

} // verus!
