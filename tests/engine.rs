use market::book::OrderBook;
use market::engine::{Market, Outcome, Settlement, Step};
use market::error::MarketError;
use market::instruction::{decode_instruction, read_u64_le, Instruction};
use market::order::{is_compatible, Order, Side};
use solana_program::pubkey::Pubkey;

fn vault() -> Pubkey {
    Pubkey::new_from_array([7u8; 32])
}

fn order(id: u64, side: Side, price: u64, amount: u64) -> Order {
    Order { id, side, price, amount }
}

fn instruction(tag: u8, price: u64, amount: u64) -> Vec<u8> {
    let mut data = vec![0u8; 32];
    data[0] = tag;
    data[1..9].copy_from_slice(&price.to_le_bytes());
    data[9..17].copy_from_slice(&amount.to_le_bytes());
    data
}

#[test]
fn sell_then_matching_buy_executes_trade() {
    let mut m = Market::new(vault());
    let r = m.submit(Side::Sell, 100, 5, 0);
    assert_eq!(r, Ok(Step::Done(Outcome::OrderQueued(0))));
    assert_eq!(m.book.orders(), &vec![order(0, Side::Sell, 100, 5)]);

    let r = m.submit(Side::Buy, 100, 5, 5);
    assert_eq!(r, Ok(Step::Settle(Settlement { order_id: 0, amount: 5 })));
    assert_eq!(m.book.len(), 1);
    let done = m.complete_settlement(Settlement { order_id: 0, amount: 5 }, true);
    assert_eq!(done, Ok(Outcome::TradeExecuted(0)));
    assert_eq!(m.book.len(), 0);
    assert_eq!(m.vault, vault());
}

#[test]
fn buy_beyond_balance_on_empty_book_is_refused() {
    let mut m = Market::new(vault());
    let r = m.submit(Side::Buy, 50, 10, 3);
    assert_eq!(r, Err(MarketError::InsufficientFunds));
    assert_eq!(m.book.len(), 0);
    assert_eq!(m.book.next_id(), 0);
}

#[test]
fn buy_beyond_balance_leaves_book_unchanged() {
    let mut m = Market::new(vault());
    m.submit(Side::Sell, 10, 1, 0).unwrap();
    let r = m.submit(Side::Buy, 50, 10, 9);
    assert_eq!(r, Err(MarketError::InsufficientFunds));
    assert_eq!(m.book.orders(), &vec![order(0, Side::Sell, 10, 1)]);
}

#[test]
fn buy_without_compatible_sell_is_refused() {
    let mut m = Market::new(vault());
    m.submit(Side::Sell, 120, 1, 0).unwrap();
    m.submit(Side::Sell, 101, 1, 0).unwrap();
    let r = m.submit(Side::Buy, 100, 1, 1);
    assert_eq!(r, Err(MarketError::NoMatchingOrder));
    assert_eq!(
        m.book.orders(),
        &vec![order(0, Side::Sell, 120, 1), order(1, Side::Sell, 101, 1)]
    );
}

#[test]
fn buy_on_empty_book_with_funds_finds_no_match() {
    let mut m = Market::new(vault());
    assert_eq!(m.submit(Side::Buy, 100, 0, 0), Err(MarketError::NoMatchingOrder));
}

#[test]
fn earliest_compatible_sell_wins() {
    let mut b = OrderBook::new();
    b.insert(Side::Sell, 200, 1);
    b.insert(Side::Sell, 90, 2);
    b.insert(Side::Sell, 80, 3);
    b.insert(Side::Sell, 100, 4);
    assert_eq!(b.find_first_match(Side::Buy, 100), Some(order(1, Side::Sell, 90, 2)));
    assert_eq!(b.find_first_match(Side::Buy, 85), Some(order(2, Side::Sell, 80, 3)));
    assert_eq!(b.find_first_match(Side::Buy, 79), None);
    assert_eq!(b.find_first_match(Side::Buy, 200), Some(order(0, Side::Sell, 200, 1)));
}

#[test]
fn sell_query_takes_buys_at_or_above_price() {
    let mut b = OrderBook::new();
    b.insert(Side::Sell, 50, 1);
    b.insert(Side::Buy, 40, 1);
    b.insert(Side::Buy, 60, 1);
    b.insert(Side::Buy, 70, 1);
    assert_eq!(b.find_first_match(Side::Sell, 55), Some(order(2, Side::Buy, 60, 1)));
    assert_eq!(b.find_first_match(Side::Sell, 40), Some(order(1, Side::Buy, 40, 1)));
    assert_eq!(b.find_first_match(Side::Sell, 71), None);
}

#[test]
fn compatibility_rule() {
    let sell = order(0, Side::Sell, 100, 1);
    let buy = order(1, Side::Buy, 100, 1);
    assert!(is_compatible(Side::Buy, 100, &sell));
    assert!(!is_compatible(Side::Buy, 99, &sell));
    assert!(!is_compatible(Side::Buy, 100, &buy));
    assert!(is_compatible(Side::Sell, 100, &buy));
    assert!(!is_compatible(Side::Sell, 101, &buy));
    assert!(!is_compatible(Side::Sell, 100, &sell));
}

#[test]
fn remove_twice_is_a_no_op_the_second_time() {
    let mut b = OrderBook::new();
    b.insert(Side::Sell, 10, 1);
    b.insert(Side::Sell, 20, 2);
    b.insert(Side::Buy, 5, 3);
    b.remove(1);
    let once = b.orders().clone();
    assert_eq!(once, vec![order(0, Side::Sell, 10, 1), order(2, Side::Buy, 5, 3)]);
    b.remove(1);
    assert_eq!(b.orders(), &once);
}

#[test]
fn remove_of_unknown_id_changes_nothing() {
    let mut b = OrderBook::new();
    b.insert(Side::Sell, 10, 1);
    b.remove(42);
    assert_eq!(b.orders(), &vec![order(0, Side::Sell, 10, 1)]);
}

#[test]
fn matched_order_leaves_whatever_its_amount() {
    let mut m = Market::new(vault());
    m.submit(Side::Sell, 100, 1, 0).unwrap();
    m.submit(Side::Sell, 90, 7, 0).unwrap();
    m.submit(Side::Sell, 80, 3, 0).unwrap();
    let r = m.submit(Side::Buy, 95, 20, 20);
    assert_eq!(r, Ok(Step::Settle(Settlement { order_id: 1, amount: 20 })));
    let s = match r {
        Ok(Step::Settle(s)) => s,
        _ => unreachable!(),
    };
    assert_eq!(m.complete_settlement(s, true), Ok(Outcome::TradeExecuted(1)));
    assert_eq!(
        m.book.orders(),
        &vec![order(0, Side::Sell, 100, 1), order(2, Side::Sell, 80, 3)]
    );
}

#[test]
fn failed_settlement_leaves_book_unchanged() {
    let mut m = Market::new(vault());
    m.submit(Side::Sell, 100, 5, 0).unwrap();
    let s = Settlement { order_id: 0, amount: 5 };
    assert_eq!(m.complete_settlement(s, false), Err(MarketError::SettlementFailed));
    assert_eq!(m.book.orders(), &vec![order(0, Side::Sell, 100, 5)]);
}

#[test]
fn sell_appends_one_order_under_previous_length() {
    let mut m = Market::new(vault());
    for k in 0..4u64 {
        let before = m.book.len() as u64;
        let r = m.submit(Side::Sell, 10 + k, 1, 0);
        assert_eq!(r, Ok(Step::Done(Outcome::OrderQueued(before))));
        assert_eq!(m.book.len() as u64, before + 1);
        assert_eq!(m.book.orders()[before as usize], order(before, Side::Sell, 10 + k, 1));
    }
}

#[test]
fn ids_are_not_reused_after_removal() {
    let mut b = OrderBook::new();
    b.insert(Side::Sell, 10, 1);
    b.insert(Side::Sell, 20, 1);
    b.remove(0);
    let o = b.insert(Side::Sell, 30, 1);
    assert_eq!(o.id, 2);
    assert_eq!(b.next_id(), 3);
    assert_eq!(b.orders(), &vec![order(1, Side::Sell, 20, 1), order(2, Side::Sell, 30, 1)]);
}

#[test]
fn side_tags() {
    assert_eq!(Side::from_tag(0), Ok(Side::Buy));
    assert_eq!(Side::from_tag(1), Ok(Side::Sell));
    assert_eq!(Side::from_tag(2), Err(MarketError::InvalidInput));
    assert_eq!(Side::from_tag(255), Err(MarketError::InvalidInput));
}

#[test]
fn decode_reads_little_endian_fields() {
    let data = instruction(1, 0x0102_0304_0506_0708, u64::MAX);
    assert_eq!(
        decode_instruction(&data),
        Ok(Instruction { side: Side::Sell, price: 0x0102_0304_0506_0708, amount: u64::MAX })
    );
    let data = instruction(0, 100, 5);
    assert_eq!(
        decode_instruction(&data),
        Ok(Instruction { side: Side::Buy, price: 100, amount: 5 })
    );
}

#[test]
fn read_u64_le_exact_value() {
    let bytes = [9u8, 0x34, 0x12, 0, 0, 0, 0, 0, 0, 0xff];
    assert_eq!(read_u64_le(&bytes, 1), 0x1234);
    assert_eq!(read_u64_le(&bytes, 2), 0xff00_0000_0000_0012);
}

#[test]
fn decode_rejects_malformed_input() {
    assert_eq!(decode_instruction(&[0u8; 31]), Err(MarketError::InvalidInput));
    assert_eq!(decode_instruction(&[0u8; 33]), Err(MarketError::InvalidInput));
    assert_eq!(decode_instruction(&[]), Err(MarketError::InvalidInput));
    assert_eq!(decode_instruction(&instruction(2, 1, 1)), Err(MarketError::InvalidInput));
}

#[test]
fn submit_instruction_runs_both_sides() {
    let mut m = Market::new(vault());
    assert_eq!(
        m.submit_instruction(&instruction(1, 100, 5), 0),
        Ok(Step::Done(Outcome::OrderQueued(0)))
    );
    assert_eq!(
        m.submit_instruction(&instruction(0, 100, 5), 4),
        Err(MarketError::InsufficientFunds)
    );
    assert_eq!(
        m.submit_instruction(&instruction(0, 100, 5), 5),
        Ok(Step::Settle(Settlement { order_id: 0, amount: 5 }))
    );
    assert_eq!(
        m.submit_instruction(&instruction(7, 100, 5), 5),
        Err(MarketError::InvalidInput)
    );
    assert_eq!(m.book.len(), 1);
}
