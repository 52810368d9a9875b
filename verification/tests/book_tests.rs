use front_run_vanilla::book::{BookError, OrderBook};
use front_run_vanilla::num::SCALE;
use front_run_vanilla::types::{Side, MAX_PRICE, MAX_QTY};

fn px(units: i64) -> i64 {
    units * SCALE
}

#[test]
fn book_upsert_and_top() {
    let mut ob = OrderBook::new("BTCUSDT");
    ob.update_level(Side::Buy, px(100), px(5)).unwrap();
    ob.update_level(Side::Buy, px(99), px(2)).unwrap();
    ob.update_level(Side::Sell, px(101), px(3)).unwrap();

    let (bb, ba) = ob.get_top_of_book();
    assert_eq!(bb.unwrap().price, px(100));
    assert_eq!(bb.unwrap().quantity, px(5));
    assert_eq!(ba.unwrap().price, px(101));
    assert_eq!(ob.get_book_depth_count(), (2, 1));
}

#[test]
fn book_mid_and_spread() {
    let mut ob = OrderBook::new("BTCUSDT");
    assert!(ob.get_mid_price().is_none());
    ob.update_level(Side::Buy, px(100), px(5)).unwrap();
    ob.update_level(Side::Sell, px(102), px(5)).unwrap();

    // mid = (100 + 102) / 2 = 101
    assert_eq!(ob.get_mid_price(), Some(px(101)));
    // spread = (102 - 100) / 101 * 10000 bps = 198.01.. bps
    assert_eq!(ob.get_spread_bps(), Some(2 * 100_000_000 / 101));
}

#[test]
fn book_rejects_invalid_updates() {
    let mut ob = OrderBook::new("BTCUSDT");
    assert_eq!(ob.update_level(Side::Buy, -1, px(1)), Err(BookError::InvalidPrice));
    assert_eq!(ob.update_level(Side::Buy, MAX_PRICE + 1, px(1)), Err(BookError::InvalidPrice));
    assert_eq!(ob.update_level(Side::Buy, px(1), -5), Err(BookError::InvalidQuantity));
    assert_eq!(ob.update_level(Side::Buy, px(1), MAX_QTY + 1), Err(BookError::InvalidQuantity));
    // the book is untouched
    assert_eq!(ob.get_book_depth_count(), (0, 0));
}

#[test]
fn book_zero_quantity_removes_price() {
    // a quantity-zero update leaves the price absent from every depth query
    let mut ob = OrderBook::new("BTCUSDT");
    ob.update_level(Side::Buy, px(100), px(5)).unwrap();
    ob.update_level(Side::Buy, px(99), px(2)).unwrap();
    ob.update_level(Side::Sell, px(101), px(4)).unwrap();

    ob.update_level(Side::Buy, px(100), 0).unwrap();

    let (bids, asks) = ob.get_depth(10);
    assert_eq!(bids.len(), 1);
    assert!(bids.iter().all(|l| l.price != px(100)));
    assert_eq!(asks.len(), 1);
    // the imbalance now sums only the remaining bid level: 2 / 4 = 0.5
    assert_eq!(ob.calculate_imbalance(10), Some((SCALE / 2) as i128));
}

#[test]
fn book_imbalance_monotone_in_bid_volume() {
    // raising bid volume never lowers the ratio, holding asks fixed
    let mut small = OrderBook::new("BTCUSDT");
    small.update_level(Side::Buy, px(100), px(5)).unwrap();
    small.update_level(Side::Sell, px(101), px(5)).unwrap();

    let mut large = OrderBook::new("BTCUSDT");
    large.update_level(Side::Buy, px(100), px(9)).unwrap();
    large.update_level(Side::Sell, px(101), px(5)).unwrap();

    let r_small = small.calculate_imbalance(5).unwrap();
    let r_large = large.calculate_imbalance(5).unwrap();
    assert!(r_small <= r_large);
    assert_eq!(r_small, SCALE as i128);

    // raising ask volume never raises the ratio, holding bids fixed
    let mut heavy_ask = OrderBook::new("BTCUSDT");
    heavy_ask.update_level(Side::Buy, px(100), px(5)).unwrap();
    heavy_ask.update_level(Side::Sell, px(101), px(10)).unwrap();
    assert!(heavy_ask.calculate_imbalance(5).unwrap() <= r_small);
}

#[test]
fn book_imbalance_none_without_asks() {
    let mut ob = OrderBook::new("BTCUSDT");
    assert_eq!(ob.calculate_imbalance(5), None);
    ob.update_level(Side::Buy, px(100), px(5)).unwrap();
    assert_eq!(ob.calculate_imbalance(5), None);
    ob.update_level(Side::Sell, px(101), px(5)).unwrap();
    assert!(ob.calculate_imbalance(5).is_some());
}

#[test]
fn book_depth_is_best_first() {
    let mut ob = OrderBook::new("BTCUSDT");
    ob.update_level(Side::Buy, px(98), px(1)).unwrap();
    ob.update_level(Side::Buy, px(100), px(2)).unwrap();
    ob.update_level(Side::Buy, px(99), px(3)).unwrap();
    ob.update_level(Side::Sell, px(103), px(1)).unwrap();
    ob.update_level(Side::Sell, px(101), px(2)).unwrap();

    let (bids, asks) = ob.get_depth(2);
    assert_eq!(bids.len(), 2);
    assert_eq!(bids[0].price, px(100));
    assert_eq!(bids[1].price, px(99));
    assert_eq!(asks[0].price, px(101));
    assert_eq!(asks[1].price, px(103));
}
