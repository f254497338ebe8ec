use orderbook::book::{OrderBook, Side};

const UNIT: u64 = 100_000_000;

fn ticks(p: f64) -> u64 {
    (p * UNIT as f64).round() as u64
}

fn delta(price: &str, side: &str, quantity: &str) -> String {
    format!(
        "{{\"type\":\"message\",\"data\":{{\"change\":\"{},{},{}\"}}}}",
        price, side, quantity
    )
}

#[test]
fn end_to_end_scenario() {
    let mut book = OrderBook::new();
    book.process_message(&delta("50000.0", "sell", "10"));
    book.process_message(&delta("49990.0", "buy", "4"));
    book.process_message(&delta("50000.0", "sell", "0"));
    let (bids, asks) = book.top_levels(5);
    assert_eq!(bids, vec![(ticks(49990.0), 4)]);
    assert_eq!(asks, vec![]);
}

#[test]
fn removing_absent_price_is_noop() {
    let mut book = OrderBook::new();
    book.ingest(ticks(10.0), Side::Buy, 2);
    book.ingest(ticks(11.0), Side::Sell, 3);
    let before = book.top_levels(10);
    book.ingest(ticks(12.0), Side::Buy, 0);
    book.ingest(ticks(12.0), Side::Sell, 0);
    assert_eq!(book.top_levels(10), before);
    book.process_message(&delta("12.0", "buy", "0"));
    assert_eq!(book.top_levels(10), before);
}

#[test]
fn later_delta_overwrites() {
    let mut book = OrderBook::new();
    book.ingest(ticks(100.0), Side::Buy, 5);
    book.ingest(ticks(100.0), Side::Buy, 3);
    let (bids, asks) = book.top_levels(10);
    assert_eq!(bids, vec![(ticks(100.0), 3)]);
    assert!(asks.is_empty());
}

#[test]
fn overwrite_through_messages() {
    let mut book = OrderBook::new();
    book.process_message(&delta("100.0", "buy", "5"));
    book.process_message(&delta("100", "buy", "3"));
    assert_eq!(book.top_levels(10).0, vec![(ticks(100.0), 3)]);
}

#[test]
fn sides_are_independent() {
    let mut book = OrderBook::new();
    book.ingest(ticks(100.0), Side::Sell, 7);
    book.ingest(ticks(100.0), Side::Buy, 2);
    book.ingest(ticks(100.0), Side::Buy, 0);
    let (bids, asks) = book.top_levels(10);
    assert!(bids.is_empty());
    assert_eq!(asks, vec![(ticks(100.0), 7)]);
}

#[test]
fn levels_are_ordered_best_first() {
    let mut book = OrderBook::new();
    for (p, q) in [(101.5, 1), (99.25, 2), (100.0, 3), (98.0, 4), (102.0, 5)] {
        book.ingest(ticks(p), Side::Buy, q);
        book.ingest(ticks(p + 10.0), Side::Sell, q);
    }
    let (bids, asks) = book.top_levels(3);
    assert_eq!(
        bids,
        vec![(ticks(102.0), 5), (ticks(101.5), 1), (ticks(100.0), 3)]
    );
    assert_eq!(
        asks,
        vec![(ticks(108.0), 4), (ticks(109.25), 2), (ticks(110.0), 3)]
    );
    for n in 0..=5 {
        let (bids, asks) = book.top_levels(n);
        assert_eq!(bids.len(), n);
        assert_eq!(asks.len(), n);
        assert!(bids.windows(2).all(|w| w[0].0 > w[1].0));
        assert!(asks.windows(2).all(|w| w[0].0 < w[1].0));
    }
    let (bids, asks) = book.top_levels(50);
    assert_eq!(bids.len(), 5);
    assert_eq!(asks.len(), 5);
}

#[test]
fn top_levels_of_empty_book() {
    let book = OrderBook::new();
    assert_eq!(book.top_levels(5), (vec![], vec![]));
}

#[test]
fn malformed_messages_leave_book_unchanged() {
    let mut book = OrderBook::new();
    book.ingest(ticks(10.0), Side::Buy, 1);
    let before = book.top_levels(10);
    book.process_message("not json at all");
    book.process_message("{\"type\":\"message\",\"data\":{}}");
    book.process_message("{\"type\":\"message\"}");
    book.process_message("{\"type\":\"message\",\"data\":{\"change\":\"10.0,buy\"}}");
    book.process_message("{\"type\":\"message\",\"data\":{\"change\":\"10.0,buy,5,1\"}}");
    book.process_message("{\"type\":\"message\",\"data\":{\"change\":5}}");
    book.process_message(&delta("abc", "buy", "5"));
    book.process_message(&delta("10.0", "buy", "five"));
    book.process_message(&delta("10.0", "BUY", "5"));
    book.process_message(&delta("10.0", "hold", "5"));
    assert_eq!(book.top_levels(10), before);
    book.process_message(&delta("10.0", "buy", "5"));
    assert_eq!(book.top_levels(10).0, vec![(ticks(10.0), 5)]);
}

#[test]
fn pong_never_changes_the_book() {
    let mut book = OrderBook::new();
    book.process_message("{\"type\":\"pong\",\"data\":{\"change\":\"10.0,buy,5\"}}");
    assert_eq!(book.top_levels(10), (vec![], vec![]));
    book.process_message("{\"type\":\"ping\",\"data\":{\"change\":\"10.0,buy,5\"}}");
    assert_eq!(book.top_levels(10).0, vec![(ticks(10.0), 5)]);
}

#[test]
fn apply_fields_and_apply_change() {
    let mut book = OrderBook::new();
    book.apply_fields(Some("pong"), Some("1,buy,1"));
    assert_eq!(book.top_levels(5), (vec![], vec![]));
    book.apply_fields(None, None);
    assert_eq!(book.top_levels(5), (vec![], vec![]));
    book.apply_fields(Some("message"), Some("1,buy,1"));
    assert_eq!(book.top_levels(5).0, vec![(UNIT, 1)]);
    book.apply_change("2.5,sell,-3");
    assert_eq!(book.top_levels(5).1, vec![(ticks(2.5), -3)]);
    book.apply_change("2.5,sell,0");
    assert_eq!(book.top_levels(5).1, vec![]);
}

#[test]
fn pong_with_malformed_change_is_skipped() {
    let mut book = OrderBook::new();
    book.process_message("{\"type\":\"pong\",\"data\":{\"change\":\"abc,buy,xyz\"}}");
    assert_eq!(book.top_levels(5), (vec![], vec![]));
}

#[test]
fn short_sides_return_all_levels() {
    let mut book = OrderBook::new();
    book.ingest(ticks(1.0), Side::Buy, 1);
    book.ingest(ticks(2.0), Side::Buy, 1);
    book.ingest(ticks(3.0), Side::Sell, 1);
    let (bids, asks) = book.top_levels(5);
    assert_eq!(bids.len(), 2);
    assert_eq!(asks.len(), 1);
}

#[test]
fn exponent_price_in_a_message() {
    let mut book = OrderBook::new();
    book.process_message(&delta("1e3", "buy", "5"));
    assert_eq!(book.top_levels(5).0, vec![(ticks(1000.0), 5)]);
}
