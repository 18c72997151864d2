use orderbook_replay::book::{Book, Level, CROSS_THRESHOLD};
use orderbook_replay::md::{ExecuteType, Order, OrderType, Side, Trade};

fn order(clock: i64, seq: i64, side: Side, kind: OrderType, price: i64, qty: i64) -> Order {
    Order {
        clockAtArrival: clock,
        sequenceNo: 0,
        exchId: 2,
        securityType: 2,
        __isRepeated: 0,
        TransactTime: 0,
        ChannelNo: 2011,
        ApplSeqNum: seq,
        SecurityID: 2290,
        secid: 2290,
        mdSource: 0,
        Side: side,
        OrderType: kind,
        __origTickSeq: 0,
        Price: price,
        OrderQty: qty,
    }
}

fn trade(clock: i64, kind: ExecuteType, price: i64, qty: i64, bid_seq: i64, ask_seq: i64) -> Trade {
    Trade {
        clockAtArrival: clock,
        sequenceNo: 0,
        exchId: 2,
        securityType: 2,
        __isRepeated: 0,
        TransactTime: 0,
        ChannelNo: 2011,
        ApplSeqNum: 0,
        SecurityID: 2290,
        secid: 2290,
        mdSource: 0,
        ExecType: kind,
        TradeBSFlag: 'N',
        __origTickSeq: 0,
        TradePrice: price,
        TradeQty: qty,
        TradeMoney: price * qty,
        BidApplSeqNum: bid_seq,
        OfferApplSeqNum: ask_seq,
    }
}

fn lv(price: i64, quantity: i64) -> Level {
    Level { price, quantity }
}

#[test]
fn insert_new_level_on_empty_side() {
    let mut book = Book::new(2290);
    book.handle_order(&order(100, 1, Side::Bid, OrderType::LimitOrder, 51200, 3000));
    assert_eq!(book.bid_levels, vec![lv(51200, 3000)]);
    assert!(book.ask_levels.is_empty());
    assert_eq!(book.timestamp, 100);
}

#[test]
fn aggregate_at_existing_level() {
    let mut book = Book::new(2290);
    book.handle_order(&order(100, 1, Side::Bid, OrderType::LimitOrder, 51200, 3000));
    book.handle_order(&order(101, 2, Side::Bid, OrderType::LimitOrder, 51200, 1500));
    assert_eq!(book.bid_levels, vec![lv(51200, 4500)]);
}

#[test]
fn cancellation_drains_level() {
    let mut book = Book::new(2290);
    book.handle_order(&order(100, 7, Side::Bid, OrderType::LimitOrder, 51200, 3000));
    book.handle_trade(&trade(101, ExecuteType::Cancelled, 0, 3000, 7, 0));
    assert!(book.bid_levels.is_empty());
    assert_eq!(book.timestamp, 101);
}

#[test]
fn partial_cancellation_by_offer_sequence() {
    let mut book = Book::new(2290);
    book.handle_order(&order(100, 9, Side::Ask, OrderType::LimitOrder, 51300, 3000));
    book.handle_trade(&trade(101, ExecuteType::Cancelled, 0, 1000, 0, 9));
    assert_eq!(book.ask_levels, vec![lv(51300, 2000)]);
}

#[test]
fn cancellation_of_unknown_order_changes_nothing_but_clock() {
    let mut book = Book::new(2290);
    book.handle_order(&order(100, 7, Side::Bid, OrderType::LimitOrder, 51200, 3000));
    book.handle_trade(&trade(101, ExecuteType::Cancelled, 0, 3000, 8, 0));
    assert_eq!(book.bid_levels, vec![lv(51200, 3000)]);
    assert_eq!(book.timestamp, 101);
}

#[test]
fn cross_resolution() {
    let mut book = Book::new(2290);
    book.handle_order(&order(CROSS_THRESHOLD, 1, Side::Bid, OrderType::LimitOrder, 51200, 2000));
    book.handle_order(&order(CROSS_THRESHOLD + 1, 2, Side::Ask, OrderType::LimitOrder, 51100, 500));
    assert_eq!(book.bid_levels, vec![lv(51200, 1500)]);
    assert!(book.ask_levels.is_empty());
    assert!(!book.crossed());
}

#[test]
fn no_cross_resolution_before_threshold() {
    let mut book = Book::new(2290);
    book.handle_order(&order(100, 1, Side::Bid, OrderType::LimitOrder, 51200, 2000));
    book.handle_order(&order(101, 2, Side::Ask, OrderType::LimitOrder, 51100, 500));
    assert_eq!(book.bid_levels, vec![lv(51200, 2000)]);
    assert_eq!(book.ask_levels, vec![lv(51100, 500)]);
    assert!(book.crossed());
}

#[test]
fn cross_resolution_over_several_levels() {
    let mut book = Book::new(2290);
    let t = CROSS_THRESHOLD;
    book.handle_order(&order(t, 1, Side::Ask, OrderType::LimitOrder, 51000, 300));
    book.handle_order(&order(t, 2, Side::Ask, OrderType::LimitOrder, 51100, 400));
    book.handle_order(&order(t, 3, Side::Ask, OrderType::LimitOrder, 51300, 100));
    book.handle_order(&order(t + 1, 4, Side::Bid, OrderType::LimitOrder, 51200, 1000));
    assert_eq!(book.bid_levels, vec![lv(51200, 300)]);
    assert_eq!(book.ask_levels, vec![lv(51300, 100)]);
}

#[test]
fn best_order_routing() {
    let mut book = Book::new(2290);
    book.handle_order(&order(100, 1, Side::Bid, OrderType::BestOrder, 0, 10000));
    assert!(book.bid_levels.is_empty());
    assert_eq!(book.bid_best_order_quantity, 10000);
    book.handle_order(&order(101, 2, Side::Ask, OrderType::BestOrder, 0, 400));
    assert_eq!(book.ask_best_order_quantity, 400);
    book.handle_trade(&trade(102, ExecuteType::Cancelled, 0, 10, 1, 0));
    assert_eq!(book.bid_best_order_quantity, 0);
}

#[test]
fn sides_sorted_by_aggressiveness() {
    let mut book = Book::new(2290);
    let prices = [51200, 51000, 51300, 51100, 51000];
    for (i, p) in prices.iter().enumerate() {
        book.handle_order(&order(100 + i as i64, i as i64, Side::Bid, OrderType::LimitOrder, *p, 100));
        book.handle_order(&order(100 + i as i64, 50 + i as i64, Side::Ask, OrderType::LimitOrder, *p + 1000, 100));
    }
    assert_eq!(book.bid_levels, vec![lv(51300, 100), lv(51200, 100), lv(51100, 100), lv(51000, 200)]);
    assert_eq!(book.ask_levels, vec![lv(52000, 200), lv(52100, 100), lv(52200, 100), lv(52300, 100)]);
}

#[test]
fn stale_event_dropped_and_equal_clock_kept() {
    let mut book = Book::new(2290);
    book.handle_order(&order(200, 1, Side::Bid, OrderType::LimitOrder, 51200, 100));
    book.handle_order(&order(199, 2, Side::Bid, OrderType::LimitOrder, 51200, 100));
    assert_eq!(book.bid_levels, vec![lv(51200, 100)]);
    book.handle_order(&order(200, 3, Side::Bid, OrderType::LimitOrder, 51200, 100));
    assert_eq!(book.bid_levels, vec![lv(51200, 200)]);
    book.handle_trade(&trade(150, ExecuteType::Traded, 51200, 100, 1, 2));
    assert_eq!(book.num_trades, 0);
    assert_eq!(book.timestamp, 200);
}

#[test]
fn statistics_count_trades() {
    let mut book = Book::new(2290);
    book.handle_trade(&trade(100, ExecuteType::Traded, 51200, 300, 1, 2));
    book.handle_trade(&trade(101, ExecuteType::Traded, 51300, 200, 3, 4));
    book.handle_trade(&trade(102, ExecuteType::Unknown, 51400, 999, 3, 4));
    book.handle_trade(&trade(103, ExecuteType::Cancelled, 0, 50, 0, 77));
    assert_eq!(book.num_trades, 2);
    assert_eq!(book.cum_volume, 500);
    assert_eq!(book.cum_amount, 300 * 51200 + 200 * 51300);
    assert_eq!(book.close, 51300);
    assert_eq!(book.open_price, 51200);
}

#[test]
fn clock_never_goes_back() {
    let mut book = Book::new(2290);
    let clocks = [5, 9, 3, 9, 12, 1];
    let mut last = book.timestamp;
    for (i, c) in clocks.iter().enumerate() {
        if i % 2 == 0 {
            book.handle_order(&order(*c, i as i64, Side::Ask, OrderType::LimitOrder, 100, 1));
        } else {
            book.handle_trade(&trade(*c, ExecuteType::Traded, 100, 1, 0, 0));
        }
        assert!(book.timestamp >= last);
        last = book.timestamp;
    }
    assert_eq!(book.timestamp, 12);
}

#[test]
fn apply_change_ignores_unknown_side_and_removes_drained_level() {
    let mut book = Book::new(2290);
    book.apply_change(Side::Unknown, 51200, 100);
    assert!(book.bid_levels.is_empty() && book.ask_levels.is_empty());
    book.apply_change(Side::Ask, 51200, 100);
    book.apply_change(Side::Ask, 51200, -150);
    assert!(book.ask_levels.is_empty());
    book.apply_change(Side::Bid, 51200, -150);
    assert_eq!(book.bid_levels, vec![lv(51200, -150)]);
}

#[test]
fn snapshot_pads_missing_levels_with_zero() {
    let mut book = Book::new(2290);
    book.handle_order(&order(100, 1, Side::Bid, OrderType::LimitOrder, 51200, 3000));
    book.handle_order(&order(101, 2, Side::Ask, OrderType::LimitOrder, 51300, 700));
    let s = book.to_snapshot();
    assert_eq!(s.clock, 101);
    assert_eq!(s.clockAtArrival, 101);
    assert_eq!(s.StockID, 2290);
    assert_eq!((s.bid1p, s.bid1q, s.bid2p, s.bid2q), (51200, 3000, 0, 0));
    assert_eq!((s.ask1p, s.ask1q, s.ask5p, s.ask5q), (51300, 700, 0, 0));
}
