use orderbook_replay::md::{ExecuteType, Order, OrderType, Side, Snapshot, Trade};
use orderbook_replay::snapshot_builder::SnapshotBuilder;

fn order(clock: i64, seq: i64, sec: i32, side: Side, price: i64, qty: i64) -> Order {
    Order {
        clockAtArrival: clock,
        sequenceNo: 0,
        exchId: 2,
        securityType: 2,
        __isRepeated: 0,
        TransactTime: 0,
        ChannelNo: 2011,
        ApplSeqNum: seq,
        SecurityID: sec,
        secid: sec,
        mdSource: 0,
        Side: side,
        OrderType: OrderType::LimitOrder,
        __origTickSeq: 0,
        Price: price,
        OrderQty: qty,
    }
}

fn cancel(clock: i64, sec: i32, qty: i64, bid_seq: i64, ask_seq: i64) -> Trade {
    Trade {
        clockAtArrival: clock,
        sequenceNo: 0,
        exchId: 2,
        securityType: 2,
        __isRepeated: 0,
        TransactTime: 0,
        ChannelNo: 2011,
        ApplSeqNum: 0,
        SecurityID: sec,
        secid: sec,
        mdSource: 0,
        ExecType: ExecuteType::Cancelled,
        TradeBSFlag: 'N',
        __origTickSeq: 0,
        TradePrice: 0,
        TradeQty: qty,
        TradeMoney: 0,
        BidApplSeqNum: bid_seq,
        OfferApplSeqNum: ask_seq,
    }
}

fn traded(clock: i64, sec: i32, price: i64, qty: i64) -> Trade {
    let mut t = cancel(clock, sec, qty, 1, 2);
    t.ExecType = ExecuteType::Traded;
    t.TradePrice = price;
    t
}

fn seed_2290(clock: i64) -> Snapshot {
    Snapshot {
        clock,
        clockAtArrival: clock,
        StockID: 2290,
        cum_volume: 11641250,
        cum_amount: 1117560000000,
        close: 96000,
        bid1p: 51200,
        bid2p: 51100,
        bid3p: 51000,
        bid4p: 50800,
        bid5p: 50700,
        bid1q: 3000,
        bid2q: 1500,
        bid3q: 9800,
        bid4q: 15800,
        bid5q: 1000,
        ask1p: 52200,
        ask2p: 52300,
        ask3p: 53000,
        ask4p: 53500,
        ask5p: 53800,
        ask1q: 1000,
        ask2q: 600,
        ask3q: 1001,
        ask4q: 1000,
        ask5q: 1200,
        openPrice: 96000,
        numTrades: 3493,
    }
}

#[test]
fn end_to_end_snapshot_from_seed() {
    let t0 = 1587605145091648;
    let mut builder = SnapshotBuilder::new(vec![], vec![]);
    builder.init(&vec![seed_2290(t0)]);
    let out = builder.build_snapshot(&vec![t0 + 1]);
    assert_eq!(out, vec![seed_2290(t0)]);
}

#[test]
fn seed_replaces_existing_book() {
    let t0 = 1587605145091648;
    let mut builder = SnapshotBuilder::new(vec![order(10, 1, 2290, Side::Bid, 40000, 5)], vec![]);
    builder.process_until(11);
    builder.init(&vec![seed_2290(t0)]);
    assert_eq!(builder.books_.len(), 1);
    assert_eq!(builder.books_[0].to_snapshot(), seed_2290(t0));
}

#[test]
fn process_until_stops_at_timestamp() {
    let orders = vec![
        order(10, 1, 1, Side::Bid, 100, 5),
        order(20, 2, 1, Side::Bid, 100, 5),
        order(30, 3, 1, Side::Bid, 100, 5),
    ];
    let trades = vec![cancel(15, 1, 5, 1, 0), cancel(30, 1, 5, 3, 0)];
    let mut builder = SnapshotBuilder::new(orders, trades);
    builder.process_until(20);
    assert_eq!(builder.order_idx_, 1);
    assert_eq!(builder.trade_idx_, 1);
    assert!(builder.books_[0].bid_levels.is_empty());
    builder.process_until(31);
    assert_eq!(builder.order_idx_, 3);
    assert_eq!(builder.trade_idx_, 2);
    assert_eq!(builder.books_[0].bid_levels[0].quantity, 5);
}

#[test]
fn order_goes_before_trade_at_equal_clock() {
    let orders = vec![order(10, 7, 1, Side::Ask, 100, 5)];
    let trades = vec![cancel(10, 1, 5, 0, 7)];
    let mut builder = SnapshotBuilder::new(orders, trades);
    builder.process_until(11);
    assert!(builder.books_[0].ask_levels.is_empty());
    assert_eq!(builder.books_[0].timestamp, 10);
}

#[test]
fn trade_without_book_is_passed_over() {
    let orders = vec![order(10, 7, 1, Side::Ask, 100, 5)];
    let trades = vec![traded(5, 2, 100, 5), traded(12, 1, 100, 5)];
    let mut builder = SnapshotBuilder::new(orders, trades);
    builder.process_until(100);
    assert_eq!(builder.books_.len(), 1);
    assert_eq!(builder.trade_idx_, 2);
    assert_eq!(builder.books_[0].cum_volume, 5);
    assert_eq!(builder.books_[0].num_trades, 1);
}

#[test]
fn build_snapshot_emits_every_book_per_timestamp() {
    let orders = vec![
        order(10, 1, 1, Side::Bid, 100, 5),
        order(20, 2, 2, Side::Ask, 200, 6),
    ];
    let mut builder = SnapshotBuilder::new(orders, vec![]);
    let out = builder.build_snapshot(&vec![15, 25]);
    assert_eq!(out.len(), 3);
    assert_eq!((out[0].StockID, out[0].clock, out[0].bid1p, out[0].bid1q), (1, 10, 100, 5));
    assert_eq!((out[1].StockID, out[1].clock), (1, 10));
    assert_eq!((out[2].StockID, out[2].ask1p, out[2].ask1q), (2, 200, 6));
}

#[test]
fn reset_rewinds_cursors_and_keeps_books() {
    let orders = vec![order(10, 1, 1, Side::Bid, 100, 5)];
    let mut builder = SnapshotBuilder::new(orders, vec![]);
    builder.process_until(11);
    builder.reset();
    assert_eq!(builder.order_idx_, 0);
    assert_eq!(builder.trade_idx_, 0);
    assert_eq!(builder.books_.len(), 1);
    // the replayed order is now stale-equal and is applied once more
    builder.process_until(11);
    assert_eq!(builder.books_[0].bid_levels[0].quantity, 10);
}

#[test]
fn codes_of_the_streams() {
    assert_eq!(Side::from_string("1"), Side::Bid);
    assert_eq!(Side::from_string("2"), Side::Ask);
    assert_eq!(Side::from_string("12"), Side::Unknown);
    assert_eq!(OrderType::from_string("1"), OrderType::MarketOrder);
    assert_eq!(OrderType::from_string("2"), OrderType::LimitOrder);
    assert_eq!(OrderType::from_string("U"), OrderType::BestOrder);
    assert_eq!(OrderType::from_string("u"), OrderType::Unknown);
    assert_eq!(ExecuteType::from_string("4"), ExecuteType::Cancelled);
    assert_eq!(ExecuteType::from_string("F"), ExecuteType::Traded);
    assert_eq!(ExecuteType::from_string(""), ExecuteType::Unknown);
}

fn strings(cols: &[&str]) -> Vec<String> {
    cols.iter().map(|c| c.to_string()).collect()
}

#[test]
fn order_from_fields_reads_every_column() {
    let row = strings(&[
        "1587605145091648", "17", "2", "2", "0", "20200423092500000", "2011", "7", "2290",
        "2290", "0", "1", "2", "-1", "51200", "+3000",
    ]);
    let o = Order::from_fields(&row).unwrap();
    assert_eq!(o.clockAtArrival, 1587605145091648);
    assert_eq!(o.sequenceNo, 17);
    assert_eq!(o.TransactTime, 20200423092500000);
    assert_eq!(o.ChannelNo, 2011);
    assert_eq!(o.ApplSeqNum, 7);
    assert_eq!(o.SecurityID, 2290);
    assert_eq!(o.Side, Side::Bid);
    assert_eq!(o.OrderType, OrderType::LimitOrder);
    assert_eq!(o.__origTickSeq, -1);
    assert_eq!(o.Price, 51200);
    assert_eq!(o.OrderQty, 3000);
}

#[test]
fn order_from_fields_rejects_bad_rows() {
    let good = [
        "1", "2", "2", "2", "0", "3", "2011", "7", "2290", "2290", "0", "2", "U", "0", "51200", "10",
    ];
    assert!(Order::from_fields(&strings(&good)).is_some());
    assert!(Order::from_fields(&strings(&good[..15])).is_none());
    let mut bad = good;
    bad[2] = "300";
    assert!(Order::from_fields(&strings(&bad)).is_none());
    let mut bad = good;
    bad[14] = "5.12";
    assert!(Order::from_fields(&strings(&bad)).is_none());
    let mut bad = good;
    bad[0] = " 1";
    assert!(Order::from_fields(&strings(&bad)).is_none());
}

#[test]
fn trade_from_fields_reads_every_column() {
    let row = strings(&[
        "1587605145091700", "18", "2", "2", "0", "20200423092500000", "2011", "9", "2290",
        "2290", "0", "4", "N", "0", "0", "1000", "0", "7", "0",
    ]);
    let t = Trade::from_fields(&row).unwrap();
    assert_eq!(t.clockAtArrival, 1587605145091700);
    assert_eq!(t.ExecType, ExecuteType::Cancelled);
    assert_eq!(t.TradeQty, 1000);
    assert_eq!(t.BidApplSeqNum, 7);
    assert_eq!(t.OfferApplSeqNum, 0);
    assert_eq!(t.TradeBSFlag, 'N');
    assert!(Trade::from_fields(&strings(&["1"; 18])).is_none());
}
