//! Market-data records: the order-entry and trade-execution events that
//! drive a replay, and the integer-scaled snapshot that a book emits.
use vstd::prelude::*;
use vstd::string::StrSliceExecFns;

verus! {

/// True when `s` is the one-character string `c`.
pub open spec fn is_code(s: Seq<char>, c: char) -> bool {
    s.len() == 1 && s[0] == c
}

fn has_code(s: &str, c: char) -> (r: bool)
    ensures
        r == is_code(s@, c),
{
    s.unicode_len() == 1 && s.get_char(0) == c
}

/// Side of an order.
#[derive(Clone, Copy, Debug, PartialEq, Eq, Structural)]
pub enum Side {
    Bid,
    Ask,
    Unknown,
}

/// "1" is a bid, "2" an ask; any other code is unknown.
pub open spec fn side_of(s: Seq<char>) -> Side {
    if is_code(s, '1') {
        Side::Bid
    } else if is_code(s, '2') {
        Side::Ask
    } else {
        Side::Unknown
    }
}

impl Side {
    pub fn from_string(s: &str) -> (r: Side)
        ensures
            r == side_of(s@),
    {
        if has_code(s, '1') {
            Side::Bid
        } else if has_code(s, '2') {
            Side::Ask
        } else {
            Side::Unknown
        }
    }
}

/// Type of an order. Best orders are priced at the best opposite price when
/// they match and are accounted apart from the price levels.
#[derive(Clone, Copy, Debug, PartialEq, Eq, Structural)]
pub enum OrderType {
    MarketOrder,
    LimitOrder,
    BestOrder,
    Unknown,
}

/// "1" is a market order, "2" a limit order, "U" a best order; any other
/// code is unknown.
pub open spec fn order_type_of(s: Seq<char>) -> OrderType {
    if is_code(s, '1') {
        OrderType::MarketOrder
    } else if is_code(s, '2') {
        OrderType::LimitOrder
    } else if is_code(s, 'U') {
        OrderType::BestOrder
    } else {
        OrderType::Unknown
    }
}

impl OrderType {
    pub fn from_string(s: &str) -> (r: OrderType)
        ensures
            r == order_type_of(s@),
    {
        if has_code(s, '1') {
            OrderType::MarketOrder
        } else if has_code(s, '2') {
            OrderType::LimitOrder
        } else if has_code(s, 'U') {
            OrderType::BestOrder
        } else {
            OrderType::Unknown
        }
    }
}

/// Execution type of a trade-stream record.
#[derive(Clone, Copy, Debug, PartialEq, Eq, Structural)]
pub enum ExecuteType {
    Cancelled,
    Traded,
    Unknown,
}

/// "4" is a cancellation, "F" a trade; any other code is unknown.
pub open spec fn execute_type_of(s: Seq<char>) -> ExecuteType {
    if is_code(s, '4') {
        ExecuteType::Cancelled
    } else if is_code(s, 'F') {
        ExecuteType::Traded
    } else {
        ExecuteType::Unknown
    }
}

impl ExecuteType {
    pub fn from_string(s: &str) -> (r: ExecuteType)
        ensures
            r == execute_type_of(s@),
    {
        if has_code(s, '4') {
            ExecuteType::Cancelled
        } else if has_code(s, 'F') {
            ExecuteType::Traded
        } else {
            ExecuteType::Unknown
        }
    }
}

/// One record of the order-entry stream. Prices are scaled by 10 000.
#[allow(non_snake_case)]
#[derive(Clone, Copy, Debug, PartialEq, Eq, Structural)]
pub struct Order {
    pub clockAtArrival: i64,
    pub sequenceNo: i64,
    pub exchId: i8,
    pub securityType: i8,
    pub __isRepeated: i8,
    pub TransactTime: i64,
    pub ChannelNo: i32,
    pub ApplSeqNum: i64,
    pub SecurityID: i32,
    pub secid: i32,
    pub mdSource: i8,
    pub Side: Side,
    pub OrderType: OrderType,
    pub __origTickSeq: i8,
    pub Price: i64,
    pub OrderQty: i64,
}

/// One record of the trade-execution stream. Prices are scaled by 10 000.
/// A cancellation names the withdrawn order by whichever of
/// `BidApplSeqNum` and `OfferApplSeqNum` is non-zero.
#[allow(non_snake_case)]
#[derive(Clone, Copy, Debug, PartialEq, Eq, Structural)]
pub struct Trade {
    pub clockAtArrival: i64,
    pub sequenceNo: i64,
    pub exchId: i8,
    pub securityType: i8,
    pub __isRepeated: i8,
    pub TransactTime: i64,
    pub ChannelNo: i32,
    pub ApplSeqNum: i64,
    pub SecurityID: i32,
    pub secid: i32,
    pub mdSource: i8,
    pub ExecType: ExecuteType,
    pub TradeBSFlag: char,
    pub __origTickSeq: i8,
    pub TradePrice: i64,
    pub TradeQty: i64,
    pub TradeMoney: i64,
    pub BidApplSeqNum: i64,
    pub OfferApplSeqNum: i64,
}

/// The state of one instrument's book at a clock: session statistics and the
/// top five levels of each side. Prices and amounts stay scaled by 10 000;
/// a level that the book does not have reads as price 0, quantity 0.
#[allow(non_snake_case)]
#[derive(Clone, Copy, Debug, PartialEq, Eq, Structural)]
pub struct Snapshot {
    pub clock: i64,
    pub clockAtArrival: i64,
    pub StockID: i32,
    pub cum_volume: i64,
    pub cum_amount: i64,
    pub close: i64,
    pub bid1p: i64,
    pub bid2p: i64,
    pub bid3p: i64,
    pub bid4p: i64,
    pub bid5p: i64,
    pub bid1q: i64,
    pub bid2q: i64,
    pub bid3q: i64,
    pub bid4q: i64,
    pub bid5q: i64,
    pub ask1p: i64,
    pub ask2p: i64,
    pub ask3p: i64,
    pub ask4p: i64,
    pub ask5p: i64,
    pub ask1q: i64,
    pub ask2q: i64,
    pub ask3q: i64,
    pub ask4q: i64,
    pub ask5q: i64,
    pub openPrice: i64,
    pub numTrades: i64,
}

/// An ASCII decimal digit.
pub open spec fn is_digit(c: char) -> bool {
    '0' as u32 <= c as u32 <= '9' as u32
}

/// Value of a string of decimal digits.
pub open spec fn digits_value(s: Seq<char>) -> int
    decreases s.len(),
{
    if s.len() == 0 {
        0
    } else {
        10 * digits_value(s.drop_last()) + (s.last() as u32 - '0' as u32)
    }
}

/// One or more ASCII decimal digits and nothing else.
pub open spec fn all_digits(s: Seq<char>) -> bool {
    s.len() > 0 && forall|i: int| 0 <= i < s.len() ==> is_digit(#[trigger] s[i])
}

/// The integer that `s` writes in decimal: an optional `+` or `-` followed by
/// one or more digits, nothing else.
pub open spec fn decimal_value(s: Seq<char>) -> Option<int> {
    if s.len() > 0 && s[0] == '-' && all_digits(s.drop_first()) {
        Some(-digits_value(s.drop_first()))
    } else if s.len() > 0 && s[0] == '+' && all_digits(s.drop_first()) {
        Some(digits_value(s.drop_first()))
    } else if all_digits(s) {
        Some(digits_value(s))
    } else {
        None
    }
}

/// Relies on `str::parse::<i64>` (the `FromStr` of `i64`): it reads an
/// optional `+` or `-` followed by ASCII digits only, and fails on anything
/// else and on a value out of range.
#[verifier::external_body]
fn parse_i64(s: &str) -> (r: Option<i64>)
    ensures
        r == (if decimal_value(s@) is Some && i64::MIN <= decimal_value(s@)->0 <= i64::MAX {
            Some(decimal_value(s@)->0 as i64)
        } else {
            None
        }),
{
    s.parse::<i64>().ok()
}

/// Field `i` of a record is a decimal integer within `[lo, hi]`.
pub open spec fn field_in(f: Seq<String>, i: int, lo: int, hi: int) -> bool {
    0 <= i < f.len() && decimal_value(f[i]@) is Some && lo <= decimal_value(f[i]@)->0 <= hi
}

/// The integer that field `i` of a record writes.
pub open spec fn field_value(f: Seq<String>, i: int) -> int {
    decimal_value(f[i]@)->0
}

/// Field `i` of a record is a decimal `i64`.
pub open spec fn field_i64(f: Seq<String>, i: int) -> bool {
    field_in(f, i, i64::MIN as int, i64::MAX as int)
}

/// Field `i` of a record is a decimal `i32`.
pub open spec fn field_i32(f: Seq<String>, i: int) -> bool {
    field_in(f, i, i32::MIN as int, i32::MAX as int)
}

/// Field `i` of a record is a decimal `i8`.
pub open spec fn field_i8(f: Seq<String>, i: int) -> bool {
    field_in(f, i, i8::MIN as int, i8::MAX as int)
}

fn read_i64(f: &Vec<String>, i: usize) -> (r: Option<i64>)
    ensures
        r is Some <==> field_i64(f@, i as int),
        r is Some ==> r->0 == field_value(f@, i as int),
{
    if i >= f.len() {
        return None;
    }
    parse_i64(f[i].as_str())
}

fn read_i32(f: &Vec<String>, i: usize) -> (r: Option<i32>)
    ensures
        r is Some <==> field_i32(f@, i as int),
        r is Some ==> r->0 == field_value(f@, i as int),
{
    match read_i64(f, i) {
        Some(v) => if i32::MIN as i64 <= v && v <= i32::MAX as i64 {
            Some(v as i32)
        } else {
            None
        },
        None => None,
    }
}

fn read_i8(f: &Vec<String>, i: usize) -> (r: Option<i8>)
    ensures
        r is Some <==> field_i8(f@, i as int),
        r is Some ==> r->0 == field_value(f@, i as int),
{
    match read_i64(f, i) {
        Some(v) => if i8::MIN as i64 <= v && v <= i8::MAX as i64 {
            Some(v as i8)
        } else {
            None
        },
        None => None,
    }
}

/// The columns of an order record are all well formed.
pub open spec fn order_fields_ok(f: Seq<String>) -> bool {
    &&& f.len() >= 16
    &&& field_i64(f, 0) && field_i64(f, 1) && field_i8(f, 2) && field_i8(f, 3)
    &&& field_i8(f, 4) && field_i64(f, 5) && field_i32(f, 6) && field_i64(f, 7)
    &&& field_i32(f, 8) && field_i32(f, 9) && field_i8(f, 10) && field_i8(f, 13)
    &&& field_i64(f, 14) && field_i64(f, 15)
}

/// The order that a well-formed record describes, column by column.
pub open spec fn order_of_fields(f: Seq<String>) -> Order {
    Order {
        clockAtArrival: field_value(f, 0) as i64,
        sequenceNo: field_value(f, 1) as i64,
        exchId: field_value(f, 2) as i8,
        securityType: field_value(f, 3) as i8,
        __isRepeated: field_value(f, 4) as i8,
        TransactTime: field_value(f, 5) as i64,
        ChannelNo: field_value(f, 6) as i32,
        ApplSeqNum: field_value(f, 7) as i64,
        SecurityID: field_value(f, 8) as i32,
        secid: field_value(f, 9) as i32,
        mdSource: field_value(f, 10) as i8,
        Side: side_of(f[11]@),
        OrderType: order_type_of(f[12]@),
        __origTickSeq: field_value(f, 13) as i8,
        Price: field_value(f, 14) as i64,
        OrderQty: field_value(f, 15) as i64,
    }
}

/// The columns of a trade record are all well formed.
pub open spec fn trade_fields_ok(f: Seq<String>) -> bool {
    &&& f.len() >= 19
    &&& field_i64(f, 0) && field_i64(f, 1) && field_i8(f, 2) && field_i8(f, 3)
    &&& field_i8(f, 4) && field_i64(f, 5) && field_i32(f, 6) && field_i64(f, 7)
    &&& field_i32(f, 8) && field_i32(f, 9) && field_i8(f, 10) && field_i8(f, 13)
    &&& field_i64(f, 14) && field_i64(f, 15) && field_i64(f, 16) && field_i64(f, 17)
    &&& field_i64(f, 18)
}

/// The trade that a well-formed record describes, column by column; the
/// buy/sell flag is not read.
pub open spec fn trade_of_fields(f: Seq<String>) -> Trade {
    Trade {
        clockAtArrival: field_value(f, 0) as i64,
        sequenceNo: field_value(f, 1) as i64,
        exchId: field_value(f, 2) as i8,
        securityType: field_value(f, 3) as i8,
        __isRepeated: field_value(f, 4) as i8,
        TransactTime: field_value(f, 5) as i64,
        ChannelNo: field_value(f, 6) as i32,
        ApplSeqNum: field_value(f, 7) as i64,
        SecurityID: field_value(f, 8) as i32,
        secid: field_value(f, 9) as i32,
        mdSource: field_value(f, 10) as i8,
        ExecType: execute_type_of(f[11]@),
        TradeBSFlag: 'N',
        __origTickSeq: field_value(f, 13) as i8,
        TradePrice: field_value(f, 14) as i64,
        TradeQty: field_value(f, 15) as i64,
        TradeMoney: field_value(f, 16) as i64,
        BidApplSeqNum: field_value(f, 17) as i64,
        OfferApplSeqNum: field_value(f, 18) as i64,
    }
}

impl Order {
    /// Reads an order from the columns of one record of the order stream;
    /// `None` when a column is missing or a number is malformed or out of range.
    pub fn from_fields(f: &Vec<String>) -> (r: Option<Order>)
        ensures
            r is Some <==> order_fields_ok(f@),
            r is Some ==> r->0 == order_of_fields(f@),
    {
        if f.len() < 16 {
            return None;
        }
        let clock = match read_i64(f, 0) { Some(v) => v, None => return None };
        let sequence_no = match read_i64(f, 1) { Some(v) => v, None => return None };
        let exch_id = match read_i8(f, 2) { Some(v) => v, None => return None };
        let security_type = match read_i8(f, 3) { Some(v) => v, None => return None };
        let is_repeated = match read_i8(f, 4) { Some(v) => v, None => return None };
        let transact_time = match read_i64(f, 5) { Some(v) => v, None => return None };
        let channel_no = match read_i32(f, 6) { Some(v) => v, None => return None };
        let appl_seq_num = match read_i64(f, 7) { Some(v) => v, None => return None };
        let security_id = match read_i32(f, 8) { Some(v) => v, None => return None };
        let secid = match read_i32(f, 9) { Some(v) => v, None => return None };
        let md_source = match read_i8(f, 10) { Some(v) => v, None => return None };
        let orig_tick_seq = match read_i8(f, 13) { Some(v) => v, None => return None };
        let price = match read_i64(f, 14) { Some(v) => v, None => return None };
        let qty = match read_i64(f, 15) { Some(v) => v, None => return None };
        Some(Order {
            clockAtArrival: clock,
            sequenceNo: sequence_no,
            exchId: exch_id,
            securityType: security_type,
            __isRepeated: is_repeated,
            TransactTime: transact_time,
            ChannelNo: channel_no,
            ApplSeqNum: appl_seq_num,
            SecurityID: security_id,
            secid,
            mdSource: md_source,
            Side: Side::from_string(f[11].as_str()),
            OrderType: OrderType::from_string(f[12].as_str()),
            __origTickSeq: orig_tick_seq,
            Price: price,
            OrderQty: qty,
        })
    }
}

impl Trade {
    /// Reads a trade from the columns of one record of the trade stream;
    /// `None` when a column is missing or a number is malformed or out of range.
    pub fn from_fields(f: &Vec<String>) -> (r: Option<Trade>)
        ensures
            r is Some <==> trade_fields_ok(f@),
            r is Some ==> r->0 == trade_of_fields(f@),
    {
        if f.len() < 19 {
            return None;
        }
        let clock = match read_i64(f, 0) { Some(v) => v, None => return None };
        let sequence_no = match read_i64(f, 1) { Some(v) => v, None => return None };
        let exch_id = match read_i8(f, 2) { Some(v) => v, None => return None };
        let security_type = match read_i8(f, 3) { Some(v) => v, None => return None };
        let is_repeated = match read_i8(f, 4) { Some(v) => v, None => return None };
        let transact_time = match read_i64(f, 5) { Some(v) => v, None => return None };
        let channel_no = match read_i32(f, 6) { Some(v) => v, None => return None };
        let appl_seq_num = match read_i64(f, 7) { Some(v) => v, None => return None };
        let security_id = match read_i32(f, 8) { Some(v) => v, None => return None };
        let secid = match read_i32(f, 9) { Some(v) => v, None => return None };
        let md_source = match read_i8(f, 10) { Some(v) => v, None => return None };
        let orig_tick_seq = match read_i8(f, 13) { Some(v) => v, None => return None };
        let price = match read_i64(f, 14) { Some(v) => v, None => return None };
        let qty = match read_i64(f, 15) { Some(v) => v, None => return None };
        let money = match read_i64(f, 16) { Some(v) => v, None => return None };
        let bid_seq = match read_i64(f, 17) { Some(v) => v, None => return None };
        let ask_seq = match read_i64(f, 18) { Some(v) => v, None => return None };
        Some(Trade {
            clockAtArrival: clock,
            sequenceNo: sequence_no,
            exchId: exch_id,
            securityType: security_type,
            __isRepeated: is_repeated,
            TransactTime: transact_time,
            ChannelNo: channel_no,
            ApplSeqNum: appl_seq_num,
            SecurityID: security_id,
            secid,
            mdSource: md_source,
            ExecType: ExecuteType::from_string(f[11].as_str()),
            TradeBSFlag: 'N',
            __origTickSeq: orig_tick_seq,
            TradePrice: price,
            TradeQty: qty,
            TradeMoney: money,
            BidApplSeqNum: bid_seq,
            OfferApplSeqNum: ask_seq,
        })
    }
}

} // verus!
