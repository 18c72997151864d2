//! The replay engine: merges the order and trade streams in clock order into
//! per-instrument books and takes snapshots at requested clocks.
use vstd::prelude::*;
use crate::book::{
    apply_change_spec, empty_book, levels_sorted, order_step, snapshot_of, trade_step, Book,
    BookView,
};
use crate::md::{Order, Side, Snapshot, Trade};

verus! {

/// The mathematical state of the engine.
pub struct EngineView {
    pub orders: Seq<Order>,
    pub trades: Seq<Trade>,
    pub books: Seq<BookView>,
    pub order_idx: int,
    pub trade_idx: int,
}

/// The first index at or after `i` of a book of instrument `id` (or the length).
pub open spec fn find_from(books: Seq<BookView>, id: i32, i: int) -> int
    decreases books.len() - i,
{
    if i < 0 || i >= books.len() || books[i].inst_id == id {
        i
    } else {
        find_from(books, id, i + 1)
    }
}

/// Index of the book of instrument `id`, or the number of books if there is none.
pub open spec fn find_book(books: Seq<BookView>, id: i32) -> int {
    find_from(books, id, 0)
}

/// The books after an order: applied to its instrument's book, which is
/// created (and appended) first if there is none.
pub open spec fn books_after_order(books: Seq<BookView>, o: Order) -> Seq<BookView> {
    let i = find_book(books, o.SecurityID);
    if i < books.len() {
        books.update(i, order_step(books[i], o))
    } else {
        books.push(order_step(empty_book(o.SecurityID), o))
    }
}

/// The books after a trade-stream record: applied to its instrument's book;
/// a record for an instrument without a book is dropped.
pub open spec fn books_after_trade(books: Seq<BookView>, t: Trade) -> Seq<BookView> {
    let i = find_book(books, t.SecurityID);
    if i < books.len() {
        books.update(i, trade_step(books[i], t))
    } else {
        books
    }
}

/// The next order exists and is earlier than `ts`.
pub open spec fn order_ready(e: EngineView, ts: i64) -> bool {
    0 <= e.order_idx < e.orders.len() && e.orders[e.order_idx].clockAtArrival < ts
}

/// The next trade-stream record exists and is earlier than `ts`.
pub open spec fn trade_ready(e: EngineView, ts: i64) -> bool {
    0 <= e.trade_idx < e.trades.len() && e.trades[e.trade_idx].clockAtArrival < ts
}

/// The engine after one order.
pub open spec fn order_advance(e: EngineView) -> EngineView {
    EngineView {
        books: books_after_order(e.books, e.orders[e.order_idx]),
        order_idx: e.order_idx + 1,
        ..e
    }
}

/// The engine after one trade-stream record.
pub open spec fn trade_advance(e: EngineView) -> EngineView {
    EngineView {
        books: books_after_trade(e.books, e.trades[e.trade_idx]),
        trade_idx: e.trade_idx + 1,
        ..e
    }
}

/// Replays every event earlier than `ts`, in clock order; at equal clocks
/// the order goes first.
pub open spec fn replay(e: EngineView, ts: i64) -> EngineView
    decreases e.orders.len() - e.order_idx, e.trades.len() - e.trade_idx,
{
    if order_ready(e, ts) && (!trade_ready(e, ts) || e.orders[e.order_idx].clockAtArrival
        <= e.trades[e.trade_idx].clockAtArrival) {
        replay(order_advance(e), ts)
    } else if trade_ready(e, ts) {
        replay(trade_advance(e), ts)
    } else {
        e
    }
}

/// The engine after replaying up to each of `tss` in turn.
pub open spec fn after_timestamps(e: EngineView, tss: Seq<i64>) -> EngineView
    decreases tss.len(),
{
    if tss.len() == 0 {
        e
    } else {
        replay(after_timestamps(e, tss.drop_last()), tss.last())
    }
}

/// One snapshot per book, in the order of the books.
pub open spec fn book_snapshots(books: Seq<BookView>) -> Seq<Snapshot> {
    books.map_values(|b: BookView| snapshot_of(b))
}

/// The snapshots taken after replaying up to each of `tss` in turn.
pub open spec fn snapshots_for(e: EngineView, tss: Seq<i64>) -> Seq<Snapshot>
    decreases tss.len(),
{
    if tss.len() == 0 {
        Seq::empty()
    } else {
        snapshots_for(e, tss.drop_last()) + book_snapshots(after_timestamps(e, tss).books)
    }
}

/// The book that a seed snapshot describes: its clock and statistics, and its
/// five levels of each side applied in turn (best orders are not seeded).
pub open spec fn seeded_book(s: Snapshot) -> BookView {
    let b0 = BookView {
        timestamp: s.clockAtArrival,
        cum_volume: s.cum_volume,
        cum_amount: s.cum_amount,
        num_trades: s.numTrades,
        close: s.close,
        open_price: s.openPrice,
        ..empty_book(s.StockID)
    };
    let b1 = apply_change_spec(b0, Side::Bid, s.bid1p, s.bid1q);
    let b2 = apply_change_spec(b1, Side::Bid, s.bid2p, s.bid2q);
    let b3 = apply_change_spec(b2, Side::Bid, s.bid3p, s.bid3q);
    let b4 = apply_change_spec(b3, Side::Bid, s.bid4p, s.bid4q);
    let b5 = apply_change_spec(b4, Side::Bid, s.bid5p, s.bid5q);
    let a1 = apply_change_spec(b5, Side::Ask, s.ask1p, s.ask1q);
    let a2 = apply_change_spec(a1, Side::Ask, s.ask2p, s.ask2q);
    let a3 = apply_change_spec(a2, Side::Ask, s.ask3p, s.ask3q);
    let a4 = apply_change_spec(a3, Side::Ask, s.ask4p, s.ask4q);
    apply_change_spec(a4, Side::Ask, s.ask5p, s.ask5q)
}

/// The books after seeding one instrument: its book is replaced, or appended.
pub open spec fn books_after_seed(books: Seq<BookView>, s: Snapshot) -> Seq<BookView> {
    let i = find_book(books, s.StockID);
    if i < books.len() {
        books.update(i, seeded_book(s))
    } else {
        books.push(seeded_book(s))
    }
}

/// The books after seeding from each of `seeds` in turn.
pub open spec fn seed_all(books: Seq<BookView>, seeds: Seq<Snapshot>) -> Seq<BookView>
    decreases seeds.len(),
{
    if seeds.len() == 0 {
        books
    } else {
        books_after_seed(seed_all(books, seeds.drop_last()), seeds.last())
    }
}

/// Every book has both sides sorted in aggressive order.
pub open spec fn all_books_sorted(books: Seq<BookView>) -> bool {
    forall|i: int| 0 <= i < books.len() ==> levels_sorted(#[trigger] books[i])
}

/// The replay engine over an order stream and a trade stream, each sorted by
/// arrival clock.
pub struct SnapshotBuilder {
    pub orders_: Vec<Order>,
    pub trades_: Vec<Trade>,
    /// One book per instrument seen, in the order they were first seen.
    pub books_: Vec<Book>,
    /// Next order to replay.
    pub order_idx_: usize,
    /// Next trade-stream record to replay.
    pub trade_idx_: usize,
}

/// The books as mathematical values.
pub open spec fn books_view(books: Seq<Book>) -> Seq<BookView> {
    books.map_values(|b: Book| b@)
}

impl View for SnapshotBuilder {
    type V = EngineView;

    open spec fn view(&self) -> EngineView {
        EngineView {
            orders: self.orders_@,
            trades: self.trades_@,
            books: books_view(self.books_@),
            order_idx: self.order_idx_ as int,
            trade_idx: self.trade_idx_ as int,
        }
    }
}

proof fn lemma_find_bounds(books: Seq<BookView>, id: i32, i: int)
    requires
        0 <= i <= books.len(),
    ensures
        i <= find_from(books, id, i) <= books.len(),
        find_from(books, id, i) < books.len() ==> books[find_from(books, id, i)].inst_id == id,
    decreases books.len() - i,
{
    if i < books.len() && books[i].inst_id != id {
        lemma_find_bounds(books, id, i + 1);
    }
}

impl SnapshotBuilder {
    /// Both cursors stay within their streams.
    pub open spec fn wf(&self) -> bool {
        self.order_idx_ <= self.orders_.len() && self.trade_idx_ <= self.trades_.len()
    }

    /// An engine over the two streams with no books and both cursors at the start.
    pub fn new(orders: Vec<Order>, trades: Vec<Trade>) -> (r: SnapshotBuilder)
        ensures
            r.wf(),
            r@ == (EngineView {
                orders: orders@,
                trades: trades@,
                books: Seq::empty(),
                order_idx: 0,
                trade_idx: 0,
            }),
    {
        let r = SnapshotBuilder {
            orders_: orders,
            trades_: trades,
            books_: Vec::new(),
            order_idx_: 0,
            trade_idx_: 0,
        };
        assert(books_view(r.books_@) =~= Seq::empty());
        r
    }

    fn find_book_index(&self, id: i32) -> (r: usize)
        ensures
            r as int == find_book(self@.books, id),
    {
        let ghost books = self@.books;
        let mut i: usize = 0;
        while i < self.books_.len() && self.books_[i].inst_id != id
            invariant
                0 <= i <= self.books_.len(),
                books == books_view(self.books_@),
                find_from(books, id, i as int) == find_book(books, id),
            decreases self.books_.len() - i,
        {
            i += 1;
        }
        i
    }

    /// Replays the next order.
    fn process_order(&mut self)
        requires
            old(self).wf(),
            old(self).order_idx_ < old(self).orders_.len(),
        ensures
            final(self).wf(),
            final(self)@ == order_advance(old(self)@),
            all_books_sorted(old(self)@.books) ==> all_books_sorted(final(self)@.books),
    {
        let order = self.orders_[self.order_idx_];
        let i = self.find_book_index(order.SecurityID);
        let ghost books = self@.books;
        proof {
            lemma_find_bounds(books, order.SecurityID, 0);
        }
        if i == self.books_.len() {
            let mut book = Book::new(order.SecurityID);
            book.handle_order(&order);
            proof {
                assert(levels_sorted(empty_book(order.SecurityID)));
            }
            self.books_.push(book);
            assert(books_view(self.books_@) =~= books.push(
                order_step(empty_book(order.SecurityID), order),
            ));
        } else {
            let mut book = self.books_.remove(i);
            book.handle_order(&order);
            self.books_.insert(i, book);
            assert(books_view(self.books_@) =~= books.update(
                i as int,
                order_step(books[i as int], order),
            ));
        }
        self.order_idx_ += 1;
    }

    /// Replays the next trade-stream record; one for an instrument without a
    /// book is passed over.
    fn process_trade(&mut self)
        requires
            old(self).wf(),
            old(self).trade_idx_ < old(self).trades_.len(),
        ensures
            final(self).wf(),
            final(self)@ == trade_advance(old(self)@),
            all_books_sorted(old(self)@.books) ==> all_books_sorted(final(self)@.books),
    {
        let trade = self.trades_[self.trade_idx_];
        let i = self.find_book_index(trade.SecurityID);
        let ghost books = self@.books;
        proof {
            lemma_find_bounds(books, trade.SecurityID, 0);
        }
        if i < self.books_.len() {
            let mut book = self.books_.remove(i);
            book.handle_trade(&trade);
            self.books_.insert(i, book);
            assert(books_view(self.books_@) =~= books.update(
                i as int,
                trade_step(books[i as int], trade),
            ));
        }
        self.trade_idx_ += 1;
    }

    /// Replays every event with an arrival clock earlier than `timestamp`.
    /// Afterwards each cursor is at the end of its stream or at an event no
    /// earlier than `timestamp`.
    pub fn process_until(&mut self, timestamp: i64)
        requires
            old(self).wf(),
        ensures
            final(self).wf(),
            final(self)@ == replay(old(self)@, timestamp),
            all_books_sorted(old(self)@.books) ==> all_books_sorted(final(self)@.books),
            final(self).order_idx_ == final(self).orders_.len()
                || final(self).orders_[final(self).order_idx_ as int].clockAtArrival >= timestamp,
            final(self).trade_idx_ == final(self).trades_.len()
                || final(self).trades_[final(self).trade_idx_ as int].clockAtArrival >= timestamp,
    {
        let ghost start = self@;
        while (self.order_idx_ < self.orders_.len() && self.orders_[self.order_idx_].clockAtArrival
            < timestamp) && (self.trade_idx_ < self.trades_.len()
            && self.trades_[self.trade_idx_].clockAtArrival < timestamp)
            invariant
                self.wf(),
                replay(self@, timestamp) == replay(start, timestamp),
                all_books_sorted(start.books) ==> all_books_sorted(self@.books),
            decreases self.orders_.len() - self.order_idx_, self.trades_.len() - self.trade_idx_,
        {
            if self.orders_[self.order_idx_].clockAtArrival
                <= self.trades_[self.trade_idx_].clockAtArrival {
                // orders go first at equal clocks, so a cancellation finds its order
                self.process_order();
            } else {
                self.process_trade();
            }
        }
        // no more orders before the timestamp
        while self.trade_idx_ < self.trades_.len() && self.trades_[self.trade_idx_].clockAtArrival
            < timestamp
            invariant
                self.wf(),
                !order_ready(self@, timestamp) || !trade_ready(self@, timestamp),
                replay(self@, timestamp) == replay(start, timestamp),
                all_books_sorted(start.books) ==> all_books_sorted(self@.books),
            decreases self.trades_.len() - self.trade_idx_,
        {
            self.process_trade();
        }
        // no more trades before the timestamp
        while self.order_idx_ < self.orders_.len() && self.orders_[self.order_idx_].clockAtArrival
            < timestamp
            invariant
                self.wf(),
                !trade_ready(self@, timestamp),
                replay(self@, timestamp) == replay(start, timestamp),
                all_books_sorted(start.books) ==> all_books_sorted(self@.books),
            decreases self.orders_.len() - self.order_idx_,
        {
            self.process_order();
        }
    }

    /// Seeds books from snapshots: each snapshot's instrument gets a fresh
    /// book (replacing one it had) with the snapshot's clock, statistics and
    /// levels.
    pub fn init(&mut self, snapshots: &Vec<Snapshot>)
        requires
            old(self).wf(),
        ensures
            final(self).wf(),
            final(self)@ == (EngineView { books: seed_all(old(self)@.books, snapshots@), ..old(self)@ }),
    {
        let ghost start = self@;
        let mut k: usize = 0;
        while k < snapshots.len()
            invariant
                self.wf(),
                0 <= k <= snapshots.len(),
                self@ == (EngineView {
                    books: seed_all(start.books, snapshots@.take(k as int)),
                    ..start
                }),
            decreases snapshots.len() - k,
        {
            let snapshot = &snapshots[k];
            let book = seed_book(snapshot);
            let i = self.find_book_index(snapshot.StockID);
            let ghost books = self@.books;
            proof {
                lemma_find_bounds(books, snapshot.StockID, 0);
            }
            if i == self.books_.len() {
                self.books_.push(book);
                assert(books_view(self.books_@) =~= books.push(seeded_book(*snapshot)));
            } else {
                self.books_.set(i, book);
                assert(books_view(self.books_@) =~= books.update(i as int, seeded_book(*snapshot)));
            }
            k += 1;
            assert(snapshots@.take(k as int).drop_last() =~= snapshots@.take(k - 1));
        }
        assert(snapshots@.take(k as int) =~= snapshots@);
    }

    /// For each timestamp in turn: replays up to it, then takes one snapshot
    /// of every book, in the order the books were first seen.
    pub fn build_snapshot(&mut self, timestamps: &Vec<i64>) -> (r: Vec<Snapshot>)
        requires
            old(self).wf(),
        ensures
            final(self).wf(),
            final(self)@ == after_timestamps(old(self)@, timestamps@),
            r@ == snapshots_for(old(self)@, timestamps@),
    {
        let ghost start = self@;
        let mut snapshots: Vec<Snapshot> = Vec::with_capacity(timestamps.len());
        let mut k: usize = 0;
        while k < timestamps.len()
            invariant
                self.wf(),
                0 <= k <= timestamps.len(),
                self@ == after_timestamps(start, timestamps@.take(k as int)),
                snapshots@ == snapshots_for(start, timestamps@.take(k as int)),
            decreases timestamps.len() - k,
        {
            let ghost prefix = snapshots@;
            proof {
                assert(timestamps@.take(k + 1).drop_last() =~= timestamps@.take(k as int));
            }
            self.process_until(timestamps[k]);
            let ghost books = self@.books;
            let mut j: usize = 0;
            while j < self.books_.len()
                invariant
                    0 <= j <= self.books_.len(),
                    books == books_view(self.books_@),
                    snapshots@ == prefix + book_snapshots(books).take(j as int),
                decreases self.books_.len() - j,
            {
                snapshots.push(self.books_[j].to_snapshot());
                j += 1;
                assert(book_snapshots(books).take(j as int) =~= book_snapshots(books).take(
                    j - 1,
                ).push(snapshot_of(books[j - 1])));
            }
            assert(book_snapshots(books).take(j as int) =~= book_snapshots(books));
            k += 1;
        }
        assert(timestamps@.take(k as int) =~= timestamps@);
        snapshots
    }

    /// Moves both cursors back to the start of their streams; the books stay.
    pub fn reset(&mut self)
        ensures
            final(self).wf(),
            final(self)@ == (EngineView { order_idx: 0, trade_idx: 0, ..old(self)@ }),
    {
        self.order_idx_ = 0;
        self.trade_idx_ = 0;
    }
}

/// A fresh book set up from a seed snapshot (see `seeded_book`).
fn seed_book(s: &Snapshot) -> (b: Book)
    ensures
        b@ == seeded_book(*s),
{
    let mut book = Book::new(s.StockID);
    book.timestamp = s.clockAtArrival;
    book.cum_volume = s.cum_volume;
    book.cum_amount = s.cum_amount;
    book.num_trades = s.numTrades;
    book.close = s.close;
    book.open_price = s.openPrice;
    book.apply_change(Side::Bid, s.bid1p, s.bid1q);
    book.apply_change(Side::Bid, s.bid2p, s.bid2q);
    book.apply_change(Side::Bid, s.bid3p, s.bid3q);
    book.apply_change(Side::Bid, s.bid4p, s.bid4q);
    book.apply_change(Side::Bid, s.bid5p, s.bid5q);
    book.apply_change(Side::Ask, s.ask1p, s.ask1q);
    book.apply_change(Side::Ask, s.ask2p, s.ask2q);
    book.apply_change(Side::Ask, s.ask3p, s.ask3q);
    book.apply_change(Side::Ask, s.ask4p, s.ask4q);
    book.apply_change(Side::Ask, s.ask5p, s.ask5q);
    book
}

} // verus!
