//! The order in which the engine replays the two streams.
use vstd::prelude::*;
use crate::book_laws::{clock_ordered, event_clock, interleaves, Event};
use crate::md::{Order, Trade};
use crate::snapshot_builder::{
    order_advance, order_ready, replay, trade_advance, trade_ready, EngineView,
};

verus! {

/// The events that `replay` applies, in the order it applies them.
pub open spec fn replay_trace(e: EngineView, ts: i64) -> Seq<Event>
    decreases e.orders.len() - e.order_idx, e.trades.len() - e.trade_idx,
{
    if order_ready(e, ts) && (!trade_ready(e, ts) || e.orders[e.order_idx].clockAtArrival
        <= e.trades[e.trade_idx].clockAtArrival) {
        seq![Event::OrderEvent(e.orders[e.order_idx])] + replay_trace(order_advance(e), ts)
    } else if trade_ready(e, ts) {
        seq![Event::TradeEvent(e.trades[e.trade_idx])] + replay_trace(trade_advance(e), ts)
    } else {
        Seq::empty()
    }
}

/// Arrival clocks never go back along the order stream.
pub open spec fn orders_sorted(os: Seq<Order>) -> bool {
    forall|i: int, j: int|
        0 <= i < j < os.len() ==> (#[trigger] os[i]).clockAtArrival <= (#[trigger] os[j]).clockAtArrival
}

/// Arrival clocks never go back along the trade stream.
pub open spec fn trades_sorted(ts: Seq<Trade>) -> bool {
    forall|i: int, j: int|
        0 <= i < j < ts.len() ==> (#[trigger] ts[i]).clockAtArrival <= (#[trigger] ts[j]).clockAtArrival
}

proof fn lemma_prepend_order(o: Order, evs: Seq<Event>, os: Seq<Order>, ts: Seq<Trade>)
    requires
        interleaves(evs, os, ts),
    ensures
        interleaves(seq![Event::OrderEvent(o)] + evs, seq![o] + os, ts),
    decreases evs.len(),
{
    let s = seq![Event::OrderEvent(o)] + evs;
    if evs.len() == 0 {
        assert(s.last() == Event::OrderEvent(o));
        assert((seq![o] + os).last() == o);
        assert(s.drop_last() =~= Seq::<Event>::empty());
        assert((seq![o] + os).drop_last() =~= Seq::<Order>::empty());
        assert(interleaves(Seq::<Event>::empty(), Seq::<Order>::empty(), ts));
    } else {
        assert(s.drop_last() =~= seq![Event::OrderEvent(o)] + evs.drop_last());
        assert(s.last() == evs.last());
        match evs.last() {
            Event::OrderEvent(x) => {
                assert((seq![o] + os).last() == os.last());
                lemma_prepend_order(o, evs.drop_last(), os.drop_last(), ts);
                assert((seq![o] + os).drop_last() =~= seq![o] + os.drop_last());
            },
            Event::TradeEvent(x) => {
                lemma_prepend_order(o, evs.drop_last(), os, ts.drop_last());
            },
        }
    }
}

proof fn lemma_prepend_trade(t: Trade, evs: Seq<Event>, os: Seq<Order>, ts: Seq<Trade>)
    requires
        interleaves(evs, os, ts),
    ensures
        interleaves(seq![Event::TradeEvent(t)] + evs, os, seq![t] + ts),
    decreases evs.len(),
{
    let s = seq![Event::TradeEvent(t)] + evs;
    if evs.len() == 0 {
        assert(s.last() == Event::TradeEvent(t));
        assert((seq![t] + ts).last() == t);
        assert(s.drop_last() =~= Seq::<Event>::empty());
        assert((seq![t] + ts).drop_last() =~= Seq::<Trade>::empty());
        assert(interleaves(Seq::<Event>::empty(), os, Seq::<Trade>::empty()));
    } else {
        assert(s.drop_last() =~= seq![Event::TradeEvent(t)] + evs.drop_last());
        assert(s.last() == evs.last());
        match evs.last() {
            Event::OrderEvent(x) => {
                lemma_prepend_trade(t, evs.drop_last(), os.drop_last(), ts);
            },
            Event::TradeEvent(x) => {
                assert((seq![t] + ts).last() == ts.last());
                lemma_prepend_trade(t, evs.drop_last(), os, ts.drop_last());
                assert((seq![t] + ts).drop_last() =~= seq![t] + ts.drop_last());
            },
        }
    }
}

proof fn lemma_trace(e: EngineView, ts: i64)
    requires
        orders_sorted(e.orders),
        trades_sorted(e.trades),
        0 <= e.order_idx <= e.orders.len(),
        0 <= e.trade_idx <= e.trades.len(),
    ensures
        e.order_idx <= replay(e, ts).order_idx <= e.orders.len(),
        e.trade_idx <= replay(e, ts).trade_idx <= e.trades.len(),
        replay(e, ts).orders == e.orders,
        replay(e, ts).trades == e.trades,
        clock_ordered(replay_trace(e, ts)),
        interleaves(
            replay_trace(e, ts),
            e.orders.subrange(e.order_idx, replay(e, ts).order_idx),
            e.trades.subrange(e.trade_idx, replay(e, ts).trade_idx),
        ),
        forall|k: int|
            0 <= k < replay_trace(e, ts).len() ==> match #[trigger] replay_trace(e, ts)[k] {
                Event::OrderEvent(o) => order_ready(e, ts) && o.clockAtArrival
                    >= e.orders[e.order_idx].clockAtArrival,
                Event::TradeEvent(t) => trade_ready(e, ts) && t.clockAtArrival
                    >= e.trades[e.trade_idx].clockAtArrival,
            },
    decreases e.orders.len() - e.order_idx, e.trades.len() - e.trade_idx,
{
    let tr = replay_trace(e, ts);
    let r = replay(e, ts);
    if order_ready(e, ts) && (!trade_ready(e, ts) || e.orders[e.order_idx].clockAtArrival
        <= e.trades[e.trade_idx].clockAtArrival) {
        let o = e.orders[e.order_idx];
        let e1 = order_advance(e);
        lemma_trace(e1, ts);
        let rest = replay_trace(e1, ts);
        assert(tr == seq![Event::OrderEvent(o)] + rest);
        lemma_prepend_order(
            o,
            rest,
            e.orders.subrange(e1.order_idx, r.order_idx),
            e.trades.subrange(e.trade_idx, r.trade_idx),
        );
        assert(seq![o] + e.orders.subrange(e1.order_idx, r.order_idx) =~= e.orders.subrange(
            e.order_idx,
            r.order_idx,
        ));
        assert forall|k: int| 0 < k < tr.len() implies event_clock(tr[k]) >= o.clockAtArrival
            && (tr[k] is TradeEvent ==> trade_ready(e, ts)) by {
            assert(tr[k] == rest[k - 1]);
            match rest[k - 1] {
                Event::OrderEvent(x) => {
                    assert(e.orders[e.order_idx] == o);
                    assert(o.clockAtArrival <= e.orders[e1.order_idx].clockAtArrival);
                },
                Event::TradeEvent(x) => {},
            }
        }
        assert forall|i: int, j: int| 0 <= i < j < tr.len() implies event_clock(#[trigger] tr[i])
            <= event_clock(#[trigger] tr[j]) && (event_clock(tr[i]) == event_clock(tr[j])
            && tr[j] is OrderEvent ==> tr[i] is OrderEvent) by {
            if i > 0 {
                assert(tr[i] == rest[i - 1] && tr[j] == rest[j - 1]);
            }
        }
        assert forall|k: int| 0 <= k < tr.len() implies match #[trigger] tr[k] {
            Event::OrderEvent(x) => order_ready(e, ts) && x.clockAtArrival
                >= e.orders[e.order_idx].clockAtArrival,
            Event::TradeEvent(x) => trade_ready(e, ts) && x.clockAtArrival
                >= e.trades[e.trade_idx].clockAtArrival,
        } by {
            if k > 0 {
                assert(tr[k] == rest[k - 1]);
            }
        }
    } else if trade_ready(e, ts) {
        let t = e.trades[e.trade_idx];
        let e1 = trade_advance(e);
        lemma_trace(e1, ts);
        let rest = replay_trace(e1, ts);
        assert(tr == seq![Event::TradeEvent(t)] + rest);
        lemma_prepend_trade(
            t,
            rest,
            e.orders.subrange(e.order_idx, r.order_idx),
            e.trades.subrange(e1.trade_idx, r.trade_idx),
        );
        assert(seq![t] + e.trades.subrange(e1.trade_idx, r.trade_idx) =~= e.trades.subrange(
            e.trade_idx,
            r.trade_idx,
        ));
        assert forall|k: int| 0 < k < tr.len() implies event_clock(tr[k]) >= t.clockAtArrival
            && (tr[k] is OrderEvent ==> event_clock(tr[k]) > t.clockAtArrival) by {
            assert(tr[k] == rest[k - 1]);
            match rest[k - 1] {
                Event::OrderEvent(x) => {},
                Event::TradeEvent(x) => {
                    assert(e.trades[e.trade_idx] == t);
                    assert(t.clockAtArrival <= e.trades[e1.trade_idx].clockAtArrival);
                },
            }
        }
        assert forall|i: int, j: int| 0 <= i < j < tr.len() implies event_clock(#[trigger] tr[i])
            <= event_clock(#[trigger] tr[j]) && (event_clock(tr[i]) == event_clock(tr[j])
            && tr[j] is OrderEvent ==> tr[i] is OrderEvent) by {
            if i > 0 {
                assert(tr[i] == rest[i - 1] && tr[j] == rest[j - 1]);
            }
        }
        assert forall|k: int| 0 <= k < tr.len() implies match #[trigger] tr[k] {
            Event::OrderEvent(x) => order_ready(e, ts) && x.clockAtArrival
                >= e.orders[e.order_idx].clockAtArrival,
            Event::TradeEvent(x) => trade_ready(e, ts) && x.clockAtArrival
                >= e.trades[e.trade_idx].clockAtArrival,
        } by {
            if k > 0 {
                assert(tr[k] == rest[k - 1]);
            }
        }
    } else {
        assert(e.orders.subrange(e.order_idx, e.order_idx) =~= Seq::<Order>::empty());
        assert(e.trades.subrange(e.trade_idx, e.trade_idx) =~= Seq::<Trade>::empty());
    }
}

/// On streams sorted by clock, the engine replays the events it consumes
/// with clocks in order and orders first at equal clocks, keeping each
/// stream's order; so any other sequence of those same events with that
/// property is the very sequence the engine replays.
pub proof fn lemma_replay_order(e: EngineView, ts: i64, other: Seq<Event>)
    requires
        orders_sorted(e.orders),
        trades_sorted(e.trades),
        0 <= e.order_idx <= e.orders.len(),
        0 <= e.trade_idx <= e.trades.len(),
        interleaves(
            other,
            e.orders.subrange(e.order_idx, replay(e, ts).order_idx),
            e.trades.subrange(e.trade_idx, replay(e, ts).trade_idx),
        ),
        clock_ordered(other),
    ensures
        clock_ordered(replay_trace(e, ts)),
        other == replay_trace(e, ts),
{
    lemma_trace(e, ts);
    crate::book_laws::lemma_replay_order_unique(
        e.orders.subrange(e.order_idx, replay(e, ts).order_idx),
        e.trades.subrange(e.trade_idx, replay(e, ts).trade_idx),
        other,
        replay_trace(e, ts),
        crate::book::empty_book(0),
    );
}

} // verus!
