//! Classification of steady-state feed messages and their expansion into
//! records.
use crate::channels::{ack_of, lemma_resolution_in_any_order, ChannelMap};
use crate::decimal::Decimal;
use crate::json::{decimal_value, is_text, text_equals, unsigned_value, Json};
use crate::normalize::{normalize, normalized};
use crate::record::{Record, Source};
use vstd::prelude::*;

verus! {

/// The record that one payload entry yields: a book entry reads
/// (id, price, amount), a trade entry (`trade_fields`) (id, time, amount,
/// price); the record carries `source`. An entry that is no list of at least
/// three fields yields none; a field that is missing or no number reads as
/// zero.
pub open spec fn entry_record(entry: Json, trade_fields: bool, source: Source) -> Option<Record> {
    match entry {
        Json::Array(f) => if f@.len() < 3 {
            None
        } else {
            let id = match unsigned_value(f@[0]) {
                Some(x) => x,
                None => 0u64,
            };
            let price = if trade_fields {
                if f@.len() > 3 {
                    decimal_value(f@[3])
                } else {
                    (false, 0int, 0int)
                }
            } else {
                decimal_value(f@[1])
            };
            normalized(id, price, decimal_value(f@[2]), source)
        },
        _ => None,
    }
}

/// Whether a payload is a snapshot: a list whose first element is a list.
pub open spec fn is_snapshot(payload: Json) -> bool {
    match payload {
        Json::Array(items) => items@.len() > 0 && items@[0] is Array,
        _ => false,
    }
}

/// The entries of a payload: each element of a snapshot, or the payload itself.
pub open spec fn entries_of(payload: Json) -> Seq<Json> {
    match payload {
        Json::Array(items) => if is_snapshot(payload) {
            items@
        } else {
            seq![payload]
        },
        _ => seq![payload],
    }
}

/// The records of a sequence of entries, in their order, skipping those that
/// yield none.
pub open spec fn entry_records(entries: Seq<Json>, trade_fields: bool, source: Source) -> Seq<
    Record,
>
    decreases entries.len(),
{
    if entries.len() == 0 {
        Seq::empty()
    } else {
        let rest = entry_records(entries.drop_last(), trade_fields, source);
        match entry_record(entries.last(), trade_fields, source) {
            Some(r) => rest.push(r),
            None => rest,
        }
    }
}

/// The logical channel that channel `chan` stands for: the trade channel
/// where it was acknowledged as such, the book otherwise.
pub open spec fn channel_source(chans: ChannelMap, chan: u64) -> Source {
    if chans.role(chan) == Some(Source::Trade) {
        Source::Trade
    } else {
        Source::Book
    }
}

/// The channel identifier that leads a message; zero where it is no unsigned
/// integer.
pub open spec fn channel_id(v: Json) -> u64 {
    match unsigned_value(v) {
        Some(c) => c,
        None => 0u64,
    }
}

/// The records of one steady-state message `[chan, payload]` or
/// `[chan, tag, payload]`. A heartbeat `[chan, "hb"]`, an event object and
/// any other shape yield none. Each record's source is the role of `chan`;
/// the entries of a tagged payload, and of any payload of the trade channel,
/// are read at the trade fields.
pub open spec fn message_records(msg: Json, chans: ChannelMap) -> Seq<Record> {
    match msg {
        Json::Array(arr) => if arr@.len() < 2 {
            Seq::empty()
        } else {
            let chan = channel_id(arr@[0]);
            match arr@[1] {
                Json::Text(t) => if t@ == "hb"@ || arr@.len() < 3 {
                    Seq::empty()
                } else {
                    entry_records(entries_of(arr@[2]), true, channel_source(chans, chan))
                },
                _ => entry_records(
                    entries_of(arr@[1]),
                    channel_source(chans, chan) == Source::Trade,
                    channel_source(chans, chan),
                ),
            }
        },
        _ => Seq::empty(),
    }
}

impl Json {
    /// Whether the value is a list.
    pub fn is_array(&self) -> (r: bool)
        ensures
            r == (*self is Array),
    {
        match self {
            Json::Array(_) => true,
            _ => false,
        }
    }
}

/// The logical channel that channel `chan` stands for.
pub fn channel_source_of(chans: &ChannelMap, chan: u64) -> (r: Source)
    ensures
        r == channel_source(*chans, chan),
{
    match chans.role_of(chan) {
        Some(Source::Trade) => Source::Trade,
        _ => Source::Book,
    }
}

/// The record that one payload entry yields.
pub fn record_of_entry(entry: &Json, trade_fields: bool, source: Source) -> (r: Option<Record>)
    ensures
        r == entry_record(*entry, trade_fields, source),
{
    match entry {
        Json::Array(f) => {
            if f.len() < 3 {
                return None;
            }
            let id = match f[0].as_unsigned() {
                Some(x) => x,
                None => 0,
            };
            let amount = f[2].as_decimal();
            let price = if trade_fields {
                if f.len() > 3 {
                    f[3].as_decimal()
                } else {
                    Decimal::zero()
                }
            } else {
                f[1].as_decimal()
            };
            normalize(id, &price, &amount, source)
        },
        _ => None,
    }
}

/// The records of a payload, in the order of its entries.
pub fn records_of_payload(payload: &Json, trade_fields: bool, source: Source) -> (r: Vec<Record>)
    ensures
        r@ == entry_records(entries_of(*payload), trade_fields, source),
{
    let mut out: Vec<Record> = Vec::new();
    match payload {
        Json::Array(items) => {
            if items.len() > 0 && items[0].is_array() {
                let mut i: usize = 0;
                proof {
                    assert(items@.subrange(0, 0) =~= Seq::<Json>::empty());
                }
                while i < items.len()
                    invariant
                        i <= items@.len(),
                        entries_of(*payload) == items@,
                        out@ == entry_records(items@.subrange(0, i as int), trade_fields, source),
                    decreases items@.len() - i,
                {
                    proof {
                        assert(items@.subrange(0, i + 1).drop_last() =~= items@.subrange(0, i as int));
                    }
                    match record_of_entry(&items[i], trade_fields, source) {
                        Some(rec) => out.push(rec),
                        None => {},
                    }
                    i = i + 1;
                }
                proof {
                    assert(items@.subrange(0, items@.len() as int) =~= items@);
                }
                return out;
            }
        },
        _ => {},
    }
    proof {
        assert(entries_of(*payload) =~= seq![*payload]);
        assert(entries_of(*payload).drop_last() =~= Seq::<Json>::empty());
        reveal_with_fuel(entry_records, 2);
    }
    match record_of_entry(payload, trade_fields, source) {
        Some(rec) => out.push(rec),
        None => {},
    }
    out
}

/// The records of one steady-state message.
pub fn records_of_message(msg: &Json, chans: &ChannelMap) -> (r: Vec<Record>)
    ensures
        r@ == message_records(*msg, *chans),
{
    match msg {
        Json::Array(arr) => {
            if arr.len() < 2 {
                return Vec::new();
            }
            let chan = match arr[0].as_unsigned() {
                Some(c) => c,
                None => 0,
            };
            match &arr[1] {
                Json::Text(t) => {
                    if text_equals(t, "hb") || arr.len() < 3 {
                        return Vec::new();
                    }
                    let source = channel_source_of(chans, chan);
                    records_of_payload(&arr[2], true, source)
                },
                _ => {
                    let source = channel_source_of(chans, chan);
                    records_of_payload(&arr[1], source == Source::Trade, source)
                },
            }
        },
        _ => Vec::new(),
    }
}

/// Handles one message of the feed: before both channels are known it only
/// serves to resolve them, afterwards it yields its records.
pub fn on_message(chans: &mut ChannelMap, msg: &Json) -> (r: Vec<Record>)
    ensures
        old(chans).resolved() ==> *final(chans) == *old(chans) && r@ == message_records(*msg, *old(chans)),
        !old(chans).resolved() ==> *final(chans) == old(chans).acked(*msg) && r@.len() == 0,
{
    if chans.is_resolved() {
        records_of_message(msg, chans)
    } else {
        chans.observe(msg);
        Vec::new()
    }
}

/// A heartbeat yields no record, whatever else the message holds.
pub proof fn lemma_heartbeat_yields_nothing(msg: Json, chans: ChannelMap)
    requires
        msg is Array,
        msg->Array_0@.len() >= 2,
        is_text(msg->Array_0@[1], "hb"@),
    ensures
        message_records(msg, chans).len() == 0,
{
}

/// A snapshot whose entries all yield a record yields them one for one, in
/// the snapshot's order.
pub proof fn lemma_snapshot_keeps_order(entries: Seq<Json>, trade_fields: bool, source: Source)
    requires
        forall|i: int|
            0 <= i < entries.len() ==> (#[trigger] entry_record(entries[i], trade_fields, source)) is Some,
    ensures
        entry_records(entries, trade_fields, source).len() == entries.len(),
        forall|i: int|
            0 <= i < entries.len() ==> #[trigger] entry_records(entries, trade_fields, source)[i]
                == entry_record(
                entries[i],
                trade_fields,
                source,
            )->Some_0,
    decreases entries.len(),
{
    if entries.len() > 0 {
        let init = entries.drop_last();
        assert forall|i: int| 0 <= i < init.len() implies (#[trigger] entry_record(init[i], trade_fields, source)) is Some by {
            assert(init[i] == entries[i]);
        }
        lemma_snapshot_keeps_order(init, trade_fields, source);
        assert(entry_record(entries[entries.len() - 1], trade_fields, source) is Some);
    }
}

/// On any channel but the trade channel, the record of a single delta
/// `[chan, [id, price, amount]]` is a bid exactly when the amount is strictly
/// positive, and a cancel exactly when the price is zero.
pub proof fn lemma_book_delta_side_and_action(msg: Json, chans: ChannelMap)
    requires
        msg is Array,
        msg->Array_0@.len() >= 2,
        msg->Array_0@[1] is Array,
        !is_snapshot(msg->Array_0@[1]),
        chans.role(channel_id(msg->Array_0@[0])) != Some(Source::Trade),
        message_records(msg, chans).len() > 0,
    ensures
        ({
            let f = msg->Array_0@[1]->Array_0@;
            let r = message_records(msg, chans)[0];
            &&& message_records(msg, chans).len() == 1
            &&& r.source == Source::Book
            &&& (r.side == crate::record::Side::Bid <==> crate::normalize::is_positive(decimal_value(f[2])))
            &&& (r.action == crate::record::Action::Cancel <==> crate::normalize::is_zero(decimal_value(f[1])))
        }),
{
    let payload = msg->Array_0@[1];
    assert(entries_of(payload) =~= seq![payload]);
    assert(entries_of(payload).drop_last() =~= Seq::<Json>::empty());
    reveal_with_fuel(entry_records, 2);
}

/// Every record of a sequence of entries carries the source it was read with.
pub proof fn lemma_entry_records_source(entries: Seq<Json>, trade_fields: bool, source: Source)
    ensures
        forall|i: int|
            0 <= i < entry_records(entries, trade_fields, source).len() ==> (#[trigger] entry_records(
                entries,
                trade_fields,
                source,
            )[i]).source == source,
    decreases entries.len(),
{
    if entries.len() > 0 {
        lemma_entry_records_source(entries.drop_last(), trade_fields, source);
    }
}

/// Every record of a message carries the logical channel of the message's
/// leading identifier, tagged or not.
pub proof fn lemma_source_follows_channel(msg: Json, chans: ChannelMap)
    requires
        msg is Array,
        msg->Array_0@.len() >= 2,
    ensures
        forall|i: int|
            0 <= i < message_records(msg, chans).len() ==> (#[trigger] message_records(msg, chans)[i]).source
                == channel_source(chans, channel_id(msg->Array_0@[0])),
{
    let arr = msg->Array_0@;
    let source = channel_source(chans, channel_id(arr[0]));
    if arr.len() >= 3 {
        lemma_entry_records_source(entries_of(arr[2]), true, source);
    }
    lemma_entry_records_source(entries_of(arr[1]), source == Source::Trade, source);
}

/// Once both subscriptions are acknowledged, in either order, each record of
/// a message led by the trade channel's identifier is a trade's, and each of
/// one led by the book channel's identifier is the book's.
pub proof fn lemma_resolved_records_follow_channel(
    m: ChannelMap,
    book_ack: Json,
    trade_ack: Json,
    book_chan: u64,
    trade_chan: u64,
    msg: Json,
)
    requires
        ack_of(book_ack) == Some((Source::Book, book_chan)),
        ack_of(trade_ack) == Some((Source::Trade, trade_chan)),
        book_chan != trade_chan,
        msg is Array,
        msg->Array_0@.len() >= 2,
        channel_id(msg->Array_0@[0]) == book_chan || channel_id(msg->Array_0@[0]) == trade_chan,
    ensures
        message_records(msg, m.acked(book_ack).acked(trade_ack)) == message_records(
            msg,
            m.acked(trade_ack).acked(book_ack),
        ),
        forall|i: int|
            0 <= i < message_records(msg, m.acked(book_ack).acked(trade_ack)).len() ==> (
            #[trigger] message_records(msg, m.acked(book_ack).acked(trade_ack))[i]).source == (if channel_id(
                msg->Array_0@[0],
            ) == trade_chan {
                Source::Trade
            } else {
                Source::Book
            }),
{
    lemma_resolution_in_any_order(m, book_ack, trade_ack, book_chan, trade_chan);
    lemma_source_follows_channel(msg, m.acked(book_ack).acked(trade_ack));
}

} // verus!
