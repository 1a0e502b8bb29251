//! Resolution of the venue's numeric channel identifiers to logical roles,
//! from the subscription acknowledgements seen at startup.
use crate::json::{get_field, is_text, lookup, unsigned_value, Json};
use crate::record::Source;
use vstd::prelude::*;

verus! {

/// The channel identifiers acknowledged so far for the book and the trade
/// subscriptions.
#[derive(Clone, Copy, Debug, PartialEq, Eq, Structural)]
pub struct ChannelMap {
    pub book: Option<u64>,
    pub trade: Option<u64>,
}

/// The role and channel identifier that a message acknowledges: an object
/// whose "event" is "subscribed", whose "channel" is "book" or "trades", and
/// whose "chanId" is an unsigned integer.
pub open spec fn ack_of(msg: Json) -> Option<(Source, u64)> {
    match msg {
        Json::Object(fields) => {
            let event = lookup(fields@, "event"@);
            let channel = lookup(fields@, "channel"@);
            let id = lookup(fields@, "chanId"@);
            if event is Some && is_text(event->Some_0, "subscribed"@) && id is Some && unsigned_value(
                id->Some_0,
            ) is Some && channel is Some {
                let chan = unsigned_value(id->Some_0)->Some_0;
                if is_text(channel->Some_0, "book"@) {
                    Some((Source::Book, chan))
                } else if is_text(channel->Some_0, "trades"@) {
                    Some((Source::Trade, chan))
                } else {
                    None
                }
            } else {
                None
            }
        },
        _ => None,
    }
}

impl ChannelMap {
    /// Both roles have a channel.
    pub open spec fn resolved(self) -> bool {
        self.book is Some && self.trade is Some
    }

    /// The role of channel `chan`, where one has been acknowledged for it.
    pub open spec fn role(self, chan: u64) -> Option<Source> {
        if self.trade == Some(chan) {
            Some(Source::Trade)
        } else if self.book == Some(chan) {
            Some(Source::Book)
        } else {
            None
        }
    }

    /// The map after a message has been seen: an acknowledgement sets the
    /// channel of its role, anything else leaves the map as it is.
    pub open spec fn acked(self, msg: Json) -> ChannelMap {
        match ack_of(msg) {
            Some((Source::Book, chan)) => ChannelMap { book: Some(chan), ..self },
            Some((Source::Trade, chan)) => ChannelMap { trade: Some(chan), ..self },
            None => self,
        }
    }

    /// A map with no channel acknowledged.
    pub fn new() -> (r: ChannelMap)
        ensures
            r.book is None,
            r.trade is None,
    {
        ChannelMap { book: None, trade: None }
    }

    /// Whether both roles have a channel.
    pub fn is_resolved(&self) -> (r: bool)
        ensures
            r == self.resolved(),
    {
        self.book.is_some() && self.trade.is_some()
    }

    /// The role of channel `chan`, where one has been acknowledged for it.
    pub fn role_of(&self, chan: u64) -> (r: Option<Source>)
        ensures
            r == self.role(chan),
    {
        if self.trade == Some(chan) {
            Some(Source::Trade)
        } else if self.book == Some(chan) {
            Some(Source::Book)
        } else {
            None
        }
    }

    /// Takes note of a message seen during startup; returns whether it was a
    /// subscription acknowledgement.
    pub fn observe(&mut self, msg: &Json) -> (r: bool)
        ensures
            *final(self) == old(self).acked(*msg),
            r == (ack_of(*msg) is Some),
    {
        match read_ack(msg) {
            Some((Source::Book, chan)) => {
                self.book = Some(chan);
                true
            },
            Some((Source::Trade, chan)) => {
                self.trade = Some(chan);
                true
            },
            None => false,
        }
    }
}

/// The role and channel identifier that a message acknowledges.
pub fn read_ack(msg: &Json) -> (r: Option<(Source, u64)>)
    ensures
        r == ack_of(*msg),
{
    match msg {
        Json::Object(fields) => {
            let event = get_field(fields, "event");
            let channel = get_field(fields, "channel");
            let id = get_field(fields, "chanId");
            match (event, channel, id) {
                (Some(ev), Some(ch), Some(id)) => {
                    if !ev.is_text("subscribed") {
                        return None;
                    }
                    let chan = match id.as_unsigned() {
                        Some(c) => c,
                        None => return None,
                    };
                    if ch.is_text("book") {
                        Some((Source::Book, chan))
                    } else if ch.is_text("trades") {
                        Some((Source::Trade, chan))
                    } else {
                        None
                    }
                },
                _ => None,
            }
        },
        _ => None,
    }
}

/// Acknowledgements of the two subscriptions resolve the channels whichever
/// arrives first: afterwards the book's identifier has the book role and the
/// trade's identifier the trade role.
pub proof fn lemma_resolution_in_any_order(m: ChannelMap, book_ack: Json, trade_ack: Json, book_chan: u64, trade_chan: u64)
    requires
        ack_of(book_ack) == Some((Source::Book, book_chan)),
        ack_of(trade_ack) == Some((Source::Trade, trade_chan)),
        book_chan != trade_chan,
    ensures
        m.acked(book_ack).acked(trade_ack) == m.acked(trade_ack).acked(book_ack),
        m.acked(book_ack).acked(trade_ack).resolved(),
        m.acked(book_ack).acked(trade_ack).role(book_chan) == Some(Source::Book),
        m.acked(book_ack).acked(trade_ack).role(trade_chan) == Some(Source::Trade),
{
}

} // verus!
