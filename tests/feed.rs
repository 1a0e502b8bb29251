use feed_ring::channels::{read_ack, ChannelMap};
use feed_ring::classify::{on_message, record_of_entry, records_of_message, records_of_payload};
use feed_ring::decimal::{parse_decimal_text, parse_unsigned_text, scale_magnitude, Decimal};
use feed_ring::json::{get_field, Json};
use feed_ring::layout::{encode_record, publish_step, slot_offset, RECORD_BYTES, REGION_BYTES, SLOTS_OFFSET};
use feed_ring::normalize::normalize;
use feed_ring::record::{Action, Record, Side, Source};
use feed_ring::ring::{consume_slot, publish_slot, RingBuffer, CAPACITY};

const BOOK: u64 = 17;
const TRADE: u64 = 23;

fn num(s: &str) -> Json {
    Json::Number(s.to_string())
}

fn text(s: &str) -> Json {
    Json::Text(s.to_string())
}

fn arr(items: Vec<Json>) -> Json {
    Json::Array(items)
}

fn obj(fields: Vec<(&str, Json)>) -> Json {
    Json::Object(fields.into_iter().map(|(k, v)| (k.to_string(), v)).collect())
}

fn resolved() -> ChannelMap {
    ChannelMap { book: Some(BOOK), trade: Some(TRADE) }
}

fn ack(channel: &str, id: &str) -> Json {
    obj(vec![
        ("event", text("subscribed")),
        ("channel", text(channel)),
        ("chanId", num(id)),
        ("pair", text("ETHUSD")),
    ])
}

fn rec(id: u64, price: i32, size: u64, side: Side, action: Action, source: Source) -> Record {
    Record { id, price, size, side, action, source }
}

fn dec(s: &str) -> Decimal {
    parse_decimal_text(s).unwrap()
}

#[test]
fn book_delta_upsert() {
    let msg = arr(vec![num("17"), arr(vec![num("5"), num("100.0"), num("2.5")])]);
    let out = records_of_message(&msg, &resolved());
    assert_eq!(out, vec![rec(5, 10000, 2500000, Side::Bid, Action::Upsert, Source::Book)]);
}

#[test]
fn book_delta_cancel() {
    let msg = arr(vec![num("17"), arr(vec![num("5"), num("0.0"), num("-1.0")])]);
    let out = records_of_message(&msg, &resolved());
    assert_eq!(out, vec![rec(5, 0, 1000000, Side::Ask, Action::Cancel, Source::Book)]);
}

#[test]
fn book_snapshot_keeps_order() {
    let msg = arr(vec![
        num("17"),
        arr(vec![
            arr(vec![num("1"), num("10.0"), num("1.0")]),
            arr(vec![num("2"), num("20.0"), num("-1.0")]),
        ]),
    ]);
    let out = records_of_message(&msg, &resolved());
    assert_eq!(
        out,
        vec![
            rec(1, 1000, 1000000, Side::Bid, Action::Upsert, Source::Book),
            rec(2, 2000, 1000000, Side::Ask, Action::Upsert, Source::Book),
        ]
    );
}

#[test]
fn heartbeat_yields_nothing() {
    let chans = resolved();
    assert!(records_of_message(&arr(vec![num("17"), text("hb")]), &chans).is_empty());
    assert!(records_of_message(&arr(vec![num("23"), text("hb")]), &chans).is_empty());
    let with_more = arr(vec![num("17"), text("hb"), arr(vec![num("1"), num("2.0"), num("3.0")])]);
    assert!(records_of_message(&with_more, &chans).is_empty());
}

#[test]
fn trade_update_reads_trade_positions() {
    let msg = arr(vec![
        num("23"),
        text("te"),
        arr(vec![num("401"), num("1700000000"), num("-0.5"), num("3000.25")]),
    ]);
    let out = records_of_message(&msg, &resolved());
    assert_eq!(out, vec![rec(401, 300025, 500000, Side::Ask, Action::Upsert, Source::Trade)]);
}

#[test]
fn trade_snapshot_on_trade_channel() {
    let msg = arr(vec![
        num("23"),
        arr(vec![
            arr(vec![num("7"), num("1700000000"), num("0.25"), num("99.99")]),
            arr(vec![num("8"), num("1700000001"), num("-2.0"), num("100.01")]),
        ]),
    ]);
    let out = records_of_message(&msg, &resolved());
    assert_eq!(
        out,
        vec![
            rec(7, 9999, 250000, Side::Bid, Action::Upsert, Source::Trade),
            rec(8, 10001, 2000000, Side::Ask, Action::Upsert, Source::Trade),
        ]
    );
}

#[test]
fn tagged_payload_without_data_is_skipped() {
    let out = records_of_message(&arr(vec![num("23"), text("te")]), &resolved());
    assert!(out.is_empty());
}

#[test]
fn trade_entry_without_price_reads_zero() {
    let entry = arr(vec![num("9"), num("1700000000"), num("1.0")]);
    let r = record_of_entry(&entry, true, Source::Trade).unwrap();
    assert_eq!(r, rec(9, 0, 1000000, Side::Bid, Action::Cancel, Source::Trade));
}

#[test]
fn short_entries_are_dropped() {
    let msg = arr(vec![
        num("17"),
        arr(vec![
            arr(vec![num("1"), num("10.0")]),
            arr(vec![num("2"), num("20.0"), num("3.0")]),
            text("junk"),
        ]),
    ]);
    let out = records_of_message(&msg, &resolved());
    assert_eq!(out, vec![rec(2, 2000, 3000000, Side::Bid, Action::Upsert, Source::Book)]);
    assert!(record_of_entry(&arr(vec![num("1"), num("2.0")]), false, Source::Book).is_none());
}

#[test]
fn non_numeric_fields_default_to_zero() {
    let entry = arr(vec![text("x"), Json::Null, num("-3")]);
    let r = record_of_entry(&entry, false, Source::Book).unwrap();
    assert_eq!(r, rec(0, 0, 3000000, Side::Ask, Action::Cancel, Source::Book));
    let fractional_id = arr(vec![num("5.0"), num("1.0"), num("1.0")]);
    assert_eq!(record_of_entry(&fractional_id, false, Source::Book).unwrap().id, 0);
}

#[test]
fn other_shapes_yield_nothing() {
    let chans = resolved();
    assert!(records_of_message(&ack("book", "17"), &chans).is_empty());
    assert!(records_of_message(&arr(vec![num("17")]), &chans).is_empty());
    assert!(records_of_message(&num("17"), &chans).is_empty());
    assert!(records_of_message(&Json::Bool(true), &chans).is_empty());
}

#[test]
fn unknown_channel_reads_as_book() {
    let msg = arr(vec![num("99"), arr(vec![num("5"), num("1.5"), num("1.0")])]);
    let out = records_of_message(&msg, &resolved());
    assert_eq!(out, vec![rec(5, 150, 1000000, Side::Bid, Action::Upsert, Source::Book)]);
}

#[test]
fn single_update_is_not_a_snapshot() {
    let payload = arr(vec![num("3"), num("1.25"), num("0.5")]);
    let out = records_of_payload(&payload, false, Source::Book);
    assert_eq!(out, vec![rec(3, 125, 500000, Side::Bid, Action::Upsert, Source::Book)]);
    assert!(records_of_payload(&arr(vec![]), false, Source::Book).is_empty());
}

#[test]
fn acks_resolve_in_either_order() {
    let mut a = ChannelMap::new();
    assert!(!a.is_resolved());
    assert!(a.observe(&ack("book", "17")));
    assert!(!a.is_resolved());
    assert!(a.observe(&ack("trades", "23")));
    let mut b = ChannelMap::new();
    assert!(b.observe(&ack("trades", "23")));
    assert!(b.observe(&ack("book", "17")));
    assert_eq!(a, b);
    assert!(a.is_resolved());
    assert_eq!(a.role_of(17), Some(Source::Book));
    assert_eq!(a.role_of(23), Some(Source::Trade));
    assert_eq!(a.role_of(5), None);
}

#[test]
fn non_acks_leave_the_map() {
    let mut m = ChannelMap::new();
    let info = obj(vec![("event", text("info")), ("version", num("2"))]);
    assert!(!m.observe(&info));
    let unknown = ack("ticker", "5");
    assert!(!m.observe(&unknown));
    let no_id = obj(vec![("event", text("subscribed")), ("channel", text("book"))]);
    assert!(!m.observe(&no_id));
    assert_eq!(m, ChannelMap::new());
    assert_eq!(read_ack(&ack("book", "42")), Some((Source::Book, 42)));
}

#[test]
fn on_message_resolves_then_streams() {
    let mut m = ChannelMap::new();
    let delta = arr(vec![num("17"), arr(vec![num("5"), num("100.0"), num("2.5")])]);
    assert!(on_message(&mut m, &delta).is_empty());
    assert!(on_message(&mut m, &ack("trades", "23")).is_empty());
    assert!(on_message(&mut m, &ack("book", "17")).is_empty());
    assert!(m.is_resolved());
    let out = on_message(&mut m, &delta);
    assert_eq!(out, vec![rec(5, 10000, 2500000, Side::Bid, Action::Upsert, Source::Book)]);
}

#[test]
fn field_lookup_takes_first() {
    let fields = vec![("a".to_string(), num("1")), ("a".to_string(), num("2"))];
    assert_eq!(get_field(&fields, "a").unwrap().as_unsigned(), Some(1));
    assert!(get_field(&fields, "b").is_none());
}

#[test]
fn decimal_texts() {
    let d = dec("-12.345e2");
    assert!(d.negative);
    assert_eq!(d.mantissa, 12345);
    assert_eq!(d.exponent, -1);
    let d = dec("1E+3");
    assert_eq!((d.negative, d.mantissa, d.exponent), (false, 1, 3));
    let d = dec("0.000001");
    assert_eq!((d.mantissa, d.exponent), (1, -6));
    for bad in ["", "-", "1.", ".5", "1e", "1e+", "abc", "1.2.3", "+1", "1 ", "--1"] {
        assert!(parse_decimal_text(bad).is_none(), "{}", bad);
    }
    assert!(parse_decimal_text("123456789012345678901234567890123456789").is_none());
    assert!(parse_decimal_text("12345678901234567890123456789012345678").is_some());
    assert!(parse_decimal_text("1e1234567890").is_none());
}

#[test]
fn unsigned_texts() {
    assert_eq!(parse_unsigned_text("5"), Some(5));
    assert_eq!(parse_unsigned_text("0"), Some(0));
    assert_eq!(parse_unsigned_text("18446744073709551615"), Some(u64::MAX));
    assert_eq!(parse_unsigned_text("18446744073709551616"), None);
    assert_eq!(parse_unsigned_text("5.0"), None);
    assert_eq!(parse_unsigned_text("-5"), None);
    assert_eq!(parse_unsigned_text(""), None);
}

#[test]
fn quantization_rounds_half_away_from_zero() {
    assert_eq!(scale_magnitude(5, -3, 2), Some(1)); // 0.005 -> 1 hundredth
    assert_eq!(scale_magnitude(4, -3, 2), Some(0));
    assert_eq!(scale_magnitude(1234, -3, 2), Some(123));
    assert_eq!(scale_magnitude(1235, -3, 2), Some(124));
    assert_eq!(scale_magnitude(15, -7, 6), Some(2)); // 1.5e-6 -> 2 millionths
    assert_eq!(scale_magnitude(1, -7, 6), Some(0));
    assert_eq!(scale_magnitude(25, 1, 2), Some(25000));
    assert_eq!(scale_magnitude(1, 100, 2), None);
    assert_eq!(scale_magnitude(0, 100, 2), Some(0));
    assert_eq!(scale_magnitude(u128::MAX, -100, 6), Some(0));
    assert_eq!(scale_magnitude(18446744073709551615, 0, 0), Some(u64::MAX));
    assert_eq!(scale_magnitude(18446744073709551616, 0, 0), None);
}

#[test]
fn quantization_stays_within_half_a_unit() {
    for (text, places) in [("0.123456789", 6u8), ("99.995", 2), ("3000.25", 2), ("0.3333333", 6)] {
        let d = dec(text);
        let q = scale_magnitude(d.mantissa, d.exponent, places).unwrap() as i128;
        let shift = -(d.exponent as i128 + places as i128);
        let unit = 10i128.pow(shift as u32);
        let diff = q * unit - d.mantissa as i128;
        assert!(2 * diff.abs() <= unit, "{}", text);
    }
}

#[test]
fn normalize_signs_and_ranges() {
    let r = normalize(1, &dec("-1.235"), &dec("0"), Source::Book).unwrap();
    assert_eq!((r.price, r.size, r.side, r.action), (-124, 0, Side::Ask, Action::Upsert));
    let r = normalize(1, &dec("-0.0"), &dec("1e-6"), Source::Trade).unwrap();
    assert_eq!((r.price, r.size, r.side, r.action), (0, 1, Side::Bid, Action::Cancel));
    assert!(normalize(1, &dec("21474836.47"), &dec("1"), Source::Book).is_some());
    assert!(normalize(1, &dec("21474836.48"), &dec("1"), Source::Book).is_none());
    assert!(normalize(1, &dec("-21474836.48"), &dec("1"), Source::Book).is_some());
    assert!(normalize(1, &dec("1"), &dec("18446744073709.551616"), Source::Book).is_none());
    assert_eq!(Decimal::zero().mantissa, 0);
}

#[test]
fn codes_of_fields() {
    assert_eq!((Side::Bid.code(), Side::Ask.code()), (0, 1));
    assert_eq!((Action::Upsert.code(), Action::Cancel.code()), (0, 1));
    assert_eq!((Source::Book.code(), Source::Trade.code()), (0, 1));
}

#[test]
fn slots_from_cursors() {
    assert_eq!(publish_slot(5, 3), Some(5));
    assert_eq!(publish_slot(CAPACITY + 5, CAPACITY), Some(5));
    assert_eq!(publish_slot(CAPACITY, 0), None);
    assert_eq!(publish_slot(CAPACITY - 1, 0), Some((CAPACITY - 1) as usize));
    assert_eq!(consume_slot(3, 3), None);
    assert_eq!(consume_slot(CAPACITY + 9, CAPACITY + 2), Some(2));
}

#[test]
fn ring_fills_and_drains_in_order() {
    let mut ring = RingBuffer::new();
    assert_eq!((ring.write_index(), ring.read_index(), ring.len()), (0, 0, 0));
    assert!(ring.try_consume().is_none());
    for i in 0..CAPACITY {
        assert!(ring.try_publish(rec(i, 1, 1, Side::Bid, Action::Upsert, Source::Book)));
    }
    assert_eq!(ring.len(), CAPACITY);
    assert!(!ring.try_publish(rec(999999, 1, 1, Side::Bid, Action::Upsert, Source::Book)));
    assert_eq!(ring.write_index(), CAPACITY);
    assert_eq!(ring.try_consume().unwrap().id, 0);
    assert!(ring.try_publish(rec(CAPACITY, 1, 1, Side::Ask, Action::Cancel, Source::Trade)));
    for i in 1..=CAPACITY {
        assert_eq!(ring.try_consume().unwrap().id, i);
    }
    assert!(ring.try_consume().is_none());
    assert_eq!((ring.write_index(), ring.read_index()), (CAPACITY + 1, CAPACITY + 1));
}

#[test]
fn record_bytes_in_slot() {
    let r = rec(0x0102030405060708, -1, 0x1122, Side::Ask, Action::Cancel, Source::Trade);
    assert_eq!(
        encode_record(&r),
        vec![8, 7, 6, 5, 4, 3, 2, 1, 0x22, 0x11, 0, 0, 0, 0, 0, 0, 255, 255, 255, 255, 1, 1, 1, 0]
    );
    let r = rec(5, 10000, 2500000, Side::Bid, Action::Upsert, Source::Book);
    let b = encode_record(&r);
    assert_eq!(b.len(), RECORD_BYTES);
    assert_eq!(&b[16..24], &[0x10, 0x27, 0, 0, 0, 0, 0, 0]);
    assert_eq!(&b[8..16], &2500000u64.to_le_bytes());
    assert_eq!(slot_offset(0), SLOTS_OFFSET);
    assert_eq!(slot_offset(3), 128 + 72);
    assert_eq!(slot_offset((CAPACITY - 1) as usize) + RECORD_BYTES, REGION_BYTES);
}

#[test]
fn tagged_message_on_book_channel_keeps_book_source() {
    let msg = arr(vec![
        num("17"),
        text("te"),
        arr(vec![num("401"), num("1700000000"), num("-0.5"), num("3000.25")]),
    ]);
    let out = records_of_message(&msg, &resolved());
    assert_eq!(out, vec![rec(401, 300025, 500000, Side::Ask, Action::Upsert, Source::Book)]);
}

#[test]
fn producer_step_on_shared_region() {
    let r = rec(5, 10000, 2500000, Side::Bid, Action::Upsert, Source::Book);
    let (offset, bytes, next) = publish_step(CAPACITY + 3, 10, &r).unwrap();
    assert_eq!(offset, SLOTS_OFFSET + 3 * RECORD_BYTES);
    assert_eq!(bytes, encode_record(&r));
    assert_eq!(next, CAPACITY + 4);
    assert!(publish_step(CAPACITY + 10, 10, &r).is_none());
    let (offset, _, next) = publish_step(0, 0, &r).unwrap();
    assert_eq!((offset, next), (SLOTS_OFFSET, 1));
}
