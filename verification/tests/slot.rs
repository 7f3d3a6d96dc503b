use chrono::NaiveDateTime;
use slot_booking::domains::slot::{collect_slot_ranges, Slot, SLOT_SECONDS};
use slot_booking::domains::slot_range::SlotRange;

fn to_date(date: &str) -> i64 {
    NaiveDateTime::parse_from_str(date, "%Y-%m-%d %H:%M:%S").unwrap().and_utc().timestamp()
}

#[test]
fn test_is_combined() {
    let slot1 = Slot::new(to_date("2020-01-01 00:00:00"));
    let slot2 = Slot::new(to_date("2020-01-01 00:30:00"));

    assert!(slot1.is_continuous(&slot2));
    assert!(!slot2.is_continuous(&slot1));
    let slot3 = Slot::new(to_date("2020-01-01 01:15:00"));
    assert!(!slot1.is_continuous(&slot3));
    assert!(!slot2.is_continuous(&slot3));
}

#[test]
fn test_collect_slot_ranges1() {
    let slot1 = Slot::new(to_date("2020-01-01 10:00:00"));
    let slot2 = Slot::new(to_date("2020-01-01 10:30:00"));
    let slot3 = Slot::new(to_date("2020-01-01 11:00:00"));
    let slot4 = Slot::new(to_date("2020-01-01 12:00:00"));

    let ranges = collect_slot_ranges(vec![slot1, slot2, slot3, slot4].as_slice());
    assert_eq!(ranges.len(), 2);
    assert_eq!(
        ranges[0],
        SlotRange::new(to_date("2020-01-01 10:00:00"), to_date("2020-01-01 11:30:00"))
    );
    assert_eq!(
        ranges[1],
        SlotRange::new(to_date("2020-01-01 12:00:00"), to_date("2020-01-01 12:30:00"))
    );
}

#[test]
fn test_collect_slot_ranges2() {
    let slot1 = Slot::new(to_date("2020-01-01 10:00:00"));
    let slot2 = Slot::new(to_date("2020-01-01 10:30:00"));
    let ranges = collect_slot_ranges(vec![slot1, slot2].as_slice());
    assert_eq!(ranges.len(), 1);
    assert_eq!(
        ranges[0],
        SlotRange::new(to_date("2020-01-01 10:00:00"), to_date("2020-01-01 11:00:00"))
    );
}

#[test]
fn test_collect_slot_ranges3() {
    let slot1 = Slot::new(to_date("2020-01-01 10:00:00"));

    let ranges = collect_slot_ranges(vec![slot1].as_slice());
    assert_eq!(ranges.len(), 1);
    assert_eq!(
        ranges[0],
        SlotRange::new(to_date("2020-01-01 10:00:00"), to_date("2020-01-01 10:30:00"))
    );
}

#[test]
fn slot_lasts_thirty_minutes() {
    assert_eq!(Slot::duration(), 30 * 60);
    assert_eq!(SLOT_SECONDS, 1800);
    let slot = Slot::new(to_date("2020-01-01 10:00:00"));
    assert_eq!(slot.start_date, 1577872800);
    assert_eq!(slot.end_date(), to_date("2020-01-01 10:30:00"));
    assert_eq!(slot.end_date(), 1577874600);
}

#[test]
fn continuity_needs_the_exact_end() {
    let slot = Slot::new(to_date("2020-01-01 10:00:00"));
    assert!(!slot.is_continuous(&slot));
    assert!(!slot.is_continuous(&Slot::new(to_date("2020-01-01 10:29:59"))));
    assert!(!slot.is_continuous(&Slot::new(to_date("2020-01-01 10:30:01"))));
    assert!(slot.is_continuous(&Slot::new(to_date("2020-01-01 10:30:00"))));
}

#[test]
fn continuity_at_the_end_of_time() {
    let last = Slot::new(i64::MAX);
    assert!(!last.is_continuous(&Slot::new(i64::MIN)));
    assert!(!last.is_continuous(&last));
    let fits = Slot::new(i64::MAX - 1800);
    assert!(fits.is_continuous(&last));
    assert_eq!(fits.end_date(), i64::MAX);
}

#[test]
fn collect_sorts_its_input() {
    let ranges = collect_slot_ranges(&[
        Slot::new(to_date("2020-01-01 12:00:00")),
        Slot::new(to_date("2020-01-01 11:00:00")),
        Slot::new(to_date("2020-01-01 10:00:00")),
        Slot::new(to_date("2020-01-01 10:30:00")),
    ]);
    assert_eq!(
        ranges,
        vec![
            SlotRange::new(to_date("2020-01-01 10:00:00"), to_date("2020-01-01 11:30:00")),
            SlotRange::new(to_date("2020-01-01 12:00:00"), to_date("2020-01-01 12:30:00")),
        ]
    );
}

#[test]
fn collect_keeps_a_duplicate_as_a_range_of_its_own() {
    let ranges = collect_slot_ranges(&[Slot::new(1800), Slot::new(0), Slot::new(0)]);
    assert_eq!(ranges, vec![SlotRange::new(0, 1800), SlotRange::new(0, 3600)]);
}

#[test]
fn collect_splits_at_every_gap() {
    let ranges = collect_slot_ranges(&[Slot::new(0), Slot::new(1801), Slot::new(3601), Slot::new(7200)]);
    assert_eq!(
        ranges,
        vec![SlotRange::new(0, 1800), SlotRange::new(1801, 5401), SlotRange::new(7200, 9000)]
    );
}

#[test]
fn expanding_and_merging_gives_the_range_back() {
    let range = SlotRange::new(to_date("2020-01-01 10:00:00"), to_date("2020-01-01 13:30:00"));
    let slots = range.to_slots();
    assert_eq!(slots.len(), 7);
    assert_eq!(collect_slot_ranges(&slots), vec![range]);
}

#[test]
fn collect_reaches_the_last_representable_instant() {
    let ranges =
        collect_slot_ranges(&[Slot::new(i64::MAX - 1800), Slot::new(i64::MAX - 3600)]);
    assert_eq!(ranges, vec![SlotRange::new(i64::MAX - 3600, i64::MAX)]);
    let ranges = collect_slot_ranges(&[Slot::new(i64::MIN), Slot::new(i64::MIN + 1800)]);
    assert_eq!(ranges, vec![SlotRange::new(i64::MIN, i64::MIN + 3600)]);
}

#[test]
fn merged_ranges_never_touch() {
    let ranges = collect_slot_ranges(&[
        Slot::new(0),
        Slot::new(1800),
        Slot::new(3601),
        Slot::new(5401),
        Slot::new(9000),
    ]);
    assert_eq!(
        ranges,
        vec![SlotRange::new(0, 3600), SlotRange::new(3601, 7201), SlotRange::new(9000, 10800)]
    );
    for pair in ranges.windows(2) {
        assert!(pair[0].start <= pair[1].start);
        assert_ne!(pair[0].end, pair[1].start);
    }
}
