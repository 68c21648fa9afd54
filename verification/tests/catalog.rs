use arkime_pcap_aggregator::calendar::CalendarDate;
use arkime_pcap_aggregator::catalog::{collect_entries, CaptureFileEntry};
use arkime_pcap_aggregator::order::{build_catalog, sort_by_sequence};
use arkime_pcap_aggregator::text::parse_decimal;

fn day(year: i32, month: u32, day: u32) -> CalendarDate {
    CalendarDate { year, month, day }
}

fn entry(name: &str, sequence_id: u32, date: CalendarDate) -> CaptureFileEntry {
    CaptureFileEntry::new(name.to_string(), sequence_id, date)
}

#[test]
fn path_of_a_capture_file_gives_its_entry() {
    let path = "/var/large-store/arkime/raw/localhost-220508-00001297.pcap";
    let found = CaptureFileEntry::from_path(path).unwrap();
    assert_eq!(found.filename, path);
    assert_eq!(found.sequence_id, 1297);
    assert_eq!(found.date, day(2022, 5, 8));
}

#[test]
fn prefix_may_hold_hyphens_and_digits() {
    let found = CaptureFileEntry::from_path("/data/node-7-a-991231-00000001.pcap").unwrap();
    assert_eq!(found.sequence_id, 1);
    assert_eq!(found.date, day(1999, 12, 31));
    let other = CaptureFileEntry::from_path("/data/x-000101-99999999.pcap").unwrap();
    assert_eq!(other.sequence_id, 99_999_999);
    assert_eq!(other.date, day(2000, 1, 1));
}

#[test]
fn names_off_the_convention_give_no_entry() {
    for path in [
        "",
        "/data/localhost-220508-00001297.pcapng",
        "/data/localhost-220508-00001297.pcap.gz",
        "/data/localhost-220508-0001297.pcap",
        "/data/localhost-22050-00001297.pcap",
        "/data/localhost_220508_00001297.pcap",
        "/data/localhost-220508-00001297",
        "/data/localhost-220508-0000129x.pcap",
        "/-220508-00001297.pcap",
        "localhost-220508-00001297.pcap",
        "/data/notes.txt",
        "/data/localhost-220508-00001297xpcap",
    ] {
        assert_eq!(CaptureFileEntry::from_path(path), None, "{path}");
    }
}

#[test]
fn name_with_a_day_that_does_not_exist_gives_no_entry() {
    for path in [
        "/data/localhost-221308-00001297.pcap",
        "/data/localhost-220230-00001297.pcap",
        "/data/localhost-220500-00001297.pcap",
        "/data/localhost-220532-00001297.pcap",
        "/data/localhost-000000-00001297.pcap",
    ] {
        assert_eq!(CaptureFileEntry::from_path(path), None, "{path}");
    }
    assert!(CaptureFileEntry::from_path("/data/localhost-240229-00001297.pcap").is_some());
    assert_eq!(CaptureFileEntry::from_path("/data/localhost-230229-00001297.pcap"), None);
}

#[test]
fn digits_of_another_script_give_no_entry() {
    // Six and eight decimal digits, but not the digits 0 to 9.
    let path = "/data/localhost-\u{0662}\u{0662}\u{0660}\u{0665}\u{0660}\u{0668}-00001297.pcap";
    assert_eq!(CaptureFileEntry::from_path(path), None);
    let path = "/data/localhost-220508-\u{0660}\u{0660}\u{0660}\u{0660}\u{0661}\u{0662}\u{0669}\u{0667}.pcap";
    assert_eq!(CaptureFileEntry::from_path(path), None);
}

#[test]
fn assemble_needs_a_date_and_a_number() {
    let date = Some(day(2022, 5, 8));
    let made = CaptureFileEntry::assemble("/x/a-220508-00000042.pcap", date, "00000042").unwrap();
    assert_eq!(made, entry("/x/a-220508-00000042.pcap", 42, day(2022, 5, 8)));
    assert_eq!(CaptureFileEntry::assemble("/x", None, "00000042"), None);
    assert_eq!(CaptureFileEntry::assemble("/x", date, ""), None);
    assert_eq!(CaptureFileEntry::assemble("/x", date, "4 2"), None);
    assert_eq!(CaptureFileEntry::assemble("/x", date, "+42"), None);
    assert_eq!(CaptureFileEntry::assemble("/x", date, "4294967296"), None);
    assert_eq!(CaptureFileEntry::assemble("/x", date, "4294967295").unwrap().sequence_id, u32::MAX);
}

#[test]
fn from_groups_needs_a_whole_match_with_both_groups() {
    let text = |s: &str| Some(s.to_string());
    let path = "/x/a-220508-00000042.pcap";
    let whole = vec![text("/x/a-220508-00000042.pcap"), text("220508"), text("00000042")];
    assert_eq!(
        CaptureFileEntry::from_groups(path, &whole),
        Some(entry(path, 42, day(2022, 5, 8)))
    );
    assert_eq!(CaptureFileEntry::from_groups(path, &vec![]), None);
    assert_eq!(CaptureFileEntry::from_groups(path, &vec![text("a"), text("220508")]), None);
    assert_eq!(
        CaptureFileEntry::from_groups(path, &vec![text("a"), text("220508"), text("1"), text("2")]),
        None
    );
    assert_eq!(CaptureFileEntry::from_groups(path, &vec![text("a"), None, text("00000042")]), None);
    assert_eq!(CaptureFileEntry::from_groups(path, &vec![text("a"), text("220508"), None]), None);
    assert_eq!(
        CaptureFileEntry::from_groups(path, &vec![text("a"), text("221308"), text("00000042")]),
        None
    );
}

#[test]
fn from_groups_reads_the_date_with_the_calendar() {
    // The date is read by the calendar, not copied from the digits.
    let text = |s: &str| Some(s.to_string());
    let groups = vec![text("whole"), text("690101"), text("00000007")];
    let found = CaptureFileEntry::from_groups("/p", &groups).unwrap();
    let theirs = chrono::NaiveDate::parse_from_str("690101", "%y%m%d").unwrap();
    assert_eq!(found.date.year, chrono::Datelike::year(&theirs));
    assert_eq!((found.date.month, found.date.day), (1, 1));
    assert_eq!(found.sequence_id, 7);
}

#[test]
fn collect_keeps_the_order_and_drops_the_noise() {
    let paths: Vec<String> = [
        "/d/cap-220509-00000003.pcap",
        "/d/README",
        "/d/cap-220508-00000001.pcap",
        "/d/cap-220508-00000002.pcap.tmp",
        "/d/cap-220508-00000002.pcap",
    ]
    .iter()
    .map(|s| s.to_string())
    .collect();
    let found = collect_entries(&paths);
    assert_eq!(
        found,
        vec![
            entry("/d/cap-220509-00000003.pcap", 3, day(2022, 5, 9)),
            entry("/d/cap-220508-00000001.pcap", 1, day(2022, 5, 8)),
            entry("/d/cap-220508-00000002.pcap", 2, day(2022, 5, 8)),
        ]
    );
}

#[test]
fn collect_of_noise_alone_is_empty() {
    let paths: Vec<String> = vec!["/d/a.txt".to_string(), "/d/b.pcap".to_string()];
    assert!(collect_entries(&paths).is_empty());
    assert!(collect_entries(&Vec::new()).is_empty());
    assert!(build_catalog(&paths).is_empty());
}

#[test]
fn catalog_is_in_ascending_order_of_sequence_number() {
    let paths: Vec<String> = [
        "/d/cap-220510-00000010.pcap",
        "/d/cap-220508-00000002.pcap",
        "/d/skip.me",
        "/d/cap-220509-00000007.pcap",
        "/d/cap-220508-00000001.pcap",
    ]
    .iter()
    .map(|s| s.to_string())
    .collect();
    let catalog = build_catalog(&paths);
    let ids: Vec<u32> = catalog.iter().map(|e| e.sequence_id).collect();
    assert_eq!(ids, vec![1, 2, 7, 10]);
    assert_eq!(catalog[0].filename, "/d/cap-220508-00000001.pcap");
    assert_eq!(catalog[3].date, day(2022, 5, 10));
}

#[test]
fn sort_keeps_entries_with_the_same_number_in_their_order() {
    let d = day(2022, 5, 8);
    let mut entries = vec![
        entry("c", 5, d),
        entry("a1", 2, d),
        entry("b", 3, d),
        entry("a2", 2, d),
        entry("z", 0, d),
        entry("a3", 2, d),
    ];
    sort_by_sequence(&mut entries);
    let names: Vec<&str> = entries.iter().map(|e| e.filename.as_str()).collect();
    assert_eq!(names, vec!["z", "a1", "a2", "a3", "b", "c"]);
}

#[test]
fn sort_agrees_with_the_stable_sort_of_slices() {
    let d = day(2022, 5, 8);
    let mut state: u32 = 12345;
    let mut entries = Vec::new();
    for i in 0..200 {
        state = state.wrapping_mul(1_103_515_245).wrapping_add(12345);
        entries.push(entry(&format!("f{i}"), (state >> 16) % 50, d));
    }
    let mut expected = entries.clone();
    expected.sort_by_key(|e| e.sequence_id);
    sort_by_sequence(&mut entries);
    assert_eq!(entries, expected);
}

#[test]
fn sort_leaves_short_and_sorted_lists_alone() {
    let d = day(2022, 5, 8);
    let mut none: Vec<CaptureFileEntry> = Vec::new();
    sort_by_sequence(&mut none);
    assert!(none.is_empty());
    let mut one = vec![entry("a", 9, d)];
    sort_by_sequence(&mut one);
    assert_eq!(one, vec![entry("a", 9, d)]);
    let mut sorted = vec![entry("a", 1, d), entry("b", 2, d), entry("c", 2, d), entry("d", 4, d)];
    let before = sorted.clone();
    sort_by_sequence(&mut sorted);
    assert_eq!(sorted, before);
}

#[test]
fn decimal_parsing_takes_digits_only() {
    assert_eq!(parse_decimal("0"), Some(0));
    assert_eq!(parse_decimal("00001297"), Some(1297));
    assert_eq!(parse_decimal("4294967295"), Some(u32::MAX));
    assert_eq!(parse_decimal("0000000004294967295"), Some(u32::MAX));
    assert_eq!(parse_decimal("4294967296"), None);
    assert_eq!(parse_decimal("99999999999999999999999999"), None);
    assert_eq!(parse_decimal(""), None);
    assert_eq!(parse_decimal("-1"), None);
    assert_eq!(parse_decimal("+1"), None);
    assert_eq!(parse_decimal("1 "), None);
    assert_eq!(parse_decimal("12a"), None);
    assert_eq!(parse_decimal("\u{0661}\u{0662}"), None);
}
