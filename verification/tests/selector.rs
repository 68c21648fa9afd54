use arkime_pcap_aggregator::calendar::CalendarDate;
use arkime_pcap_aggregator::catalog::CaptureFileEntry;
use arkime_pcap_aggregator::selector::{files_to_read, select_range, FileRange};

/// A day written as in a file name: year of the century, month, day.
fn day(yymmdd: u32) -> CalendarDate {
    CalendarDate { year: 2000 + (yymmdd / 10_000) as i32, month: yymmdd / 100 % 100, day: yymmdd % 100 }
}

fn catalog(days: &[u32]) -> Vec<CaptureFileEntry> {
    days.iter()
        .enumerate()
        .map(|(i, d)| CaptureFileEntry::new(format!("/d/cap-{d:06}-{:08}.pcap", i + 1), i as u32 + 1, day(*d)))
        .collect()
}

fn range(first_index: usize, last_index: usize) -> Option<FileRange> {
    Some(FileRange { first_index, last_index })
}

#[test]
fn selection_steps_back_one_at_the_start_and_one_at_the_end() {
    let files = catalog(&[100101, 100102, 100103, 100104]);
    assert_eq!(select_range(&files, day(100102), day(100103)), range(0, 2));
}

#[test]
fn empty_catalog_has_nothing_to_read() {
    let files = catalog(&[]);
    assert_eq!(select_range(&files, day(100102), day(100103)), None);
    assert!(files_to_read(&files, day(100102), day(100103)).is_empty());
}

#[test]
fn catalog_of_one_file_is_read_whole() {
    let files = catalog(&[100102]);
    assert_eq!(select_range(&files, day(100102), day(100102)), range(0, 0));
    assert_eq!(select_range(&files, day(100101), day(100101)), range(0, 0));
    assert_eq!(select_range(&files, day(100103), day(100104)), range(0, 0));
}

#[test]
fn start_at_the_first_file_does_not_step_back() {
    let files = catalog(&[100102, 100103, 100104, 100105]);
    assert_eq!(select_range(&files, day(100102), day(100103)), range(0, 1));
    assert_eq!(select_range(&files, day(100101), day(100103)), range(0, 1));
}

#[test]
fn no_later_day_reads_to_the_end() {
    let files = catalog(&[100101, 100102, 100103, 100104]);
    assert_eq!(select_range(&files, day(100103), day(100104)), range(1, 3));
    assert_eq!(select_range(&files, day(100103), day(100110)), range(1, 3));
    assert_eq!(select_range(&files, day(100104), day(100104)), range(2, 3));
}

#[test]
fn window_after_all_files_reads_the_whole_catalog() {
    let files = catalog(&[100101, 100102, 100103]);
    assert_eq!(select_range(&files, day(100201), day(100202)), range(0, 2));
}

#[test]
fn window_before_all_files_reads_the_first_file() {
    let files = catalog(&[100105, 100106, 100107]);
    assert_eq!(select_range(&files, day(100101), day(100102)), range(0, 0));
}

#[test]
fn file_that_meets_the_start_is_read_whatever_its_day() {
    // The first file of the start day or later is never held against the
    // end day: only the files behind it are.
    let files = catalog(&[100101, 100105, 100106]);
    assert_eq!(select_range(&files, day(100102), day(100103)), range(0, 1));
}

#[test]
fn several_files_of_one_day_are_all_read() {
    let files = catalog(&[100101, 100102, 100102, 100102, 100103, 100103, 100104, 100104]);
    assert_eq!(select_range(&files, day(100102), day(100103)), range(0, 5));
    assert_eq!(select_range(&files, day(100103), day(100103)), range(3, 5));
}

#[test]
fn one_day_window_reads_the_day_and_the_file_before() {
    let files = catalog(&[100101, 100102, 100103, 100104]);
    assert_eq!(select_range(&files, day(100103), day(100103)), range(1, 2));
}

#[test]
fn days_are_compared_across_months_and_years() {
    let files = catalog(&[91231, 100101, 100131, 100201, 110101]);
    assert_eq!(select_range(&files, day(100101), day(100131)), range(0, 2));
    assert_eq!(select_range(&files, day(100201), day(101231)), range(2, 3));
}

#[test]
fn files_to_read_are_the_paths_of_the_range_in_order() {
    let files = catalog(&[100101, 100102, 100103, 100104]);
    assert_eq!(
        files_to_read(&files, day(100102), day(100103)),
        vec![
            "/d/cap-100101-00000001.pcap".to_string(),
            "/d/cap-100102-00000002.pcap".to_string(),
            "/d/cap-100103-00000003.pcap".to_string(),
        ]
    );
    assert_eq!(
        files_to_read(&files, day(100104), day(100104)),
        vec!["/d/cap-100103-00000003.pcap".to_string(), "/d/cap-100104-00000004.pcap".to_string()]
    );
}

#[test]
fn every_file_of_a_day_in_the_window_is_in_the_range() {
    let days = [100101, 100101, 100103, 100104, 100104, 100107, 100110, 100110, 100111];
    let files = catalog(&days);
    for first in 100099..100113u32 {
        for last in first..100113u32 {
            let chosen = select_range(&files, day(first), day(last)).unwrap();
            assert!(chosen.first_index <= chosen.last_index && chosen.last_index < files.len());
            for (i, d) in days.iter().enumerate() {
                if first <= *d && *d <= last {
                    assert!(chosen.first_index <= i && i <= chosen.last_index, "{first} {last} {i}");
                }
            }
        }
    }
}
