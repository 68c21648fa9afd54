use arkime_pcap_aggregator::calendar::Timestamp;
use arkime_pcap_aggregator::frequency::FrequencyTable;
use arkime_pcap_aggregator::mac::MacAddress;
use arkime_pcap_aggregator::report::{
    interval_report_name, length_report_name, render_rows, render_table,
};

fn table_of(keys: &[u64]) -> FrequencyTable {
    let mut table = FrequencyTable::new();
    for key in keys {
        table.record(*key);
    }
    table
}

#[test]
fn new_table_has_counted_nothing() {
    let table = FrequencyTable::new();
    assert_eq!(table.len(), 0);
    assert_eq!(table.count(0), 0);
    assert_eq!(table.count(60), 0);
    assert!(table.rows().is_empty());
    assert_eq!(render_table(&table), "");
}

#[test]
fn record_raises_the_count_of_its_key_by_one() {
    let mut table = FrequencyTable::new();
    table.record(60);
    assert_eq!(table.count(60), 1);
    table.record(1500);
    table.record(60);
    assert_eq!(table.count(60), 2);
    assert_eq!(table.count(1500), 1);
    assert_eq!(table.count(61), 0);
    assert_eq!(table.len(), 2);
}

#[test]
fn rows_come_in_ascending_order_of_the_keys() {
    let table = table_of(&[1500, 60, 9000, 60, 0, 64, u64::MAX, 1500, 60]);
    assert_eq!(
        table.rows(),
        vec![(0, 1), (60, 3), (64, 1), (1500, 2), (9000, 1), (u64::MAX, 1)]
    );
}

#[test]
fn rows_are_ordered_by_number_not_by_text() {
    let table = table_of(&[100, 9, 20, 1000, 3]);
    let keys: Vec<u64> = table.rows().iter().map(|row| row.0).collect();
    assert_eq!(keys, vec![3, 9, 20, 100, 1000]);
}

#[test]
fn rows_do_not_depend_on_the_order_of_counting() {
    let keys: Vec<u64> = (0..300u64).map(|i| (i * 7919) % 97).collect();
    let mut backwards = keys.clone();
    backwards.reverse();
    let one = table_of(&keys);
    let two = table_of(&backwards);
    assert_eq!(one.rows(), two.rows());
    assert_eq!(render_table(&one), render_table(&two));
    assert_eq!(one.rows().len(), 97);
    let total: u64 = one.rows().iter().map(|row| row.1).sum();
    assert_eq!(total, 300);
}

#[test]
fn rows_are_written_as_tab_separated_lines() {
    let rows = vec![(60u64, 3u64), (1500, 1), (18_446_744_073_709_551_615, 10)];
    assert_eq!(render_rows(&rows), "60\t3\n1500\t1\n18446744073709551615\t10\n");
    assert_eq!(render_rows(&Vec::new()), "");
    assert_eq!(render_rows(&vec![(0, 0)]), "0\t0\n");
}

#[test]
fn table_is_written_in_ascending_order_of_the_keys() {
    let table = table_of(&[1500, 60, 60, 7]);
    assert_eq!(render_table(&table), "7\t1\n60\t2\n1500\t1\n");
}

#[test]
fn written_twice_a_table_gives_the_same_text() {
    let table = table_of(&[5, 3, 5, 8, 13, 3, 5]);
    let first = render_table(&table);
    let second = render_table(&table);
    assert_eq!(first, second);
    assert_eq!(first, "3\t2\n5\t3\n8\t1\n13\t1\n");
}

#[test]
fn report_names_hold_address_and_window() {
    let mac = MacAddress::parse("02:00:5E:10:00:01").unwrap();
    let first = Timestamp::parse("2022-05-08T12:34:56+09:00").unwrap();
    let last = Timestamp::parse("2022-05-09T00:00:05+09:00").unwrap();
    assert_eq!(
        length_report_name(&mac, &first, &last),
        "02005e100001-20220508T123456--20220509T000005-len-distr.tsv"
    );
    assert_eq!(
        interval_report_name(&mac, &first, &last),
        "02005e100001-20220508T123456--20220509T000005-arrival-interval-distr.tsv"
    );
}
