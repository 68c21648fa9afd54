use arkime_pcap_aggregator::aggregator::RecordOutcome;
use arkime_pcap_aggregator::driver::{ScanAction, ScanEvent, ScanState};

#[test]
fn scan_of_no_files_is_over_at_once() {
    let state = ScanState::start(0);
    assert_eq!(state, ScanState::Finished);
    assert_eq!(state.action(), ScanAction::Stop);
}

#[test]
fn scan_opens_the_first_file_first() {
    let state = ScanState::start(3);
    assert_eq!(state, ScanState::Opening(0));
    assert_eq!(state.action(), ScanAction::Open(0));
}

#[test]
fn file_that_does_not_open_is_passed_over() {
    let state = ScanState::start(3).advance(ScanEvent::OpenFailed, 3);
    assert_eq!(state, ScanState::Opening(1));
    let state = state.advance(ScanEvent::OpenFailed, 3).advance(ScanEvent::OpenFailed, 3);
    assert_eq!(state, ScanState::Finished);
}

#[test]
fn open_file_is_read_record_by_record() {
    let mut state = ScanState::start(2).advance(ScanEvent::Opened, 2);
    assert_eq!(state, ScanState::Reading(0));
    for outcome in [RecordOutcome::Counted, RecordOutcome::Skipped, RecordOutcome::Counted] {
        assert_eq!(state.action(), ScanAction::ReadRecord);
        state = state.advance(ScanEvent::Record(outcome), 2);
        assert_eq!(state, ScanState::Reading(0));
    }
}

#[test]
fn end_of_a_file_leads_to_the_next_file() {
    let state = ScanState::Reading(0).advance(ScanEvent::EndOfFile, 2);
    assert_eq!(state, ScanState::Opening(1));
    assert_eq!(state.action(), ScanAction::Open(1));
    let state = ScanState::Reading(1).advance(ScanEvent::EndOfFile, 2);
    assert_eq!(state, ScanState::Finished);
}

#[test]
fn record_behind_the_window_ends_the_scan_for_all_files() {
    let state = ScanState::Reading(0).advance(ScanEvent::Record(RecordOutcome::Halted), 5);
    assert_eq!(state, ScanState::Finished);
    assert_eq!(state.action(), ScanAction::Stop);
    for event in [
        ScanEvent::Opened,
        ScanEvent::OpenFailed,
        ScanEvent::EndOfFile,
        ScanEvent::Record(RecordOutcome::Counted),
    ] {
        assert_eq!(state.advance(event, 5), ScanState::Finished);
    }
}

#[test]
fn event_that_does_not_belong_changes_nothing() {
    assert_eq!(ScanState::Opening(1).advance(ScanEvent::EndOfFile, 3), ScanState::Opening(1));
    assert_eq!(
        ScanState::Opening(1).advance(ScanEvent::Record(RecordOutcome::Halted), 3),
        ScanState::Opening(1)
    );
    assert_eq!(ScanState::Reading(1).advance(ScanEvent::Opened, 3), ScanState::Reading(1));
    assert_eq!(ScanState::Reading(1).advance(ScanEvent::OpenFailed, 3), ScanState::Reading(1));
}

#[test]
fn whole_scan_visits_the_files_in_order() {
    // File 0 is read to its end, file 1 does not open, file 2 holds the
    // record that ends the scan, file 3 is never opened.
    let files = 4;
    let mut state = ScanState::start(files);
    let mut opened = Vec::new();
    let mut guard = 0;
    while state != ScanState::Finished {
        guard += 1;
        assert!(guard < 100);
        let event = match state.action() {
            ScanAction::Open(i) => {
                opened.push(i);
                if i == 1 { ScanEvent::OpenFailed } else { ScanEvent::Opened }
            }
            ScanAction::ReadRecord => match state {
                ScanState::Reading(0) => ScanEvent::EndOfFile,
                _ => ScanEvent::Record(RecordOutcome::Halted),
            },
            ScanAction::Stop => unreachable!(),
        };
        state = state.advance(event, files);
    }
    assert_eq!(opened, vec![0, 1, 2]);
}
