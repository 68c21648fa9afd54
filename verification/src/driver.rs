use crate::aggregator::RecordOutcome;
use vstd::prelude::*;

verus! {

/// Where a scan over a list of files stands.
#[derive(Clone, Copy, Debug, PartialEq, Eq, Structural)]
pub enum ScanState {
    /// The file at this place in the list is to be opened.
    Opening(usize),
    /// The file at this place in the list is open and being read.
    Reading(usize),
    /// Nothing more is to be read.
    Finished,
}

/// What happened to the file at hand.
#[derive(Clone, Copy, Debug, PartialEq, Eq, Structural)]
pub enum ScanEvent {
    /// It could not be opened.
    OpenFailed,
    /// It was opened.
    Opened,
    /// A record was read from it and handed to the aggregator, which
    /// answered with this outcome.
    Record(RecordOutcome),
    /// It has no more records.
    EndOfFile,
}

/// What to do next.
#[derive(Clone, Copy, Debug, PartialEq, Eq, Structural)]
pub enum ScanAction {
    /// Open the file at this place in the list.
    Open(usize),
    /// Read the next record of the open file.
    ReadRecord,
    /// Stop: the scan is over.
    Stop,
}

/// The state in which the file behind the one at `index` is due, or the end
/// if that was the last.
pub open spec fn turn_to_next(index: usize, file_count: usize) -> ScanState {
    if index + 1 < file_count {
        ScanState::Opening((index + 1) as usize)
    } else {
        ScanState::Finished
    }
}

/// The state at the start of a scan over `file_count` files.
pub open spec fn initial_state(file_count: usize) -> ScanState {
    if file_count == 0 {
        ScanState::Finished
    } else {
        ScanState::Opening(0)
    }
}

/// The state after an event. A file that does not open is passed over; the
/// end of a file leads to the next file; a record that ends the scan ends
/// it for all files. An event that does not belong to the state changes
/// nothing.
pub open spec fn next_state(state: ScanState, event: ScanEvent, file_count: usize) -> ScanState {
    match (state, event) {
        (ScanState::Opening(index), ScanEvent::Opened) => ScanState::Reading(index),
        (ScanState::Opening(index), ScanEvent::OpenFailed) => turn_to_next(index, file_count),
        (ScanState::Reading(index), ScanEvent::EndOfFile) => turn_to_next(index, file_count),
        (ScanState::Reading(_), ScanEvent::Record(RecordOutcome::Halted)) => ScanState::Finished,
        _ => state,
    }
}

/// What a state asks for.
pub open spec fn action_of(state: ScanState) -> ScanAction {
    match state {
        ScanState::Opening(index) => ScanAction::Open(index),
        ScanState::Reading(_) => ScanAction::ReadRecord,
        ScanState::Finished => ScanAction::Stop,
    }
}

/// The place in the list that a state has reached; the length of the list
/// once the scan is over.
pub open spec fn progress(state: ScanState, file_count: usize) -> int {
    match state {
        ScanState::Opening(index) => index as int,
        ScanState::Reading(index) => index as int,
        ScanState::Finished => file_count as int,
    }
}

/// Whether a state names a file of the list, or the end.
pub open spec fn in_list(state: ScanState, file_count: usize) -> bool {
    match state {
        ScanState::Opening(index) => index < file_count,
        ScanState::Reading(index) => index < file_count,
        ScanState::Finished => true,
    }
}

impl ScanState {
    /// The state at the start of a scan over `file_count` files.
    pub fn start(file_count: usize) -> (r: ScanState)
        ensures
            r == initial_state(file_count),
            in_list(r, file_count),
    {
        if file_count == 0 {
            ScanState::Finished
        } else {
            ScanState::Opening(0)
        }
    }

    /// The state after an event.
    pub fn advance(self, event: ScanEvent, file_count: usize) -> (r: ScanState)
        ensures
            r == next_state(self, event, file_count),
    {
        match self {
            ScanState::Opening(index) => match event {
                ScanEvent::Opened => ScanState::Reading(index),
                ScanEvent::OpenFailed => ScanState::following(index, file_count),
                _ => self,
            },
            ScanState::Reading(index) => match event {
                ScanEvent::EndOfFile => ScanState::following(index, file_count),
                ScanEvent::Record(RecordOutcome::Halted) => ScanState::Finished,
                _ => self,
            },
            ScanState::Finished => self,
        }
    }

    /// What to do in this state.
    pub fn action(self) -> (r: ScanAction)
        ensures
            r == action_of(self),
    {
        match self {
            ScanState::Opening(index) => ScanAction::Open(index),
            ScanState::Reading(_) => ScanAction::ReadRecord,
            ScanState::Finished => ScanAction::Stop,
        }
    }

    /// The state in which the file behind the one at `index` is due.
    fn following(index: usize, file_count: usize) -> (r: ScanState)
        ensures
            r == turn_to_next(index, file_count),
    {
        if index < file_count && index + 1 < file_count {
            ScanState::Opening(index + 1)
        } else {
            ScanState::Finished
        }
    }
}

/// A scan never turns back and never leaves the list: after any event it
/// stands at the same file or a later one, and names a file of the list or
/// the end. Once it is over it stays over, and a record that ends the scan
/// ends it whichever file it came from.
pub proof fn lemma_scan_moves_forward(state: ScanState, event: ScanEvent, file_count: usize)
    requires
        in_list(state, file_count),
    ensures
        in_list(next_state(state, event, file_count), file_count),
        progress(state, file_count) <= progress(next_state(state, event, file_count), file_count),
        state == ScanState::Finished ==> next_state(state, event, file_count)
            == ScanState::Finished,
        state is Reading && event == ScanEvent::Record(RecordOutcome::Halted) ==> next_state(
            state,
            event,
            file_count,
        ) == ScanState::Finished,
{
}

} // verus!
