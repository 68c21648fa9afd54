use crate::frequency::{bumped, FrequencyTable};
use crate::mac::MacAddress;
use crate::window::{TimeWindow, MICROS_PER_SECOND};
use vstd::prelude::*;

verus! {

/// Where the source address starts in an Ethernet frame.
pub const SOURCE_OFFSET: usize = 6;

/// Where the source address ends in an Ethernet frame.
pub const SOURCE_END: usize = 12;

/// One captured frame: when it arrived, in seconds since the epoch and the
/// microseconds beyond them, how long it was on the wire, and the bytes that
/// were captured of it.
#[derive(Clone, Debug, PartialEq, Eq)]
pub struct PacketRecord {
    pub seconds: u64,
    pub micros: u64,
    pub length: u32,
    pub frame: Vec<u8>,
}

/// A captured frame with its bytes as a plain sequence.
pub struct RecordModel {
    pub seconds: u64,
    pub micros: u64,
    pub length: u32,
    pub frame: Seq<u8>,
}

impl View for PacketRecord {
    type V = RecordModel;

    open spec fn view(&self) -> RecordModel {
        RecordModel {
            seconds: self.seconds,
            micros: self.micros,
            length: self.length,
            frame: self.frame@,
        }
    }
}

/// The frames of a list, each with its bytes as a plain sequence.
pub open spec fn record_models(records: Seq<PacketRecord>) -> Seq<RecordModel> {
    Seq::new(records.len(), |i: int| records[i]@)
}

/// What became of a record.
#[derive(Clone, Copy, Debug, PartialEq, Eq, Structural)]
pub enum RecordOutcome {
    /// It was counted; go on with the next record.
    Counted,
    /// It was left out; go on with the next record.
    Skipped,
    /// It lies behind the window, or one before it did: stop the whole
    /// scan.
    Halted,
}

/// What a scan has gathered so far.
pub struct Tally {
    /// How often each length on the wire was seen.
    pub lengths: Map<u64, u64>,
    /// How often each gap between two counted records was seen, in
    /// microseconds.
    pub intervals: Map<u64, u64>,
    /// When the record counted last arrived; zero while none was counted.
    pub cursor: u64,
    /// Whether a record behind the window has ended the scan.
    pub halted: bool,
}

/// The tally before the first record.
pub open spec fn empty_tally() -> Tally {
    Tally { lengths: Map::empty(), intervals: Map::empty(), cursor: 0, halted: false }
}

/// When a record arrived, in microseconds since the epoch.
pub open spec fn arrival_of(record: RecordModel) -> int {
    record.seconds * MICROS_PER_SECOND + record.micros
}

/// Whether the frame is long enough to hold a source address and holds the
/// given one.
pub open spec fn source_matches(frame: Seq<u8>, mac: Seq<u8>) -> bool {
    frame.len() >= SOURCE_END && frame.subrange(SOURCE_OFFSET as int, SOURCE_END as int) == mac
}

/// What becomes of a record while the scan is going on. A record from
/// another source is left out whenever it arrived; one from the source is
/// left out if it arrived before the window, ends the scan if it arrived
/// behind it, and is counted otherwise.
pub open spec fn verdict(mac: Seq<u8>, window: TimeWindow, record: RecordModel) -> RecordOutcome {
    if !source_matches(record.frame, mac) {
        RecordOutcome::Skipped
    } else if arrival_of(record) < window.first_micros {
        RecordOutcome::Skipped
    } else if arrival_of(record) > window.last_micros {
        RecordOutcome::Halted
    } else {
        RecordOutcome::Counted
    }
}

/// The tally with one more record counted: its length is counted, the gap
/// since the record counted before it is counted unless there was none or
/// the clock went back, and the cursor moves to its arrival.
pub open spec fn counted(tally: Tally, record: RecordModel) -> Tally {
    let arrival = arrival_of(record);
    Tally {
        lengths: bumped(tally.lengths, record.length as u64),
        intervals: if tally.cursor != 0 && tally.cursor <= arrival {
            bumped(tally.intervals, (arrival - tally.cursor) as u64)
        } else {
            tally.intervals
        },
        cursor: arrival as u64,
        halted: false,
    }
}

/// What a record is answered with: once the scan has ended, every record
/// is answered with the end.
pub open spec fn answer(
    mac: Seq<u8>,
    window: TimeWindow,
    tally: Tally,
    record: RecordModel,
) -> RecordOutcome {
    if tally.halted {
        RecordOutcome::Halted
    } else {
        verdict(mac, window, record)
    }
}

/// The tally after one more record.
pub open spec fn step(mac: Seq<u8>, window: TimeWindow, tally: Tally, record: RecordModel) -> Tally {
    match answer(mac, window, tally, record) {
        RecordOutcome::Counted => counted(tally, record),
        RecordOutcome::Skipped => tally,
        RecordOutcome::Halted => Tally { halted: true, ..tally },
    }
}

/// The tally after a run of records, taken in their order.
pub open spec fn scan(
    mac: Seq<u8>,
    window: TimeWindow,
    tally: Tally,
    records: Seq<RecordModel>,
) -> Tally
    decreases records.len(),
{
    if records.len() == 0 {
        tally
    } else {
        step(mac, window, scan(mac, window, tally, records.drop_last()), records.last())
    }
}

/// Once a record behind the window has ended the scan, no later record
/// changes anything, whatever it holds and whichever file it comes from.
pub proof fn lemma_halt_is_final(
    mac: Seq<u8>,
    window: TimeWindow,
    tally: Tally,
    records: Seq<RecordModel>,
)
    requires
        tally.halted,
    ensures
        scan(mac, window, tally, records) == tally,
    decreases records.len(),
{
    if records.len() > 0 {
        lemma_halt_is_final(mac, window, tally, records.drop_last());
    }
}

/// Scanning one run of records and then another is scanning the two runs
/// joined: what was gathered, the cursor among it, carries over from one
/// file to the next.
pub proof fn lemma_scan_joins(
    mac: Seq<u8>,
    window: TimeWindow,
    tally: Tally,
    earlier: Seq<RecordModel>,
    later: Seq<RecordModel>,
)
    ensures
        scan(mac, window, tally, earlier + later) == scan(
            mac,
            window,
            scan(mac, window, tally, earlier),
            later,
        ),
    decreases later.len(),
{
    if later.len() == 0 {
        assert(earlier + later =~= earlier);
    } else {
        lemma_scan_joins(mac, window, tally, earlier, later.drop_last());
        assert((earlier + later).drop_last() =~= earlier + later.drop_last());
        assert((earlier + later).last() == later.last());
    }
}

/// A record that ends the scan, and every record behind it, leaves the
/// tables and the cursor as they were before it.
pub proof fn lemma_nothing_counted_after_halt(
    mac: Seq<u8>,
    window: TimeWindow,
    tally: Tally,
    record: RecordModel,
    later: Seq<RecordModel>,
)
    requires
        answer(mac, window, tally, record) == RecordOutcome::Halted,
    ensures
        scan(mac, window, tally, seq![record] + later) == (Tally { halted: true, ..tally }),
{
    let first = seq![record];
    assert(first.drop_last() =~= Seq::<RecordModel>::empty());
    assert(scan(mac, window, tally, first) == step(mac, window, tally, record)) by {
        assert(scan(mac, window, tally, first.drop_last()) == tally);
        assert(first.last() == record);
    }
    lemma_scan_joins(mac, window, tally, first, later);
    lemma_halt_is_final(mac, window, step(mac, window, tally, record), later);
}

/// Whether the frame carries the given source address.
pub fn source_is(frame: &Vec<u8>, mac: &MacAddress) -> (r: bool)
    ensures
        r == source_matches(frame@, mac@),
{
    proof {
        mac.lemma_six_octets();
    }
    if frame.len() < SOURCE_END {
        return false;
    }
    let octets = mac.octets();
    let mut k: usize = 0;
    while k < 6
        invariant
            k <= 6,
            frame@.len() >= SOURCE_END,
            octets@ == mac@,
            octets@.len() == 6,
            forall|j: int| 0 <= j < k ==> frame@[SOURCE_OFFSET + j] == #[trigger] octets@[j],
        decreases 6 - k,
    {
        if frame[SOURCE_OFFSET + k] != octets[k] {
            assert(frame@.subrange(SOURCE_OFFSET as int, SOURCE_END as int)[k as int]
                != mac@[k as int]);
            return false;
        }
        k = k + 1;
    }
    assert(frame@.subrange(SOURCE_OFFSET as int, SOURCE_END as int) =~= mac@);
    true
}

/// The running state of one scan: the source address to look for, the
/// window, the two tables and the arrival of the record counted last.
pub struct Aggregator {
    mac: MacAddress,
    window: TimeWindow,
    lengths: FrequencyTable,
    intervals: FrequencyTable,
    cursor: u64,
    halted: bool,
}

impl View for Aggregator {
    type V = Tally;

    closed spec fn view(&self) -> Tally {
        Tally {
            lengths: self.lengths@,
            intervals: self.intervals@,
            cursor: self.cursor,
            halted: self.halted,
        }
    }
}

impl Aggregator {
    /// The source address that records are held against.
    pub closed spec fn source(&self) -> MacAddress {
        self.mac
    }

    /// The window that records have to arrive in.
    pub closed spec fn span(&self) -> TimeWindow {
        self.window
    }

    /// An aggregator that has seen nothing.
    pub fn new(mac: MacAddress, window: TimeWindow) -> (r: Aggregator)
        ensures
            r@ == empty_tally(),
            r.source() == mac,
            r.span() == window,
    {
        Aggregator {
            mac,
            window,
            lengths: FrequencyTable::new(),
            intervals: FrequencyTable::new(),
            cursor: 0,
            halted: false,
        }
    }

    /// Takes one record and says what became of it.
    pub fn observe(&mut self, record: &PacketRecord) -> (r: RecordOutcome)
        ensures
            final(self)@ == step(old(self).source()@, old(self).span(), old(self)@, record@),
            r == answer(old(self).source()@, old(self).span(), old(self)@, record@),
            final(self).source() == old(self).source(),
            final(self).span() == old(self).span(),
    {
        if self.halted {
            return RecordOutcome::Halted;
        }
        if !source_is(&record.frame, &self.mac) {
            return RecordOutcome::Skipped;
        }
        let arrival: u128 = record.seconds as u128 * 1_000_000 + record.micros as u128;
        if arrival < self.window.first_micros as u128 {
            return RecordOutcome::Skipped;
        }
        if arrival > self.window.last_micros as u128 {
            self.halted = true;
            return RecordOutcome::Halted;
        }
        let arrival: u64 = arrival as u64;
        self.lengths.record(record.length as u64);
        if self.cursor != 0 && self.cursor <= arrival {
            self.intervals.record(arrival - self.cursor);
        }
        self.cursor = arrival;
        RecordOutcome::Counted
    }

    /// Takes the records of one file in their order, up to the end of the
    /// file or to the record that ends the scan, and says whether the scan
    /// has ended.
    pub fn observe_all(&mut self, records: &Vec<PacketRecord>) -> (r: bool)
        ensures
            final(self)@ == scan(
                old(self).source()@,
                old(self).span(),
                old(self)@,
                record_models(records@),
            ),
            r == final(self)@.halted,
            final(self).source() == old(self).source(),
            final(self).span() == old(self).span(),
    {
        let ghost all = record_models(records@);
        let mut i: usize = 0;
        while i < records.len() && !self.halted
            invariant
                i <= records.len(),
                all == record_models(records@),
                self.source() == old(self).source(),
                self.span() == old(self).span(),
                self@ == scan(old(self).source()@, old(self).span(), old(self)@, all.take(i as int)),
            decreases records.len() - i,
        {
            proof {
                assert(all.take(i + 1).drop_last() =~= all.take(i as int));
                assert(all.take(i + 1).last() == records@[i as int]@);
            }
            self.observe(&records[i]);
            i = i + 1;
        }
        proof {
            let seen = all.take(i as int);
            let unseen = all.skip(i as int);
            assert(seen + unseen =~= all);
            lemma_scan_joins(old(self).source()@, old(self).span(), old(self)@, seen, unseen);
            if self.halted {
                lemma_halt_is_final(old(self).source()@, old(self).span(), self@, unseen);
            } else {
                assert(unseen =~= Seq::<RecordModel>::empty());
            }
        }
        self.halted
    }

    /// The lengths seen so far, with their counts.
    pub fn lengths(&self) -> (r: &FrequencyTable)
        ensures
            r@ == self@.lengths,
    {
        &self.lengths
    }

    /// The gaps seen so far, with their counts.
    pub fn intervals(&self) -> (r: &FrequencyTable)
        ensures
            r@ == self@.intervals,
    {
        &self.intervals
    }

    /// When the record counted last arrived; zero while none was counted.
    pub fn cursor(&self) -> (r: u64)
        ensures
            r == self@.cursor,
    {
        self.cursor
    }

    /// Whether a record behind the window has ended the scan.
    pub fn is_halted(&self) -> (r: bool)
        ensures
            r == self@.halted,
    {
        self.halted
    }
}

} // verus!
