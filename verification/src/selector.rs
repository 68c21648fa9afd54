use crate::calendar::CalendarDate;
use crate::catalog::CaptureFileEntry;
use vstd::prelude::*;

verus! {

/// A run of neighbouring entries of a catalog, both ends included.
#[derive(Clone, Copy, Debug, PartialEq, Eq, Structural)]
pub struct FileRange {
    pub first_index: usize,
    pub last_index: usize,
}

/// Whether every entry carries a day before `first`.
pub open spec fn all_before(entries: Seq<CaptureFileEntry>, first: CalendarDate) -> bool {
    forall|j: int| 0 <= j < entries.len() ==> (#[trigger] entries[j]).date.precedes(first)
}

/// Whether `slot` is the first entry whose day is `first` or later.
pub open spec fn is_start(entries: Seq<CaptureFileEntry>, first: CalendarDate, slot: int) -> bool {
    &&& 0 <= slot < entries.len()
    &&& !entries[slot].date.precedes(first)
    &&& forall|j: int| 0 <= j < slot ==> (#[trigger] entries[j]).date.precedes(first)
}

/// Whether `end` is the last entry to read when the first day was met at
/// `start`: behind `start` and up to `end` no day is later than `last`, and
/// the entry behind `end`, if there is one, carries a later day.
pub open spec fn is_end(
    entries: Seq<CaptureFileEntry>,
    last: CalendarDate,
    start: int,
    end: int,
) -> bool {
    &&& start <= end < entries.len()
    &&& forall|j: int| start < j <= end ==> !last.precedes((#[trigger] entries[j]).date)
    &&& end + 1 < entries.len() ==> last.precedes(entries[end + 1].date)
}

/// Whether `range` is the choice of files for the days `first` to `last`.
/// Where a first entry of day `first` or later exists, the range starts one
/// entry before it, or at it if it is the first of all, and runs to the
/// entry before the next one of a day after `last`, or to the end. Where no
/// entry reaches day `first`, the range is the whole catalog.
pub open spec fn selects(
    entries: Seq<CaptureFileEntry>,
    first: CalendarDate,
    last: CalendarDate,
    range: FileRange,
) -> bool {
    if all_before(entries, first) {
        range.first_index == 0 && range.last_index == entries.len() - 1
    } else {
        exists|start: int|
            {
                &&& #[trigger] is_start(entries, first, start)
                &&& range.first_index == if start == 0 {
                    0
                } else {
                    start - 1
                }
                &&& is_end(entries, last, start, range.last_index as int)
            }
    }
}

/// Whether the days never go back along the catalog.
pub open spec fn days_ascend(entries: Seq<CaptureFileEntry>) -> bool {
    forall|i: int, j: int|
        0 <= i <= j < entries.len() ==> !(#[trigger] entries[j]).date.precedes(
            (#[trigger] entries[i]).date,
        )
}

/// There is one choice of files at most.
pub proof fn lemma_selection_unique(
    entries: Seq<CaptureFileEntry>,
    first: CalendarDate,
    last: CalendarDate,
    a: FileRange,
    b: FileRange,
)
    requires
        selects(entries, first, last, a),
        selects(entries, first, last, b),
    ensures
        a == b,
{
    if !all_before(entries, first) {
        let sa = choose|start: int|
            {
                &&& #[trigger] is_start(entries, first, start)
                &&& a.first_index == if start == 0 {
                    0
                } else {
                    start - 1
                }
                &&& is_end(entries, last, start, a.last_index as int)
            };
        let sb = choose|start: int|
            {
                &&& #[trigger] is_start(entries, first, start)
                &&& b.first_index == if start == 0 {
                    0
                } else {
                    start - 1
                }
                &&& is_end(entries, last, start, b.last_index as int)
            };
        if sa < sb {
            assert(entries[sa].date.precedes(first));
        }
        if sb < sa {
            assert(entries[sb].date.precedes(first));
        }
        assert(sa == sb);
        let ea = a.last_index as int;
        let eb = b.last_index as int;
        if ea < eb {
            assert(!last.precedes(entries[ea + 1].date));
        }
        if eb < ea {
            assert(!last.precedes(entries[eb + 1].date));
        }
    }
}

/// In a catalog whose days never go back, every file of a day from `first`
/// to `last` lies in the chosen range.
pub proof fn lemma_selection_covers(
    entries: Seq<CaptureFileEntry>,
    first: CalendarDate,
    last: CalendarDate,
    range: FileRange,
    i: int,
)
    requires
        days_ascend(entries),
        selects(entries, first, last, range),
        0 <= i < entries.len(),
        !entries[i].date.precedes(first),
        !last.precedes(entries[i].date),
    ensures
        range.first_index <= i <= range.last_index,
{
    assert(!all_before(entries, first));
    let start = choose|start: int|
        {
            &&& #[trigger] is_start(entries, first, start)
            &&& range.first_index == if start == 0 {
                0
            } else {
                start - 1
            }
            &&& is_end(entries, last, start, range.last_index as int)
        };
    if i < start {
        assert(entries[i].date.precedes(first));
    }
    let end = range.last_index as int;
    if i > end {
        let next = entries[end + 1].date;
        assert(last.precedes(next));
        assert(!entries[i].date.precedes(next));
        CalendarDate::lemma_total_order(last, next, entries[i].date);
        CalendarDate::lemma_total_order(entries[i].date, next, last);
    }
}

/// Chooses the files to read for the days `first` to `last` from a catalog
/// in ascending order of sequence number: from the file before the first
/// one of day `first` or later, to the file before the next one of a day
/// after `last`. An empty catalog has nothing to read.
pub fn select_range(entries: &Vec<CaptureFileEntry>, first: CalendarDate, last: CalendarDate) -> (r:
    Option<FileRange>)
    ensures
        r is None <==> entries@.len() == 0,
        r matches Some(range) ==> selects(entries@, first, last, range) && range.first_index
            <= range.last_index < entries@.len(),
{
    let n = entries.len();
    if n == 0 {
        return None;
    }
    let mut start: usize = 0;
    while start < n && entries[start].date.is_before(&first)
        invariant
            start <= n,
            n == entries@.len(),
            forall|j: int| 0 <= j < start ==> (#[trigger] entries@[j]).date.precedes(first),
        decreases n - start,
    {
        start = start + 1;
    }
    if start == n {
        return Some(FileRange { first_index: 0, last_index: n - 1 });
    }
    let first_index = if start == 0 {
        0
    } else {
        start - 1
    };
    let mut next: usize = start + 1;
    while next < n && !last.is_before(&entries[next].date)
        invariant
            start < next <= n,
            n == entries@.len(),
            forall|j: int| start < j < next ==> !last.precedes((#[trigger] entries@[j]).date),
        decreases n - next,
    {
        next = next + 1;
    }
    let range = FileRange { first_index, last_index: next - 1 };
    proof {
        assert(is_start(entries@, first, start as int));
        assert(is_end(entries@, last, start as int, range.last_index as int));
        assert(!all_before(entries@, first)) by {
            assert(!entries@[start as int].date.precedes(first));
        }
    }
    Some(range)
}

/// The paths of the files of a range, in the order of the catalog.
pub open spec fn paths_in(entries: Seq<CaptureFileEntry>, range: FileRange) -> Seq<Seq<char>> {
    Seq::new(
        (range.last_index - range.first_index + 1) as nat,
        |k: int| entries[range.first_index + k].filename@,
    )
}

/// The plain text of each path of a list.
pub open spec fn path_texts(paths: Seq<String>) -> Seq<Seq<char>> {
    Seq::new(paths.len(), |k: int| paths[k]@)
}

/// The paths of the files to read for the days `first` to `last`, in the
/// order in which to read them. There are none if and only if the catalog
/// is empty.
pub fn files_to_read(entries: &Vec<CaptureFileEntry>, first: CalendarDate, last: CalendarDate) -> (r:
    Vec<String>)
    ensures
        r@.len() == 0 <==> entries@.len() == 0,
        entries@.len() > 0 ==> exists|range: FileRange|
            #[trigger] selects(entries@, first, last, range) && range.first_index
                <= range.last_index < entries@.len() && path_texts(r@) == paths_in(
                entries@,
                range,
            ),
{
    let mut paths: Vec<String> = Vec::new();
    match select_range(entries, first, last) {
        None => {},
        Some(range) => {
            let mut i: usize = range.first_index;
            while i <= range.last_index
                invariant
                    range.first_index <= i <= range.last_index + 1,
                    range.last_index < entries.len(),
                    paths@.len() == i - range.first_index,
                    forall|k: int|
                        0 <= k < paths@.len() ==> (#[trigger] paths@[k])@ == entries@[range.first_index
                            + k].filename@,
                decreases range.last_index + 1 - i,
            {
                paths.push(entries[i].filename.clone());
                i = i + 1;
            }
            assert(path_texts(paths@) =~= paths_in(entries@, range));
        },
    }
    paths
}

} // verus!
