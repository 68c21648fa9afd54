use crate::calendar::{layout_date, read_date, CalendarDate};
use crate::text::{decimal_value, is_decimal, parse_decimal};
use vstd::prelude::*;

verus! {

/// The pattern that the path of a capture file matches: a directory
/// separator, a prefix, a date of six digits, a sequence number of eight
/// digits and the extension, with hyphens between the three parts.
pub open spec fn name_pattern() -> Seq<char> {
    "/.+-(\\d{6})-(\\d{8})\\.pcap$"@
}

/// The layout of the date in a file name: year of the century, month, day.
pub open spec fn date_layout() -> Seq<char> {
    "%y%m%d"@
}

/// One capture file: where it is, its place in the rotation and the day
/// that its name carries.
#[derive(Clone, Debug, PartialEq, Eq)]
pub struct CaptureFileEntry {
    pub filename: String,
    pub sequence_id: u32,
    pub date: CalendarDate,
}

/// A capture file's entry with its path as plain text.
pub struct EntryModel {
    pub filename: Seq<char>,
    pub sequence_id: u32,
    pub date: CalendarDate,
}

impl View for CaptureFileEntry {
    type V = EntryModel;

    open spec fn view(&self) -> EntryModel {
        EntryModel { filename: self.filename@, sequence_id: self.sequence_id, date: self.date }
    }
}

/// The entries of a list, each with its path as plain text.
pub open spec fn models(entries: Seq<CaptureFileEntry>) -> Seq<EntryModel> {
    Seq::new(entries.len(), |i: int| entries[i]@)
}

/// The texts of the groups of a match, in the order of the groups; a group
/// that took no part in the match has none.
pub open spec fn group_texts(groups: Seq<Option<String>>) -> Seq<Option<Seq<char>>> {
    Seq::new(
        groups.len(),
        |i: int|
            match groups[i] {
                Some(text) => Some(text@),
                None => None,
            },
    )
}

/// What `regex::Regex::captures` finds in a text for the pattern that
/// `regex::Regex::new` compiles: nothing where the pattern does not compile
/// or the text has no match, else the text of every group of the leftmost
/// match, the whole match first.
pub uninterp spec fn pattern_captures(pattern: Seq<char>, text: Seq<char>) -> Option<
    Seq<Option<Seq<char>>>,
>;

/// Compiles the pattern with `regex::Regex::new`, searches the text with
/// `regex::Regex::captures` and copies out the text of each group. Nothing
/// is claimed of the result but that it depends on the pattern and the text
/// alone.
#[verifier::external_body]
fn capture_groups(pattern: &str, text: &str) -> (r: Option<Vec<Option<String>>>)
    ensures
        match r {
            Some(groups) => pattern_captures(pattern@, text@) == Some(group_texts(groups@)),
            None => pattern_captures(pattern@, text@) is None,
        },
{
    match regex::Regex::new(pattern) {
        Ok(compiled) => match compiled.captures(text) {
            Some(found) => Some(
                found.iter().map(|group| group.map(|part| part.as_str().to_string())).collect(),
            ),
            None => None,
        },
        Err(_) => None,
    }
}

/// The entry for a path whose name gave a date and the digits of a sequence
/// number: there is none unless the date is a day of the calendar and the
/// digits are a number that fits in 32 bits.
pub open spec fn entry_model(
    path: Seq<char>,
    date: Option<CalendarDate>,
    sequence_text: Seq<char>,
) -> Option<EntryModel> {
    match date {
        Some(day) => if is_decimal(sequence_text) && decimal_value(sequence_text) <= u32::MAX {
            Some(
                EntryModel {
                    filename: path,
                    sequence_id: decimal_value(sequence_text) as u32,
                    date: day,
                },
            )
        } else {
            None
        },
        None => None,
    }
}

/// The entry that the groups of a match give: a match has the whole name
/// and the two groups, date first, and both took part.
pub open spec fn captured_entry(path: Seq<char>, groups: Seq<Option<Seq<char>>>) -> Option<
    EntryModel,
> {
    if groups.len() == 3 && groups[1] is Some && groups[2] is Some {
        entry_model(path, layout_date(groups[1]->0, date_layout()), groups[2]->0)
    } else {
        None
    }
}

/// The entry of a path, if its name follows the convention.
pub open spec fn path_reading(path: Seq<char>) -> Option<EntryModel> {
    match pattern_captures(name_pattern(), path) {
        Some(groups) => captured_entry(path, groups),
        None => None,
    }
}

/// The entries of the paths that follow the convention, in the order of the
/// paths.
pub open spec fn readings(paths: Seq<String>) -> Seq<EntryModel>
    decreases paths.len(),
{
    if paths.len() == 0 {
        Seq::empty()
    } else {
        match path_reading(paths.last()@) {
            Some(entry) => readings(paths.drop_last()).push(entry),
            None => readings(paths.drop_last()),
        }
    }
}

impl CaptureFileEntry {
    /// An entry with the given path, place in the rotation and day.
    pub fn new(filename: String, sequence_id: u32, date: CalendarDate) -> (r: CaptureFileEntry)
        ensures
            r.filename == filename,
            r.sequence_id == sequence_id,
            r.date == date,
    {
        CaptureFileEntry { filename, sequence_id, date }
    }

    /// Puts an entry together from a path, the outcome of reading the date
    /// in its name, and the digits of its sequence number. A name whose date
    /// or number cannot be read gives no entry.
    pub fn assemble(path: &str, date: Option<CalendarDate>, sequence_text: &str) -> (r: Option<
        CaptureFileEntry,
    >)
        ensures
            match r {
                Some(entry) => entry_model(path@, date, sequence_text@) == Some(entry@),
                None => entry_model(path@, date, sequence_text@) is None,
            },
    {
        match date {
            Some(day) => match parse_decimal(sequence_text) {
                Some(sequence_id) => Some(
                    CaptureFileEntry { filename: path.to_owned(), sequence_id, date: day },
                ),
                None => None,
            },
            None => None,
        }
    }

    /// Puts an entry together from a path and the groups that matching its
    /// name gave. Anything but a whole match with both groups gives no
    /// entry.
    pub fn from_groups(path: &str, groups: &Vec<Option<String>>) -> (r: Option<CaptureFileEntry>)
        ensures
            match r {
                Some(entry) => captured_entry(path@, group_texts(groups@)) == Some(entry@),
                None => captured_entry(path@, group_texts(groups@)) is None,
            },
    {
        if groups.len() != 3 {
            return None;
        }
        match (&groups[1], &groups[2]) {
            (Some(date_text), Some(sequence_text)) => {
                let date = read_date(date_text.as_str(), "%y%m%d");
                CaptureFileEntry::assemble(path, date, sequence_text.as_str())
            },
            _ => None,
        }
    }

    /// Reads the entry of a path. A path whose name does not follow the
    /// convention gives no entry; that is no error.
    pub fn from_path(path: &str) -> (r: Option<CaptureFileEntry>)
        ensures
            match r {
                Some(entry) => path_reading(path@) == Some(entry@),
                None => path_reading(path@) is None,
            },
    {
        match capture_groups("/.+-(\\d{6})-(\\d{8})\\.pcap$", path) {
            Some(groups) => CaptureFileEntry::from_groups(path, &groups),
            None => None,
        }
    }
}

/// Reads the entries of the paths that follow the naming convention and
/// leaves out the others, keeping the order of the paths.
pub fn collect_entries(paths: &Vec<String>) -> (r: Vec<CaptureFileEntry>)
    ensures
        models(r@) == readings(paths@),
{
    let mut entries: Vec<CaptureFileEntry> = Vec::new();
    let mut i: usize = 0;
    while i < paths.len()
        invariant
            i <= paths.len(),
            models(entries@) == readings(paths@.take(i as int)),
        decreases paths.len() - i,
    {
        let ghost before = entries@;
        proof {
            assert(paths@.take(i + 1).drop_last() =~= paths@.take(i as int));
            assert(paths@.take(i + 1).last() == paths@[i as int]);
        }
        match CaptureFileEntry::from_path(paths[i].as_str()) {
            Some(entry) => {
                entries.push(entry);
                assert(models(entries@) =~= models(before).push(entry@));
            },
            None => {},
        }
        i = i + 1;
    }
    assert(paths@.take(paths.len() as int) =~= paths@);
    entries
}

} // verus!
