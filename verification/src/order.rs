use crate::catalog::{collect_entries, models, readings, CaptureFileEntry, EntryModel};
use vstd::prelude::*;

verus! {

/// Whether the sequence numbers never go down along the list.
pub open spec fn ascending(entries: Seq<EntryModel>) -> bool {
    forall|i: int, j: int|
        0 <= i <= j < entries.len() ==> entries[i].sequence_id <= entries[j].sequence_id
}

/// The first position whose entry has a sequence number above `id`, or the
/// length of the list where there is none.
pub open spec fn slot_after(entries: Seq<EntryModel>, id: u32) -> int
    decreases entries.len(),
{
    if entries.len() == 0 || entries.first().sequence_id > id {
        0
    } else {
        1 + slot_after(entries.drop_first(), id)
    }
}

/// The list with one more entry, put behind the entries that it does not
/// have to come before.
pub open spec fn placed(entries: Seq<EntryModel>, entry: EntryModel) -> Seq<EntryModel> {
    entries.insert(slot_after(entries, entry.sequence_id), entry)
}

/// The entries in ascending order of sequence number; entries with the same
/// number keep the order that they came in.
pub open spec fn by_sequence(entries: Seq<EntryModel>) -> Seq<EntryModel>
    decreases entries.len(),
{
    if entries.len() == 0 {
        entries
    } else {
        placed(by_sequence(entries.drop_last()), entries.last())
    }
}

/// The slot is the one position with no larger number before it and a
/// larger number, or the end, at it.
pub proof fn lemma_slot_after(entries: Seq<EntryModel>, id: u32, slot: int)
    requires
        0 <= slot <= entries.len(),
        forall|j: int| 0 <= j < slot ==> entries[j].sequence_id <= id,
        slot < entries.len() ==> entries[slot].sequence_id > id,
    ensures
        slot_after(entries, id) == slot,
    decreases entries.len(),
{
    if slot > 0 {
        assert(entries.first().sequence_id <= id);
        let rest = entries.drop_first();
        assert forall|j: int| 0 <= j < slot - 1 implies rest[j].sequence_id <= id by {
            assert(rest[j] == entries[j + 1]);
        }
        lemma_slot_after(rest, id, slot - 1);
    }
}

/// The slot lies in the list or at its end, behind numbers that are not
/// larger and, in an ascending list, before numbers that are.
pub proof fn lemma_slot_bounds(entries: Seq<EntryModel>, id: u32)
    ensures
        0 <= slot_after(entries, id) <= entries.len(),
        forall|j: int| 0 <= j < slot_after(entries, id) ==> entries[j].sequence_id <= id,
        slot_after(entries, id) < entries.len() ==> entries[slot_after(
            entries,
            id,
        )].sequence_id > id,
        ascending(entries) ==> forall|j: int|
            slot_after(entries, id) <= j < entries.len() ==> entries[j].sequence_id > id,
    decreases entries.len(),
{
    if entries.len() == 0 || entries.first().sequence_id > id {
    } else {
        let rest = entries.drop_first();
        lemma_slot_bounds(rest, id);
        let slot = slot_after(entries, id);
        assert forall|j: int| 0 <= j < slot implies entries[j].sequence_id <= id by {
            if j > 0 {
                assert(entries[j] == rest[j - 1]);
            }
        }
        if slot < entries.len() {
            assert(entries[slot] == rest[slot - 1]);
        }
        if ascending(entries) {
            assert forall|i: int, j: int| 0 <= i <= j < rest.len() implies rest[i].sequence_id
                <= rest[j].sequence_id by {
                assert(rest[i] == entries[i + 1] && rest[j] == entries[j + 1]);
            }
            assert forall|j: int| slot <= j < entries.len() implies entries[j].sequence_id
                > id by {
                assert(entries[j] == rest[j - 1]);
            }
        }
    }
}

/// Placing an entry in an ascending list leaves the list ascending.
pub proof fn lemma_placed_ascending(entries: Seq<EntryModel>, entry: EntryModel)
    requires
        ascending(entries),
    ensures
        ascending(placed(entries, entry)),
{
    lemma_slot_bounds(entries, entry.sequence_id);
}

/// Ordering by sequence number gives an ascending list with the same
/// entries, each as often as before.
pub proof fn lemma_by_sequence(entries: Seq<EntryModel>)
    ensures
        ascending(by_sequence(entries)),
        by_sequence(entries).len() == entries.len(),
        by_sequence(entries).to_multiset() == entries.to_multiset(),
    decreases entries.len(),
{
    broadcast use vstd::seq_lib::group_to_multiset_ensures;

    if entries.len() == 0 {
    } else {
        let init = by_sequence(entries.drop_last());
        let last = entries.last();
        lemma_by_sequence(entries.drop_last());
        lemma_placed_ascending(init, last);
        lemma_slot_bounds(init, last.sequence_id);
        let slot = slot_after(init, last.sequence_id);
        let whole = init.insert(slot, last);
        assert(whole.remove(slot) =~= init);
        assert(whole[slot] == last);
        assert(whole.to_multiset().remove(last) =~= init.to_multiset());
        assert(whole.to_multiset().count(last) > 0) by {
            assert(whole.contains(last));
        }
        assert(whole.to_multiset() =~= init.to_multiset().insert(last));
        assert(entries.drop_last().push(last) =~= entries);
        assert(entries.to_multiset() =~= entries.drop_last().to_multiset().insert(last));
    }
}

/// A list that is ascending already is left as it is.
pub proof fn lemma_by_sequence_fixes_ascending(entries: Seq<EntryModel>)
    requires
        ascending(entries),
    ensures
        by_sequence(entries) == entries,
    decreases entries.len(),
{
    if entries.len() > 0 {
        let init = entries.drop_last();
        lemma_by_sequence_fixes_ascending(init);
        lemma_slot_after(init, entries.last().sequence_id, init.len() as int);
        assert(init.insert(init.len() as int, entries.last()) =~= entries);
    }
}

/// Puts the entries in ascending order of sequence number. Entries with the
/// same number keep their order.
pub fn sort_by_sequence(entries: &mut Vec<CaptureFileEntry>)
    ensures
        models(final(entries)@) == by_sequence(models(old(entries)@)),
        ascending(models(final(entries)@)),
        models(final(entries)@).to_multiset() == models(old(entries)@).to_multiset(),
{
    let ghost given = models(entries@);
    let n = entries.len();
    let mut done: usize = 0;
    while done < n
        invariant
            done <= n,
            n == given.len(),
            entries@.len() == n,
            models(entries@).take(done as int) == by_sequence(given.take(done as int)),
            models(entries@).skip(done as int) == given.skip(done as int),
        decreases n - done,
    {
        let ghost start = models(entries@);
        let ghost head = start.take(done as int);
        let entry = entries.remove(done);
        let ghost rest = models(entries@);
        proof {
            assert(rest =~= start.remove(done as int));
            assert(rest.take(done as int) =~= head);
            assert(entry@ == start[done as int]);
            assert(start.skip(done as int)[0] == given.skip(done as int)[0]);
            assert(entry@ == given[done as int]);
        }
        let mut slot: usize = 0;
        while slot < done && entries[slot].sequence_id <= entry.sequence_id
            invariant
                slot <= done < n,
                entries@.len() == n - 1,
                models(entries@) == rest,
                rest.take(done as int) == head,
                forall|j: int| 0 <= j < slot ==> head[j].sequence_id <= entry.sequence_id,
            decreases done - slot,
        {
            assert(entries@[slot as int]@ == rest[slot as int]);
            assert(rest.take(done as int)[slot as int] == rest[slot as int]);
            slot = slot + 1;
        }
        proof {
            if slot < done {
                assert(entries@[slot as int]@ == rest[slot as int]);
                assert(rest.take(done as int)[slot as int] == rest[slot as int]);
            }
            lemma_slot_after(head, entry.sequence_id, slot as int);
            assert(given.take(done + 1).drop_last() =~= given.take(done as int));
            assert(given.take(done + 1).last() == given[done as int]);
        }
        entries.insert(slot, entry);
        proof {
            let now = models(entries@);
            assert(now =~= rest.insert(slot as int, entry@));
            assert(now.take(done + 1) =~= head.insert(slot as int, entry@));
            let tail = now.skip(done + 1);
            let wanted = given.skip(done + 1);
            assert forall|k: int| 0 <= k < tail.len() implies #[trigger] tail[k] == wanted[k] by {
                assert(now[done + 1 + k] == rest[done + k]);
                assert(rest[done + k] == start[done + 1 + k]);
                assert(start.skip(done as int)[k + 1] == given.skip(done as int)[k + 1]);
            }
            assert(tail =~= wanted);
        }
        done = done + 1;
    }
    proof {
        assert(models(entries@).take(n as int) =~= models(entries@));
        assert(given.take(n as int) =~= given);
        lemma_by_sequence(given);
    }
}

/// The catalog of a directory listing: the entries of the paths that follow
/// the naming convention, in ascending order of sequence number.
pub fn build_catalog(paths: &Vec<String>) -> (r: Vec<CaptureFileEntry>)
    ensures
        models(r@) == by_sequence(readings(paths@)),
        ascending(models(r@)),
{
    let mut entries = collect_entries(paths);
    sort_by_sequence(&mut entries);
    entries
}

} // verus!
