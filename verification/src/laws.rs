//! What holds of the registry whatever the listings say.

use crate::command::{Command, Outcome, Step};
use crate::listing::RecordView;
use crate::source::{
    distinct_names, flush_all, flush_all_from, fresh, lemma_position_from, merge_record,
    merge_records, mute_command, position, reconcile, refreshed, stale, survivors,
    volume_command, with_name, FlushError, SourceView, STALE_ID,
};
use vstd::prelude::*;

verus! {

/// A record of this name is among `records`.
pub open spec fn named(records: Seq<RecordView>, name: Seq<char>) -> bool {
    exists|j: int| 0 <= j < records.len() && (#[trigger] records[j]).name == name
}

/// An entry of this name is among `entries`.
pub open spec fn holds_name(entries: Seq<SourceView>, name: Seq<char>) -> bool {
    exists|k: int| 0 <= k < entries.len() && (#[trigger] entries[k]).name == name
}

/// Two lists of entries agree on which names they track, in which order,
/// and on which of them are locked.
pub open spec fn same_names(a: Seq<SourceView>, b: Seq<SourceView>) -> bool {
    &&& a.len() == b.len()
    &&& forall|i: int|
        0 <= i < a.len() ==> (#[trigger] a[i]).name == b[i].name && a[i].locked == b[i].locked
}

/// The survivors of a list with one more entry at its end.
pub proof fn lemma_survivors_push(entries: Seq<SourceView>, last: SourceView)
    ensures
        survivors(entries.push(last)) == if last.locked {
            survivors(entries).push(stale(last))
        } else {
            survivors(entries)
        },
{
    reveal(Seq::filter);
    let locked = |e: SourceView| e.locked;
    let all = entries.push(last);
    assert(all.drop_last() =~= entries);
    if last.locked {
        assert(all.filter(locked) == entries.filter(locked).push(last));
        assert(entries.filter(locked).push(last).map_values(|e: SourceView| stale(e))
            =~= survivors(entries).push(stale(last)));
    }
}

/// Every survivor is locked and stale, and is a locked entry of before with
/// nothing but its id changed.
pub proof fn lemma_survivors_were_locked(entries: Seq<SourceView>)
    ensures
        survivors(entries).len() <= entries.len(),
        forall|k: int|
            #![trigger survivors(entries)[k]]
            0 <= k < survivors(entries).len() ==> survivors(entries)[k].locked && survivors(
                entries,
            )[k].id == STALE_ID && exists|m: int|
                #![trigger entries[m]]
                0 <= m < entries.len() && entries[m].locked && survivors(entries)[k] == stale(
                    entries[m],
                ),
    decreases entries.len(),
{
    let kept = survivors(entries);
    if entries.len() == 0 {
        reveal(Seq::filter);
        assert(kept =~= Seq::<SourceView>::empty());
    } else {
        let before = entries.drop_last();
        let last = entries.last();
        let kept_before = survivors(before);
        assert(before.push(last) =~= entries);
        lemma_survivors_push(before, last);
        lemma_survivors_were_locked(before);
        assert forall|k: int| #![trigger kept[k]] 0 <= k < kept.len() implies kept[k].locked
            && kept[k].id == STALE_ID && exists|m: int|
            #![trigger entries[m]]
            0 <= m < entries.len() && entries[m].locked && kept[k] == stale(entries[m]) by {
            if k < kept_before.len() {
                assert(kept[k] == kept_before[k]);
                let m = choose|m: int|
                    #![trigger before[m]]
                    0 <= m < before.len() && before[m].locked && kept_before[k] == stale(
                        before[m],
                    );
                assert(0 <= m < before.len() && before[m].locked && kept_before[k] == stale(
                    before[m],
                ));
                assert(entries[m] == before[m]);
            } else {
                let m = entries.len() - 1;
                assert(entries[m] == last);
                assert(last.locked);
                assert(kept[k] == stale(last));
            }
        }
    }
}

/// Every locked entry is among the survivors, turned stale.
pub proof fn lemma_locked_are_survivors(entries: Seq<SourceView>, index: int)
    requires
        0 <= index < entries.len(),
        entries[index].locked,
    ensures
        exists|k: int|
            0 <= k < survivors(entries).len() && #[trigger] survivors(entries)[k] == stale(
                entries[index],
            ),
    decreases entries.len(),
{
    let kept = survivors(entries);
    let before = entries.drop_last();
    let last = entries.last();
    let kept_before = survivors(before);
    assert(before.push(last) =~= entries);
    lemma_survivors_push(before, last);
    if index < before.len() {
        assert(before[index] == entries[index]);
        lemma_locked_are_survivors(before, index);
        let k = choose|k: int|
            0 <= k < kept_before.len() && #[trigger] kept_before[k] == stale(before[index]);
        assert(kept[k] == kept_before[k]);
    } else {
        assert(kept[kept.len() - 1] == stale(last));
    }
}

/// The survivors' names are as distinct as the entries' were.
pub proof fn lemma_survivors_keep_names_distinct(entries: Seq<SourceView>)
    requires
        distinct_names(entries),
    ensures
        distinct_names(survivors(entries)),
    decreases entries.len(),
{
    let kept = survivors(entries);
    if entries.len() == 0 {
        lemma_survivors_were_locked(entries);
    } else {
        let before = entries.drop_last();
        let last = entries.last();
        let kept_before = survivors(before);
        assert(before.push(last) =~= entries);
        lemma_survivors_push(before, last);
        assert(distinct_names(before)) by {
            assert forall|i: int, j: int| 0 <= i < j < before.len() implies (
            #[trigger] before[i]).name != (#[trigger] before[j]).name by {
                assert(entries[i] == before[i] && entries[j] == before[j]);
            }
        }
        lemma_survivors_keep_names_distinct(before);
        lemma_survivors_were_locked(before);
        assert forall|i: int, j: int| 0 <= i < j < kept.len() implies (#[trigger] kept[i]).name != (
        #[trigger] kept[j]).name by {
            if j < kept_before.len() {
                assert(kept[i] == kept_before[i] && kept[j] == kept_before[j]);
            } else {
                assert(kept[i] == kept_before[i]);
                let m = choose|m: int|
                    0 <= m < before.len() && (#[trigger] before[m]).locked && kept_before[i]
                        == stale(before[m]);
                assert(entries[m] == before[m]);
                assert(entries[entries.len() - 1] == last);
                assert(kept[j] == stale(last));
            }
        }
    }
}

/// What one record does to the entries: it adds at most one, at the end,
/// and changes none but the first of its own name.
pub proof fn lemma_merge_record(entries: Seq<SourceView>, record: RecordView)
    ensures
        entries.len() <= merge_record(entries, record).len() <= entries.len() + 1,
        holds_name(merge_record(entries, record), record.name),
        forall|i: int|
            0 <= i < entries.len() ==> {
                let merged = #[trigger] merge_record(entries, record)[i];
                &&& merged.name == entries[i].name
                &&& merged.locked == entries[i].locked
                &&& merged == entries[i] || (merged == refreshed(entries[i], record)
                    && entries[i].name == record.name)
                &&& entries[i].name != record.name ==> merged == entries[i]
            },
        merge_record(entries, record).len() == entries.len() + 1 ==> {
            &&& merge_record(entries, record).last() == fresh(record)
            &&& !holds_name(entries, record.name)
        },
        distinct_names(entries) ==> distinct_names(merge_record(entries, record)),
{
    lemma_position_from(entries, with_name(record.name), 0);
    let merged = merge_record(entries, record);
    match position(entries, with_name(record.name)) {
        Some(p) => {
            assert(merged[p].name == record.name);
        },
        None => {
            assert(merged[entries.len() as int].name == record.name);
            assert forall|k: int| 0 <= k < entries.len() implies (#[trigger] entries[k]).name
                != record.name by {
                assert(!with_name(record.name)(entries[k]));
            }
        },
    }
    if distinct_names(entries) {
        assert forall|i: int, j: int| 0 <= i < j < merged.len() implies (#[trigger] merged[i]).name
            != (#[trigger] merged[j]).name by {
            if j < entries.len() {
                assert(merged[i].name == entries[i].name);
                assert(merged[j].name == entries[j].name);
            } else {
                assert(merged[i].name == entries[i].name);
                assert(!with_name(record.name)(entries[i]));
            }
        }
    }
}

/// What a run of records does to the entries: those that were there keep
/// their place, their name and their lock, and change only if a record
/// names them; what is added is unlocked and named by a record.
pub proof fn lemma_merge_records(entries: Seq<SourceView>, records: Seq<RecordView>)
    ensures
        entries.len() <= merge_records(entries, records).len(),
        forall|i: int|
            0 <= i < entries.len() ==> {
                let merged = #[trigger] merge_records(entries, records)[i];
                &&& merged.name == entries[i].name
                &&& merged.locked == entries[i].locked
                &&& !named(records, entries[i].name) ==> merged == entries[i]
            },
        forall|k: int|
            entries.len() <= k < merge_records(entries, records).len() ==> {
                let added = #[trigger] merge_records(entries, records)[k];
                !added.locked && named(records, added.name)
            },
        forall|j: int|
            0 <= j < records.len() ==> holds_name(
                merge_records(entries, records),
                (#[trigger] records[j]).name,
            ),
        distinct_names(entries) ==> distinct_names(merge_records(entries, records)),
    decreases records.len(),
{
    if records.len() > 0 {
        let before = records.drop_last();
        let last = records.last();
        let partial = merge_records(entries, before);
        let merged = merge_records(entries, records);
        lemma_merge_records(entries, before);
        lemma_merge_record(partial, last);
        assert(records[records.len() - 1] == last);
        assert forall|i: int| 0 <= i < entries.len() implies {
            let m = #[trigger] merged[i];
            &&& m.name == entries[i].name
            &&& m.locked == entries[i].locked
            &&& !named(records, entries[i].name) ==> m == entries[i]
        } by {
            assert(partial[i].name == entries[i].name);
            if !named(records, entries[i].name) {
                assert(!named(before, entries[i].name)) by {
                    if named(before, entries[i].name) {
                        let j = choose|j: int|
                            0 <= j < before.len() && (#[trigger] before[j]).name
                                == entries[i].name;
                        assert(records[j] == before[j]);
                    }
                }
            }
        }
        assert forall|k: int| entries.len() <= k < merged.len() implies {
            let added = #[trigger] merged[k];
            !added.locked && named(records, added.name)
        } by {
            if k < partial.len() {
                assert(!partial[k].locked && named(before, partial[k].name));
                let j = choose|j: int|
                    0 <= j < before.len() && (#[trigger] before[j]).name == partial[k].name;
                assert(records[j] == before[j]);
                assert(merged[k].name == partial[k].name);
            } else {
                assert(merged[k] == fresh(last));
            }
        }
        assert forall|j: int| 0 <= j < records.len() implies holds_name(
            merged,
            (#[trigger] records[j]).name,
        ) by {
            if j < before.len() {
                assert(records[j] == before[j]);
                assert(holds_name(partial, before[j].name));
                let k = choose|k: int|
                    0 <= k < partial.len() && (#[trigger] partial[k]).name == before[j].name;
                assert(merged[k].name == partial[k].name);
            }
        }
    }
}

/// Two lists of records report the same streams in the same state: the
/// same names with the same volume and mute state, in the same order. The
/// ids may differ.
pub open spec fn same_streams(a: Seq<RecordView>, b: Seq<RecordView>) -> bool {
    &&& a.len() == b.len()
    &&& forall|j: int|
        0 <= j < a.len() ==> (#[trigger] a[j]).name == b[j].name && a[j].volume == b[j].volume
            && a[j].mute == b[j].mute
}

/// Two entries are the same but for their ids.
pub open spec fn alike(a: SourceView, b: SourceView) -> bool {
    a == (SourceView { id: a.id, ..b })
}

/// Two lists of entries are the same but for the ids.
pub open spec fn same_state(a: Seq<SourceView>, b: Seq<SourceView>) -> bool {
    &&& a.len() == b.len()
    &&& forall|i: int| 0 <= i < a.len() ==> alike(#[trigger] a[i], b[i])
}

/// Lists that agree on names look the same names up at the same place.
pub proof fn lemma_same_names_same_position(
    a: Seq<SourceView>,
    b: Seq<SourceView>,
    name: Seq<char>,
)
    requires
        same_names(a, b),
    ensures
        position(a, with_name(name)) == position(b, with_name(name)),
{
    let wanted = with_name(name);
    lemma_position_from(a, wanted, 0);
    lemma_position_from(b, wanted, 0);
    assert forall|i: int| 0 <= i < a.len() implies wanted(#[trigger] a[i]) == wanted(b[i]) by {}
    match (position(a, wanted), position(b, wanted)) {
        (Some(p), Some(q)) => {
            assert(wanted(a[q]) == wanted(b[q]));
            assert(wanted(a[p]) == wanted(b[p]));
        },
        (Some(p), None) => {
            assert(wanted(a[p]) == wanted(b[p]));
        },
        (None, Some(q)) => {
            assert(wanted(a[q]) == wanted(b[q]));
        },
        (None, None) => {},
    }
}

/// Two runs of records that report the same streams, over lists that agree
/// on names and locks, end in lists that agree on them too. An entry that a
/// record touched is the same in both but for its id, and the same
/// altogether if the records are the same; an entry that none touched is as
/// it was in either list.
pub proof fn lemma_merge_records_agree(
    a: Seq<SourceView>,
    b: Seq<SourceView>,
    first: Seq<RecordView>,
    second: Seq<RecordView>,
)
    requires
        same_names(a, b),
        same_streams(first, second),
    ensures
        same_names(merge_records(a, first), merge_records(b, second)),
        forall|i: int|
            0 <= i < merge_records(a, first).len() ==> {
                let x = #[trigger] merge_records(a, first)[i];
                let y = merge_records(b, second)[i];
                ||| (alike(x, y) && (first == second ==> x == y))
                ||| (i < a.len() && x == a[i] && y == b[i])
            },
    decreases first.len(),
{
    if first.len() > 0 {
        let pa = merge_records(a, first.drop_last());
        let pb = merge_records(b, second.drop_last());
        let ma = merge_records(a, first);
        let mb = merge_records(b, second);
        assert(same_streams(first.drop_last(), second.drop_last())) by {
            assert forall|j: int| 0 <= j < first.len() - 1 implies (
            #[trigger] first.drop_last()[j]).name == second.drop_last()[j].name
                && first.drop_last()[j].volume == second.drop_last()[j].volume
                && first.drop_last()[j].mute == second.drop_last()[j].mute by {
                assert(first[j].name == second[j].name);
            }
        }
        assert(first[first.len() - 1].name == second[first.len() - 1].name);
        lemma_merge_records_agree(a, b, first.drop_last(), second.drop_last());
        lemma_merge_records(a, first.drop_last());
        lemma_merge_records(b, second.drop_last());
        lemma_same_names_same_position(pa, pb, first.last().name);
        lemma_position_from(pa, with_name(first.last().name), 0);
        assert(same_names(ma, mb));
        assert forall|i: int| 0 <= i < ma.len() implies {
            let x = #[trigger] ma[i];
            let y = mb[i];
            ||| (alike(x, y) && (first == second ==> x == y))
            ||| (i < a.len() && x == a[i] && y == b[i])
        } by {
            if i < pa.len() && position(pa, with_name(first.last().name)) != Some(i) {
                assert(ma[i] == pa[i] && mb[i] == pb[i]);
            }
        }
    }
}

/// The survivors of a list whose locked entries all stand before its
/// unlocked ones.
pub proof fn lemma_survivors_of_sorted(entries: Seq<SourceView>, locked: int)
    requires
        0 <= locked <= entries.len(),
        forall|i: int| 0 <= i < locked ==> (#[trigger] entries[i]).locked,
        forall|i: int| locked <= i < entries.len() ==> !(#[trigger] entries[i]).locked,
    ensures
        survivors(entries) == entries.take(locked).map_values(|e: SourceView| stale(e)),
    decreases entries.len(),
{
    if entries.len() == 0 {
        reveal(Seq::filter);
        assert(survivors(entries) =~= entries.take(locked).map_values(|e: SourceView| stale(e)));
    } else {
        let before = entries.drop_last();
        let last = entries.last();
        assert(before.push(last) =~= entries);
        lemma_survivors_push(before, last);
        if locked == entries.len() {
            lemma_survivors_of_sorted(before, locked - 1);
            assert(entries.take(locked) =~= entries);
            assert(before.take(locked - 1) =~= before);
            assert(survivors(before).push(stale(last)) =~= entries.map_values(
                |e: SourceView| stale(e),
            ));
        } else {
            lemma_survivors_of_sorted(before, locked);
            assert(before.take(locked) =~= entries.take(locked));
        }
    }
}

/// What a second refresh starts from: the survivors of the first, which
/// stand where the survivors stood before it, under the same names.
proof fn lemma_survivors_after_refresh(entries: Seq<SourceView>, records: Seq<RecordView>)
    ensures
        same_names(survivors(entries), survivors(reconcile(entries, records))),
        forall|i: int|
            0 <= i < survivors(entries).len() ==> #[trigger] survivors(
                reconcile(entries, records),
            )[i] == stale(reconcile(entries, records)[i]),
{
    let kept = survivors(entries);
    let once = merge_records(kept, records);
    lemma_survivors_were_locked(entries);
    lemma_merge_records(kept, records);
    lemma_survivors_of_sorted(once, kept.len() as int);
}

/// A second refresh against a listing of the same streams in the same
/// state leaves the registry as the first one left it, entry for entry, but
/// for the ids: they follow the second listing.
pub proof fn law_refresh_is_stable(
    entries: Seq<SourceView>,
    first: Seq<RecordView>,
    second: Seq<RecordView>,
)
    requires
        same_streams(first, second),
    ensures
        same_state(reconcile(reconcile(entries, first), second), reconcile(entries, first)),
        first == second ==> reconcile(reconcile(entries, first), second) == reconcile(
            entries,
            first,
        ),
{
    let kept = survivors(entries);
    let once = merge_records(kept, first);
    let kept_again = survivors(once);
    let twice = merge_records(kept_again, second);
    lemma_survivors_were_locked(entries);
    lemma_merge_records(kept, first);
    lemma_survivors_after_refresh(entries, first);
    lemma_merge_records_agree(kept, kept_again, first, second);
    assert forall|i: int| 0 <= i < twice.len() implies alike(#[trigger] twice[i], once[i]) && (first
        == second ==> twice[i] == once[i]) by {
        if i < kept.len() && once[i] == kept[i] && twice[i] == kept_again[i] {
            assert(kept_again[i] == stale(once[i]));
            assert(kept[i].id == STALE_ID);
        }
    }
    if first == second {
        assert(twice =~= once);
    }
}

/// A second refresh against the same listing changes nothing at all.
pub proof fn law_refresh_is_idempotent(entries: Seq<SourceView>, records: Seq<RecordView>)
    ensures
        reconcile(reconcile(entries, records), records) == reconcile(entries, records),
{
    law_refresh_is_stable(entries, records, records);
}

/// An unlocked entry that the next listing does not name is gone after the
/// refresh: no entry has its name.
pub proof fn law_unlocked_is_evicted(
    entries: Seq<SourceView>,
    records: Seq<RecordView>,
    index: int,
)
    requires
        distinct_names(entries),
        0 <= index < entries.len(),
        !entries[index].locked,
        !named(records, entries[index].name),
    ensures
        !holds_name(reconcile(entries, records), entries[index].name),
{
    let kept = survivors(entries);
    let after = reconcile(entries, records);
    lemma_survivors_were_locked(entries);
    lemma_merge_records(kept, records);
    assert forall|k: int| 0 <= k < after.len() implies (#[trigger] after[k]).name
        != entries[index].name by {
        if k < kept.len() {
            assert(after[k].name == kept[k].name);
            let m = choose|m: int|
                0 <= m < entries.len() && (#[trigger] entries[m]).locked && kept[k] == stale(
                    entries[m],
                );
            assert(m != index);
            if m < index {
                assert(entries[m].name != entries[index].name);
            } else {
                assert(entries[index].name != entries[m].name);
            }
        } else {
            assert(named(records, after[k].name));
        }
    }
}

/// A locked entry is still there after a refresh, whatever the listing
/// holds: an entry has its name and is locked, and where the listing does
/// not name it, that entry is the old one with a stale id.
pub proof fn law_locked_survives(entries: Seq<SourceView>, records: Seq<RecordView>, index: int)
    requires
        0 <= index < entries.len(),
        entries[index].locked,
    ensures
        exists|k: int|
            0 <= k < reconcile(entries, records).len() && {
                let after = #[trigger] reconcile(entries, records)[k];
                &&& after.name == entries[index].name
                &&& after.locked
                &&& !named(records, entries[index].name) ==> after == stale(entries[index])
            },
{
    let kept = survivors(entries);
    lemma_locked_are_survivors(entries, index);
    lemma_merge_records(kept, records);
    let k = choose|k: int| 0 <= k < kept.len() && #[trigger] kept[k] == stale(entries[index]);
    let after = reconcile(entries, records)[k];
    assert(after.name == kept[k].name);
}

/// An edit that keeps an entry's name keeps the names distinct.
pub proof fn lemma_edit_keeps_names_distinct(
    entries: Seq<SourceView>,
    index: int,
    edited: SourceView,
)
    requires
        distinct_names(entries),
        0 <= index < entries.len(),
        edited.name == entries[index].name,
    ensures
        distinct_names(entries.update(index, edited)),
{
    let after = entries.update(index, edited);
    assert forall|i: int, j: int| 0 <= i < j < after.len() implies (#[trigger] after[i]).name != (
    #[trigger] after[j]).name by {
        assert(after[i].name == entries[i].name);
        assert(after[j].name == entries[j].name);
    }
}

/// Whatever an entry is replaced by, the names stay distinct if the name
/// stays.
pub proof fn lemma_edits_keep_names_distinct(entries: Seq<SourceView>)
    ensures
        forall|index: int, edited: SourceView|
            distinct_names(entries) && 0 <= index < entries.len() && edited.name
                == entries[index].name ==> distinct_names(#[trigger] entries.update(index, edited)),
{
    assert forall|index: int, edited: SourceView|
        distinct_names(entries) && 0 <= index < entries.len() && edited.name
            == entries[index].name implies distinct_names(
        #[trigger] entries.update(index, edited),
    ) by {
        lemma_edit_keeps_names_distinct(entries, index, edited);
    }
}

/// A refresh leaves every name tracked once, if it was so before, and
/// tracks every name that the listing holds.
pub proof fn law_refresh_keeps_names_distinct(entries: Seq<SourceView>, records: Seq<RecordView>)
    ensures
        distinct_names(entries) ==> distinct_names(reconcile(entries, records)),
        forall|j: int|
            0 <= j < records.len() ==> holds_name(
                reconcile(entries, records),
                (#[trigger] records[j]).name,
            ),
{
    if distinct_names(entries) {
        lemma_survivors_keep_names_distinct(entries);
    }
    lemma_merge_records(survivors(entries), records);
}

/// The command that stands at `place` in a push of all entries: two for
/// each entry, the volume before the mute state.
pub open spec fn command_at(entries: Seq<SourceView>, place: int) -> Command {
    if place % 2 == 0 {
        volume_command(entries[place / 2])
    } else {
        mute_command(entries[place / 2])
    }
}

/// None of the outcomes from `from` up to `to` is a failure.
pub open spec fn all_succeeded(outcomes: Seq<Outcome>, from: int, to: int) -> bool {
    forall|j: int| from <= j < to && j < outcomes.len() ==> (#[trigger] outcomes[j]).failure() is None
}

/// From the entry at `index` on, with the entries before it done: while
/// nothing has failed and commands are left, the next one is asked for.
proof fn lemma_flush_runs_in_order(entries: Seq<SourceView>, outcomes: Seq<Outcome>, index: int)
    requires
        0 <= index,
        2 * index <= outcomes.len() < 2 * entries.len(),
        all_succeeded(outcomes, 2 * index, outcomes.len() as int),
    ensures
        flush_all_from(entries, outcomes, index) == Step::<FlushError>::Run(
            command_at(entries, outcomes.len() as int),
        ),
    decreases entries.len() - index,
{
    let rest = outcomes.skip(2 * index);
    if rest.len() >= 1 {
        assert(rest[0] == outcomes[2 * index]);
    }
    if rest.len() >= 2 {
        assert(rest[1] == outcomes[2 * index + 1]);
        lemma_flush_runs_in_order(entries, outcomes, index + 1);
    }
}

/// From the entry at `index` on, with the entries before it done: when the
/// commands that are left have all run without a failure, the push is done.
proof fn lemma_flush_ends(entries: Seq<SourceView>, outcomes: Seq<Outcome>, index: int)
    requires
        0 <= index <= entries.len(),
        2 * entries.len() <= outcomes.len(),
        all_succeeded(outcomes, 2 * index, 2 * entries.len() as int),
    ensures
        flush_all_from(entries, outcomes, index) == Step::<FlushError>::Done(Ok(())),
    decreases entries.len() - index,
{
    if index < entries.len() {
        let rest = outcomes.skip(2 * index);
        assert(rest[0] == outcomes[2 * index]);
        assert(rest[1] == outcomes[2 * index + 1]);
        lemma_flush_ends(entries, outcomes, index + 1);
    }
}

/// From the entry at `index` on, with the entries before it done: the
/// first failure among the commands that are left ends the push.
proof fn lemma_flush_stops(
    entries: Seq<SourceView>,
    outcomes: Seq<Outcome>,
    index: int,
    place: int,
)
    requires
        0 <= index,
        2 * index <= place < outcomes.len(),
        place < 2 * entries.len(),
        all_succeeded(outcomes, 2 * index, place),
        outcomes[place].failure() is Some,
    ensures
        flush_all_from(entries, outcomes, index) == Step::<FlushError>::Done(
            Err(FlushError { entry: (place / 2) as usize, error: outcomes[place].failure()->0 }),
        ),
    decreases entries.len() - index,
{
    let rest = outcomes.skip(2 * index);
    assert(rest[0] == outcomes[2 * index]);
    if place >= 2 * index + 1 {
        assert(rest[1] == outcomes[2 * index + 1]);
    }
    if place >= 2 * index + 2 {
        lemma_flush_stops(entries, outcomes, index + 1, place);
    }
}

/// While no command has failed and some are left, a push of all entries
/// asks for the next one in order: entry after entry as stored, and for
/// each entry the volume before the mute state.
pub proof fn law_flush_runs_in_order(entries: Seq<SourceView>, outcomes: Seq<Outcome>)
    requires
        outcomes.len() < 2 * entries.len(),
        all_succeeded(outcomes, 0, outcomes.len() as int),
    ensures
        flush_all(entries, outcomes) == Step::<FlushError>::Run(
            command_at(entries, outcomes.len() as int),
        ),
{
    lemma_flush_runs_in_order(entries, outcomes, 0);
}

/// Once every command has run without a failure, the push is done.
pub proof fn law_flush_ends(entries: Seq<SourceView>, outcomes: Seq<Outcome>)
    requires
        2 * entries.len() <= outcomes.len(),
        all_succeeded(outcomes, 0, 2 * entries.len() as int),
    ensures
        flush_all(entries, outcomes) == Step::<FlushError>::Done(Ok(())),
{
    lemma_flush_ends(entries, outcomes, 0);
}

/// The first command that fails ends the push: no further command is asked
/// for, whatever outcomes follow, and the error names the entry that the
/// command was for.
pub proof fn law_flush_stops_at_first_failure(
    entries: Seq<SourceView>,
    outcomes: Seq<Outcome>,
    place: int,
)
    requires
        0 <= place < outcomes.len(),
        place < 2 * entries.len(),
        all_succeeded(outcomes, 0, place),
        outcomes[place].failure() is Some,
    ensures
        flush_all(entries, outcomes) == Step::<FlushError>::Done(
            Err(FlushError { entry: (place / 2) as usize, error: outcomes[place].failure()->0 }),
        ),
{
    lemma_flush_stops(entries, outcomes, 0, place);
}

} // verus!
