//! What to write to turn one state of the table into another.
use vstd::prelude::*;

use crate::manifest;
use crate::manifest::{Manifest, RowView, SlotRow};
use crate::manifest_laws;
use crate::types::{CacheKey, KeyView};

verus! {

/// One change of the table.
pub enum Change {
    /// Delete the row of a key.
    Delete { key: CacheKey },
    /// Write a row: over the row that its key has, or else as the last one.
    Put { row: SlotRow },
}

/// What a [`Change`] says.
#[verifier::ext_equal]
pub enum ChangeView {
    Delete { key: KeyView },
    Put { row: RowView },
}

impl View for Change {
    type V = ChangeView;

    open spec fn view(&self) -> ChangeView {
        match self {
            Change::Delete { key } => ChangeView::Delete { key: key@ },
            Change::Put { row } => ChangeView::Put { row: row@ },
        }
    }
}

/// The table after a change.
pub open spec fn changed(rows: Seq<RowView>, change: ChangeView) -> Seq<RowView> {
    match change {
        ChangeView::Delete { key } => manifest::without(rows, key),
        ChangeView::Put { row } => if manifest::has_key(rows, row.key) {
            rows.update(manifest::position_of(rows, row.key), row)
        } else {
            rows.push(row)
        },
    }
}

/// The table after changes, one at a time.
pub open spec fn changed_by_all(rows: Seq<RowView>, changes: Seq<ChangeView>) -> Seq<RowView>
    decreases changes.len(),
{
    if changes.len() == 0 {
        rows
    } else {
        changed(changed_by_all(rows, changes.drop_last()), changes.last())
    }
}

/// What a run of changes says.
pub open spec fn changes_view(changes: Seq<Change>) -> Seq<ChangeView> {
    changes.map_values(|change: Change| change@)
}

/// One change more is made after the others.
proof fn lemma_one_more(rows: Seq<RowView>, changes: Seq<Change>, change: Change)
    ensures
        changed_by_all(rows, changes_view(changes.push(change))) == changed(
            changed_by_all(rows, changes_view(changes)),
            change@,
        ),
{
    let all = changes_view(changes.push(change));
    assert(all.drop_last() =~= changes_view(changes));
    assert(all.last() == change@);
}

/// The changes that turn the table `before` into the table `after`, with its rows in the same
/// order. A row that stands in both as it is takes no change, unless rows before it moved
/// behind it.
pub fn changes(before: &Manifest, after: &Manifest) -> (changes: Vec<Change>)
    requires
        before.valid(),
        after.valid(),
    ensures
        changed_by_all(before@, changes_view(changes@)) == after@,
{
    let ghost old_rows = before@;
    let ghost new_rows = after@;
    let mut changes: Vec<Change> = Vec::new();
    let mut i: usize = 0;
    let mut n: usize = 0;
    assert(new_rows.take(0) + old_rows.skip(0) =~= old_rows);
    assert(changes_view(changes@) =~= Seq::<ChangeView>::empty());
    while i < before.len()
        invariant
            i <= old_rows.len(),
            n <= new_rows.len(),
            old_rows == before@,
            new_rows == after@,
            manifest::distinct_keys(old_rows),
            manifest::distinct_keys(new_rows),
            manifest::distinct_keys(new_rows.take(n as int) + old_rows.skip(i as int)),
            changed_by_all(old_rows, changes_view(changes@)) == new_rows.take(n as int)
                + old_rows.skip(i as int),
        decreases old_rows.len() - i,
    {
        let ghost state = new_rows.take(n as int) + old_rows.skip(i as int);
        let ghost so_far = changes@;
        let old_row = before.row(i);
        proof {
            assert(state[n as int] == old_rows[i as int]);
            manifest_laws::lemma_position(state, n as int);
        }
        if n < after.len() && after.row(n).key.same_as(&old_row.key) {
            let new_row = after.row(n);
            let ghost next = new_rows.take(n + 1) + old_rows.skip(i + 1);
            assert(state.update(n as int, new_row@) =~= next);
            assert forall|a: int, b: int| 0 <= a < b < next.len() implies (
            #[trigger] next[a]).key != (#[trigger] next[b]).key by {
                assert(next[a].key == state[a].key && next[b].key == state[b].key);
            }
            if !new_row.same_as(old_row) {
                changes.push(Change::Put { row: new_row.clone() });
                proof {
                    lemma_one_more(old_rows, so_far, changes@.last());
                    assert(changes@ =~= so_far.push(changes@.last()));
                }
            } else {
                assert(next =~= state);
            }
            n = n + 1;
        } else {
            changes.push(Change::Delete { key: old_row.key.clone() });
            proof {
                lemma_one_more(old_rows, so_far, changes@.last());
                assert(changes@ =~= so_far.push(changes@.last()));
                assert(state.remove(n as int) =~= new_rows.take(n as int) + old_rows.skip(i + 1));
            }
        }
        i = i + 1;
    }
    assert(new_rows.take(n as int) + old_rows.skip(i as int) =~= new_rows.take(n as int));
    while n < after.len()
        invariant
            n <= new_rows.len(),
            old_rows == before@,
            new_rows == after@,
            manifest::distinct_keys(new_rows),
            changed_by_all(old_rows, changes_view(changes@)) == new_rows.take(n as int),
        decreases new_rows.len() - n,
    {
        let ghost so_far = changes@;
        let new_row = after.row(n);
        changes.push(Change::Put { row: new_row.clone() });
        proof {
            let state = new_rows.take(n as int);
            lemma_one_more(old_rows, so_far, changes@.last());
            assert(changes@ =~= so_far.push(changes@.last()));
            assert(!manifest::has_key(state, new_row@.key)) by {
                if manifest::has_key(state, new_row@.key) {
                    let p = manifest::position_of(state, new_row@.key);
                    assert(state[p] == new_rows[p]);
                }
            }
            assert(state.push(new_row@) =~= new_rows.take(n + 1));
        }
        n = n + 1;
    }
    assert(new_rows.take(n as int) =~= new_rows);
    changes
}

} // verus!
