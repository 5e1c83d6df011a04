//! The reports of the command line: what is stored, how much of it, and what a prune does.
use vstd::prelude::*;

use crate::budget;
use crate::clock;
use crate::manifest;
use crate::manifest::{ListedView, Manifest, ManifestRow, RowView};
use crate::sweep;
use crate::sweep::FileSweep;
use crate::text;
use crate::types::{ErrorView, KvCacheError};

verus! {

/// The line of a listing that shows `row`.
pub open spec fn line(row: ListedView) -> Seq<char> {
    text::column(row.key.model_id, 15) + " "@ + text::column(row.key.backend_id, 16) + " "@
        + text::column(text::decimal(row.size_bytes as nat), 9) + " "@ + text::column(
        text::decimal(row.hit_count as nat),
        5,
    ) + " "@ + text::decimal(row.last_used_at_secs as nat) + "\n"@
}

/// The lines of a listing, one for each row.
pub open spec fn lines(rows: Seq<ListedView>) -> Seq<char>
    decreases rows.len(),
{
    if rows.len() == 0 {
        seq![]
    } else {
        lines(rows.drop_last()) + line(rows.last())
    }
}

/// The listing of `rows`.
pub open spec fn list_text(rows: Seq<ListedView>) -> Seq<char> {
    if rows.len() == 0 {
        "no cached slots"@
    } else {
        "MODEL           BACKEND          BYTES     HITS  LAST_USED_SECS\n"@ + lines(rows)
    }
}

/// The summary of a table: bytes in use against a budget, rows and hits.
pub open spec fn stats_text(total: nat, max_bytes: nat, slots: nat, hits: nat) -> Seq<char> {
    text::decimal(total) + " / "@ + text::decimal(max_bytes) + " bytes used, "@ + text::decimal(
        slots,
    ) + " slots, "@ + text::decimal(hits) + " total hits"@
}

/// What a prune would do.
pub open spec fn dry_run_text(slots: nat, bytes: nat) -> Seq<char> {
    "dry run: would evict "@ + text::decimal(slots) + " slots, freeing "@ + text::decimal(bytes)
        + " bytes"@
}

/// How many rows were evicted, and how many bytes that freed.
pub open spec fn evicted_text(evicted: nat, freed: nat) -> Seq<char> {
    "evicted "@ + text::decimal(evicted) + " slots, freed "@ + text::decimal(freed) + " bytes"@
}

/// What a prune did.
pub open spec fn pruned_text(evicted: nat, freed: nat, skipped: nat) -> Seq<char> {
    if skipped > 0 {
        evicted_text(evicted, freed) + " ("@ + text::decimal(skipped)
            + " had an unsafe handle and were not deleted from disk)"@
    } else {
        evicted_text(evicted, freed)
    }
}

/// Writes out one line of a listing.
fn row_line(row: &ManifestRow) -> (shown: String)
    ensures
        shown@ == line(row@),
{
    let mut out = String::new();
    text::push_column(&mut out, row.key.model_id.as_str(), 15);
    assert(out@ =~= text::column(row@.key.model_id, 15));
    out.append(" ");
    text::push_column(&mut out, row.key.backend_id.as_str(), 16);
    out.append(" ");
    text::push_number_column(&mut out, row.size_bytes, 9);
    out.append(" ");
    text::push_number_column(&mut out, row.hit_count, 5);
    out.append(" ");
    text::push_decimal(&mut out, row.last_used_at_secs as u128);
    out.append("\n");
    out
}

/// Lists every slot, most recently used first.
pub fn list_slots(index: &Manifest) -> (listing: String)
    ensures
        listing@ == list_text(manifest::listing(manifest::by_use(index@)).reverse()),
{
    let rows = index.list_all();
    let ghost shown = manifest::views(rows@);
    assert(shown.len() == rows.len());
    if rows.is_empty() {
        return "no cached slots".to_owned();
    }
    let mut out = "MODEL           BACKEND          BYTES     HITS  LAST_USED_SECS\n".to_owned();
    let ghost header = out@;
    let mut i: usize = 0;
    while i < rows.len()
        invariant
            i <= rows.len(),
            shown == manifest::views(rows@),
            shown.len() == rows.len(),
            out@ == header + lines(shown.take(i as int)),
        decreases rows.len() - i,
    {
        let row = &rows[i];
        out.append(row_line(row).as_str());
        proof {
            assert(shown[i as int] == row@);
            assert(shown.take(i + 1).drop_last() =~= shown.take(i as int));
            assert(shown.take(i + 1).last() == shown[i as int]);
            assert(out@ =~= header + lines(shown.take(i + 1)));
        }
        i = i + 1;
    }
    assert(shown.take(i as int) =~= shown);
    out
}

/// Sums up a table against a budget of `max_bytes`. Fails where the table cannot add up its
/// sizes.
pub fn stats(index: &Manifest, max_bytes: u64) -> (summary: Result<String, KvCacheError>)
    requires
        budget::sum(manifest::hit_counts(index@)) <= u64::MAX,
    ensures
        match summary {
            Ok(summary) => {
                &&& manifest::stored_sum_fits(index@)
                &&& summary@ == stats_text(
                    clock::unsigned(manifest::stored_sum(index@) as i64) as nat,
                    max_bytes as nat,
                    index@.len(),
                    budget::sum(manifest::hit_counts(index@)),
                )
            },
            Err(e) => {
                &&& !manifest::stored_sum_fits(index@)
                &&& e@ == (ErrorView::Backend { words: "integer overflow"@ })
            },
        },
{
    let total = match index.total_bytes() {
        Ok(total) => total,
        Err(e) => return Err(e),
    };
    let total_hits: u64 = match index.checked_hits() {
        Some(hits) => hits,
        // Ruled out: all hits together fit 64 bits.
        None => 0,
    };
    let mut out = String::new();
    text::push_decimal(&mut out, total as u128);
    out.append(" / ");
    text::push_decimal(&mut out, max_bytes as u128);
    out.append(" bytes used, ");
    text::push_decimal(&mut out, index.len() as u128);
    out.append(" slots, ");
    text::push_decimal(&mut out, total_hits as u128);
    out.append(" total hits");
    Ok(out)
}

/// What to do about a prune.
pub enum PruneStep {
    /// Nothing: this is the report.
    Report(String),
    /// Delete the files of the rows that were removed, then report.
    Sweep(FileSweep),
}

/// Removes the least recently used rows until the total is at or under `target_bytes`; for a
/// dry run, only says how many these are.
pub fn prune(index: &mut Manifest, target_bytes: u64, dry_run: bool) -> (step: PruneStep)
    requires
        old(index).valid(),
    ensures
        final(index).valid(),
        ({
            let gone = manifest::evicted(old(index)@, target_bytes as nat);
            if dry_run {
                &&& final(index)@ == old(index)@
                &&& step matches PruneStep::Report(report)
                &&& report@ == dry_run_text(gone.len(), budget::sum(manifest::sizes(gone)))
            } else {
                &&& final(index)@ == manifest::trimmed(old(index)@, target_bytes as nat)
                &&& step matches PruneStep::Sweep(sweep)
                &&& sweep.valid()
                &&& sweep.done() == 0
                &&& sweep.rows() == manifest::listing(gone)
            }
        }),
{
    if dry_run {
        let candidates = index.evict_candidates(target_bytes);
        let ghost gone = manifest::evicted(index@, target_bytes as nat);
        proof {
            lemma_listing_sizes(gone);
        }
        let ghost all = manifest::listed_sizes(manifest::views(candidates@));
        proof {
            budget::lemma_sum_bound(all);
        }
        let mut bytes: u128 = 0;
        let mut i: usize = 0;
        assert(all.take(0) =~= Seq::<nat>::empty());
        while i < candidates.len()
            invariant
                i <= candidates.len(),
                all == manifest::listed_sizes(manifest::views(candidates@)),
                all.len() == candidates.len(),
                budget::sum(all) <= u128::MAX,
                bytes == budget::sum(all.take(i as int)),
            decreases candidates.len() - i,
        {
            proof {
                budget::lemma_sum_step(all, i as int);
                budget::lemma_sum_split(all, i + 1);
                assert(manifest::views(candidates@)[i as int] == candidates[i as int]@);
            }
            bytes = bytes + candidates[i].size_bytes as u128;
            i = i + 1;
        }
        assert(all.take(i as int) =~= all);
        let mut out = "dry run: would evict ".to_owned();
        text::push_decimal(&mut out, candidates.len() as u128);
        out.append(" slots, freeing ");
        text::push_decimal(&mut out, bytes);
        out.append(" bytes");
        return PruneStep::Report(out);
    }
    PruneStep::Sweep(FileSweep::new(index.evict_and_remove(target_bytes)))
}

/// Reports how far a sweep got.
pub fn prune_report(swept: &FileSweep) -> (report: String)
    requires
        swept.valid(),
    ensures
        ({
            let past = swept.rows().take(swept.done() as int);
            report@ == pruned_text(
                swept.done(),
                budget::sum(manifest::listed_sizes(past)),
                sweep::unsafe_count(past),
            )
        }),
{
    let skipped = swept.skipped();
    let mut out = "evicted ".to_owned();
    text::push_decimal(&mut out, swept.evicted() as u128);
    out.append(" slots, freed ");
    text::push_decimal(&mut out, swept.freed());
    out.append(" bytes");
    if skipped > 0 {
        out.append(" (");
        text::push_decimal(&mut out, skipped as u128);
        out.append(" had an unsafe handle and were not deleted from disk)");
    }
    out
}

/// Rows read out of the table are as many and as large as the rows in it.
pub proof fn lemma_listing_sizes(rows: Seq<RowView>)
    ensures
        manifest::listing(rows).len() == rows.len(),
        manifest::listed_sizes(manifest::listing(rows)) == manifest::sizes(rows),
{
    assert(manifest::listed_sizes(manifest::listing(rows)) =~= manifest::sizes(rows));
}

/// A dry run announces what the prune then does: the report of a sweep over all rows that
/// have to go begins with the count and the bytes of the report of the dry run.
pub proof fn law_dry_run_announces_the_prune(
    rows: Seq<RowView>,
    target: nat,
    swept: FileSweep,
    announced: Seq<char>,
    reported: Seq<char>,
)
    requires
        ({
            let gone = manifest::evicted(rows, target);
            announced == dry_run_text(gone.len(), budget::sum(manifest::sizes(gone)))
        }),
        swept.rows() == manifest::listing(manifest::evicted(rows, target)),
        swept.done() == swept.rows().len(),
        ({
            let past = swept.rows().take(swept.done() as int);
            reported == pruned_text(
                swept.done(),
                budget::sum(manifest::listed_sizes(past)),
                sweep::unsafe_count(past),
            )
        }),
    ensures
        exists|count: nat, bytes: nat|
            #![trigger dry_run_text(count, bytes)]
            announced == dry_run_text(count, bytes) && evicted_text(count, bytes).is_prefix_of(
                reported,
            ),
{
    let gone = manifest::evicted(rows, target);
    let past = swept.rows().take(swept.done() as int);
    lemma_listing_sizes(gone);
    assert(past =~= swept.rows());
    let count = gone.len();
    let bytes = budget::sum(manifest::sizes(gone));
    assert(announced == dry_run_text(count, bytes));
    assert(evicted_text(count, bytes).is_prefix_of(reported)) by {
        assert(evicted_text(count, bytes) =~= reported.subrange(
            0,
            evicted_text(count, bytes).len() as int,
        ));
    }
}

} // verus!
