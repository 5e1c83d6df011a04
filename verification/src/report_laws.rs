//! What the reports say to someone who reads them.
use vstd::prelude::*;

use crate::budget;
use crate::cli;
use crate::clock;
use crate::manifest;
use crate::manifest::{ListedView, RowView};
use crate::manifest_laws;
use crate::sweep;
use crate::text;
use crate::text_laws;
use crate::types;
use crate::types::{ErrorView, KeyView};

verus! {

/// As many spaces, or none for a negative number.
pub open spec fn spaces(n: int) -> Seq<char> {
    Seq::new(
        if n < 0 {
            0
        } else {
            n as nat
        },
        |i: int| ' ',
    )
}

/// The line of a row shows model, backend, size, hits and second, in this order, each but the
/// last filled up with spaces, with a space between them and an end of line behind them.
pub proof fn law_line(row: ListedView)
    ensures
        ({
            let (size, hits, second) = (
                text::decimal(row.size_bytes as nat),
                text::decimal(row.hit_count as nat),
                text::decimal(row.last_used_at_secs as nat),
            );
            cli::line(row) == row.key.model_id + spaces(15 - row.key.model_id.len()) + seq![' ']
                + row.key.backend_id + spaces(16 - row.key.backend_id.len()) + seq![' '] + size
                + spaces(9 - size.len()) + seq![' '] + hits + spaces(5 - hits.len()) + seq![' ']
                + second + seq!['\n']
        }),
{
    reveal_strlit(" ");
    reveal_strlit("\n");
    let (size, hits, second) = (
        text::decimal(row.size_bytes as nat),
        text::decimal(row.hit_count as nat),
        text::decimal(row.last_used_at_secs as nat),
    );
    lemma_column(row.key.model_id, 15);
    lemma_column(row.key.backend_id, 16);
    lemma_column(size, 9);
    lemma_column(hits, 5);
    assert(" "@ =~= seq![' ']);
    assert("\n"@ =~= seq!['\n']);
    let (m, b) = (row.key.model_id, row.key.backend_id);
    let (p, q, r, t) = (
        spaces(15 - m.len()),
        spaces(16 - b.len()),
        spaces(9 - size.len()),
        spaces(5 - hits.len()),
    );
    lemma_regroup(m, p, b, q, size, r, hits, t, second);
}

proof fn lemma_column(s: Seq<char>, width: nat)
    ensures
        text::column(s, width) == s + spaces(width - s.len()),
{
    text_laws::law_column(s, width);
    assert(text::column(s, width) =~= s + spaces(width - s.len())) by {
        let column = text::column(s, width);
        assert forall|i: int| 0 <= i < s.len() implies column[i] == s[i] by {
            assert(column.take(s.len() as int)[i] == s[i]);
        }
    }
}

proof fn lemma_regroup(
    m: Seq<char>,
    p: Seq<char>,
    b: Seq<char>,
    q: Seq<char>,
    size: Seq<char>,
    r: Seq<char>,
    hits: Seq<char>,
    t: Seq<char>,
    second: Seq<char>,
)
    ensures
        (m + p) + seq![' '] + (b + q) + seq![' '] + (size + r) + seq![' '] + (hits + t) + seq![' ']
            + second + seq!['\n'] == m + p + seq![' '] + b + q + seq![' '] + size + r + seq![' ']
            + hits + t + seq![' '] + second + seq!['\n'],
{
    let one = m + p + seq![' '];
    assert(one + (b + q) =~= one + b + q);
    let two = one + b + q + seq![' '];
    assert(two + (size + r) =~= two + size + r);
    let three = two + size + r + seq![' '];
    assert(three + (hits + t) =~= three + hits + t);
}

/// A listing of rows is one line for each, in their order.
proof fn lemma_lines(rows: Seq<ListedView>)
    ensures
        cli::lines(rows) == rows.map_values(|row: ListedView| cli::line(row)).flatten(),
    decreases rows.len(),
{
    let shown = rows.map_values(|row: ListedView| cli::line(row));
    shown.lemma_flatten_and_flatten_alt_are_equivalent();
    if rows.len() > 0 {
        let fewer = rows.drop_last();
        lemma_lines(fewer);
        let before = fewer.map_values(|row: ListedView| cli::line(row));
        before.lemma_flatten_and_flatten_alt_are_equivalent();
        assert(shown.drop_last() =~= before);
    }
}

/// The text of a listing is complete: of a table with rows it is the header and then one line
/// for each row of the table, none left out and none twice, with the rows in descending order
/// of use. Only of an empty table it says that there is nothing.
pub proof fn law_listing_shows_every_row(rows: Seq<RowView>)
    requires
        manifest::distinct_keys(rows),
    ensures
        ({
            let said = cli::list_text(manifest::listing(manifest::by_use(rows)).reverse());
            let shown = manifest::by_use(rows).reverse();
            &&& rows.len() == 0 ==> said == "no cached slots"@
            &&& rows.len() > 0 ==> said
                == "MODEL           BACKEND          BYTES     HITS  LAST_USED_SECS\n"@
                + shown.map_values(|row: RowView| cli::line(manifest::listed(row))).flatten()
            &&& shown.len() == rows.len()
            &&& manifest::distinct_keys(shown)
            &&& forall|key: KeyView|
                #[trigger] manifest::row_of(shown, key) == manifest::row_of(rows, key)
            &&& forall|a: int, b: int|
                0 <= a < b < shown.len() ==> (#[trigger] shown[a]).last_used_at_nanos >= (
                #[trigger] shown[b]).last_used_at_nanos
        }),
{
    let sorted = manifest::by_use(rows);
    let shown = sorted.reverse();
    let read = manifest::listing(sorted).reverse();
    manifest_laws::law_listing_is_complete(rows);
    lemma_lines(read);
    assert(read.map_values(|row: ListedView| cli::line(row)) =~= shown.map_values(
        |row: RowView| cli::line(manifest::listed(row)),
    ));
    let n = rows.len();
    assert forall|a: int| 0 <= a < n implies #[trigger] shown[a] == sorted[n - 1 - a] by {}
    assert forall|key: KeyView| #[trigger] manifest::row_of(shown, key) == manifest::row_of(
        rows,
        key,
    ) by {
        assert(manifest::row_of(sorted, key) == manifest::row_of(rows, key));
        if manifest::has_key(sorted, key) {
            let i = manifest::position_of(sorted, key);
            assert(shown[n - 1 - i] == sorted[i]);
            manifest_laws::lemma_position(shown, n - 1 - i);
        }
        if manifest::has_key(shown, key) {
            let i = manifest::position_of(shown, key);
            assert(sorted[n - 1 - i] == shown[i]);
        }
    }
}

/// The summary of a table gives the four numbers in order, and in between the same words for
/// every table.
pub proof fn law_stats_text(total: nat, max_bytes: nat, slots: nat, hits: nat)
    ensures
        ({
            let said = cli::stats_text(total, max_bytes, slots, hits);
            &&& text_laws::numbers_in(said) == seq![
                total as int,
                max_bytes as int,
                slots as int,
                hits as int,
            ]
            &&& text_laws::words_in(said) == " / "@ + " bytes used, "@ + " slots, "@
                + " total hits"@
        }),
{
    reveal_strlit(" / ");
    reveal_strlit(" bytes used, ");
    reveal_strlit(" slots, ");
    reveal_strlit(" total hits");
    let none = Seq::<char>::empty();
    text_laws::lemma_phrase(none, none, total);
    let one = text::decimal(total);
    assert(none + none + one =~= one);
    text_laws::lemma_phrase(one, " / "@, max_bytes);
    let two = one + " / "@ + text::decimal(max_bytes);
    text_laws::lemma_phrase(two, " bytes used, "@, slots);
    let three = two + " bytes used, "@ + text::decimal(slots);
    text_laws::lemma_phrase(three, " slots, "@, hits);
    let four = three + " slots, "@ + text::decimal(hits);
    text_laws::lemma_closing(four, " total hits"@);
    assert(text_laws::numbers_in(none) =~= Seq::<int>::empty());
    assert(text_laws::words_in(none) + none =~= none);
    assert(none + " / "@ =~= " / "@);
    assert(text_laws::numbers_in(four) =~= seq![
        total as int,
        max_bytes as int,
        slots as int,
        hits as int,
    ]);
}

/// A dry run gives the number of slots and of bytes.
pub proof fn law_dry_run_text(slots: nat, bytes: nat)
    ensures
        ({
            let said = cli::dry_run_text(slots, bytes);
            &&& text_laws::numbers_in(said) == seq![slots as int, bytes as int]
            &&& text_laws::words_in(said) == "dry run: would evict "@ + " slots, freeing "@
                + " bytes"@
        }),
{
    reveal_strlit("dry run: would evict ");
    reveal_strlit(" slots, freeing ");
    reveal_strlit(" bytes");
    lemma_two_numbers("dry run: would evict "@, slots, " slots, freeing "@, bytes, " bytes"@);
}

/// The report of a prune gives the number of slots and of bytes and, unless it is zero, the
/// number of files that were left alone.
pub proof fn law_pruned_text(evicted: nat, freed: nat, skipped: nat)
    ensures
        ({
            let said = cli::pruned_text(evicted, freed, skipped);
            let words = "evicted "@ + " slots, freed "@ + " bytes"@;
            if skipped == 0 {
                &&& text_laws::numbers_in(said) == seq![evicted as int, freed as int]
                &&& text_laws::words_in(said) == words
            } else {
                &&& text_laws::numbers_in(said) == seq![
                    evicted as int,
                    freed as int,
                    skipped as int,
                ]
                &&& text_laws::words_in(said) == words + " ("@
                    + " had an unsafe handle and were not deleted from disk)"@
            }
        }),
{
    reveal_strlit("evicted ");
    reveal_strlit(" slots, freed ");
    reveal_strlit(" bytes");
    lemma_two_numbers("evicted "@, evicted, " slots, freed "@, freed, " bytes"@);
    if skipped > 0 {
        let done = cli::evicted_text(evicted, freed);
        reveal_strlit(" (");
        text_laws::lemma_phrase(done, " ("@, skipped);
        let more = done + " ("@ + text::decimal(skipped);
        lemma_skipped_words();
        text_laws::lemma_closing(more, " had an unsafe handle and were not deleted from disk)"@);
        assert(text_laws::numbers_in(done).push(skipped as int) =~= seq![
            evicted as int,
            freed as int,
            skipped as int,
        ]);
    }
}

proof fn lemma_skipped_words()
    ensures
        text_laws::is_wordy(" had an unsafe handle and were not deleted from disk)"@),
{
    reveal_strlit(" had an unsafe handle and were not deleted from disk)");
}

proof fn lemma_two_numbers(
    first: Seq<char>,
    a: nat,
    second: Seq<char>,
    b: nat,
    third: Seq<char>,
)
    requires
        text_laws::is_wordy(first),
        text_laws::is_wordy(second),
        text_laws::is_wordy(third),
        second.len() > 0,
    ensures
        ({
            let said = first + text::decimal(a) + second + text::decimal(b) + third;
            &&& text_laws::numbers_in(said) == seq![a as int, b as int]
            &&& text_laws::words_in(said) == first + second + third
        }),
{
    let none = Seq::<char>::empty();
    text_laws::lemma_phrase(none, first, a);
    assert(none + first =~= first);
    let one = first + text::decimal(a);
    text_laws::lemma_phrase(one, second, b);
    let two = one + second + text::decimal(b);
    text_laws::lemma_closing(two, third);
    assert(text_laws::numbers_in(none) =~= Seq::<int>::empty());
    assert(text_laws::words_in(none) =~= none);
    assert(text_laws::numbers_in(two) =~= seq![a as int, b as int]);
}

/// The message of a refusal gives both sizes; that of a failed backend ends with its words,
/// behind the same beginning every time.
pub proof fn law_messages(size_bytes: nat, max_bytes: nat, words: Seq<char>)
    ensures
        ({
            let refused = (ErrorView::SlotExceedsBudget { size_bytes, max_bytes }).message();
            let failed = (ErrorView::Backend { words }).message();
            &&& text_laws::numbers_in(refused) == seq![size_bytes as int, max_bytes as int]
            &&& text_laws::words_in(refused) == "kvcache slot of "@
                + " bytes exceeds the configured budget of "@ + " bytes"@
            &&& failed.take(23) == "kvcache backend error: "@
            &&& failed.skip(23) == words
        }),
{
    reveal_strlit("kvcache slot of ");
    reveal_strlit(" bytes exceeds the configured budget of ");
    reveal_strlit(" bytes");
    reveal_strlit("kvcache backend error: ");
    lemma_two_numbers(
        "kvcache slot of "@,
        size_bytes,
        " bytes exceeds the configured budget of "@,
        max_bytes,
        " bytes"@,
    );
    let failed = (ErrorView::Backend { words }).message();
    assert(failed.take(23) =~= "kvcache backend error: "@);
    assert(failed.skip(23) =~= words);
}

/// Among rows, those count as unsafe, and only those are named as unsafe, whose handle is no
/// safe filename: each once and in order.
pub proof fn law_unsafe_rows(rows: Seq<ListedView>)
    ensures
        ({
            let risky = rows.filter(|row: ListedView| !types::is_single_component(row.handle));
            &&& sweep::unsafe_count(rows) == risky.len()
            &&& sweep::unsafe_handles(rows) == risky.map_values(|row: ListedView| row.handle)
        }),
    decreases rows.len(),
{
    let pred = |row: ListedView| !types::is_single_component(row.handle);
    let risky = rows.filter(pred);
    reveal(Seq::filter);
    if rows.len() == 0 {
        assert(sweep::unsafe_handles(rows) =~= risky.map_values(|row: ListedView| row.handle));
    } else {
        law_unsafe_rows(rows.drop_last());
        let before = rows.drop_last().filter(pred);
        assert(sweep::unsafe_handles(rows) =~= risky.map_values(|row: ListedView| row.handle));
    }
}

/// The bytes that a table records are those that its rows read as; as long as no stored sum
/// leaves 64 bits, the table's own total says the same.
pub proof fn law_total_bytes(rows: Seq<RowView>)
    requires
        forall|i: int| 0 <= i < rows.len() ==> (#[trigger] rows[i]).size_bytes >= 0,
    ensures
        manifest::stored_sum(rows) == budget::sum(manifest::sizes(rows)),
        manifest::stored_sum_fits(rows) <==> budget::sum(manifest::sizes(rows)) <= i64::MAX,
        manifest::stored_sum_fits(rows) ==> clock::unsigned(manifest::stored_sum(rows) as i64)
            == budget::sum(manifest::sizes(rows)),
{
    lemma_stored_sum(rows);
    assert forall|n: int| 0 <= n <= rows.len() implies manifest::stored_sum(
        #[trigger] rows.take(n),
    ) == budget::sum(manifest::sizes(rows).take(n)) && manifest::stored_sum(rows.take(n))
        <= budget::sum(manifest::sizes(rows)) by {
        lemma_stored_sum(rows.take(n));
        assert(manifest::sizes(rows.take(n)) =~= manifest::sizes(rows).take(n));
        budget::lemma_sum_split(manifest::sizes(rows), n);
    }
    assert(rows.take(rows.len() as int) =~= rows);
}

proof fn lemma_stored_sum(rows: Seq<RowView>)
    requires
        forall|i: int| 0 <= i < rows.len() ==> (#[trigger] rows[i]).size_bytes >= 0,
    ensures
        manifest::stored_sum(rows) == budget::sum(manifest::sizes(rows)),
    decreases rows.len(),
{
    if rows.len() > 0 {
        let fewer = rows.drop_last();
        assert forall|i: int| 0 <= i < fewer.len() implies (#[trigger] fewer[i]).size_bytes >= 0 by {
            assert(fewer[i] == rows[i]);
        }
        lemma_stored_sum(fewer);
        let last = manifest::sizes(rows).last();
        budget::lemma_sum_push(manifest::sizes(fewer), last);
        assert(manifest::sizes(rows) =~= manifest::sizes(fewer).push(last));
    } else {
        assert(manifest::sizes(rows) =~= Seq::<nat>::empty());
    }
}

} // verus!
