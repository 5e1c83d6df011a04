//! What the store on llama-server promises across its operations.
use vstd::prelude::*;

use crate::json;
use crate::llama_server;
use crate::llama_server::SlotReply;
use crate::manifest;
use crate::manifest::RowView;
use crate::manifest_laws;
use crate::slot_name;
use crate::types;
use crate::types::{CacheHandle, CacheMeta, KeyView, KvCacheError};

verus! {

/// A restore answers `true` only when the key was found and llama-server reported success,
/// and it fails only when the lookup itself failed: a miss or a rejected restore is an
/// ordinary `false`.
pub proof fn law_restore_answers(
    found: Result<Option<CacheHandle>, KvCacheError>,
    reply: SlotReply,
)
    ensures
        llama_server::restore_answer(found, reply) == Ok::<bool, KvCacheError>(true) <==> (found
            matches Ok(Some(_)) && reply matches SlotReply::Answered { status, .. }
            && llama_server::is_success(status)),
        llama_server::restore_answer(found, reply) is Err <==> found is Err,
{
}

/// The body of a request about a saved slot holds the slot's name as it is, between quotes.
pub proof fn law_slot_name_needs_no_escape(key: KeyView)
    ensures
        json::filename_body(slot_name::slot_name(key)) == "{\"filename\":\""@
            + slot_name::slot_name(key) + "\"}"@,
{
    let name = slot_name::slot_name(key);
    slot_name::law_slot_name_is_safe(key);
    assert forall|i: int| 0 <= i < name.len() implies (#[trigger] name[i]) as nat >= 32 && name[i]
        != '"' && name[i] != '\\' by {
        assert(slot_name::is_name_char(name[i]));
    }
    json::lemma_plain_text(name);
    reveal_strlit("filename");
    reveal_strlit("{\"filename\":\"");
    reveal_strlit("\"}");
    json::lemma_plain_text("filename"@);
    assert(json::filename_body(name) =~= "{\"filename\":\""@ + name + "\"}"@);
}

/// What a save within the budget asked llama-server to write, a later restore of the same
/// key asks for, and eviction deletes: the row is there, its handle is the name of that file,
/// and joined onto the slot directory it denotes an entry of it.
pub proof fn law_saved_file_is_the_restored_file(
    rows: Seq<RowView>,
    key: KeyView,
    meta: CacheMeta,
    now_secs: i64,
    now_nanos: i64,
    budget: nat,
)
    requires
        manifest::distinct_keys(rows),
        meta.size_bytes <= budget,
    ensures
        ({
            let name = slot_name::slot_name(key);
            let row = manifest::fresh_row(key, name, meta, now_secs, now_nanos);
            let found = manifest::row_of(
                manifest::trimmed(manifest::saved_latest(rows, row), budget),
                key,
            );
            &&& found is Some
            &&& found.unwrap().handle == name
            &&& types::is_single_component(found.unwrap().handle)
        }),
{
    let name = slot_name::slot_name(key);
    let row = manifest::fresh_row(key, name, meta, now_secs, now_nanos);
    manifest_laws::law_record_then_find(rows, row, budget);
    slot_name::law_slot_name_is_safe(key);
}

/// The index holds the size of the file that was written, not the size that was announced.
pub proof fn law_index_holds_the_measured_size(
    rows: Seq<RowView>,
    key: KeyView,
    handle: Seq<char>,
    announced: CacheMeta,
    file_len: u64,
    now_secs: i64,
    now_nanos: i64,
)
    requires
        manifest::distinct_keys(rows),
    ensures
        ({
            let meta = llama_server::measured(announced, Some(file_len));
            let row = manifest::fresh_row(key, handle, meta, now_secs, now_nanos);
            let found = manifest::row_of(manifest::saved_latest(rows, row), key);
            found is Some && manifest::listed(found.unwrap()).size_bytes == file_len
        }),
{
    let meta = llama_server::measured(announced, Some(file_len));
    let row = manifest::fresh_row(key, handle, meta, now_secs, now_nanos);
    manifest_laws::law_latest_save_then_find(rows, row, key);
}

} // verus!
