//! What a save and a restore do from beginning to end, whatever happens on the way.
use vstd::prelude::*;

use crate::json;
use crate::llama_server;
use crate::llama_server::{SlotAction, SlotReply};
use crate::slot_name;
use crate::steps;
use crate::steps::{
    RestoreActionView, RestoreEvent, RestoreTask, SaveActionView, SaveEvent, SaveTask,
};
use crate::text;
use crate::types::{CacheHandle, ErrorView, KvCacheError};
use crate::wire_laws;

verus! {

/// The request of a restore goes to the slot of the task, and its body names the handle that
/// the lookup found.
pub proof fn law_restore_asks_for_its_slot(
    address: Seq<char>,
    task: RestoreTask,
    events: Seq<RestoreEvent>,
    n: int,
)
    requires
        0 <= n < events.len(),
        steps::restore_actions(address, task, events)[n] is Post,
    ensures
        ({
            let request = steps::restore_actions(address, task, events)[n]->Post_request;
            &&& request.url == address + "/slots/"@ + text::decimal(task.slot_id as nat)
                + "?action=restore"@
            &&& request.url == llama_server::slot_url(address, task.slot_id, SlotAction::Restore)
            &&& events[n] matches RestoreEvent::LookedUp { found: Ok(Some(handle)) }
                && request.body == json::filename_body(handle@)
        }),
{
    wire_laws::law_slot_url(address, task.slot_id, SlotAction::Restore);
}

/// Restores into different slots send their requests to different addresses.
pub proof fn law_restores_into_different_slots(
    address: Seq<char>,
    task: RestoreTask,
    events: Seq<RestoreEvent>,
    n: int,
    other: RestoreTask,
    other_events: Seq<RestoreEvent>,
    m: int,
)
    requires
        0 <= n < events.len(),
        0 <= m < other_events.len(),
        steps::restore_actions(address, task, events)[n] is Post,
        steps::restore_actions(address, other, other_events)[m] is Post,
        task.slot_id != other.slot_id,
    ensures
        steps::restore_actions(address, task, events)[n]->Post_request.url
            != steps::restore_actions(address, other, other_events)[m]->Post_request.url,
{
    law_restore_asks_for_its_slot(address, task, events, n);
    law_restore_asks_for_its_slot(address, other, other_events, m);
    let (a, b) = (task.slot_id, other.slot_id);
    if llama_server::slot_url(address, a, SlotAction::Restore) == llama_server::slot_url(
        address,
        b,
        SlotAction::Restore,
    ) {
        wire_laws::law_url_determines_request(
            address,
            a,
            SlotAction::Restore,
            b,
            SlotAction::Restore,
        );
    }
}

/// A restore whose lookup finds a handle sends its request, and goes by the status of the
/// answer: from 200 to 299 it confirms the hit and answers `true`, whatever comes of that;
/// with any other status, or with no answer at all, it answers `false`. Without a handle it
/// answers `false` at once, and a failed lookup is its own answer.
pub proof fn law_restore_in_order(
    address: Seq<char>,
    task: RestoreTask,
    found: Result<Option<CacheHandle>, KvCacheError>,
    reply: SlotReply,
    confirmed: Result<(), KvCacheError>,
)
    ensures
        ({
            let events = seq![
                RestoreEvent::LookedUp { found },
                RestoreEvent::Replied { reply },
                RestoreEvent::Confirmed { result: confirmed },
            ];
            let actions = steps::restore_actions(address, task, events);
            let warm = reply matches SlotReply::Answered { status, .. } && 200 <= status < 300;
            match found {
                Ok(Some(_)) => {
                    &&& actions[0] is Post
                    &&& warm ==> actions[1] is ConfirmHit && actions[2] == (
                    RestoreActionView::Return { result: Ok(true) })
                    &&& !warm ==> actions[1] == (RestoreActionView::Return { result: Ok(false) })
                        && actions[2] is Ignore
                },
                Ok(None) => actions == seq![
                    RestoreActionView::Return { result: Ok(false) },
                    RestoreActionView::Ignore,
                    RestoreActionView::Ignore,
                ],
                Err(e) => actions == seq![
                    RestoreActionView::Return { result: Err(e@) },
                    RestoreActionView::Ignore,
                    RestoreActionView::Ignore,
                ],
            }
        }),
{
    let events = seq![
        RestoreEvent::LookedUp { found },
        RestoreEvent::Replied { reply },
        RestoreEvent::Confirmed { result: confirmed },
    ];
    let (none, one, two) = (events.take(0), events.take(1), events.take(2));
    assert(steps::restore_state(none) is Start);
    assert(one.drop_last() =~= none && one.last() == events[0]);
    assert(two.drop_last() =~= one && two.last() == events[1]);
    assert(steps::restore_state(one) == steps::restore_state_after(
        steps::restore_state(none),
        events[0],
    ));
    assert(steps::restore_state(two) == steps::restore_state_after(
        steps::restore_state(one),
        events[1],
    ));
    let actions = steps::restore_actions(address, task, events);
    assert(actions.len() == 3);
}

/// The request of a save goes to the slot of the task and names the file of its key.
pub proof fn law_save_asks_for_its_slot(
    budget: nat,
    address: Seq<char>,
    task: SaveTask,
    events: Seq<SaveEvent>,
    n: int,
)
    requires
        0 <= n < events.len(),
        steps::save_actions(budget, address, task, events)[n] is Post,
    ensures
        ({
            let request = steps::save_actions(budget, address, task, events)[n]->Post_request;
            &&& request.url == address + "/slots/"@ + text::decimal(task.slot_id as nat)
                + "?action=save"@
            &&& request.body == json::filename_body(slot_name::slot_name(task.key@))
            &&& task.meta.size_bytes <= budget
        }),
{
    wire_laws::law_slot_url(address, task.slot_id, SlotAction::Save);
}

/// The name of the file that an action of a save is about.
pub open spec fn file_of(action: SaveActionView) -> Option<Seq<char>> {
    match action {
        SaveActionView::Measure { filename } => Some(filename),
        SaveActionView::Record { handle, .. } => Some(handle),
        SaveActionView::RemoveFile { filename } => Some(filename),
        _ => None,
    }
}

/// A save is about one file: what is measured, recorded and, after a failed record, deleted is
/// what the request asked llama-server to write.
pub proof fn law_save_is_about_one_file(
    budget: nat,
    address: Seq<char>,
    task: SaveTask,
    events: Seq<SaveEvent>,
    n: int,
    m: int,
)
    requires
        0 <= n < events.len(),
        0 <= m < events.len(),
        steps::save_actions(budget, address, task, events)[n] is Post,
        file_of(steps::save_actions(budget, address, task, events)[m]) is Some,
    ensures
        ({
            let actions = steps::save_actions(budget, address, task, events);
            let name = file_of(actions[m]).unwrap();
            &&& actions[n]->Post_request.body == json::filename_body(name)
            &&& wire_laws::unescaped(
                actions[n]->Post_request.body.subrange(
                    13,
                    actions[n]->Post_request.body.len() - 2,
                ),
            ) == name
        }),
{
    wire_laws::law_body_reads_back(slot_name::slot_name(task.key@));
}

/// A save records the length of the file where it was measured, and else the size that was
/// announced; the number of tokens is always the announced one.
pub proof fn law_save_records_the_measured_size(
    budget: nat,
    address: Seq<char>,
    task: SaveTask,
    events: Seq<SaveEvent>,
    n: int,
)
    requires
        0 <= n < events.len(),
        steps::save_actions(budget, address, task, events)[n] is Record,
    ensures
        ({
            let meta = steps::save_actions(budget, address, task, events)[n]->Record_meta;
            &&& meta.token_count == task.meta.token_count
            &&& events[n] matches SaveEvent::Measured { file_len } && match file_len {
                Some(len) => meta.size_bytes == len,
                None => meta.size_bytes == task.meta.size_bytes,
            }
        }),
{
}

/// A save within the budget sends its request and goes by the answer: a status from 400 to 599
/// and a missing answer end it with an error that says why, and nothing is recorded. With any
/// other status the file is measured and recorded. A record that succeeds ends the save with
/// success; one that fails has the file deleted and ends it with the error of the record.
pub proof fn law_save_in_order(
    budget: nat,
    address: Seq<char>,
    task: SaveTask,
    reply: SlotReply,
    file_len: Option<u64>,
    recorded: Result<(), KvCacheError>,
)
    requires
        task.meta.size_bytes <= budget,
    ensures
        ({
            let events = seq![
                SaveEvent::Begin,
                SaveEvent::Replied { reply },
                SaveEvent::Measured { file_len },
                SaveEvent::Recorded { result: recorded },
                SaveEvent::Removed,
            ];
            let actions = steps::save_actions(budget, address, task, events);
            let words = match reply {
                SlotReply::Answered { error, .. } => error@,
                SlotReply::Failed { error } => error@,
            };
            let accepted = reply matches SlotReply::Answered { status, .. } && !(400 <= status
                < 600);
            &&& actions[0] is Post
            &&& accepted ==> {
                &&& actions[1] is Measure
                &&& actions[2] is Record
                &&& match recorded {
                    Ok(()) => actions[3] == (SaveActionView::Return { error: None }),
                    Err(e) => actions[3] is RemoveFile && actions[4] == (SaveActionView::Return {
                        error: Some(e@),
                    }),
                }
            }
            &&& !accepted ==> {
                &&& actions[1] == (SaveActionView::Return {
                    error: Some(ErrorView::Backend { words }),
                })
                &&& actions[2] is Ignore
                &&& actions[3] is Ignore
                &&& actions[4] is Ignore
            }
        }),
{
    let events = seq![
        SaveEvent::Begin,
        SaveEvent::Replied { reply },
        SaveEvent::Measured { file_len },
        SaveEvent::Recorded { result: recorded },
        SaveEvent::Removed,
    ];
    lemma_save_state(budget, task, events, 0);
    lemma_save_state(budget, task, events, 1);
    lemma_save_state(budget, task, events, 2);
    lemma_save_state(budget, task, events, 3);
    assert(events.take(0) =~= Seq::<SaveEvent>::empty());
    assert(steps::save_actions(budget, address, task, events).len() == 5);
}

proof fn lemma_save_state(budget: nat, task: SaveTask, events: Seq<SaveEvent>, n: int)
    requires
        0 <= n < events.len(),
    ensures
        steps::save_state(budget, task, events.take(n + 1)) == steps::save_state_after(
            budget,
            task,
            steps::save_state(budget, task, events.take(n)),
            events[n],
        ),
{
    assert(events.take(n + 1).drop_last() =~= events.take(n));
    assert(events.take(n + 1).last() == events[n]);
}

/// A save of a slot that is announced to be larger than the budget is refused at once, with
/// both sizes, and asks for nothing.
pub proof fn law_oversized_save(
    budget: nat,
    address: Seq<char>,
    task: SaveTask,
    more: Seq<SaveEvent>,
    n: int,
)
    requires
        task.meta.size_bytes > budget,
        0 <= n < more.len(),
    ensures
        ({
            let actions = steps::save_actions(budget, address, task, seq![SaveEvent::Begin] + more);
            &&& actions[0] == (SaveActionView::Return {
                error: Some(
                    ErrorView::SlotExceedsBudget {
                        size_bytes: task.meta.size_bytes as nat,
                        max_bytes: budget,
                    },
                ),
            })
            &&& actions[n + 1] is Ignore
        }),
{
    let events = seq![SaveEvent::Begin] + more;
    assert(events.take(0) =~= Seq::<SaveEvent>::empty());
    lemma_ended(budget, task, events, n + 1);
}

proof fn lemma_ended(budget: nat, task: SaveTask, events: Seq<SaveEvent>, n: int)
    requires
        task.meta.size_bytes > budget,
        1 <= n <= events.len(),
        events[0] is Begin,
    ensures
        steps::save_state(budget, task, events.take(n)) is Ended,
    decreases n,
{
    lemma_save_state(budget, task, events, n - 1);
    if n == 1 {
        assert(events.take(0) =~= Seq::<SaveEvent>::empty());
    } else {
        lemma_ended(budget, task, events, n - 1);
    }
}

/// Whether one of the first `n` actions of a save is a request.
pub open spec fn posted(actions: Seq<SaveActionView>, n: int) -> bool {
    exists|i: int| 0 <= i < n && (#[trigger] actions[i]) is Post
}

/// Whether one of the first `n` actions of a save is to measure the file.
pub open spec fn measured(actions: Seq<SaveActionView>, n: int) -> bool {
    exists|i: int| 0 <= i < n && (#[trigger] actions[i]) is Measure
}

/// Whether one of the first `n` actions of a save is to record the slot.
pub open spec fn recorded(actions: Seq<SaveActionView>, n: int) -> bool {
    exists|i: int| 0 <= i < n && (#[trigger] actions[i]) is Record
}

/// How far a save has come, its actions show.
proof fn lemma_save_reached(
    budget: nat,
    address: Seq<char>,
    task: SaveTask,
    events: Seq<SaveEvent>,
)
    ensures
        ({
            let actions = steps::save_actions(budget, address, task, events);
            let state = steps::save_state(budget, task, events);
            let n = events.len() as int;
            &&& actions.len() == n
            &&& state is Requested ==> posted(actions, n)
            &&& state is Measuring ==> measured(actions, n)
            &&& state is Recording || state is Removing ==> recorded(actions, n)
        }),
    decreases events.len(),
{
    if events.len() > 0 {
        let fewer = events.drop_last();
        let n = fewer.len() as int;
        let actions = steps::save_actions(budget, address, task, events);
        let before = steps::save_actions(budget, address, task, fewer);
        lemma_save_reached(budget, address, task, fewer);
        steps::lemma_save_so_far(budget, address, task, events);
        assert forall|i: int| 0 <= i < n implies #[trigger] before[i] == actions[i] by {
            assert(actions.drop_last()[i] == actions[i]);
        }
        assert(actions[n] == actions.last());
        if posted(before, n) {
            let i = choose|i: int| 0 <= i < n && (#[trigger] before[i]) is Post;
            assert(actions[i] is Post);
        }
        if measured(before, n) {
            let i = choose|i: int| 0 <= i < n && (#[trigger] before[i]) is Measure;
            assert(actions[i] is Measure);
        }
        if recorded(before, n) {
            let i = choose|i: int| 0 <= i < n && (#[trigger] before[i]) is Record;
            assert(actions[i] is Record);
        }
    }
}

/// A save does one thing after the other, in whatever order events come: it measures only what
/// it has asked for, records only what it has measured, and deletes a file or answers with
/// success only after it has recorded.
pub proof fn law_save_keeps_its_order(
    budget: nat,
    address: Seq<char>,
    task: SaveTask,
    events: Seq<SaveEvent>,
    n: int,
)
    requires
        0 <= n < events.len(),
    ensures
        ({
            let actions = steps::save_actions(budget, address, task, events);
            &&& actions[n] is Measure ==> posted(actions, n) && events[n] is Replied
            &&& actions[n] is Record ==> measured(actions, n) && events[n] is Measured
            &&& actions[n] is RemoveFile ==> recorded(actions, n) && (
            events[n] matches SaveEvent::Recorded { result } && result is Err)
            &&& actions[n] == (SaveActionView::Return { error: None }) ==> recorded(actions, n)
                && (events[n] matches SaveEvent::Recorded { result } && result is Ok)
        }),
{
    let past = events.take(n);
    let actions = steps::save_actions(budget, address, task, events);
    let before = steps::save_actions(budget, address, task, past);
    lemma_save_reached(budget, address, task, past);
    assert forall|i: int| 0 <= i < n implies #[trigger] before[i] == actions[i] by {
        assert(past.take(i) =~= events.take(i));
        assert(past[i] == events[i]);
    }
    if posted(before, n) {
        let i = choose|i: int| 0 <= i < n && (#[trigger] before[i]) is Post;
        assert(actions[i] is Post);
    }
    if measured(before, n) {
        let i = choose|i: int| 0 <= i < n && (#[trigger] before[i]) is Measure;
        assert(actions[i] is Measure);
    }
    if recorded(before, n) {
        let i = choose|i: int| 0 <= i < n && (#[trigger] before[i]) is Record;
        assert(actions[i] is Record);
    }
}

/// Whether one of the first `n` actions of a restore is a request.
pub open spec fn asked(actions: Seq<RestoreActionView>, n: int) -> bool {
    exists|i: int| 0 <= i < n && (#[trigger] actions[i]) is Post
}

/// Whether one of the first `n` actions of a restore is to confirm the hit.
pub open spec fn confirmed(actions: Seq<RestoreActionView>, n: int) -> bool {
    exists|i: int| 0 <= i < n && (#[trigger] actions[i]) is ConfirmHit
}

/// How far a restore has come, its actions show.
proof fn lemma_restore_reached(
    address: Seq<char>,
    task: RestoreTask,
    events: Seq<RestoreEvent>,
)
    ensures
        ({
            let actions = steps::restore_actions(address, task, events);
            let state = steps::restore_state(events);
            let n = events.len() as int;
            &&& actions.len() == n
            &&& state is Requested ==> asked(actions, n)
            &&& state is Confirming ==> confirmed(actions, n)
        }),
    decreases events.len(),
{
    if events.len() > 0 {
        let fewer = events.drop_last();
        let n = fewer.len() as int;
        let actions = steps::restore_actions(address, task, events);
        let before = steps::restore_actions(address, task, fewer);
        lemma_restore_reached(address, task, fewer);
        steps::lemma_restore_so_far(address, task, events);
        assert forall|i: int| 0 <= i < n implies #[trigger] before[i] == actions[i] by {
            assert(actions.drop_last()[i] == actions[i]);
        }
        assert(actions[n] == actions.last());
        if asked(before, n) {
            let i = choose|i: int| 0 <= i < n && (#[trigger] before[i]) is Post;
            assert(actions[i] is Post);
        }
        if confirmed(before, n) {
            let i = choose|i: int| 0 <= i < n && (#[trigger] before[i]) is ConfirmHit;
            assert(actions[i] is ConfirmHit);
        }
    }
}

/// A restore does one thing after the other, in whatever order events come: it confirms a hit
/// only after it has asked and the answer had a status from 200 to 299, and answers `true`
/// only after it has confirmed.
pub proof fn law_restore_keeps_its_order(
    address: Seq<char>,
    task: RestoreTask,
    events: Seq<RestoreEvent>,
    n: int,
)
    requires
        0 <= n < events.len(),
    ensures
        ({
            let actions = steps::restore_actions(address, task, events);
            &&& actions[n] is ConfirmHit ==> asked(actions, n) && (
            events[n] matches RestoreEvent::Replied {
                reply: SlotReply::Answered { status, .. },
            } && 200 <= status < 300)
            &&& actions[n] == (RestoreActionView::Return { result: Ok(true) }) ==> confirmed(
                actions,
                n,
            ) && events[n] is Confirmed
        }),
{
    let past = events.take(n);
    let actions = steps::restore_actions(address, task, events);
    let before = steps::restore_actions(address, task, past);
    lemma_restore_reached(address, task, past);
    assert forall|i: int| 0 <= i < n implies #[trigger] before[i] == actions[i] by {
        assert(past.take(i) =~= events.take(i));
        assert(past[i] == events[i]);
    }
    if asked(before, n) {
        let i = choose|i: int| 0 <= i < n && (#[trigger] before[i]) is Post;
        assert(actions[i] is Post);
    }
    if confirmed(before, n) {
        let i = choose|i: int| 0 <= i < n && (#[trigger] before[i]) is ConfirmHit;
        assert(actions[i] is ConfirmHit);
    }
}

} // verus!
