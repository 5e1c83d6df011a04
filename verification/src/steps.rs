//! A save and a restore as steps: each event leads to the next state and to an action.
//!
//! The caller performs the action and comes back with the event that it leads to, until the
//! action is to return.
use vstd::prelude::*;

use crate::json;
use crate::llama_server;
use crate::llama_server::{
    LlamaServerSlotStore, RestoreStep, RestoreVerdict, SlotAction, SlotReply, SlotRequest,
};
use crate::slot_name;
use crate::types::{CacheHandle, CacheKey, CacheMeta, ErrorView, KvCacheError};

verus! {

/// What a [`SlotRequest`] says.
#[verifier::ext_equal]
pub struct RequestView {
    pub url: Seq<char>,
    pub body: Seq<char>,
}

impl View for SlotRequest {
    type V = RequestView;

    open spec fn view(&self) -> RequestView {
        RequestView { url: self.url@, body: self.body@ }
    }
}

/// A slot to be saved under a key, and the size that it is announced to have.
pub struct SaveTask {
    pub key: CacheKey,
    pub slot_id: u32,
    pub meta: CacheMeta,
}

/// How far a save has come.
pub enum SaveState {
    /// Nothing is done yet.
    Start,
    /// llama-server was asked to save.
    Requested,
    /// The file is there and is being measured.
    Measuring,
    /// The slot is being recorded.
    Recording,
    /// The record failed, and the file is being deleted.
    Removing { error: KvCacheError },
    /// The answer was given.
    Ended,
}

/// What happened.
pub enum SaveEvent {
    /// The save is to begin.
    Begin,
    /// This came of the request.
    Replied { reply: SlotReply },
    /// The file has this length, if it could be found out.
    Measured { file_len: Option<u64> },
    /// This came of the record.
    Recorded { result: Result<(), KvCacheError> },
    /// The file was deleted, or could not be.
    Removed,
}

/// What to do next.
pub enum SaveAction {
    /// Send this request.
    Post { request: SlotRequest },
    /// Measure the slot file of this name.
    Measure { filename: String },
    /// Record the slot under the key of the task.
    Record { handle: CacheHandle, meta: CacheMeta },
    /// Delete the slot file of this name.
    RemoveFile { filename: String },
    /// Answer with this.
    Return { result: Result<(), KvCacheError> },
    /// Nothing: the event does not belong here.
    Ignore,
}

/// What a [`SaveAction`] says.
#[verifier::ext_equal]
pub enum SaveActionView {
    Post { request: RequestView },
    Measure { filename: Seq<char> },
    Record { handle: Seq<char>, meta: CacheMeta },
    RemoveFile { filename: Seq<char> },
    Return { error: Option<ErrorView> },
    Ignore,
}

impl View for SaveAction {
    type V = SaveActionView;

    open spec fn view(&self) -> SaveActionView {
        match self {
            SaveAction::Post { request } => SaveActionView::Post { request: request@ },
            SaveAction::Measure { filename } => SaveActionView::Measure { filename: filename@ },
            SaveAction::Record { handle, meta } => SaveActionView::Record {
                handle: handle@,
                meta: *meta,
            },
            SaveAction::RemoveFile { filename } => SaveActionView::RemoveFile {
                filename: filename@,
            },
            SaveAction::Return { result: Ok(()) } => SaveActionView::Return { error: None },
            SaveAction::Return { result: Err(e) } => SaveActionView::Return { error: Some(e@) },
            SaveAction::Ignore => SaveActionView::Ignore,
        }
    }
}

/// Whether a reply lets a save go on.
pub open spec fn accepts_save(reply: SlotReply) -> bool {
    reply matches SlotReply::Answered { status, .. } && !llama_server::is_error(status)
}

/// What is wrong with a reply that does not let a save go on.
pub open spec fn complaint(reply: SlotReply) -> ErrorView {
    match reply {
        SlotReply::Answered { error, .. } => ErrorView::Backend { words: error@ },
        SlotReply::Failed { error } => ErrorView::Backend { words: error@ },
    }
}

/// The state of a save after an event.
pub open spec fn save_state_after(
    budget: nat,
    task: SaveTask,
    state: SaveState,
    event: SaveEvent,
) -> SaveState {
    match (state, event) {
        (SaveState::Start, SaveEvent::Begin) => if task.meta.size_bytes <= budget {
            SaveState::Requested
        } else {
            SaveState::Ended
        },
        (SaveState::Requested, SaveEvent::Replied { reply }) => if accepts_save(reply) {
            SaveState::Measuring
        } else {
            SaveState::Ended
        },
        (SaveState::Measuring, SaveEvent::Measured { .. }) => SaveState::Recording,
        (SaveState::Recording, SaveEvent::Recorded { result: Ok(()) }) => SaveState::Ended,
        (SaveState::Recording, SaveEvent::Recorded { result: Err(error) }) => {
            SaveState::Removing { error }
        },
        (SaveState::Removing { .. }, SaveEvent::Removed) => SaveState::Ended,
        _ => state,
    }
}

/// What a save asks for after an event.
pub open spec fn save_action_after(
    budget: nat,
    address: Seq<char>,
    task: SaveTask,
    state: SaveState,
    event: SaveEvent,
) -> SaveActionView {
    let filename = slot_name::slot_name(task.key@);
    match (state, event) {
        (SaveState::Start, SaveEvent::Begin) => if task.meta.size_bytes <= budget {
            SaveActionView::Post {
                request: RequestView {
                    url: llama_server::slot_url(address, task.slot_id, SlotAction::Save),
                    body: json::filename_body(filename),
                },
            }
        } else {
            SaveActionView::Return {
                error: Some(
                    ErrorView::SlotExceedsBudget {
                        size_bytes: task.meta.size_bytes as nat,
                        max_bytes: budget,
                    },
                ),
            }
        },
        (SaveState::Requested, SaveEvent::Replied { reply }) => if accepts_save(reply) {
            SaveActionView::Measure { filename }
        } else {
            SaveActionView::Return { error: Some(complaint(reply)) }
        },
        (SaveState::Measuring, SaveEvent::Measured { file_len }) => SaveActionView::Record {
            handle: filename,
            meta: llama_server::measured(task.meta, file_len),
        },
        (SaveState::Recording, SaveEvent::Recorded { result: Ok(()) }) => {
            SaveActionView::Return { error: None }
        },
        (SaveState::Recording, SaveEvent::Recorded { result: Err(_) }) => {
            SaveActionView::RemoveFile { filename }
        },
        (SaveState::Removing { error }, SaveEvent::Removed) => SaveActionView::Return {
            error: Some(error@),
        },
        _ => SaveActionView::Ignore,
    }
}

/// A slot to be restored from under a key.
pub struct RestoreTask {
    pub key: CacheKey,
    pub slot_id: u32,
}

/// How far a restore has come.
#[derive(Debug, Clone, Copy, PartialEq, Eq)]
pub enum RestoreState {
    /// The key is being looked up.
    Start,
    /// llama-server was asked to restore.
    Requested,
    /// The slot is warm, and the hit is being confirmed.
    Confirming,
    /// The answer was given.
    Ended,
}

/// What happened.
pub enum RestoreEvent {
    /// This came of the lookup.
    LookedUp { found: Result<Option<CacheHandle>, KvCacheError> },
    /// This came of the request.
    Replied { reply: SlotReply },
    /// This came of confirming the hit.
    Confirmed { result: Result<(), KvCacheError> },
}

/// What to do next.
pub enum RestoreAction {
    /// Send this request.
    Post { request: SlotRequest },
    /// Confirm a hit on the key of the task.
    ConfirmHit,
    /// Answer with this.
    Return { result: Result<bool, KvCacheError> },
    /// Nothing: the event does not belong here.
    Ignore,
}

/// What a [`RestoreAction`] says.
#[verifier::ext_equal]
pub enum RestoreActionView {
    Post { request: RequestView },
    ConfirmHit,
    Return { result: Result<bool, ErrorView> },
    Ignore,
}

impl View for RestoreAction {
    type V = RestoreActionView;

    open spec fn view(&self) -> RestoreActionView {
        match self {
            RestoreAction::Post { request } => RestoreActionView::Post { request: request@ },
            RestoreAction::ConfirmHit => RestoreActionView::ConfirmHit,
            RestoreAction::Return { result: Ok(restored) } => RestoreActionView::Return {
                result: Ok(*restored),
            },
            RestoreAction::Return { result: Err(e) } => RestoreActionView::Return {
                result: Err(e@),
            },
            RestoreAction::Ignore => RestoreActionView::Ignore,
        }
    }
}

/// Whether a reply says that the slot is warm.
pub open spec fn is_restored(reply: SlotReply) -> bool {
    llama_server::restore_verdict(reply) == RestoreVerdict::Restored
}

/// The state of a restore after an event.
pub open spec fn restore_state_after(state: RestoreState, event: RestoreEvent) -> RestoreState {
    match (state, event) {
        (RestoreState::Start, RestoreEvent::LookedUp { found: Ok(Some(_)) }) => {
            RestoreState::Requested
        },
        (RestoreState::Start, RestoreEvent::LookedUp { .. }) => RestoreState::Ended,
        (RestoreState::Requested, RestoreEvent::Replied { reply }) => if is_restored(reply) {
            RestoreState::Confirming
        } else {
            RestoreState::Ended
        },
        (RestoreState::Confirming, RestoreEvent::Confirmed { .. }) => RestoreState::Ended,
        _ => state,
    }
}

/// What a restore asks for after an event.
pub open spec fn restore_action_after(
    address: Seq<char>,
    task: RestoreTask,
    state: RestoreState,
    event: RestoreEvent,
) -> RestoreActionView {
    match (state, event) {
        (RestoreState::Start, RestoreEvent::LookedUp { found: Ok(Some(handle)) }) => {
            RestoreActionView::Post {
                request: RequestView {
                    url: llama_server::slot_url(address, task.slot_id, SlotAction::Restore),
                    body: json::filename_body(handle@),
                },
            }
        },
        (RestoreState::Start, RestoreEvent::LookedUp { found: Ok(None) }) => {
            RestoreActionView::Return { result: Ok(false) }
        },
        (RestoreState::Start, RestoreEvent::LookedUp { found: Err(e) }) => {
            RestoreActionView::Return { result: Err(e@) }
        },
        (RestoreState::Requested, RestoreEvent::Replied { reply }) => if is_restored(reply) {
            RestoreActionView::ConfirmHit
        } else {
            RestoreActionView::Return { result: Ok(false) }
        },
        (RestoreState::Confirming, RestoreEvent::Confirmed { .. }) => {
            RestoreActionView::Return { result: Ok(true) }
        },
        _ => RestoreActionView::Ignore,
    }
}

impl LlamaServerSlotStore {
    /// Takes a save one step further.
    pub fn save_step(&self, task: &SaveTask, state: SaveState, event: SaveEvent) -> (next: (
        SaveState,
        SaveAction,
    ))
        ensures
            next.0 == save_state_after(self.budget(), *task, state, event),
            next.1@ == save_action_after(self.budget(), self.address(), *task, state, event),
    {
        match (state, event) {
            (SaveState::Start, SaveEvent::Begin) => {
                match self.save_from_slot(&task.key, task.slot_id, task.meta) {
                    Ok((request, _)) => (SaveState::Requested, SaveAction::Post { request }),
                    Err(e) => (SaveState::Ended, SaveAction::Return { result: Err(e) }),
                }
            },
            (SaveState::Requested, SaveEvent::Replied { reply }) => {
                match self.save_replied(reply) {
                    Ok(()) => {
                        let filename = slot_name::slot_filename(&task.key);
                        (SaveState::Measuring, SaveAction::Measure { filename })
                    },
                    Err(e) => (SaveState::Ended, SaveAction::Return { result: Err(e) }),
                }
            },
            (SaveState::Measuring, SaveEvent::Measured { file_len }) => {
                let handle = CacheHandle::new(slot_name::slot_filename(&task.key));
                let meta = self.saved_meta(task.meta, file_len);
                (SaveState::Recording, SaveAction::Record { handle, meta })
            },
            (SaveState::Recording, SaveEvent::Recorded { result }) => {
                let end = self.save_recorded(result);
                match end.result {
                    Ok(()) => (SaveState::Ended, SaveAction::Return { result: Ok(()) }),
                    Err(error) => {
                        let filename = slot_name::slot_filename(&task.key);
                        (SaveState::Removing { error }, SaveAction::RemoveFile { filename })
                    },
                }
            },
            (SaveState::Removing { error }, SaveEvent::Removed) => {
                (SaveState::Ended, SaveAction::Return { result: Err(error) })
            },
            (state, _) => (state, SaveAction::Ignore),
        }
    }

    /// Takes a restore one step further.
    pub fn restore_step(&self, task: &RestoreTask, state: RestoreState, event: RestoreEvent) -> (
    next: (RestoreState, RestoreAction))
        ensures
            next.0 == restore_state_after(state, event),
            next.1@ == restore_action_after(self.address(), *task, state, event),
    {
        match (state, event) {
            (RestoreState::Start, RestoreEvent::LookedUp { found }) => {
                match self.restore_into_slot(found, task.slot_id) {
                    RestoreStep::Post(request) => (
                        RestoreState::Requested,
                        RestoreAction::Post { request },
                    ),
                    RestoreStep::Return(result) => (
                        RestoreState::Ended,
                        RestoreAction::Return { result },
                    ),
                }
            },
            (RestoreState::Requested, RestoreEvent::Replied { reply }) => {
                match self.restore_replied(&reply) {
                    RestoreVerdict::Restored => (
                        RestoreState::Confirming,
                        RestoreAction::ConfirmHit,
                    ),
                    RestoreVerdict::Rejected => (
                        RestoreState::Ended,
                        RestoreAction::Return { result: Ok(false) },
                    ),
                }
            },
            (RestoreState::Confirming, RestoreEvent::Confirmed { result }) => {
                let result = self.restore_confirmed(&result);
                (RestoreState::Ended, RestoreAction::Return { result })
            },
            (state, _) => (state, RestoreAction::Ignore),
        }
    }
}

/// The state of a save after events, from the start.
pub open spec fn save_state(budget: nat, task: SaveTask, events: Seq<SaveEvent>) -> SaveState
    decreases events.len(),
{
    if events.len() == 0 {
        SaveState::Start
    } else {
        save_state_after(budget, task, save_state(budget, task, events.drop_last()), events.last())
    }
}

/// What a save asks for after events, one action for each.
pub open spec fn save_actions(
    budget: nat,
    address: Seq<char>,
    task: SaveTask,
    events: Seq<SaveEvent>,
) -> Seq<SaveActionView> {
    Seq::new(
        events.len(),
        |i: int|
            save_action_after(
                budget,
                address,
                task,
                save_state(budget, task, events.take(i)),
                events[i],
            ),
    )
}

/// How many requests there are among the actions of a save.
pub open spec fn save_posts(actions: Seq<SaveActionView>) -> nat
    decreases actions.len(),
{
    if actions.len() == 0 {
        0
    } else {
        save_posts(actions.drop_last()) + if actions.last() is Post {
            1nat
        } else {
            0nat
        }
    }
}

/// The state of a restore after events, from the start.
pub open spec fn restore_state(events: Seq<RestoreEvent>) -> RestoreState
    decreases events.len(),
{
    if events.len() == 0 {
        RestoreState::Start
    } else {
        restore_state_after(restore_state(events.drop_last()), events.last())
    }
}

/// What a restore asks for after events, one action for each.
pub open spec fn restore_actions(
    address: Seq<char>,
    task: RestoreTask,
    events: Seq<RestoreEvent>,
) -> Seq<RestoreActionView> {
    Seq::new(
        events.len(),
        |i: int| restore_action_after(address, task, restore_state(events.take(i)), events[i]),
    )
}

/// How many requests there are among the actions of a restore.
pub open spec fn restore_posts(actions: Seq<RestoreActionView>) -> nat
    decreases actions.len(),
{
    if actions.len() == 0 {
        0
    } else {
        restore_posts(actions.drop_last()) + if actions.last() is Post {
            1nat
        } else {
            0nat
        }
    }
}

/// Whether llama-server accepted the save before the event at `n`.
pub open spec fn accepted_before(events: Seq<SaveEvent>, n: int) -> bool {
    exists|i: int|
        0 <= i < n && (#[trigger] events[i] matches SaveEvent::Replied { reply } && accepts_save(
            reply,
        ))
}

/// A save that has begun sends exactly one request, unless the slot is announced to be larger
/// than the budget: then it sends none.
pub proof fn law_save_sends_one_request(
    budget: nat,
    address: Seq<char>,
    task: SaveTask,
    events: Seq<SaveEvent>,
)
    ensures
        save_posts(save_actions(budget, address, task, events)) == if save_state(
            budget,
            task,
            events,
        ) is Start || task.meta.size_bytes > budget {
            0nat
        } else {
            1nat
        },
    decreases events.len(),
{
    if events.len() > 0 {
        let fewer = events.drop_last();
        law_save_sends_one_request(budget, address, task, fewer);
        lemma_save_so_far(budget, address, task, events);
        if task.meta.size_bytes > budget {
            lemma_oversized_save(budget, task, fewer);
        }
    }
}

/// The actions up to an event do not depend on later events.
pub proof fn lemma_save_so_far(
    budget: nat,
    address: Seq<char>,
    task: SaveTask,
    events: Seq<SaveEvent>,
)
    requires
        events.len() > 0,
    ensures
        save_actions(budget, address, task, events).drop_last() == save_actions(
            budget,
            address,
            task,
            events.drop_last(),
        ),
        save_actions(budget, address, task, events).last() == save_action_after(
            budget,
            address,
            task,
            save_state(budget, task, events.drop_last()),
            events.last(),
        ),
{
    let fewer = events.drop_last();
    assert(events.take(events.len() - 1) =~= fewer);
    assert forall|i: int| 0 <= i < fewer.len() implies #[trigger] fewer.take(i) == events.take(
        i,
    ) by {
        assert(fewer.take(i) =~= events.take(i));
    }
    assert(save_actions(budget, address, task, events).drop_last() =~= save_actions(
        budget,
        address,
        task,
        fewer,
    ));
}

/// A save of a slot that is announced to be too large does not get past its start.
proof fn lemma_oversized_save(budget: nat, task: SaveTask, events: Seq<SaveEvent>)
    requires
        task.meta.size_bytes > budget,
    ensures
        save_state(budget, task, events) is Start || save_state(budget, task, events) is Ended,
    decreases events.len(),
{
    if events.len() > 0 {
        lemma_oversized_save(budget, task, events.drop_last());
    }
}

/// A save gets past its request only with a reply that accepts it.
proof fn lemma_accepted(budget: nat, task: SaveTask, events: Seq<SaveEvent>)
    ensures
        ({
            let state = save_state(budget, task, events);
            state is Measuring || state is Recording || state is Removing ==> accepted_before(
                events,
                events.len() as int,
            )
        }),
    decreases events.len(),
{
    if events.len() > 0 {
        let fewer = events.drop_last();
        let n = events.len() - 1;
        lemma_accepted(budget, task, fewer);
        if accepted_before(fewer, n) {
            let i = choose|i: int|
                0 <= i < n && (#[trigger] fewer[i] matches SaveEvent::Replied { reply }
                    && accepts_save(reply));
            assert(events[i] == fewer[i]);
        }
        assert(events[n] == events.last());
    }
}

/// A save records only after a reply that accepts it. It answers with success only after such
/// a reply, and only to a record that succeeded.
pub proof fn law_save_records_what_was_accepted(
    budget: nat,
    address: Seq<char>,
    task: SaveTask,
    events: Seq<SaveEvent>,
    n: int,
)
    requires
        0 <= n < events.len(),
    ensures
        ({
            let action = save_actions(budget, address, task, events)[n];
            &&& action is Record ==> accepted_before(events, n)
            &&& action == (SaveActionView::Return { error: None }) ==> accepted_before(events, n)
                && (events[n] matches SaveEvent::Recorded { result } && result is Ok)
        }),
{
    let past = events.take(n);
    lemma_accepted(budget, task, past);
    if accepted_before(past, n) {
        let i = choose|i: int|
            0 <= i < n && (#[trigger] past[i] matches SaveEvent::Replied { reply } && accepts_save(
                reply,
            ));
        assert(events[i] == past[i]);
    }
}

/// A save whose record failed deletes the file, and then answers with the error of the record.
pub proof fn law_failed_save_leaves_no_file(
    budget: nat,
    address: Seq<char>,
    task: SaveTask,
    events: Seq<SaveEvent>,
    n: int,
    error: KvCacheError,
)
    requires
        0 <= n < events.len(),
        save_state(budget, task, events.take(n)) is Recording,
        events[n] == (SaveEvent::Recorded { result: Err(error) }),
    ensures
        save_actions(budget, address, task, events)[n] == (SaveActionView::RemoveFile {
            filename: slot_name::slot_name(task.key@),
        }),
        save_action_after(
            budget,
            address,
            task,
            save_state(budget, task, events.take(n + 1)),
            SaveEvent::Removed,
        ) == (SaveActionView::Return { error: Some(error@) }),
{
    assert(events.take(n + 1).drop_last() =~= events.take(n));
    assert(events.take(n + 1).last() == events[n]);
}

/// Whether llama-server reported a warm slot before the event at `n`.
pub open spec fn restored_before(events: Seq<RestoreEvent>, n: int) -> bool {
    exists|i: int|
        0 <= i < n && (#[trigger] events[i] matches RestoreEvent::Replied { reply } && is_restored(
            reply,
        ))
}

/// The actions up to an event do not depend on later events.
pub proof fn lemma_restore_so_far(address: Seq<char>, task: RestoreTask, events: Seq<RestoreEvent>)
    requires
        events.len() > 0,
    ensures
        restore_actions(address, task, events).drop_last() == restore_actions(
            address,
            task,
            events.drop_last(),
        ),
        restore_actions(address, task, events).last() == restore_action_after(
            address,
            task,
            restore_state(events.drop_last()),
            events.last(),
        ),
{
    let fewer = events.drop_last();
    assert(events.take(events.len() - 1) =~= fewer);
    assert forall|i: int| 0 <= i < fewer.len() implies #[trigger] fewer.take(i) == events.take(
        i,
    ) by {
        assert(fewer.take(i) =~= events.take(i));
    }
    assert(restore_actions(address, task, events).drop_last() =~= restore_actions(
        address,
        task,
        fewer,
    ));
}

/// A restore sends exactly one request when the lookup that it begins with found a handle,
/// and none otherwise.
pub proof fn law_restore_sends_one_request(
    address: Seq<char>,
    task: RestoreTask,
    events: Seq<RestoreEvent>,
)
    requires
        events.len() > 0,
        events[0] is LookedUp,
    ensures
        restore_posts(restore_actions(address, task, events)) == if events[0]->found matches Ok(
            Some(_),
        ) {
            1nat
        } else {
            0nat
        },
        !(restore_state(events) is Start),
    decreases events.len(),
{
    let fewer = events.drop_last();
    lemma_restore_so_far(address, task, events);
    if events.len() == 1 {
        assert(restore_actions(address, task, fewer).len() == 0);
        assert(restore_state(fewer) is Start);
        assert(restore_posts(restore_actions(address, task, fewer)) == 0);
        assert(events.last() == events[0]);
    } else {
        assert(fewer[0] == events[0]);
        law_restore_sends_one_request(address, task, fewer);
    }
}

/// A restore gets past its request only with a reply of success.
proof fn lemma_restored(events: Seq<RestoreEvent>)
    ensures
        restore_state(events) is Confirming ==> restored_before(events, events.len() as int),
    decreases events.len(),
{
    if events.len() > 0 {
        let fewer = events.drop_last();
        let n = events.len() - 1;
        lemma_restored(fewer);
        if restored_before(fewer, n) {
            let i = choose|i: int|
                0 <= i < n && (#[trigger] fewer[i] matches RestoreEvent::Replied { reply }
                    && is_restored(reply));
            assert(events[i] == fewer[i]);
        }
        assert(events[n] == events.last());
    }
}

/// A restore confirms a hit only on a reply of success, answers `true` only after one, and
/// fails only where the lookup failed.
pub proof fn law_restore_confirms_what_was_restored(
    address: Seq<char>,
    task: RestoreTask,
    events: Seq<RestoreEvent>,
    n: int,
)
    requires
        0 <= n < events.len(),
    ensures
        ({
            let action = restore_actions(address, task, events)[n];
            &&& action is ConfirmHit ==> restored_before(events, n + 1)
            &&& action == (RestoreActionView::Return { result: Ok(true) }) ==> restored_before(
                events,
                n,
            )
            &&& (action matches RestoreActionView::Return { result } && result is Err) ==> (
            events[n] matches RestoreEvent::LookedUp { found } && found is Err)
        }),
{
    let past = events.take(n);
    lemma_restored(past);
    if restored_before(past, n) {
        let i = choose|i: int|
            0 <= i < n && (#[trigger] past[i] matches RestoreEvent::Replied { reply }
                && is_restored(reply));
        assert(events[i] == past[i]);
    }
}

} // verus!
