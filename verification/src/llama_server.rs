//! The store on top of llama-server: which requests to send, and what its answers mean.
//!
//! The store keeps its index in a [`Manifest`] and its slots in files that llama-server
//! writes and reads through `/slots/{id}?action=save|restore`. Sending requests and touching
//! files are left to the caller; every decision between them is made here.
use vstd::prelude::*;

use crate::budget;
use crate::clock;
use crate::clock::ClockReading;
use crate::json;
use crate::manifest;
use crate::manifest::Manifest;
use crate::manifest_laws;
use crate::slot_name;
use crate::sweep::FileSweep;
use crate::text;
use crate::types::{CacheHandle, CacheKey, CacheMeta, ErrorView, KvCacheError};

verus! {

/// A request to llama-server: a POST to `url` with a JSON `body`.
pub struct SlotRequest {
    pub url: String,
    pub body: String,
}

/// What came of a request.
pub enum SlotReply {
    /// An answer with this status; `error` says what is wrong with it, if anything is.
    Answered { status: u16, error: String },
    /// No answer, for the reason given.
    Failed { error: String },
}

/// The two things that llama-server does with slots.
#[derive(Debug, Clone, Copy, PartialEq, Eq)]
pub enum SlotAction {
    Save,
    Restore,
}

/// The address that `action` on slot `slot_id` is asked at.
pub open spec fn slot_url(base_url: Seq<char>, slot_id: u32, action: SlotAction) -> Seq<char> {
    base_url + "/slots/"@ + text::decimal(slot_id as nat) + match action {
        SlotAction::Save => "?action=save"@,
        SlotAction::Restore => "?action=restore"@,
    }
}

/// Whether a status reports success.
pub open spec fn is_success(status: u16) -> bool {
    200 <= status < 300
}

/// Whether a status reports an error, of the client or of the server.
pub open spec fn is_error(status: u16) -> bool {
    400 <= status < 600
}

/// What to do about a restore.
pub enum RestoreStep {
    /// Ask llama-server to restore.
    Post(SlotRequest),
    /// There is nothing to ask for: the answer is this.
    Return(Result<bool, KvCacheError>),
}

/// What a reply to a restore request means.
#[derive(Debug, Clone, Copy, PartialEq, Eq)]
pub enum RestoreVerdict {
    /// The slot is warm: confirm the hit, then answer `true` whatever comes of that.
    Restored,
    /// The slot is cold: answer `false`.
    Rejected,
}

/// How a save ends.
pub struct SaveEnd {
    /// Whether the file that llama-server wrote is to be deleted again.
    pub remove_file: bool,
    pub result: Result<(), KvCacheError>,
}

/// The settings of a store on llama-server.
pub struct LlamaServerSlotStore {
    max_bytes: u64,
    base_url: String,
}

impl LlamaServerSlotStore {
    /// The number of bytes that the slots may take up together.
    pub closed spec fn budget(&self) -> nat {
        self.max_bytes as nat
    }

    /// Where llama-server listens.
    pub closed spec fn address(&self) -> Seq<char> {
        self.base_url@
    }

    /// A budget is a number of 64 bits.
    pub proof fn lemma_budget_fits(&self)
        ensures
            self.budget() <= u64::MAX,
    {
    }

    /// A store of at most `max_bytes` on the llama-server at `base_url`.
    pub fn open(base_url: String, max_bytes: u64) -> (store: Self)
        ensures
            store.budget() == max_bytes,
            store.address() == base_url@,
    {
        LlamaServerSlotStore { max_bytes, base_url }
    }

    /// The request for `action` on slot `slot_id` with the file `filename`.
    fn request(&self, action: SlotAction, slot_id: u32, filename: &str) -> (request: SlotRequest)
        ensures
            request.url@ == slot_url(self.address(), slot_id, action),
            request.body@ == json::filename_body(filename@),
    {
        let mut url = self.base_url.clone();
        url.append("/slots/");
        text::push_decimal(&mut url, slot_id as u128);
        match action {
            SlotAction::Save => url.append("?action=save"),
            SlotAction::Restore => url.append("?action=restore"),
        }
        SlotRequest { url, body: json::body_for(filename) }
    }

    /// The handle recorded under `key`. Changes nothing.
    pub fn find(&self, index: &Manifest, key: &CacheKey) -> (found: Option<CacheHandle>)
        requires
            index.valid(),
        ensures
            match found {
                Some(handle) => {
                    &&& manifest::row_of(index@, key@) is Some
                    &&& handle@ == manifest::row_of(index@, key@).unwrap().handle
                },
                None => manifest::row_of(index@, key@) is None,
            },
    {
        match index.find(key) {
            Some(row) => Some(row.handle),
            None => None,
        }
    }

    /// Counts a hit on `key` now, which makes its row the most recently used whatever the
    /// clock says; without a row, changes nothing.
    pub fn confirm_hit(&self, index: &mut Manifest, key: &CacheKey)
        requires
            old(index).valid(),
            manifest::has_key(old(index)@, key@) ==> old(index)@[manifest::position_of(
                old(index)@,
                key@,
            )].hit_count < i64::MAX,
        ensures
            final(index).valid(),
            exists|now: ClockReading|
                final(index)@ == manifest::hit_latest(
                    old(index)@,
                    key@,
                    clock::nanos_stamp(#[trigger] now@),
                ),
            manifest::has_key(old(index)@, key@) ==> manifest::by_use(final(index)@).last().key
                == key@,
    {
        index.confirm_hit(key)
    }

    /// Refuses a slot that alone exceeds the budget.
    pub fn check_size(&self, meta: CacheMeta) -> (checked: Result<(), KvCacheError>)
        ensures
            match checked {
                Ok(()) => meta.size_bytes <= self.budget(),
                Err(e) => {
                    &&& meta.size_bytes > self.budget()
                    &&& e@ == (ErrorView::SlotExceedsBudget {
                        size_bytes: meta.size_bytes as nat,
                        max_bytes: self.budget(),
                    })
                },
            },
    {
        if meta.size_bytes > self.max_bytes {
            Err(
                KvCacheError::SlotExceedsBudget {
                    size_bytes: meta.size_bytes,
                    max_bytes: self.max_bytes,
                },
            )
        } else {
            Ok(())
        }
    }

    /// Saves a row for `key` as the most recently used, when the clock says `now_secs` and
    /// `reading`, and evicts down to the budget. The row just saved stays. A slot that alone
    /// exceeds the budget is refused, and changes nothing. The sweep that is returned is over
    /// the rows that were evicted.
    pub fn record_at(
        &self,
        index: &mut Manifest,
        key: &CacheKey,
        handle: &CacheHandle,
        meta: CacheMeta,
        now_secs: i64,
        reading: i64,
    ) -> (done: Result<FileSweep, KvCacheError>)
        requires
            old(index).valid(),
        ensures
            final(index).valid(),
            done is Ok <==> meta.size_bytes <= self.budget(),
            match done {
                Ok(sweep) => {
                    let all = manifest::saved_latest(
                        old(index)@,
                        manifest::fresh_row(key@, handle@, meta, now_secs, reading),
                    );
                    &&& final(index)@ == manifest::trimmed(all, self.budget())
                    &&& sweep.valid()
                    &&& sweep.done() == 0
                    &&& sweep.rows() == manifest::listing(manifest::evicted(all, self.budget()))
                    &&& manifest::row_of(final(index)@, key@) is Some
                    &&& manifest::row_of(final(index)@, key@).unwrap().handle == handle@
                    &&& budget::sum(manifest::sizes(final(index)@)) <= self.budget()
                },
                Err(e) => {
                    &&& final(index)@ == old(index)@
                    &&& e@ == (ErrorView::SlotExceedsBudget {
                        size_bytes: meta.size_bytes as nat,
                        max_bytes: self.budget(),
                    })
                },
            },
    {
        if let Err(e) = self.check_size(meta) {
            return Err(e);
        }
        proof {
            let row = manifest::fresh_row(key@, handle@, meta, now_secs, reading);
            manifest_laws::law_record_then_find(index@, row, self.budget());
            manifest_laws::law_eviction(manifest::saved_latest(index@, row), self.budget());
        }
        index.insert_latest(key, handle, meta, now_secs, reading);
        Ok(self.evict_to_budget(index))
    }

    /// Saves a row for `key` now and evicts down to the budget, as `record_at` does. Whatever
    /// the clock says, the row just saved stays.
    pub fn record(
        &self,
        index: &mut Manifest,
        key: &CacheKey,
        handle: &CacheHandle,
        meta: CacheMeta,
    ) -> (done: Result<FileSweep, KvCacheError>)
        requires
            old(index).valid(),
        ensures
            final(index).valid(),
            done is Ok <==> meta.size_bytes <= self.budget(),
            done is Ok ==> manifest::row_of(final(index)@, key@) is Some && manifest::row_of(
                final(index)@,
                key@,
            ).unwrap().handle == handle@,
            done is Ok ==> budget::sum(manifest::sizes(final(index)@)) <= self.budget(),
            match done {
                Ok(sweep) => exists|now: ClockReading|
                    {
                        let row = manifest::row_at(key@, handle@, meta, #[trigger] now@);
                        let all = manifest::saved_latest(old(index)@, row);
                        &&& final(index)@ == manifest::trimmed(all, self.budget())
                        &&& sweep.valid()
                        &&& sweep.done() == 0
                        &&& sweep.rows() == manifest::listing(
                            manifest::evicted(all, self.budget()),
                        )
                    },
                Err(e) => {
                    &&& final(index)@ == old(index)@
                    &&& e@ == (ErrorView::SlotExceedsBudget {
                        size_bytes: meta.size_bytes as nat,
                        max_bytes: self.budget(),
                    })
                },
            },
    {
        let now = clock::read_clock();
        let done = self.record_at(index, key, handle, meta, now.secs(), now.nanos());
        assert(manifest::row_at(key@, handle@, meta, now@) == manifest::fresh_row(
            key@,
            handle@,
            meta,
            clock::secs_stamp(now@),
            clock::nanos_stamp(now@),
        ));
        done
    }

    /// Removes the least recently used rows until the total is at or under the budget. The
    /// sweep that is returned is over these rows: their files are still to be deleted.
    pub fn evict_to_budget(&self, index: &mut Manifest) -> (sweep: FileSweep)
        requires
            old(index).valid(),
        ensures
            final(index).valid(),
            final(index)@ == manifest::trimmed(old(index)@, self.budget()),
            sweep.valid(),
            sweep.done() == 0,
            sweep.rows() == manifest::listing(manifest::evicted(old(index)@, self.budget())),
    {
        FileSweep::new(index.evict_and_remove(self.max_bytes))
    }

    /// Given what a lookup of the key found, decides on a restore into slot `slot_id`:
    /// without a handle the answer is `false`, and llama-server is not asked at all.
    pub fn restore_into_slot(
        &self,
        found: Result<Option<CacheHandle>, KvCacheError>,
        slot_id: u32,
    ) -> (step: RestoreStep)
        ensures
            match found {
                Ok(Some(handle)) => {
                    &&& step matches RestoreStep::Post(request)
                    &&& request.url@ == slot_url(self.address(), slot_id, SlotAction::Restore)
                    &&& request.body@ == json::filename_body(handle@)
                },
                Ok(None) => step == RestoreStep::Return(Ok(false)),
                Err(e) => step == RestoreStep::Return(Err(e)),
            },
            forall|reply: SlotReply| #[trigger]
                restore_answer(found, reply) == match step {
                    RestoreStep::Return(answer) => answer,
                    RestoreStep::Post(_) => Ok(restore_verdict(reply) == RestoreVerdict::Restored),
                },
    {
        match found {
            Ok(Some(handle)) => RestoreStep::Post(
                self.request(SlotAction::Restore, slot_id, handle.as_str()),
            ),
            Ok(None) => RestoreStep::Return(Ok(false)),
            Err(e) => RestoreStep::Return(Err(e)),
        }
    }

    /// Decides what a reply to a restore request means. No reply is an error: whatever went
    /// wrong, the caller can go on with a cold request.
    pub fn restore_replied(&self, reply: &SlotReply) -> (verdict: RestoreVerdict)
        ensures
            verdict == restore_verdict(*reply),
    {
        match reply {
            SlotReply::Answered { status, .. } => {
                if 200 <= *status && *status < 300 {
                    RestoreVerdict::Restored
                } else {
                    RestoreVerdict::Rejected
                }
            },
            SlotReply::Failed { .. } => RestoreVerdict::Rejected,
        }
    }

    /// The answer once the hit was confirmed, or could not be: the slot is warm either way.
    pub fn restore_confirmed(&self, confirmed: &Result<(), KvCacheError>) -> (answer: Result<
        bool,
        KvCacheError,
    >)
        ensures
            answer == Ok::<bool, KvCacheError>(true),
    {
        Ok(true)
    }

    /// Decides on a save of slot `slot_id` under `key`: the request and the name of the file
    /// that llama-server is asked to write, or a refusal when the slot is announced to be
    /// larger than the budget.
    pub fn save_from_slot(&self, key: &CacheKey, slot_id: u32, meta: CacheMeta) -> (step: Result<
        (SlotRequest, String),
        KvCacheError,
    >)
        ensures
            match step {
                Ok((request, filename)) => {
                    &&& meta.size_bytes <= self.budget()
                    &&& filename@ == slot_name::slot_name(key@)
                    &&& request.url@ == slot_url(self.address(), slot_id, SlotAction::Save)
                    &&& request.body@ == json::filename_body(slot_name::slot_name(key@))
                },
                Err(e) => {
                    &&& meta.size_bytes > self.budget()
                    &&& e@ == (ErrorView::SlotExceedsBudget {
                        size_bytes: meta.size_bytes as nat,
                        max_bytes: self.budget(),
                    })
                },
            },
    {
        if let Err(e) = self.check_size(meta) {
            return Err(e);
        }
        let filename = slot_name::slot_filename(key);
        let request = self.request(SlotAction::Save, slot_id, filename.as_str());
        Ok((request, filename))
    }

    /// Decides whether a reply to a save request lets the save go on.
    pub fn save_replied(&self, reply: SlotReply) -> (accepted: Result<(), KvCacheError>)
        ensures
            match reply {
                SlotReply::Answered { status, error } => if is_error(status) {
                    accepted matches Err(e) && e@ == (ErrorView::Backend { words: error@ })
                } else {
                    accepted is Ok
                },
                SlotReply::Failed { error } => accepted matches Err(e) && e@ == (
                ErrorView::Backend { words: error@ }),
            },
    {
        match reply {
            SlotReply::Answered { status, error } => {
                if 400 <= status && status < 600 {
                    Err(KvCacheError::Backend(error))
                } else {
                    Ok(())
                }
            },
            SlotReply::Failed { error } => Err(KvCacheError::Backend(error)),
        }
    }

    /// What to record of a slot that was saved: the size of the file that llama-server wrote,
    /// or, where it could not be measured, the size that the caller announced.
    pub fn saved_meta(&self, announced: CacheMeta, file_len: Option<u64>) -> (meta: CacheMeta)
        ensures
            meta == measured(announced, file_len),
    {
        match file_len {
            Some(len) => CacheMeta { size_bytes: len, token_count: announced.token_count },
            None => announced,
        }
    }

    /// How a save ends once its record succeeded or failed: after a failed record the file
    /// that llama-server wrote is deleted again. That goes for every failure; where the row
    /// was written and only an evicted slot's file could not be deleted, the row stays behind
    /// without its file.
    pub fn save_recorded(&self, recorded: Result<(), KvCacheError>) -> (end: SaveEnd)
        ensures
            end.result == recorded,
            end.remove_file == (recorded is Err),
    {
        let remove_file = recorded.is_err();
        SaveEnd { remove_file, result: recorded }
    }
}

/// What a reply to a restore request means.
pub open spec fn restore_verdict(reply: SlotReply) -> RestoreVerdict {
    match reply {
        SlotReply::Answered { status, .. } => if is_success(status) {
            RestoreVerdict::Restored
        } else {
            RestoreVerdict::Rejected
        },
        SlotReply::Failed { .. } => RestoreVerdict::Rejected,
    }
}

/// What a restore answers, given what the lookup found and what llama-server replies when it
/// is asked.
pub open spec fn restore_answer(
    found: Result<Option<CacheHandle>, KvCacheError>,
    reply: SlotReply,
) -> Result<bool, KvCacheError> {
    match found {
        Ok(Some(_)) => Ok(restore_verdict(reply) == RestoreVerdict::Restored),
        Ok(None) => Ok(false),
        Err(e) => Err(e),
    }
}

/// The size that counts for a slot that was saved: that of its file, where it was measured.
pub open spec fn measured(announced: CacheMeta, file_len: Option<u64>) -> CacheMeta {
    CacheMeta {
        size_bytes: match file_len {
            Some(len) => len,
            None => announced.size_bytes,
        },
        token_count: announced.token_count,
    }
}

} // verus!
