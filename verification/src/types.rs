//! The vocabulary of the cache: keys, handles, sizes, reports and errors.
use vstd::prelude::*;

use crate::text;

verus! {

/// Identifies one cached prefix. Two turns produce the same key only when they would
/// prefill identically: same backend, same model and build, and an identical stable
/// prompt prefix. Conversation content never takes part in it.
#[derive(Debug, PartialEq, Eq, Hash)]
pub struct CacheKey {
    pub backend_id: String,
    pub model_id: String,
    pub build_hash: String,
    pub prefix_hash: String,
}

/// What a [`CacheKey`] says: the text of its four fields.
#[verifier::ext_equal]
pub struct KeyView {
    pub backend_id: Seq<char>,
    pub model_id: Seq<char>,
    pub build_hash: Seq<char>,
    pub prefix_hash: Seq<char>,
}

impl View for CacheKey {
    type V = KeyView;

    open spec fn view(&self) -> KeyView {
        KeyView {
            backend_id: self.backend_id@,
            model_id: self.model_id@,
            build_hash: self.build_hash@,
            prefix_hash: self.prefix_hash@,
        }
    }
}

impl Clone for CacheKey {
    fn clone(&self) -> (copy: Self)
        ensures
            copy == *self,
    {
        CacheKey {
            backend_id: self.backend_id.clone(),
            model_id: self.model_id.clone(),
            build_hash: self.build_hash.clone(),
            prefix_hash: self.prefix_hash.clone(),
        }
    }
}

impl CacheKey {
    /// Whether two keys agree in all four fields.
    pub fn same_as(&self, other: &CacheKey) -> (same: bool)
        ensures
            same == (self@ == other@),
    {
        self.prefix_hash == other.prefix_hash && self.model_id == other.model_id && self.build_hash
            == other.build_hash && self.backend_id == other.backend_id
    }
}

/// Text that a [`CacheHandle`] can be made from.
pub trait HandleText: Sized {
    /// The text itself.
    spec fn text(&self) -> Seq<char>;

    fn into_text(self) -> (text: String)
        ensures
            text@ == self.text(),
    ;
}

impl HandleText for String {
    open spec fn text(&self) -> Seq<char> {
        self@
    }

    fn into_text(self) -> (text: String) {
        self
    }
}

impl<'a> HandleText for &'a str {
    open spec fn text(&self) -> Seq<char> {
        self@
    }

    fn into_text(self) -> (text: String) {
        self.to_owned()
    }
}

impl<'a> HandleText for &'a String {
    open spec fn text(&self) -> Seq<char> {
        self@
    }

    fn into_text(self) -> (text: String) {
        self.clone()
    }
}

impl HandleText for Box<str> {
    open spec fn text(&self) -> Seq<char> {
        self@
    }

    fn into_text(self) -> (text: String) {
        (*self).to_owned()
    }
}

impl HandleText for char {
    open spec fn text(&self) -> Seq<char> {
        seq![*self]
    }

    fn into_text(self) -> (text: String) {
        let mut text = String::new();
        text.push(self);
        assert(text@ =~= seq![self]);
        text
    }
}

/// Opaque handle to a saved cache entry. Stores choose its inner shape (the llama-server
/// store uses a slot filename); consumers only pass it through `new` and `as_str`.
#[derive(Debug, PartialEq, Eq)]
pub struct CacheHandle(String);

impl View for CacheHandle {
    type V = Seq<char>;

    closed spec fn view(&self) -> Seq<char> {
        self.0@
    }
}

impl Clone for CacheHandle {
    fn clone(&self) -> (copy: Self)
        ensures
            copy == *self,
    {
        CacheHandle(self.0.clone())
    }
}

/// A name that denotes one entry of the directory it is joined onto: not empty, not `.`
/// or `..`, and free of path separators.
pub open spec fn is_single_component(name: Seq<char>) -> bool {
    &&& name.len() > 0
    &&& name != seq!['.']
    &&& name != seq!['.', '.']
    &&& !name.contains('/')
    &&& !name.contains('\\')
}

impl CacheHandle {
    pub fn new<T: HandleText>(id: T) -> (handle: Self)
        ensures
            handle@ == id.text(),
    {
        CacheHandle(id.into_text())
    }

    pub fn as_str(&self) -> (id: &str)
        ensures
            id@ == self@,
    {
        self.0.as_str()
    }

    /// Whether two handles hold the same text.
    pub fn same_as(&self, other: &CacheHandle) -> (same: bool)
        ensures
            same == (self@ == other@),
    {
        self.0 == other.0
    }

    /// Whether the handle can be joined onto a directory without leaving it.
    pub fn is_safe_filename(&self) -> (safe: bool)
        ensures
            safe == is_single_component(self@),
    {
        proof {
            reveal_strlit(".");
            reveal_strlit("..");
            assert("."@ =~= seq!['.']);
            assert(".."@ =~= seq!['.', '.']);
        }
        if self.0.as_str().is_empty() || self.0 == ".".to_owned() || self.0 == "..".to_owned() {
            return false;
        }
        let name = self.0.as_str();
        for c in chars: name.chars()
            invariant
                chars.seq() == name@,
                name@ == self@,
                forall|i: int| 0 <= i < chars.index() ==> name@[i] != '/' && name@[i] != '\\',
        {
            if c == '/' || c == '\\' {
                assert(name@[chars.index()] == c);
                return false;
            }
        }
        true
    }
}

/// Size and shape recorded alongside a saved entry.
#[derive(Debug, Clone, Copy, PartialEq, Eq)]
pub struct CacheMeta {
    pub size_bytes: u64,
    pub token_count: u64,
}

/// What an eviction pass removed.
#[derive(Debug, Clone, Copy, PartialEq, Eq)]
pub struct EvictionReport {
    pub evicted_count: u64,
    pub bytes_freed: u64,
}

impl Default for EvictionReport {
    fn default() -> (report: Self)
        ensures
            report == (EvictionReport { evicted_count: 0, bytes_freed: 0 }),
    {
        EvictionReport { evicted_count: 0, bytes_freed: 0 }
    }
}

/// Errors a store can return.
#[derive(Debug)]
pub enum KvCacheError {
    /// A slot is larger than the whole budget.
    SlotExceedsBudget { size_bytes: u64, max_bytes: u64 },
    /// What lies underneath the store failed, with its own words.
    Backend(String),
}

/// What a [`KvCacheError`] says.
#[verifier::ext_equal]
pub enum ErrorView {
    SlotExceedsBudget { size_bytes: nat, max_bytes: nat },
    Backend { words: Seq<char> },
}

impl View for KvCacheError {
    type V = ErrorView;

    open spec fn view(&self) -> ErrorView {
        match self {
            KvCacheError::SlotExceedsBudget { size_bytes, max_bytes } => {
                ErrorView::SlotExceedsBudget {
                    size_bytes: *size_bytes as nat,
                    max_bytes: *max_bytes as nat,
                }
            },
            KvCacheError::Backend(words) => ErrorView::Backend { words: words@ },
        }
    }
}

impl ErrorView {
    /// The sentence that reports the error.
    pub open spec fn message(self) -> Seq<char> {
        match self {
            ErrorView::SlotExceedsBudget { size_bytes, max_bytes } => "kvcache slot of "@
                + text::decimal(size_bytes) + " bytes exceeds the configured budget of "@
                + text::decimal(max_bytes) + " bytes"@,
            ErrorView::Backend { words } => "kvcache backend error: "@ + words,
        }
    }
}

impl KvCacheError {
    /// The sentence that reports the error.
    pub fn to_string(&self) -> (message: String)
        ensures
            message@ == self@.message(),
    {
        match self {
            KvCacheError::SlotExceedsBudget { size_bytes, max_bytes } => {
                let mut message = "kvcache slot of ".to_owned();
                text::push_decimal(&mut message, *size_bytes as u128);
                message.append(" bytes exceeds the configured budget of ");
                text::push_decimal(&mut message, *max_bytes as u128);
                message.append(" bytes");
                message
            },
            KvCacheError::Backend(words) => {
                let mut message = "kvcache backend error: ".to_owned();
                message.append(words.as_str());
                message
            },
        }
    }
}

} // verus!
