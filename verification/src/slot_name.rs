//! The name of the file that holds a key's slot.
use vstd::prelude::*;
use vstd::utf8;

use crate::text;
use crate::types;
use crate::types::{CacheKey, KeyView};

verus! {

/// Where the FNV-1a hash of 64 bits starts.
pub const FNV_OFFSET_BASIS: u64 = 0xcbf2_9ce4_8422_2325;

/// What FNV-1a multiplies by after each byte.
pub const FNV_PRIME: u64 = 0x0000_0100_0000_01b3;

/// The FNV-1a hash of a run of bytes.
pub open spec fn fnv1a_hash(bytes: Seq<u8>) -> u64
    decreases bytes.len(),
{
    if bytes.len() == 0 {
        FNV_OFFSET_BASIS
    } else {
        (fnv1a_hash(bytes.drop_last()) ^ (bytes.last() as u64)).wrapping_mul(FNV_PRIME)
    }
}

/// The characters that a slot name takes over from a key as they are: ASCII letters and
/// digits and the underscore.
pub open spec fn is_plain(c: char) -> bool {
    ('0' <= c && c <= '9') || ('A' <= c && c <= 'Z') || ('a' <= c && c <= 'z') || c == '_'
}

/// A key's field with an underscore for every character that is not plain.
pub open spec fn normalized(field: Seq<char>) -> Seq<char> {
    field.map_values(
        |c: char|
            if is_plain(c) {
                c
            } else {
                '_'
            },
    )
}

/// Two keys whose four fields are the same once normalized.
pub open spec fn normalize_alike(a: KeyView, b: KeyView) -> bool {
    &&& normalized(a.backend_id) == normalized(b.backend_id)
    &&& normalized(a.model_id) == normalized(b.model_id)
    &&& normalized(a.build_hash) == normalized(b.build_hash)
    &&& normalized(a.prefix_hash) == normalized(b.prefix_hash)
}

/// Two keys whose hashes agree although what is hashed differs.
pub open spec fn hashes_collide(a: KeyView, b: KeyView) -> bool {
    &&& utf8::encode_utf8(raw_text(a)) != utf8::encode_utf8(raw_text(b))
    &&& key_hash(a) == key_hash(b)
}

/// The four fields of a key as they are, parted by NUL characters.
pub open spec fn raw_text(key: KeyView) -> Seq<char> {
    key.backend_id + seq!['\0'] + key.model_id + seq!['\0'] + key.build_hash + seq!['\0']
        + key.prefix_hash
}

/// The hash by which the names of keys with the same normalized fields differ.
pub open spec fn key_hash(key: KeyView) -> u64 {
    fnv1a_hash(utf8::encode_utf8(raw_text(key)))
}

/// The four fields of a key, normalized and parted by hyphens.
pub open spec fn readable_part(key: KeyView) -> Seq<char> {
    normalized(key.backend_id) + seq!['-'] + normalized(key.model_id) + seq!['-'] + normalized(
        key.build_hash,
    ) + seq!['-'] + normalized(key.prefix_hash)
}

/// The name of the file that holds the slot of `key`.
pub open spec fn slot_name(key: KeyView) -> Seq<char> {
    readable_part(key) + seq!['-'] + text::hex(key_hash(key) as nat, 16) + ".slot"@
}

/// Plain FNV-1a. It only tells apart the names of keys that normalize alike; nothing else
/// depends on its values.
pub fn fnv1a(bytes: &[u8]) -> (hash: u64)
    ensures
        hash == fnv1a_hash(bytes@),
{
    let mut hash: u64 = FNV_OFFSET_BASIS;
    let mut i: usize = 0;
    assert(bytes@.take(0) =~= Seq::<u8>::empty());
    while i < bytes.len()
        invariant
            i <= bytes.len(),
            hash == fnv1a_hash(bytes@.take(i as int)),
        decreases bytes.len() - i,
    {
        assert(bytes@.take(i + 1).drop_last() =~= bytes@.take(i as int));
        hash = (hash ^ (bytes[i] as u64)).wrapping_mul(FNV_PRIME);
        i = i + 1;
    }
    assert(bytes@.take(i as int) =~= bytes@);
    hash
}

/// Appends a field of a key with an underscore for every character that is not plain.
fn push_normalized(out: &mut String, field: &str)
    ensures
        final(out)@ == old(out)@ + normalized(field@),
{
    for c in chars: field.chars()
        invariant
            chars.seq() == field@,
            out@ == old(out)@ + normalized(field@.take(chars.index())),
    {
        assert(field@.take(chars.index() + 1) =~= field@.take(chars.index()).push(c));
        let plain = ('0' <= c && c <= '9') || ('A' <= c && c <= 'Z') || ('a' <= c && c <= 'z')
            || c == '_';
        out.push(
            if plain {
                c
            } else {
                '_'
            },
        );
        assert(normalized(field@.take(chars.index() + 1)) =~= normalized(
            field@.take(chars.index()),
        ).push(
            if plain {
                c
            } else {
                '_'
            },
        ));
    }
    assert(field@.take(field@.len() as int) =~= field@);
}

/// Deterministic name of the file that holds the slot of `key`, safe for the filesystem and
/// for llama-server, whose `/slots` API takes a bare filename.
///
/// Every field is normalized and folded into one flat name, with `-` between the fields,
/// which no normalized field contains. Normalizing loses what told some keys apart, so the
/// name ends with a hash of the fields as they are.
pub fn slot_filename(key: &CacheKey) -> (name: String)
    ensures
        name@ == slot_name(key@),
{
    let mut raw = String::new();
    raw.append(key.backend_id.as_str());
    raw.push('\0');
    raw.append(key.model_id.as_str());
    raw.push('\0');
    raw.append(key.build_hash.as_str());
    raw.push('\0');
    raw.append(key.prefix_hash.as_str());
    assert(raw@ =~= raw_text(key@));
    let hash = fnv1a(raw.as_str().as_bytes());

    let mut name = String::new();
    push_normalized(&mut name, key.backend_id.as_str());
    name.push('-');
    push_normalized(&mut name, key.model_id.as_str());
    name.push('-');
    push_normalized(&mut name, key.build_hash.as_str());
    name.push('-');
    push_normalized(&mut name, key.prefix_hash.as_str());
    assert(name@ =~= readable_part(key@));
    name.push('-');
    text::push_hex(&mut name, hash, 16);
    name.append(".slot");
    assert(name@ =~= slot_name(key@));
    name
}

/// A normalized field holds plain characters only, and as many as the field.
pub proof fn lemma_normalized(field: Seq<char>)
    ensures
        normalized(field).len() == field.len(),
        forall|i: int| 0 <= i < field.len() ==> is_plain(#[trigger] normalized(field)[i]),
{
}

/// Text without hyphens ends where the first hyphen stands.
proof fn lemma_first_hyphen(a: Seq<char>, x: Seq<char>, b: Seq<char>, y: Seq<char>)
    requires
        !a.contains('-'),
        !b.contains('-'),
        a + seq!['-'] + x == b + seq!['-'] + y,
    ensures
        a == b,
        x == y,
{
    let left = a + seq!['-'] + x;
    let right = b + seq!['-'] + y;
    assert(left[a.len() as int] == '-');
    assert(right[b.len() as int] == '-');
    if a.len() < b.len() {
        assert(right[a.len() as int] == b[a.len() as int]);
        assert(b.contains('-'));
    }
    if b.len() < a.len() {
        assert(left[b.len() as int] == a[b.len() as int]);
        assert(a.contains('-'));
    }
    assert(left.take(a.len() as int) =~= a);
    assert(right.take(b.len() as int) =~= b);
    assert(left.skip((a.len() + 1) as int) =~= x);
    assert(right.skip((b.len() + 1) as int) =~= y);
}

/// The readable part of a name determines the four normalized fields.
proof fn lemma_readable_part(a: KeyView, b: KeyView)
    requires
        readable_part(a) == readable_part(b),
    ensures
        normalize_alike(a, b),
{
    let (a1, a2, a3, a4) = (
        normalized(a.backend_id),
        normalized(a.model_id),
        normalized(a.build_hash),
        normalized(a.prefix_hash),
    );
    let (b1, b2, b3, b4) = (
        normalized(b.backend_id),
        normalized(b.model_id),
        normalized(b.build_hash),
        normalized(b.prefix_hash),
    );
    lemma_normalized(a.backend_id);
    lemma_normalized(a.model_id);
    lemma_normalized(a.build_hash);
    lemma_normalized(b.backend_id);
    lemma_normalized(b.model_id);
    lemma_normalized(b.build_hash);
    let dash = seq!['-'];
    assert(readable_part(a) =~= a1 + dash + (a2 + dash + (a3 + dash + a4)));
    assert(readable_part(b) =~= b1 + dash + (b2 + dash + (b3 + dash + b4)));
    lemma_first_hyphen(a1, a2 + dash + (a3 + dash + a4), b1, b2 + dash + (b3 + dash + b4));
    lemma_first_hyphen(a2, a3 + dash + a4, b2, b3 + dash + b4);
    lemma_first_hyphen(a3, a4, b3, b4);
}

/// Two keys have the same name exactly when their fields normalize alike and their hashes
/// agree.
pub proof fn law_same_name(a: KeyView, b: KeyView)
    ensures
        slot_name(a) == slot_name(b) <==> normalize_alike(a, b) && key_hash(a) == key_hash(b),
{
    reveal_strlit(".slot");
    if slot_name(a) == slot_name(b) {
        let ha = text::hex(key_hash(a) as nat, 16);
        let hb = text::hex(key_hash(b) as nat, 16);
        text::lemma_hex_digits(key_hash(a) as nat, 16);
        text::lemma_hex_digits(key_hash(b) as nat, 16);
        let n = readable_part(a).len() as int;
        assert(slot_name(a).len() == n + 22);
        assert(slot_name(b).len() == readable_part(b).len() + 22);
        assert(slot_name(a).take(n) =~= readable_part(a));
        assert(slot_name(b).take(n) =~= readable_part(b));
        assert(slot_name(a).subrange(n + 1, n + 17) =~= ha);
        assert(slot_name(b).subrange(n + 1, n + 17) =~= hb);
        assert(vstd::arithmetic::power::pow(16, 16) == 0x1_0000_0000_0000_0000) by {
            reveal_with_fuel(vstd::arithmetic::power::pow, 17);
        }
        text::lemma_hex_injective(key_hash(a) as nat, key_hash(b) as nat, 16);
        lemma_readable_part(a, b);
    }
}

/// Keys whose fields are as long and whose raw text is the same are the same key.
proof fn lemma_raw_text(a: KeyView, b: KeyView)
    requires
        a.backend_id.len() == b.backend_id.len(),
        a.model_id.len() == b.model_id.len(),
        a.build_hash.len() == b.build_hash.len(),
        raw_text(a) == raw_text(b),
    ensures
        a == b,
{
    let p1 = a.backend_id.len() as int;
    let p2 = p1 + 1 + a.model_id.len();
    let p3 = p2 + 1 + a.build_hash.len();
    let len = raw_text(a).len() as int;
    assert(raw_text(a).take(p1) =~= a.backend_id);
    assert(raw_text(b).take(p1) =~= b.backend_id);
    assert(raw_text(a).subrange(p1 + 1, p2) =~= a.model_id);
    assert(raw_text(b).subrange(p1 + 1, p2) =~= b.model_id);
    assert(raw_text(a).subrange(p2 + 1, p3) =~= a.build_hash);
    assert(raw_text(b).subrange(p2 + 1, p3) =~= b.build_hash);
    assert(raw_text(a).subrange(p3 + 1, len) =~= a.prefix_hash);
    assert(raw_text(b).subrange(p3 + 1, len) =~= b.prefix_hash);
}

/// Two different keys have two different names, unless they normalize alike and their
/// hashes collide.
pub proof fn law_distinct_keys_have_distinct_names(a: KeyView, b: KeyView)
    requires
        a != b,
        !(normalize_alike(a, b) && hashes_collide(a, b)),
    ensures
        slot_name(a) != slot_name(b),
{
    law_same_name(a, b);
    if slot_name(a) == slot_name(b) {
        lemma_normalized(a.backend_id);
        lemma_normalized(b.backend_id);
        lemma_normalized(a.model_id);
        lemma_normalized(b.model_id);
        lemma_normalized(a.build_hash);
        lemma_normalized(b.build_hash);
        utf8::encode_utf8_decode_utf8(raw_text(a));
        utf8::encode_utf8_decode_utf8(raw_text(b));
        lemma_raw_text(a, b);
    }
}

/// The characters that occur in slot names.
pub open spec fn is_name_char(c: char) -> bool {
    is_plain(c) || c == '-' || c == '.'
}

/// A slot name is flat and safe: it holds letters, digits, underscores and hyphens and one
/// final `.slot`, and joined onto a directory it denotes an entry of that directory.
pub proof fn law_slot_name_is_safe(key: KeyView)
    ensures
        types::is_single_component(slot_name(key)),
        forall|i: int| 0 <= i < slot_name(key).len() ==> is_name_char(#[trigger] slot_name(key)[i]),
        forall|i: int|
            0 <= i < slot_name(key).len() - 5 ==> #[trigger] slot_name(key)[i] != '.',
{
    lemma_normalized(key.backend_id);
    lemma_normalized(key.model_id);
    lemma_normalized(key.build_hash);
    lemma_normalized(key.prefix_hash);
    text::lemma_hex_digits(key_hash(key) as nat, 16);
    reveal_strlit(".slot");
    let readable = readable_part(key);
    assert forall|i: int| 0 <= i < readable.len() implies is_plain(#[trigger] readable[i])
        || readable[i] == '-' by {}
    let name = slot_name(key);
    assert forall|i: int| 0 <= i < name.len() implies is_name_char(#[trigger] name[i]) && (i
        < name.len() - 5 ==> name[i] != '.') by {
        if i < readable.len() {
            assert(name[i] == readable[i]);
        } else if readable.len() < i < readable.len() + 17 {
            let h = text::hex(key_hash(key) as nat, 16);
            assert(name[i] == h[i - readable.len() - 1]);
            assert(text::is_hex_digit(name[i]));
        }
    }
    assert(name.len() >= 22);
    if name.contains('/') {
        let i = choose|i: int| 0 <= i < name.len() && name[i] == '/';
        assert(is_name_char(name[i]));
    }
    if name.contains('\\') {
        let i = choose|i: int| 0 <= i < name.len() && name[i] == '\\';
        assert(is_name_char(name[i]));
    }
}

} // verus!
