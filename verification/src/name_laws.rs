//! What tells the names of slot files apart, and what they show.
use vstd::arithmetic::div_mod::{lemma_mod_multiples_vanish, lemma_mul_mod_noop_left};
use vstd::prelude::*;
use vstd::utf8;

use crate::slot_name;
use crate::text;
use crate::text_laws;
use crate::types::KeyView;

verus! {

/// Multiplying by FNV-1a's prime can be undone: multiplying the product by the inverse of the
/// prime gives the factor back.
proof fn lemma_prime_undone(x: u64)
    ensures
        (x.wrapping_mul(slot_name::FNV_PRIME) * 0xce96_5057_aff6_957b) % 0x1_0000_0000_0000_0000
            == x,
{
    let m: int = 0x1_0000_0000_0000_0000;
    let prime: int = slot_name::FNV_PRIME as int;
    let inverse: int = 0xce96_5057_aff6_957b;
    let product = x as int * prime;
    lemma_mul_mod_noop_left(product, inverse, m);
    assert(prime * inverse == 887285111055 * m + 1);
    assert(product * inverse == m * (887285111055 * x as int) + x as int) by (nonlinear_arith)
        requires
            product == x as int * prime,
            prime * inverse == 887285111055 * m + 1,
    ;
    lemma_mod_multiples_vanish(887285111055 * x as int, x as int, m);
    assert(x.wrapping_mul(slot_name::FNV_PRIME) as int == product % m);
}

/// Two states that one more byte leads to the same state were the same, if the byte was; and
/// from one state only the same byte leads to the same state.
proof fn lemma_step(h: u64, k: u64, x: u8, y: u8)
    ensures
        ({
            let after_h = (h ^ (x as u64)).wrapping_mul(slot_name::FNV_PRIME);
            let after_k = (k ^ (y as u64)).wrapping_mul(slot_name::FNV_PRIME);
            &&& x == y && h != k ==> after_h != after_k
            &&& h == k && x != y ==> after_h != after_k
        }),
{
    let (bx, by) = (x as u64, y as u64);
    lemma_prime_undone(h ^ bx);
    lemma_prime_undone(k ^ by);
    assert((h ^ bx) == (k ^ by) && bx == by ==> h == k) by (bit_vector);
    assert((h ^ bx) == (k ^ by) && h == k ==> bx == by) by (bit_vector);
}

/// What comes later never hides a difference: followed by the same bytes, two byte strings
/// have the same hash exactly when they had the same hash before.
pub proof fn law_hash_goes_on(a: Seq<u8>, b: Seq<u8>, more: Seq<u8>)
    ensures
        slot_name::fnv1a_hash(a + more) == slot_name::fnv1a_hash(b + more)
            <==> slot_name::fnv1a_hash(a) == slot_name::fnv1a_hash(b),
    decreases more.len(),
{
    if more.len() == 0 {
        assert(a + more =~= a);
        assert(b + more =~= b);
    } else {
        let fewer = more.drop_last();
        law_hash_goes_on(a, b, fewer);
        assert((a + more).drop_last() =~= a + fewer);
        assert((b + more).drop_last() =~= b + fewer);
        assert((a + more).last() == more.last());
        assert((b + more).last() == more.last());
        lemma_step(
            slot_name::fnv1a_hash(a + fewer),
            slot_name::fnv1a_hash(b + fewer),
            more.last(),
            more.last(),
        );
    }
}

/// The hash depends on every byte: two byte strings of the same length that differ in exactly
/// one place have different hashes.
pub proof fn law_hash_depends_on_every_byte(a: Seq<u8>, b: Seq<u8>, i: int)
    requires
        a.len() == b.len(),
        0 <= i < a.len(),
        a[i] != b[i],
        forall|j: int| 0 <= j < a.len() && j != i ==> #[trigger] a[j] == b[j],
    ensures
        slot_name::fnv1a_hash(a) != slot_name::fnv1a_hash(b),
{
    let head = a.take(i);
    let (x, y) = (head.push(a[i]), head.push(b[i]));
    let more = a.skip(i + 1);
    assert(x.drop_last() =~= head);
    assert(y.drop_last() =~= head);
    lemma_step(slot_name::fnv1a_hash(head), slot_name::fnv1a_hash(head), a[i], b[i]);
    law_hash_goes_on(x, y, more);
    assert(x + more =~= a);
    assert(y + more =~= b);
}

/// Whether two texts differ in the one character at `i`, and both have a character of ASCII
/// there.
pub open spec fn one_letter_apart(a: Seq<char>, b: Seq<char>, i: int) -> bool {
    &&& a.len() == b.len()
    &&& 0 <= i < a.len()
    &&& a[i] != b[i]
    &&& '\0' <= a[i] <= '\u{7f}'
    &&& '\0' <= b[i] <= '\u{7f}'
    &&& forall|j: int| 0 <= j < a.len() && j != i ==> #[trigger] a[j] == b[j]
}

/// Text is encoded character by character.
proof fn lemma_encoded(a: Seq<char>, b: Seq<char>)
    ensures
        utf8::encode_utf8(a + b) == utf8::encode_utf8(a) + utf8::encode_utf8(b),
    decreases a.len(),
{
    if a.len() == 0 {
        assert(a + b =~= b);
        assert(utf8::encode_utf8(a) + utf8::encode_utf8(b) =~= utf8::encode_utf8(b));
    } else {
        lemma_encoded(a.drop_first(), b);
        assert((a + b).drop_first() =~= a.drop_first() + b);
        assert((a + b)[0] == a[0]);
        assert(utf8::encode_utf8(a + b) =~= utf8::encode_utf8(a) + utf8::encode_utf8(b));
    }
}

/// The hashes of two texts that are one letter apart differ.
proof fn lemma_one_letter(a: Seq<char>, b: Seq<char>, i: int)
    requires
        one_letter_apart(a, b, i),
    ensures
        slot_name::fnv1a_hash(utf8::encode_utf8(a)) != slot_name::fnv1a_hash(utf8::encode_utf8(b)),
{
    broadcast use utf8::is_ascii_chars_encode_utf8;

    let head = a.take(i);
    let more = a.skip(i + 1);
    let (x, y) = (seq![a[i]], seq![b[i]]);
    assert(head + x + more =~= a);
    assert(head + y + more =~= b);
    lemma_encoded(head + x, more);
    lemma_encoded(head, x);
    lemma_encoded(head + y, more);
    lemma_encoded(head, y);
    let front = utf8::encode_utf8(head);
    let back = utf8::encode_utf8(more);
    let (bx, by) = (utf8::encode_utf8(x), utf8::encode_utf8(y));
    assert(utf8::is_ascii_chars(x) && utf8::is_ascii_chars(y));
    assert(bx.len() == 1 && by.len() == 1 && bx[0] == a[i] as u8 && by[0] == b[i] as u8);
    assert(a[i] as u8 != b[i] as u8);
    law_hash_depends_on_every_byte(front + bx + back, front + by + back, front.len() as int);
}

/// Two keys that differ in a single character of ASCII, in whichever field, have different
/// names.
pub proof fn law_one_letter_makes_another_name(a: KeyView, b: KeyView, i: int)
    requires
        ({
            ||| b == (KeyView { backend_id: b.backend_id, ..a }) && one_letter_apart(
                a.backend_id,
                b.backend_id,
                i,
            )
            ||| b == (KeyView { model_id: b.model_id, ..a }) && one_letter_apart(
                a.model_id,
                b.model_id,
                i,
            )
            ||| b == (KeyView { build_hash: b.build_hash, ..a }) && one_letter_apart(
                a.build_hash,
                b.build_hash,
                i,
            )
            ||| b == (KeyView { prefix_hash: b.prefix_hash, ..a }) && one_letter_apart(
                a.prefix_hash,
                b.prefix_hash,
                i,
            )
        }),
    ensures
        slot_name::slot_name(a) != slot_name::slot_name(b),
{
    let (n1, n2, n3) = (
        a.backend_id.len() as int,
        a.model_id.len() as int,
        a.build_hash.len() as int,
    );
    let at = if one_letter_apart(a.backend_id, b.backend_id, i) {
        i
    } else if one_letter_apart(a.model_id, b.model_id, i) {
        n1 + 1 + i
    } else if one_letter_apart(a.build_hash, b.build_hash, i) {
        n1 + n2 + 2 + i
    } else {
        n1 + n2 + n3 + 3 + i
    };
    let (x, y) = (slot_name::raw_text(a), slot_name::raw_text(b));
    assert(one_letter_apart(x, y, at));
    lemma_one_letter(x, y, at);
    slot_name::law_same_name(a, b);
}

/// How a character of a key shows in a name: letters and digits of ASCII and the underscore as
/// they are, anything else as an underscore.
pub open spec fn shown_as(c: char) -> char {
    let code = c as nat;
    if 48 <= code <= 57 || 65 <= code <= 90 || code == 95 || 97 <= code <= 122 {
        c
    } else {
        '_'
    }
}

/// Whether `field` shows in `name` from `at` on, character by character.
pub open spec fn shows(name: Seq<char>, at: int, field: Seq<char>) -> bool {
    &&& 0 <= at
    &&& at + field.len() <= name.len()
    &&& forall|i: int| 0 <= i < field.len() ==> name[at + i] == shown_as(#[trigger] field[i])
}

/// A name shows all four fields in full, in order and with hyphens between them, then the
/// hash of the key in sixteen hexadecimal digits, and ends in `.slot`.
pub proof fn law_slot_name_shows_the_key(key: KeyView)
    ensures
        ({
            let name = slot_name::slot_name(key);
            let model = key.backend_id.len() as int + 1;
            let build = model + key.model_id.len() + 1;
            let prefix = build + key.build_hash.len() + 1;
            let hash = prefix + key.prefix_hash.len() + 1;
            &&& name.len() == hash + 21
            &&& shows(name, 0, key.backend_id)
            &&& name[model - 1] == '-'
            &&& shows(name, model, key.model_id)
            &&& name[build - 1] == '-'
            &&& shows(name, build, key.build_hash)
            &&& name[prefix - 1] == '-'
            &&& shows(name, prefix, key.prefix_hash)
            &&& name[hash - 1] == '-'
            &&& text_laws::value(name.subrange(hash, hash + 16), 16) == slot_name::key_hash(
                key,
            )
            &&& name.skip(hash + 16) == ".slot"@
        }),
{
    let name = slot_name::slot_name(key);
    let digits = text::hex(slot_name::key_hash(key) as nat, 16);
    let (b, m, h, p) = (
        slot_name::normalized(key.backend_id),
        slot_name::normalized(key.model_id),
        slot_name::normalized(key.build_hash),
        slot_name::normalized(key.prefix_hash),
    );
    lemma_shown(key.backend_id);
    lemma_shown(key.model_id);
    lemma_shown(key.build_hash);
    lemma_shown(key.prefix_hash);
    lemma_hash_digits(slot_name::key_hash(key));
    lemma_layout(b, m, h, p, digits);
    let model = b.len() as int + 1;
    let build = model + m.len() + 1;
    let prefix = build + h.len() + 1;
    lemma_shows(name, 0, key.backend_id, b);
    lemma_shows(name, model, key.model_id, m);
    lemma_shows(name, build, key.build_hash, h);
    lemma_shows(name, prefix, key.prefix_hash, p);
}

/// A normalized field shows the field.
proof fn lemma_shown(field: Seq<char>)
    ensures
        slot_name::normalized(field).len() == field.len(),
        forall|i: int|
            0 <= i < field.len() ==> slot_name::normalized(field)[i] == shown_as(
                #[trigger] field[i],
            ),
{
}

proof fn lemma_shows(name: Seq<char>, at: int, field: Seq<char>, part: Seq<char>)
    requires
        0 <= at,
        at + part.len() <= name.len(),
        name.subrange(at, at + part.len()) == part,
        part.len() == field.len(),
        forall|i: int| 0 <= i < field.len() ==> part[i] == shown_as(#[trigger] field[i]),
    ensures
        shows(name, at, field),
{
    assert forall|i: int| 0 <= i < field.len() implies name[at + i] == shown_as(
        #[trigger] field[i],
    ) by {
        assert(name.subrange(at, at + part.len())[i] == part[i]);
    }
}

/// Sixteen hexadecimal digits hold a hash in full.
proof fn lemma_hash_digits(hash: u64)
    ensures
        text::hex(hash as nat, 16).len() == 16,
        text_laws::value(text::hex(hash as nat, 16), 16) == hash,
{
    text_laws::law_hex(hash as nat, 16);
    assert(vstd::arithmetic::power::pow(16, 16) == 0x1_0000_0000_0000_0000) by {
        reveal_with_fuel(vstd::arithmetic::power::pow, 17);
    }
    vstd::arithmetic::div_mod::lemma_small_mod(hash as nat, 0x1_0000_0000_0000_0000);
}

/// Where the parts of a name stand.
proof fn lemma_layout(
    b: Seq<char>,
    m: Seq<char>,
    h: Seq<char>,
    p: Seq<char>,
    digits: Seq<char>,
)
    requires
        digits.len() == 16,
    ensures
        ({
            let readable = b + seq!['-'] + m + seq!['-'] + h + seq!['-'] + p;
            let name = readable + seq!['-'] + digits + ".slot"@;
            let model = b.len() as int + 1;
            let build = model + m.len() + 1;
            let prefix = build + h.len() + 1;
            let hash = prefix + p.len() + 1;
            &&& name.len() == hash + 21
            &&& name.subrange(0, b.len() as int) == b
            &&& name[model - 1] == '-'
            &&& name.subrange(model, model + m.len()) == m
            &&& name[build - 1] == '-'
            &&& name.subrange(build, build + h.len()) == h
            &&& name[prefix - 1] == '-'
            &&& name.subrange(prefix, prefix + p.len()) == p
            &&& name[hash - 1] == '-'
            &&& name.subrange(hash, hash + 16) == digits
            &&& name.skip(hash + 16) == ".slot"@
        }),
{
    reveal_strlit(".slot");
    let readable = b + seq!['-'] + m + seq!['-'] + h + seq!['-'] + p;
    let name = readable + seq!['-'] + digits + ".slot"@;
    let model = b.len() as int + 1;
    let build = model + m.len() + 1;
    let prefix = build + h.len() + 1;
    let hash = prefix + p.len() + 1;
    assert(name.subrange(0, b.len() as int) =~= b);
    assert(name.subrange(model, model + m.len()) =~= m);
    assert(name.subrange(build, build + h.len()) =~= h);
    assert(name.subrange(prefix, prefix + p.len()) =~= p);
    assert(name.subrange(hash, hash + 16) =~= digits);
    assert(name.skip(hash + 16) =~= ".slot"@);
}

} // verus!
