//! What numerals and columns are, seen from the side of someone who reads them.
use vstd::arithmetic::div_mod::lemma_mod_breakdown;
use vstd::arithmetic::power::pow;
use vstd::prelude::*;

use crate::text;

verus! {

/// The digits of base ten.
pub open spec fn is_digit(c: char) -> bool {
    '0' <= c && c <= '9'
}

/// What a digit stands for, in a base of up to sixteen.
pub open spec fn digit_value(c: char) -> int {
    if is_digit(c) {
        c as int - '0' as int
    } else {
        c as int - 'a' as int + 10
    }
}

/// The number that a numeral stands for.
pub open spec fn value(numeral: Seq<char>, base: int) -> int
    decreases numeral.len(),
{
    if numeral.len() == 0 {
        0
    } else {
        value(numeral.drop_last(), base) * base + digit_value(numeral.last())
    }
}

/// The numbers that stand in a text, in order: each run of digits is one.
pub open spec fn numbers_in(s: Seq<char>) -> Seq<int>
    decreases s.len(),
{
    if s.len() == 0 {
        seq![]
    } else {
        let before = numbers_in(s.drop_last());
        if !is_digit(s.last()) {
            before
        } else if s.len() > 1 && is_digit(s[s.len() - 2]) {
            before.drop_last().push(before.last() * 10 + digit_value(s.last()))
        } else {
            before.push(digit_value(s.last()))
        }
    }
}

/// Whether the text ends in a digit.
pub open spec fn ends_in_digit(s: Seq<char>) -> bool {
    s.len() > 0 && is_digit(s.last())
}

/// A decimal numeral stands for its number. It holds nothing but digits, and begins with a
/// zero only when it is one.
pub proof fn law_decimal(n: nat)
    ensures
        value(text::decimal(n), 10) == n,
        text::decimal(n).len() > 0,
        forall|i: int| 0 <= i < text::decimal(n).len() ==> is_digit(#[trigger] text::decimal(n)[i]),
        text::decimal(n).len() > 1 ==> text::decimal(n)[0] != '0',
    decreases n,
{
    let s = text::decimal(n);
    if n < 10 {
        assert(s.drop_last() =~= Seq::<char>::empty());
        assert(value(s.drop_last(), 10) == 0);
    } else {
        law_decimal(n / 10);
        let rest = text::decimal(n / 10);
        assert(s.drop_last() =~= rest);
        assert(s[0] == rest[0]);
        if rest.len() == 1 {
            assert(rest.drop_last() =~= Seq::<char>::empty());
            assert(value(rest.drop_last(), 10) == 0);
            assert(digit_value(rest[0]) == n / 10);
        }
        assert forall|i: int| 0 <= i < s.len() implies is_digit(#[trigger] s[i]) by {
            if i < rest.len() {
                assert(s[i] == rest[i]);
            }
        }
    }
}

/// A hexadecimal numeral of a given width stands for its number, as far as the width goes.
pub proof fn law_hex(n: nat, width: nat)
    ensures
        text::hex(n, width).len() == width,
        value(text::hex(n, width), 16) == n % (pow(16, width) as nat),
        pow(16, width) > 0,
    decreases width,
{
    reveal(pow);
    if width > 0 {
        let w = (width - 1) as nat;
        law_hex(n / 16, w);
        let p = pow(16, w);
        assert(pow(16, width) == 16 * p);
        lemma_mod_breakdown(n as int, 16, p);
        assert(text::hex(n, width).drop_last() =~= text::hex(n / 16, w));
    }
}

/// A column begins with its text, is at least as wide as asked and no wider than it has to
/// be, and is filled up with spaces.
pub proof fn law_column(s: Seq<char>, width: nat)
    ensures
        text::column(s, width).take(s.len() as int) == s,
        text::column(s, width).len() == if s.len() < width {
            width
        } else {
            s.len()
        },
        forall|i: int|
            s.len() <= i < text::column(s, width).len() ==> #[trigger] text::column(s, width)[i]
                == ' ',
{
    assert(text::column(s, width).take(s.len() as int) =~= s);
}

/// Text without digits holds no numbers.
pub proof fn lemma_no_numbers(s: Seq<char>, t: Seq<char>)
    requires
        forall|i: int| 0 <= i < t.len() ==> !is_digit(#[trigger] t[i]),
    ensures
        numbers_in(s + t) == numbers_in(s),
        t.len() > 0 ==> !ends_in_digit(s + t),
    decreases t.len(),
{
    if t.len() == 0 {
        assert(s + t =~= s);
    } else {
        lemma_no_numbers(s, t.drop_last());
        assert((s + t).drop_last() =~= s + t.drop_last());
        assert((s + t).last() == t[t.len() - 1]);
    }
}

/// A numeral behind something else than a digit is one number more.
pub proof fn lemma_one_number(s: Seq<char>, n: nat)
    requires
        !ends_in_digit(s),
    ensures
        numbers_in(s + text::decimal(n)) == numbers_in(s).push(n as int),
{
    law_decimal(n);
    lemma_numeral(s, text::decimal(n));
}

proof fn lemma_numeral(s: Seq<char>, t: Seq<char>)
    requires
        !ends_in_digit(s),
        t.len() > 0,
        forall|i: int| 0 <= i < t.len() ==> is_digit(#[trigger] t[i]),
    ensures
        numbers_in(s + t) == numbers_in(s).push(value(t, 10)),
    decreases t.len(),
{
    let all = s + t;
    let n = t.len() as int;
    assert(all.drop_last() =~= s + t.drop_last());
    assert(all.last() == t[n - 1]);
    if n == 1 {
        assert(t.drop_last() =~= Seq::<char>::empty());
        assert(s + t.drop_last() =~= s);
        assert(value(t.drop_last(), 10) == 0);
        if all.len() > 1 {
            assert(all[all.len() - 2] == s.last());
        }
    } else {
        lemma_numeral(s, t.drop_last());
        assert(all[all.len() - 2] == t[n - 2]);
        let before = numbers_in(s).push(value(t.drop_last(), 10));
        assert(before.drop_last() =~= numbers_in(s));
    }
}

/// A text without its digits.
pub open spec fn words_in(s: Seq<char>) -> Seq<char>
    decreases s.len(),
{
    if s.len() == 0 {
        seq![]
    } else if is_digit(s.last()) {
        words_in(s.drop_last())
    } else {
        words_in(s.drop_last()).push(s.last())
    }
}

/// Whether a text holds no digit.
pub open spec fn is_wordy(s: Seq<char>) -> bool {
    forall|i: int| 0 <= i < s.len() ==> !is_digit(#[trigger] s[i])
}

proof fn lemma_words(s: Seq<char>, t: Seq<char>)
    requires
        is_wordy(t),
    ensures
        words_in(s + t) == words_in(s) + t,
    decreases t.len(),
{
    if t.len() == 0 {
        assert(s + t =~= s);
        assert(words_in(s) + t =~= words_in(s));
    } else {
        lemma_words(s, t.drop_last());
        assert((s + t).drop_last() =~= s + t.drop_last());
        assert((s + t).last() == t[t.len() - 1]);
        assert(words_in(s + t) =~= words_in(s) + t);
    }
}

proof fn lemma_digits_are_no_words(s: Seq<char>, t: Seq<char>)
    requires
        forall|i: int| 0 <= i < t.len() ==> is_digit(#[trigger] t[i]),
    ensures
        words_in(s + t) == words_in(s),
    decreases t.len(),
{
    if t.len() == 0 {
        assert(s + t =~= s);
    } else {
        lemma_digits_are_no_words(s, t.drop_last());
        assert((s + t).drop_last() =~= s + t.drop_last());
        assert((s + t).last() == t[t.len() - 1]);
    }
}

/// What words and then a number add to a text.
pub proof fn lemma_phrase(s: Seq<char>, words: Seq<char>, n: nat)
    requires
        is_wordy(words),
        words.len() > 0 || !ends_in_digit(s),
    ensures
        numbers_in(s + words + text::decimal(n)) == numbers_in(s).push(n as int),
        words_in(s + words + text::decimal(n)) == words_in(s) + words,
{
    lemma_no_numbers(s, words);
    if words.len() == 0 {
        assert(s + words =~= s);
    }
    lemma_one_number(s + words, n);
    lemma_words(s, words);
    law_decimal(n);
    lemma_digits_are_no_words(s + words, text::decimal(n));
}

/// What words add to a text.
pub proof fn lemma_closing(s: Seq<char>, words: Seq<char>)
    requires
        is_wordy(words),
    ensures
        numbers_in(s + words) == numbers_in(s),
        words_in(s + words) == words_in(s) + words,
{
    lemma_no_numbers(s, words);
    lemma_words(s, words);
}
} // verus!
