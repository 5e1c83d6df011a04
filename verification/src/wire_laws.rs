//! What a request says to the server that reads it, and what a handle means as a path.
use vstd::prelude::*;

use crate::json;
use crate::llama_server;
use crate::llama_server::SlotAction;
use crate::text;
use crate::text_laws;
use crate::types;

verus! {

/// What follows the slot in the address of a request.
pub open spec fn query(action: SlotAction) -> Seq<char> {
    match action {
        SlotAction::Save => "?action=save"@,
        SlotAction::Restore => "?action=restore"@,
    }
}

/// A request goes to the server's address, `/slots/`, the numeral of the slot and what is
/// asked for.
pub proof fn law_slot_url(address: Seq<char>, slot_id: u32, action: SlotAction)
    ensures
        llama_server::slot_url(address, slot_id, action) == address + "/slots/"@ + text::decimal(
            slot_id as nat,
        ) + query(action),
        text_laws::value(text::decimal(slot_id as nat), 10) == slot_id,
{
    text_laws::law_decimal(slot_id as nat);
}

/// The address of a request tells which slot it is about, and what is asked for.
pub proof fn law_url_determines_request(
    address: Seq<char>,
    slot_id: u32,
    action: SlotAction,
    other_id: u32,
    other: SlotAction,
)
    requires
        llama_server::slot_url(address, slot_id, action) == llama_server::slot_url(
            address,
            other_id,
            other,
        ),
    ensures
        slot_id == other_id,
        action == other,
{
    reveal_strlit("/slots/");
    reveal_strlit("?action=save");
    reveal_strlit("?action=restore");
    let head = address + "/slots/"@;
    let (a, b) = (text::decimal(slot_id as nat), text::decimal(other_id as nat));
    let (x, y) = (query(action), query(other));
    law_slot_url(address, slot_id, action);
    law_slot_url(address, other_id, other);
    text_laws::law_decimal(other_id as nat);
    let (one, two) = (head + a + x, head + b + y);
    let n = head.len() as int;
    assert(x[0] == '?' && y[0] == '?');
    assert(one[n + a.len()] == '?');
    assert(two[n + b.len()] == '?');
    if a.len() < b.len() {
        assert(two[n + a.len()] == b[a.len() as int]);
    }
    if b.len() < a.len() {
        assert(one[n + b.len()] == a[b.len() as int]);
    }
    assert(one.subrange(n, n + a.len()) =~= a);
    assert(two.subrange(n, n + b.len()) =~= b);
    assert(x.len() == y.len());
}

/// Reads the text of a JSON string: what stands for what in it.
pub open spec fn unescaped(s: Seq<char>) -> Seq<char>
    decreases s.len(),
{
    if s.len() == 0 {
        seq![]
    } else if s[0] != '\\' {
        seq![s[0]] + unescaped(s.skip(1))
    } else if s.len() >= 6 && s[1] == 'u' {
        seq![text_laws::value(s.subrange(2, 6), 16) as char] + unescaped(s.skip(6))
    } else if s.len() >= 2 {
        seq![
            if s[1] == 'b' {
                '\u{8}'
            } else if s[1] == 't' {
                '\t'
            } else if s[1] == 'n' {
                '\n'
            } else if s[1] == 'f' {
                '\u{c}'
            } else if s[1] == 'r' {
                '\r'
            } else {
                s[1]
            },
        ] + unescaped(s.skip(2))
    } else {
        s
    }
}

/// What was escaped reads back as it was.
proof fn lemma_unescaped(s: Seq<char>)
    ensures
        unescaped(json::escaped(s)) == s,
    decreases s.len(),
{
    if s.len() > 0 {
        let c = s[0];
        let rest = s.drop_first();
        let e = json::escaped_char(c);
        let all = e + json::escaped(rest);
        lemma_unescaped(rest);
        assert(all.skip(e.len() as int) =~= json::escaped(rest));
        assert(all[0] == e[0]);
        if e.len() > 1 {
            assert(all[1] == e[1]);
        }
        if e.len() == 6 {
            lemma_control(c);
            assert(all.subrange(2, 6) =~= e.subrange(2, 6));
            assert(unescaped(all) == seq![text_laws::value(all.subrange(2, 6), 16) as char]
                + unescaped(all.skip(6)));
        } else if e.len() == 2 {
            assert(unescaped(all) == seq![c] + unescaped(all.skip(2)));
        } else {
            assert(unescaped(all) == seq![c] + unescaped(all.skip(1)));
        }
        assert(unescaped(all) =~= seq![c] + rest);
        assert(seq![c] + rest =~= s);
    } else {
        assert(unescaped(json::escaped(s)) =~= s);
    }
}

/// The four digits of an escaped control character stand for it.
proof fn lemma_control(c: char)
    requires
        (c as nat) < 32,
        json::escaped_char(c).len() == 6,
    ensures
        text_laws::value(json::escaped_char(c).subrange(2, 6), 16) as char == c,
{
    let digits = json::escaped_char(c).subrange(2, 6);
    reveal_with_fuel(text_laws::value, 5);
    assert(digits =~= seq![
        '0',
        '0',
        text::digit((c as nat) / 16),
        text::digit((c as nat) % 16),
    ]);
    let three = digits.drop_last();
    let two = three.drop_last();
    let one = two.drop_last();
    assert(one.drop_last() =~= Seq::<char>::empty());
    assert(text_laws::value(one.drop_last(), 16) == 0);
    assert(text_laws::value(one, 16) == 0);
    assert(text_laws::value(two, 16) == 0);
    assert(text_laws::value(three, 16) == (c as nat) / 16);
}

/// The body of a request is an object whose only member, `filename`, reads back as the name of
/// the file.
pub proof fn law_body_reads_back(filename: Seq<char>)
    ensures
        ({
            let body = json::filename_body(filename);
            let n = body.len() as int;
            &&& n >= 15
            &&& body.take(13) == "{\"filename\":\""@
            &&& body.skip(n - 2) == "\"}"@
            &&& unescaped(body.subrange(13, n - 2)) == filename
        }),
{
    reveal_strlit("filename");
    reveal_strlit("{\"filename\":\"");
    reveal_strlit("\"}");
    json::lemma_plain_text("filename"@);
    lemma_unescaped(filename);
    let body = json::filename_body(filename);
    let n = body.len() as int;
    let e = json::escaped(filename);
    assert(body =~= "{\"filename\":\""@ + e + "\"}"@);
    assert(body.take(13) =~= "{\"filename\":\""@);
    assert(body.skip(n - 2) =~= "\"}"@);
    assert(body.subrange(13, n - 2) =~= e);
}

/// Whether a character parts the components of a path, on one system or another.
pub open spec fn is_separator(c: char) -> bool {
    c == '/' || c == '\\'
}

/// A component of a path, if it names anything: the empty one and the dot do not.
pub open spec fn named(component: Seq<char>) -> Seq<Seq<char>> {
    if component.len() == 0 || component == seq!['.'] {
        seq![]
    } else {
        seq![component]
    }
}

/// The components of a path, where `begun` is the one that has begun already.
pub open spec fn components(begun: Seq<char>, path: Seq<char>) -> Seq<Seq<char>>
    decreases path.len(),
{
    if path.len() == 0 {
        named(begun)
    } else if is_separator(path[0]) {
        named(begun) + components(seq![], path.drop_first())
    } else {
        components(begun.push(path[0]), path.drop_first())
    }
}

/// The path of a handle below a directory.
pub open spec fn joined(dir: Seq<char>, handle: Seq<char>) -> Seq<char> {
    dir + seq!['/'] + handle
}

/// A handle is safe exactly when its path below any directory is that of one more component,
/// the handle itself, and this does not lead back up.
pub proof fn law_safe_handles_stay_in_their_directory(dir: Seq<char>, handle: Seq<char>)
    ensures
        types::is_single_component(handle) <==> {
            &&& components(seq![], joined(dir, handle)) == components(seq![], dir).push(handle)
            &&& handle != seq!['.', '.']
        },
{
    let none = Seq::<char>::empty();
    lemma_joined(none, dir, handle);
    let below = components(none, handle);
    let above = components(none, dir);
    assert(above.push(handle) =~= above + seq![handle]);
    if above + below == above + seq![handle] {
        assert((above + below).skip(above.len() as int) =~= below);
        assert((above + seq![handle]).skip(above.len() as int) =~= seq![handle]);
    }
    if !handle.contains('/') && !handle.contains('\\') {
        lemma_no_separator(none, handle);
        assert(none + handle =~= handle);
        if handle.len() == 0 || handle == seq!['.'] {
            assert(below.len() == 0);
        }
    } else {
        lemma_components_are_clean(none, handle);
        if below == seq![handle] {
            assert(below[0] == handle);
            if handle.contains('/') {
                let i = choose|i: int| 0 <= i < handle.len() && handle[i] == '/';
                assert(is_separator(below[0][i]));
            } else {
                let i = choose|i: int| 0 <= i < handle.len() && handle[i] == '\\';
                assert(is_separator(below[0][i]));
            }
        }
    }
}

proof fn lemma_joined(begun: Seq<char>, dir: Seq<char>, handle: Seq<char>)
    ensures
        components(begun, joined(dir, handle)) == components(begun, dir) + components(
            seq![],
            handle,
        ),
    decreases dir.len(),
{
    let all = joined(dir, handle);
    if dir.len() == 0 {
        assert(all[0] == '/');
        assert(all.drop_first() =~= handle);
    } else {
        assert(all[0] == dir[0]);
        assert(all.drop_first() =~= joined(dir.drop_first(), handle));
        if is_separator(dir[0]) {
            lemma_joined(seq![], dir.drop_first(), handle);
            assert(components(begun, all) =~= components(begun, dir) + components(
                seq![],
                handle,
            ));
        } else {
            lemma_joined(begun.push(dir[0]), dir.drop_first(), handle);
        }
    }
}

proof fn lemma_no_separator(begun: Seq<char>, path: Seq<char>)
    requires
        !path.contains('/'),
        !path.contains('\\'),
    ensures
        components(begun, path) == named(begun + path),
    decreases path.len(),
{
    if path.len() == 0 {
        assert(begun + path =~= begun);
    } else {
        let rest = path.drop_first();
        assert(path.contains(path[0]));
        assert forall|c: char| rest.contains(c) implies path.contains(c) by {
            let i = choose|i: int| 0 <= i < rest.len() && rest[i] == c;
            assert(path[i + 1] == c);
        }
        lemma_no_separator(begun.push(path[0]), rest);
        assert(begun.push(path[0]) + rest =~= begun + path);
    }
}

/// No component holds a separator.
proof fn lemma_components_are_clean(begun: Seq<char>, path: Seq<char>)
    requires
        forall|i: int| 0 <= i < begun.len() ==> !is_separator(#[trigger] begun[i]),
    ensures
        forall|k: int, i: int|
            0 <= k < components(begun, path).len() && 0 <= i < components(begun, path)[k].len()
                ==> !is_separator(#[trigger] components(begun, path)[k][i]),
    decreases path.len(),
{
    if path.len() > 0 {
        let rest = path.drop_first();
        if is_separator(path[0]) {
            lemma_components_are_clean(seq![], rest);
            let (first, more) = (named(begun), components(seq![], rest));
            assert forall|k: int, i: int|
                0 <= k < components(begun, path).len() && 0 <= i < components(
                    begun,
                    path,
                )[k].len() implies !is_separator(#[trigger] components(begun, path)[k][i]) by {
                if k < first.len() {
                    assert(components(begun, path)[k] == begun);
                } else {
                    assert(components(begun, path)[k] == more[k - first.len()]);
                }
            }
        } else {
            lemma_components_are_clean(begun.push(path[0]), rest);
            assert(components(begun, path) == components(begun.push(path[0]), rest));
        }
    } else {
        assert forall|k: int, i: int|
            0 <= k < components(begun, path).len() && 0 <= i < components(begun, path)[k].len()
            implies !is_separator(#[trigger] components(begun, path)[k][i]) by {
            assert(components(begun, path)[k] == begun);
        }
    }
}

} // verus!
