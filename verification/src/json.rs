//! Request bodies in JSON.
use vstd::prelude::*;

use crate::text;

verus! {

/// How a character stands in a JSON string: as it is, but for the quote, the backslash and
/// control characters.
pub open spec fn escaped_char(c: char) -> Seq<char> {
    if c == '"' || c == '\\' {
        seq!['\\', c]
    } else if c == '\u{8}' {
        seq!['\\', 'b']
    } else if c == '\t' {
        seq!['\\', 't']
    } else if c == '\n' {
        seq!['\\', 'n']
    } else if c == '\u{c}' {
        seq!['\\', 'f']
    } else if c == '\r' {
        seq!['\\', 'r']
    } else if (c as nat) < 32 {
        seq!['\\', 'u', '0', '0', text::digit((c as nat) / 16), text::digit((c as nat) % 16)]
    } else {
        seq![c]
    }
}

/// How a run of characters stands in a JSON string.
pub open spec fn escaped(s: Seq<char>) -> Seq<char>
    decreases s.len(),
{
    if s.len() == 0 {
        seq![]
    } else {
        escaped_char(s[0]) + escaped(s.drop_first())
    }
}

/// The JSON string that holds `s`.
pub open spec fn json_string(s: Seq<char>) -> Seq<char> {
    seq!['"'] + escaped(s) + seq!['"']
}

/// The JSON object with a single member, a string.
pub open spec fn json_member(name: Seq<char>, value: Seq<char>) -> Seq<char> {
    seq!['{'] + json_string(name) + seq![':'] + json_string(value) + seq!['}']
}

/// Writes a `serde_json::Value`, an object with the single member `name`, through its
/// `Display`. The claim is that this is the compact form: no whitespace, and in both strings
/// only the quote, the backslash and the control characters below the space escaped, the
/// latter as `\b`, `\t`, `\n`, `\f`, `\r` or as `\u00` with two lower-case digits.
#[verifier::external_body]
fn object_text(name: &str, value: &str) -> (text: String)
    ensures
        text@ == json_member(name@, value@),
{
    let mut members = serde_json::Map::new();
    members.insert(name.to_string(), serde_json::Value::String(value.to_string()));
    serde_json::Value::Object(members).to_string()
}

/// The body of a request about a slot file: an object that names it.
pub open spec fn filename_body(filename: Seq<char>) -> Seq<char> {
    json_member("filename"@, filename)
}

/// Writes the body of a request about a slot file.
pub fn body_for(filename: &str) -> (body: String)
    ensures
        body@ == filename_body(filename@),
{
    object_text("filename", filename)
}

/// Text without quotes, backslashes and control characters stands in JSON as it is.
pub proof fn lemma_plain_text(s: Seq<char>)
    requires
        forall|i: int| 0 <= i < s.len() ==> (#[trigger] s[i]) as nat >= 32 && s[i] != '"' && s[i] != '\\',
    ensures
        escaped(s) == s,
    decreases s.len(),
{
    if s.len() > 0 {
        let rest = s.drop_first();
        assert forall|i: int| 0 <= i < rest.len() implies (#[trigger] rest[i]) as nat >= 32 && rest[i]
            != '"' && rest[i] != '\\' by {
            assert(rest[i] == s[i + 1]);
        }
        lemma_plain_text(rest);
        assert(escaped_char(s[0]) == seq![s[0]]);
        assert(seq![s[0]] + rest =~= s);
    }
}

/// The first character of a text can be told from its escaped form.
proof fn lemma_first_escape(a: char, x: Seq<char>, b: char, y: Seq<char>)
    requires
        escaped_char(a) + x == escaped_char(b) + y,
    ensures
        a == b,
        x == y,
{
    let left = escaped_char(a) + x;
    let right = escaped_char(b) + y;
    assert(left[0] == escaped_char(a)[0] && right[0] == escaped_char(b)[0]);
    if escaped_char(a)[0] == '\\' {
        assert(escaped_char(b)[0] == '\\');
        assert(left[1] == escaped_char(a)[1] && right[1] == escaped_char(b)[1]);
        if escaped_char(a)[1] == 'u' {
            assert(left[4] == escaped_char(a)[4] && right[4] == escaped_char(b)[4]);
            assert(left[5] == escaped_char(a)[5] && right[5] == escaped_char(b)[5]);
        }
    }
    assert(a == b);
    let n = escaped_char(a).len() as int;
    assert(left.skip(n) =~= x);
    assert(right.skip(n) =~= y);
}

proof fn lemma_escaped_injective(a: Seq<char>, b: Seq<char>)
    requires
        escaped(a) == escaped(b),
    ensures
        a == b,
    decreases a.len(),
{
    if a.len() == 0 {
        if b.len() > 0 {
            assert(escaped(b).len() > 0);
        }
        assert(a =~= b);
    } else if b.len() == 0 {
        assert(escaped(a).len() > 0);
    } else {
        lemma_first_escape(a[0], escaped(a.drop_first()), b[0], escaped(b.drop_first()));
        lemma_escaped_injective(a.drop_first(), b.drop_first());
        assert(seq![a[0]] + a.drop_first() =~= a);
        assert(seq![b[0]] + b.drop_first() =~= b);
    }
}

/// A request body names one file: two different names never give the same body.
pub proof fn law_body_determines_filename(a: Seq<char>, b: Seq<char>)
    requires
        filename_body(a) == filename_body(b),
    ensures
        a == b,
{
    let head = seq!['{'] + json_string("filename"@) + seq![':'] + seq!['"'];
    let tail = seq!['"', '}'];
    assert(filename_body(a) =~= head + escaped(a) + tail);
    assert(filename_body(b) =~= head + escaped(b) + tail);
    let n = head.len() as int;
    let m = (filename_body(a).len() - 2) as int;
    assert(filename_body(a).subrange(n, m) =~= escaped(a));
    assert(filename_body(b).subrange(n, m) =~= escaped(b));
    lemma_escaped_injective(a, b);
}

} // verus!
