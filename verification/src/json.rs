use vstd::prelude::*;
use crate::utils::{dec_str, spec_spaces, push_char};

verus! {

/// A JSON document held as plain data: integers as integers, any other
/// number as its source text rendered verbatim, object members in order.
#[derive(Debug, PartialEq)]
pub enum JsonValue {
    Null,
    Bool(bool),
    UInt(u64),
    Int(i64),
    Num(String),
    Str(String),
    Arr(Vec<JsonValue>),
    Obj(Vec<(String, JsonValue)>),
}

/// The mathematical shape of a JSON document: what a `JsonValue` holds, with
/// sequences in place of vectors.
pub ghost enum JsonData {
    Null,
    Bool(bool),
    UInt(u64),
    Int(i64),
    Num(Seq<char>),
    Str(Seq<char>),
    Arr(Seq<JsonData>),
    Obj(Seq<(Seq<char>, JsonData)>),
}

/// The models of a sequence of values.
pub open spec fn jmodels(s: Seq<JsonValue>) -> Seq<JsonData>
    decreases s,
{
    Seq::new(s.len(), |i: int| if 0 <= i < s.len() { s[i]@ } else { JsonData::Null })
}

/// The models of a sequence of object members.
pub open spec fn fmodels(s: Seq<(String, JsonValue)>) -> Seq<(Seq<char>, JsonData)>
    decreases s,
{
    Seq::new(
        s.len(),
        |i: int| if 0 <= i < s.len() { (s[i].0@, s[i].1@) } else { (s[i].0@, JsonData::Null) },
    )
}

impl View for JsonValue {
    type V = JsonData;

    open spec fn view(&self) -> JsonData
        decreases self,
    {
        match self {
            JsonValue::Null => JsonData::Null,
            JsonValue::Bool(b) => JsonData::Bool(*b),
            JsonValue::UInt(n) => JsonData::UInt(*n),
            JsonValue::Int(i) => JsonData::Int(*i),
            JsonValue::Num(s) => JsonData::Num(s@),
            JsonValue::Str(s) => JsonData::Str(s@),
            JsonValue::Arr(items) => JsonData::Arr(jmodels(items@)),
            JsonValue::Obj(fields) => JsonData::Obj(fmodels(fields@)),
        }
    }
}

impl Clone for JsonValue {
    /// A clone holds the same document.
    fn clone(&self) -> (res: Self)
        ensures
            res@ == self@,
        decreases self, 0int,
    {
        match self {
            JsonValue::Null => JsonValue::Null,
            JsonValue::Bool(b) => JsonValue::Bool(*b),
            JsonValue::UInt(n) => JsonValue::UInt(*n),
            JsonValue::Int(i) => JsonValue::Int(*i),
            JsonValue::Num(s) => JsonValue::Num(s.clone()),
            JsonValue::Str(s) => JsonValue::Str(s.clone()),
            JsonValue::Arr(items) => {
                let out = clone_json_items(items);
                proof {
                    assert(jmodels(out@) =~= jmodels(items@));
                }
                JsonValue::Arr(out)
            }
            JsonValue::Obj(fields) => {
                let out = clone_json_fields(fields);
                proof {
                    assert(fmodels(out@) =~= fmodels(fields@));
                }
                JsonValue::Obj(out)
            }
        }
    }
}

/// Clones every value of a vector of documents.
fn clone_json_items(items: &Vec<JsonValue>) -> (out: Vec<JsonValue>)
    ensures
        out@.len() == items@.len(),
        forall|j: int| 0 <= j < items@.len() ==> out@[j]@ == items@[j]@,
    decreases items@, 1int,
{
    let mut out: Vec<JsonValue> = Vec::new();
    let mut i: usize = 0;
    while i < items.len()
        invariant
            0 <= i <= items@.len(),
            out@.len() == i,
            forall|j: int| 0 <= j < i ==> out@[j]@ == items@[j]@,
        decreases items@.len() - i,
    {
        out.push(items[i].clone());
        i = i + 1;
    }
    out
}

/// Clones every member of a vector of object members.
fn clone_json_fields(fields: &Vec<(String, JsonValue)>) -> (out: Vec<(String, JsonValue)>)
    ensures
        out@.len() == fields@.len(),
        forall|j: int|
            0 <= j < fields@.len() ==> out@[j].0@ == fields@[j].0@ && out@[j].1@ == fields@[j].1@,
    decreases fields@, 1int,
{
    let mut out: Vec<(String, JsonValue)> = Vec::new();
    let mut i: usize = 0;
    while i < fields.len()
        invariant
            0 <= i <= fields@.len(),
            out@.len() == i,
            forall|j: int| 0 <= j < i ==> out@[j].0 == fields@[j].0 && out@[j].1@ == fields@[j].1@,
        decreases fields@.len() - i,
    {
        let pair = &fields[i];
        out.push((pair.0.clone(), pair.1.clone()));
        i = i + 1;
    }
    out
}

/// The lowercase hexadecimal digit for `d`.
pub open spec fn hex_digit(d: nat) -> char {
    if d < 10 {
        ((48 + d) as u8) as char
    } else {
        ((87 + d) as u8) as char
    }
}

/// How one character appears inside a JSON string literal.
pub open spec fn esc_char(c: char) -> Seq<char> {
    if c == '"' {
        seq!['\\', '"']
    } else if c == '\\' {
        seq!['\\', '\\']
    } else if c == '\u{8}' {
        seq!['\\', 'b']
    } else if c == '\u{c}' {
        seq!['\\', 'f']
    } else if c == '\n' {
        seq!['\\', 'n']
    } else if c == '\r' {
        seq!['\\', 'r']
    } else if c == '\t' {
        seq!['\\', 't']
    } else if (c as u32) < 32 {
        seq!['\\', 'u', '0', '0', hex_digit(((c as u32) / 16) as nat), hex_digit(
            ((c as u32) % 16) as nat,
        )]
    } else {
        seq![c]
    }
}

/// The body of a JSON string literal for `s`.
pub open spec fn spec_escape(s: Seq<char>) -> Seq<char>
    decreases s.len(),
{
    if s.len() == 0 {
        Seq::empty()
    } else {
        esc_char(s[0]) + spec_escape(s.skip(1))
    }
}

pub proof fn lemma_escape_push(s: Seq<char>, c: char)
    ensures
        spec_escape(s.push(c)) == spec_escape(s) + esc_char(c),
    decreases s.len(),
{
    if s.len() == 0 {
        assert(s.push(c)[0] == c);
        assert(s.push(c).skip(1) =~= Seq::<char>::empty());
        assert(spec_escape(s.push(c)) == esc_char(c) + spec_escape(s.push(c).skip(1)));
        assert(esc_char(c) + Seq::<char>::empty() =~= esc_char(c));
        assert(spec_escape(s) + esc_char(c) =~= esc_char(c));
    } else {
        lemma_escape_push(s.skip(1), c);
        assert(s.push(c).skip(1) =~= s.skip(1).push(c));
        assert(s.push(c)[0] == s[0]);
        assert(esc_char(s[0]) + (spec_escape(s.skip(1)) + esc_char(c)) =~= (esc_char(s[0])
            + spec_escape(s.skip(1))) + esc_char(c));
    }
}

/// A JSON string literal: quotes around the escaped text.
pub open spec fn spec_string_literal(s: Seq<char>) -> Seq<char> {
    seq!['"'] + spec_escape(s) + seq!['"']
}

/// The decimal rendering of a signed number.
pub open spec fn spec_int_str(i: int) -> Seq<char> {
    if i >= 0 {
        dec_str(i as nat)
    } else {
        seq!['-'] + dec_str((-i) as nat)
    }
}

/// The pretty rendering of a value standing at nesting level `ind`: two
/// spaces of indentation per level, one member per line, as a JSON
/// serializer's pretty printer lays it out.
pub open spec fn spec_render(v: JsonData, ind: nat) -> Seq<char>
    decreases v, 0int, 0int,
{
    match v {
        JsonData::Null => ("null")@,
        JsonData::Bool(b) => if b {
            ("true")@
        } else {
            ("false")@
        },
        JsonData::UInt(n) => dec_str(n as nat),
        JsonData::Int(i) => spec_int_str(i as int),
        JsonData::Num(s) => s,
        JsonData::Str(s) => spec_string_literal(s),
        JsonData::Arr(items) => if items.len() == 0 {
            ("[]")@
        } else {
            seq!['['] + spec_render_items(items, (ind + 1) as nat, 0) + seq!['\n'] + spec_spaces(
                2 * ind,
            ) + seq![']']
        },
        JsonData::Obj(fields) => if fields.len() == 0 {
            ("{}")@
        } else {
            seq!['{'] + spec_render_fields(fields, (ind + 1) as nat, 0) + seq!['\n'] + spec_spaces(
                2 * ind,
            ) + seq!['}']
        },
    }
}

/// The members of an array from index `i` on: each on its own line at level
/// `ind`, separated by commas.
pub open spec fn spec_render_items(items: Seq<JsonData>, ind: nat, i: int) -> Seq<char>
    decreases items, 1int, items.len() - i,
{
    if i < 0 || i >= items.len() {
        Seq::empty()
    } else {
        let head = seq!['\n'] + spec_spaces(2 * ind) + spec_render(items[i], ind);
        if i == items.len() - 1 {
            head
        } else {
            head + seq![','] + spec_render_items(items, ind, i + 1)
        }
    }
}

/// The members of an object from index `i` on: `"key": value`, each on its
/// own line at level `ind`, separated by commas.
pub open spec fn spec_render_fields(fields: Seq<(Seq<char>, JsonData)>, ind: nat, i: int) -> Seq<char>
    decreases fields, 1int, fields.len() - i,
{
    if i < 0 || i >= fields.len() {
        Seq::empty()
    } else {
        let head = seq!['\n'] + spec_spaces(2 * ind) + spec_string_literal(fields[i].0) + (": ")@
            + spec_render(fields[i].1, ind);
        if i == fields.len() - 1 {
            head
        } else {
            head + seq![','] + spec_render_fields(fields, ind, i + 1)
        }
    }
}

/// Appends the escaped body of a JSON string literal for `s`.
fn escape_into(s: &str, out: &mut String)
    ensures
        final(out)@ == old(out)@ + spec_escape(s@),
{
    let len = s.unicode_len();
    let mut i: usize = 0;
    proof {
        assert(s@.take(0) =~= Seq::<char>::empty());
        assert(out@ + spec_escape(s@.take(0)) =~= out@);
    }
    while i < len
        invariant
            0 <= i <= len,
            len == s@.len(),
            out@ == old(out)@ + spec_escape(s@.take(i as int)),
        decreases len - i,
    {
        let c = s.get_char(i);
        proof {
            assert(s@.take(i + 1) =~= s@.take(i as int).push(c));
            lemma_escape_push(s@.take(i as int), c);
        }
        if c == '"' {
            out.append("\\\"");
            proof {
                reveal_strlit("\\\"");
                assert(("\\\"")@ =~= esc_char(c));
            }
        } else if c == '\\' {
            out.append("\\\\");
            proof {
                reveal_strlit("\\\\");
                assert(("\\\\")@ =~= esc_char(c));
            }
        } else if c == '\u{8}' {
            out.append("\\b");
            proof {
                reveal_strlit("\\b");
                assert(("\\b")@ =~= esc_char(c));
            }
        } else if c == '\u{c}' {
            out.append("\\f");
            proof {
                reveal_strlit("\\f");
                assert(("\\f")@ =~= esc_char(c));
            }
        } else if c == '\n' {
            out.append("\\n");
            proof {
                reveal_strlit("\\n");
                assert(("\\n")@ =~= esc_char(c));
            }
        } else if c == '\r' {
            out.append("\\r");
            proof {
                reveal_strlit("\\r");
                assert(("\\r")@ =~= esc_char(c));
            }
        } else if c == '\t' {
            out.append("\\t");
            proof {
                reveal_strlit("\\t");
                assert(("\\t")@ =~= esc_char(c));
            }
        } else if (c as u32) < 32 {
            out.append("\\u00");
            let code = c as u32;
            let hi = (code / 16) as u8;
            let lo = (code % 16) as u8;
            let hc = if hi < 10 {
                (48 + hi) as char
            } else {
                (87 + hi) as char
            };
            let lc = if lo < 10 {
                (48 + lo) as char
            } else {
                (87 + lo) as char
            };
            push_char(out, hc);
            push_char(out, lc);
            proof {
                reveal_strlit("\\u00");
                assert(hc == hex_digit(((c as u32) / 16) as nat));
                assert(lc == hex_digit(((c as u32) % 16) as nat));
                assert(("\\u00")@.push(hc).push(lc) =~= esc_char(c));
                assert(out@ =~= old(out)@ + spec_escape(s@.take(i + 1)));
            }
        } else {
            push_char(out, c);
            proof {
                assert(out@ =~= old(out)@ + spec_escape(s@.take(i + 1)));
            }
        }
        proof {
            assert(out@ =~= old(out)@ + spec_escape(s@.take(i + 1)));
        }
        i = i + 1;
    }
    proof {
        assert(s@.take(i as int) =~= s@);
    }
}

/// Appends the JSON string literal for `s`.
fn string_literal_into(s: &str, out: &mut String)
    ensures
        final(out)@ == old(out)@ + spec_string_literal(s@),
{
    push_char(out, '"');
    escape_into(s, out);
    push_char(out, '"');
    proof {
        assert(old(out)@.push('"') =~= old(out)@ + seq!['"']);
        assert(out@ =~= old(out)@ + spec_string_literal(s@));
    }
}

/// Appends the decimal rendering of a signed number.
fn int_str_into(i: i64, out: &mut String)
    ensures
        final(out)@ == old(out)@ + spec_int_str(i as int),
{
    if i >= 0 {
        let d = crate::utils::u64_to_string(i as u64);
        out.append(d.as_str());
    } else {
        push_char(out, '-');
        let mag: u64 = if i == i64::MIN {
            9223372036854775808u64
        } else {
            (-i) as u64
        };
        let d = crate::utils::u64_to_string(mag);
        out.append(d.as_str());
        proof {
            assert(old(out)@.push('-') =~= old(out)@ + seq!['-']);
            assert(out@ =~= old(out)@ + spec_int_str(i as int));
        }
    }
}

/// Appends the rendering of `v` at nesting level `ind`; `indent` holds the
/// spaces of that level.
fn render_value(v: &JsonValue, indent: &String, Ghost(ind): Ghost<nat>, out: &mut String)
    requires
        indent@ == spec_spaces(2 * ind),
    ensures
        final(out)@ == old(out)@ + spec_render(v@, ind),
    decreases *v, 0int, 0int,
{
    match v {
        JsonValue::Null => {
            out.append("null");
            proof {
                assert(v@ == JsonData::Null);
            }
        }
        JsonValue::Bool(b) => {
            if *b {
                out.append("true");
            } else {
                out.append("false");
            }
        }
        JsonValue::UInt(n) => {
            let d = crate::utils::u64_to_string(*n);
            out.append(d.as_str());
        }
        JsonValue::Int(i) => {
            int_str_into(*i, out);
        }
        JsonValue::Num(s) => {
            out.append(s.as_str());
        }
        JsonValue::Str(s) => {
            string_literal_into(s.as_str(), out);
        }
        JsonValue::Arr(items) => {
            if items.len() == 0 {
                out.append("[]");
            } else {
                push_char(out, '[');
                let mut child = indent.clone();
                child.append("  ");
                proof {
                    reveal_strlit("  ");
                    assert(child@ =~= spec_spaces(2 * ((ind + 1) as nat)));
                }
                render_items(items, 0, &child, Ghost((ind + 1) as nat), out);
                push_char(out, '\n');
                out.append(indent.as_str());
                push_char(out, ']');
                proof {
                    assert(out@ =~= old(out)@ + spec_render(v@, ind));
                }
            }
        }
        JsonValue::Obj(fields) => {
            if fields.len() == 0 {
                out.append("{}");
            } else {
                push_char(out, '{');
                let mut child = indent.clone();
                child.append("  ");
                proof {
                    reveal_strlit("  ");
                    assert(child@ =~= spec_spaces(2 * ((ind + 1) as nat)));
                }
                render_fields(fields, 0, &child, Ghost((ind + 1) as nat), out);
                push_char(out, '\n');
                out.append(indent.as_str());
                push_char(out, '}');
                proof {
                    assert(out@ =~= old(out)@ + spec_render(v@, ind));
                }
            }
        }
    }
}

/// Appends the members of an array from index `i` on.
fn render_items(
    items: &Vec<JsonValue>,
    i: usize,
    indent: &String,
    Ghost(ind): Ghost<nat>,
    out: &mut String,
)
    requires
        i < items@.len(),
        indent@ == spec_spaces(2 * ind),
    ensures
        final(out)@ == old(out)@ + spec_render_items(jmodels(items@), ind, i as int),
    decreases items@, 1int, items@.len() - i,
{
    push_char(out, '\n');
    out.append(indent.as_str());
    render_value(&items[i], indent, Ghost(ind), out);
    if i < items.len() - 1 {
        push_char(out, ',');
        render_items(items, i + 1, indent, Ghost(ind), out);
        proof {
            assert(jmodels(items@)[i as int] == items@[i as int]@);
            assert(out@ =~= old(out)@ + spec_render_items(jmodels(items@), ind, i as int));
        }
    } else {
        proof {
            assert(jmodels(items@)[i as int] == items@[i as int]@);
            assert(out@ =~= old(out)@ + spec_render_items(jmodels(items@), ind, i as int));
        }
    }
}

/// Appends the members of an object from index `i` on.
fn render_fields(
    fields: &Vec<(String, JsonValue)>,
    i: usize,
    indent: &String,
    Ghost(ind): Ghost<nat>,
    out: &mut String,
)
    requires
        i < fields@.len(),
        indent@ == spec_spaces(2 * ind),
    ensures
        final(out)@ == old(out)@ + spec_render_fields(fmodels(fields@), ind, i as int),
    decreases fields@, 1int, fields@.len() - i,
{
    push_char(out, '\n');
    out.append(indent.as_str());
    string_literal_into(fields[i].0.as_str(), out);
    out.append(": ");
    render_value(&fields[i].1, indent, Ghost(ind), out);
    if i < fields.len() - 1 {
        push_char(out, ',');
        render_fields(fields, i + 1, indent, Ghost(ind), out);
        proof {
            assert(fmodels(fields@)[i as int] == (fields@[i as int].0@, fields@[i as int].1@));
            assert(out@ =~= old(out)@ + spec_render_fields(fmodels(fields@), ind, i as int));
        }
    } else {
        proof {
            assert(fmodels(fields@)[i as int] == (fields@[i as int].0@, fields@[i as int].1@));
            assert(out@ =~= old(out)@ + spec_render_fields(fmodels(fields@), ind, i as int));
        }
    }
}

/// Renders `v` as pretty-printed JSON: two-space indentation, one member per
/// line.
pub fn json_to_pretty_string(v: &JsonValue) -> (r: String)
    ensures
        r@ == spec_render(v@, 0),
{
    let mut out = String::new();
    let indent = String::new();
    proof {
        assert(indent@ =~= spec_spaces(0));
    }
    render_value(v, &indent, Ghost(0nat), &mut out);
    proof {
        assert(out@ =~= spec_render(v@, 0));
    }
    out
}

} // verus!
