//! Laws of the JSON writer: the body of a JSON string, read as JSON defines
//! its escapes, is the text that was written into it; the output carries no
//! raw control character but the line break; and a table is written exactly
//! as the section it holds.
use vstd::prelude::*;

use crate::cert::{cert_text, Certification};
use crate::emit::{
    cert_block, cert_lines, certs_in, certs_of, comma, doc_json, escape_char, escaped, hex_digit,
    indent_of, json_items, json_list, json_members, json_object, json_value, notes_block, quoted,
    top_members, Value, JSON_FORMAT,
};

verus! {

/// The value of a hexadecimal digit, either case.
pub open spec fn hex_value(c: char) -> int {
    if '0' <= c && c <= '9' {
        c as int - '0' as int
    } else if 'a' <= c && c <= 'f' {
        c as int - 'a' as int + 10
    } else if 'A' <= c && c <= 'F' {
        c as int - 'A' as int + 10
    } else {
        0
    }
}

/// The character a one-letter JSON escape `\e` stands for.
pub open spec fn short_escape(e: char) -> char {
    if e == 'n' {
        '\n'
    } else if e == 't' {
        '\t'
    } else if e == 'r' {
        '\r'
    } else if e == 'b' {
        '\u{8}'
    } else if e == 'f' {
        '\u{c}'
    } else {
        e
    }
}

/// The characters the body of a JSON string stands for, read from the
/// front: `\uXXXX` as the code point, a one-letter escape as its character,
/// anything else as itself.
pub open spec fn unescaped(s: Seq<char>) -> Seq<char>
    decreases s.len(),
{
    if s.len() == 0 {
        Seq::empty()
    } else if s[0] == '\\' && s.len() >= 6 && s[1] == 'u' {
        seq![
            (hex_value(s[2]) * 4096 + hex_value(s[3]) * 256 + hex_value(s[4]) * 16 + hex_value(s[5])) as char,
        ] + unescaped(s.skip(6))
    } else if s[0] == '\\' && s.len() >= 2 && s[1] != 'u' {
        seq![short_escape(s[1])] + unescaped(s.skip(2))
    } else {
        seq![s[0]] + unescaped(s.skip(1))
    }
}

proof fn lemma_hex_digit(d: nat)
    requires
        d < 16,
    ensures
        hex_value(hex_digit(d)) == d,
{
}

proof fn lemma_unescape_one(c: char, rest: Seq<char>)
    ensures
        unescaped(escape_char(c) + rest) == seq![c] + unescaped(rest),
{
    let e = escape_char(c);
    if c == '"' || c == '\\' || c == '\n' || c == '\t' {
        assert((e + rest).skip(2) =~= rest);
    } else if ' ' > c {
        let n = c as nat;
        lemma_hex_digit(n / 16);
        lemma_hex_digit(n % 16);
        assert((e + rest).skip(6) =~= rest);
        assert((e + rest)[2] == '0' && (e + rest)[3] == '0');
        assert(hex_value('0') == 0);
        assert((0 * 4096 + 0 * 256 + (n / 16) * 16 + n % 16) as char == c);
    } else {
        assert((e + rest).skip(1) =~= rest);
    }
}

proof fn lemma_escaped_front(c: char, rest: Seq<char>)
    ensures
        escaped(seq![c] + rest) == escape_char(c) + escaped(rest),
    decreases rest.len(),
{
    let whole = seq![c] + rest;
    if rest.len() == 0 {
        assert(whole.drop_last() =~= Seq::<char>::empty());
        assert(whole.last() == c);
        assert(whole.len() == 1);
        assert(escaped(Seq::<char>::empty()) =~= Seq::<char>::empty());
        assert(escaped(whole) == escaped(whole.drop_last()) + escape_char(whole.last()));
        assert(escaped(whole) =~= escape_char(c));
        assert(escaped(rest) =~= Seq::<char>::empty());
        assert(escaped(whole) =~= escape_char(c) + escaped(rest));
    } else {
        lemma_escaped_front(c, rest.drop_last());
        assert(whole.drop_last() =~= seq![c] + rest.drop_last());
        assert(whole.last() == rest.last());
        assert(escaped(whole) == escaped(seq![c] + rest.drop_last()) + escape_char(rest.last()));
        assert(escaped(rest) == escaped(rest.drop_last()) + escape_char(rest.last()));
        assert(escaped(whole) =~= escape_char(c) + escaped(rest));
    }
}

/// **What is escaped decodes back.** Reading the body of a JSON string that
/// [`escape`] wrote, as JSON defines its escapes, gives exactly the text that
/// went in.
pub proof fn lemma_escape_round_trip(s: Seq<char>)
    ensures
        unescaped(escaped(s)) == s,
    decreases s.len(),
{
    if s.len() > 0 {
        let rest = s.drop_first();
        assert(s =~= seq![s[0]] + rest);
        lemma_escaped_front(s[0], rest);
        lemma_unescape_one(s[0], escaped(rest));
        lemma_escape_round_trip(rest);
    }
}

/// No character below a space in `s` but the line break.
pub open spec fn json_clean(s: Seq<char>) -> bool {
    forall|k: int| 0 <= k < s.len() ==> s[k] == '\n' || ' ' <= #[trigger] s[k]
}

broadcast proof fn lemma_clean_add(a: Seq<char>, b: Seq<char>)
    requires
        json_clean(a),
        json_clean(b),
    ensures
        #[trigger] json_clean(a + b),
{
    assert forall|k: int| 0 <= k < (a + b).len() implies (a + b)[k] == '\n' || ' ' <= #[trigger] (
    a + b)[k] by {
        if k < a.len() {
            assert((a + b)[k] == a[k]);
        } else {
            assert((a + b)[k] == b[k - a.len()]);
        }
    }
}

proof fn lemma_escape_char_clean(c: char)
    ensures
        json_clean(escape_char(c)),
{
    if ' ' > c && c != '\n' && c != '\t' {
        let n = c as nat;
        assert(n / 16 < 2);
        assert(hex_digit(n / 16) >= '0');
        assert(hex_digit(n % 16) >= '0');
    }
}

proof fn lemma_escaped_clean(s: Seq<char>)
    ensures
        json_clean(escaped(s)),
    decreases s.len(),
{
    broadcast use lemma_clean_add;

    if s.len() > 0 {
        lemma_escaped_clean(s.drop_last());
        lemma_escape_char_clean(s.last());
    }
}

proof fn lemma_quoted_clean(s: Seq<char>)
    ensures
        json_clean(quoted(s)),
{
    broadcast use lemma_clean_add;

    lemma_escaped_clean(s);
    assert(json_clean(seq!['"']));
}

proof fn lemma_small_clean()
    ensures
        forall|n: nat| #[trigger] json_clean(indent_of(n)),
        forall|i: int, n: int| #[trigger] json_clean(comma(i, n)),
        json_clean(seq![' ', ' ']),
        json_clean(seq!['\n']),
        json_clean(seq![',']),
        json_clean(seq![':', ' ']),
        json_clean(seq!['[', '\n']),
        json_clean(seq!['{', '\n']),
        json_clean(seq![']']),
        json_clean(seq!['}']),
        json_clean(Seq::<char>::empty()),
{
    assert forall|i: int, n: int| #[trigger] json_clean(comma(i, n)) by {
        if i + 1 != n {
            assert(comma(i, n) =~= seq![',']);
        }
    }
}

proof fn lemma_items_clean(items: Seq<String>, depth: nat, n: int)
    ensures
        json_clean(json_items(items, depth, n)),
    decreases items.len(),
{
    broadcast use lemma_clean_add;

    lemma_small_clean();
    if items.len() > 0 {
        lemma_items_clean(items.drop_last(), depth, n);
        lemma_quoted_clean(items.last()@);
    }
}

proof fn lemma_list_clean(items: Seq<String>, depth: nat)
    ensures
        json_clean(json_list(items, depth)),
{
    broadcast use lemma_clean_add;

    lemma_small_clean();
    reveal_strlit("[]");
    lemma_items_clean(items, depth, items.len() as int);
}

proof fn lemma_value_clean(v: Value, depth: nat)
    ensures
        json_clean(json_value(v, depth)),
    decreases v, 0nat,
{
    broadcast use lemma_clean_add;

    reveal_strlit("true");
    reveal_strlit("false");
    match v {
        Value::Text(t) => lemma_quoted_clean(t@),
        Value::Form(t) => lemma_quoted_clean(t@),
        Value::Quantity { text, .. } => lemma_quoted_clean(text@),
        Value::Number(t) => lemma_quoted_clean(t@),
        Value::Bool(b) => {},
        Value::List(items) => lemma_list_clean(items@, depth),
        Value::Section(fields) => lemma_object_clean(fields@, depth),
        Value::Rows { rows, .. } => lemma_object_clean(rows@, depth),
    }
}

proof fn lemma_object_clean(fields: Seq<(String, Value)>, depth: nat)
    ensures
        json_clean(json_object(fields, depth)),
    decreases fields, 1nat,
{
    broadcast use lemma_clean_add;

    lemma_small_clean();
    reveal_strlit("{}");
    if fields.len() > 0 {
        lemma_members_clean(fields, depth, fields.len() as int);
    }
}

proof fn lemma_members_clean(fields: Seq<(String, Value)>, depth: nat, n: int)
    ensures
        json_clean(json_members(fields, depth, n)),
    decreases fields, 0nat,
{
    broadcast use lemma_clean_add;

    lemma_small_clean();
    if fields.len() > 0 {
        lemma_members_clean(fields.drop_last(), depth, n);
        lemma_quoted_clean(fields.last().0@);
        lemma_value_clean(fields.last().1, depth + 1);
    }
}

proof fn lemma_top_clean(fields: Seq<(String, Value)>, n: int, more: bool)
    ensures
        json_clean(top_members(fields, n, more)),
    decreases fields.len(),
{
    broadcast use lemma_clean_add;

    lemma_small_clean();
    reveal_strlit("  ");
    reveal_strlit(": ");
    reveal_strlit("\n");
    if fields.len() > 0 {
        lemma_top_clean(fields.drop_last(), n, more);
        lemma_quoted_clean(fields.last().0@);
        lemma_value_clean(fields.last().1, 1);
    }
}

proof fn lemma_cert_lines_clean(certs: Seq<(Seq<char>, Certification)>, n: int)
    ensures
        json_clean(cert_lines(certs, n)),
    decreases certs.len(),
{
    broadcast use lemma_clean_add;

    lemma_small_clean();
    reveal_strlit("    ");
    reveal_strlit(": ");
    reveal_strlit("\n");
    if certs.len() > 0 {
        lemma_cert_lines_clean(certs.drop_last(), n);
        lemma_quoted_clean(certs.last().0);
        lemma_quoted_clean(cert_text(certs.last().1));
    }
}

/// **JSON carries no raw control character.** Every character of the JSON
/// form of a document is a space or above, or a line break: a control
/// character inside any string, the escape character among them, leaves as
/// an escape.
pub proof fn lemma_json_has_no_raw_control(
    fields: Seq<(String, Value)>,
    certs: Seq<(Seq<char>, Certification)>,
    notes: Seq<String>,
)
    ensures
        json_clean(doc_json(fields, certs, notes)),
{
    broadcast use lemma_clean_add;

    lemma_small_clean();
    reveal_strlit("{\n");
    reveal_strlit("  \"format\": \"");
    reveal_strlit("ucal-json/1");
    reveal_strlit("\",\n");
    reveal_strlit("  \"certification\": {\n");
    reveal_strlit("  }");
    reveal_strlit("\n");
    reveal_strlit("  \"notes\": ");
    reveal_strlit("}\n");
    lemma_top_clean(fields, fields.len() as int, notes.len() > 0 || certs.len() > 0);
    if certs.len() > 0 {
        lemma_cert_lines_clean(certs, certs.len() as int);
    }
    if notes.len() > 0 {
        lemma_list_clean(notes, 1);
    }
    assert(json_clean(cert_block(certs, notes.len() > 0)));
    assert(json_clean(notes_block(notes)));
}

/// `fields` with its field `i` holding a table turned into the section of
/// the table's rows, key unchanged.
pub open spec fn rows_as_section(fields: Seq<(String, Value)>, i: int) -> Seq<(String, Value)> {
    fields.update(i, (fields[i].0, Value::Section(fields[i].1->rows)))
}

proof fn lemma_rows_top_members(fields: Seq<(String, Value)>, i: int, n: int, more: bool)
    requires
        0 <= i < fields.len(),
        fields[i].1 is Rows,
    ensures
        top_members(rows_as_section(fields, i), n, more) == top_members(fields, n, more),
        certs_of(rows_as_section(fields, i), Seq::empty()) == certs_of(fields, Seq::empty()),
    decreases fields.len(),
{
    let g = rows_as_section(fields, i);
    let last = fields.len() - 1;
    if i == last {
        assert(g.drop_last() =~= fields.drop_last());
        assert(json_value(g.last().1, 1) == json_value(fields.last().1, 1));
        assert(certs_in(g.last().0@, g.last().1) == certs_in(fields.last().0@, fields.last().1));
    } else {
        lemma_rows_top_members(fields.drop_last(), i, n, more);
        assert(g.drop_last() =~= rows_as_section(fields.drop_last(), i));
        assert(g.last() == fields.last());
    }
}

/// **A table is written as the section it holds.** Turning one top-level
/// table of a document into a plain section of the same rows leaves its JSON
/// form unchanged, certification and notes included: the table hint is for
/// a person reading text only.
pub proof fn lemma_rows_serialise_as_section(fields: Seq<(String, Value)>, i: int, notes: Seq<String>)
    requires
        0 <= i < fields.len(),
        fields[i].1 is Rows,
    ensures
        doc_json(
            rows_as_section(fields, i),
            certs_of(rows_as_section(fields, i), Seq::empty()),
            notes,
        ) == doc_json(fields, certs_of(fields, Seq::empty()), notes),
{
    let g = rows_as_section(fields, i);
    lemma_rows_top_members(fields, i, fields.len() as int, notes.len() > 0 || certs_of(fields, Seq::empty()).len() > 0);
    assert(g.len() == fields.len());
}

/// A JSON boolean literal read back: `true`, `false`, or nothing.
pub open spec fn read_bool(s: Seq<char>) -> Option<bool> {
    if s == seq!['t', 'r', 'u', 'e'] {
        Some(true)
    } else if s == seq!['f', 'a', 'l', 's', 'e'] {
        Some(false)
    } else {
        None
    }
}

/// **A boolean reads back as itself.** The JSON of a boolean value, at any
/// nesting, is a literal that reads back as the same boolean: `true` for
/// true and `false` for false.
pub proof fn lemma_bool_reads_back(b: bool, depth: nat)
    ensures
        read_bool(json_value(Value::Bool(b), depth)) == Some(b),
{
    reveal_strlit("true");
    reveal_strlit("false");
    assert("true"@ =~= seq!['t', 'r', 'u', 'e']);
    assert("false"@ =~= seq!['f', 'a', 'l', 's', 'e']);
}

} // verus!
