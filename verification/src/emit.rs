//! Output emission: one document, two renderings.
//!
//! Every command builds a [`Doc`] rather than printing. A `Doc` renders as text
//! for a person or as JSON for a program, and the JSON is stable and versioned:
//! the version is emitted in every document.
use vstd::prelude::*;

use crate::cert::{cert_text, Certification};
use crate::style::{
    group_decimal, grouped, paint_form, painted, painted_form, Render, Role, Style,
};
use crate::style::{strip_ansi, stripped};
use crate::table::{max_key_len, opt_view, table_text, wrap_painted, wrapped_painted};
use crate::table;
use crate::text::{chars_of, contains_seq, contains_str, push_char, push_str, spaces};

verus! {

broadcast use vstd::string::group_string_axioms;

/// The `--json` schema version.
pub const JSON_FORMAT: &'static str = "ucal-json/1";

/// A rendered value: a scalar, a list, or a nested section.
#[derive(Debug)]
#[non_exhaustive]
pub enum Value {
    /// A string, rendered verbatim in text and quoted in JSON.
    Text(String),
    /// An integer, held as a decimal string because tick counts exceed `u64`.
    Number(String),
    /// A boolean.
    Bool(bool),
    /// An ordered list of strings.
    List(Vec<String>),
    /// A nested section.
    Section(Vec<(String, Value)>),
    /// A row-shaped field, rendered as a table for a person and exactly as a
    /// section in JSON.
    Rows {
        /// Header for the column holding each row's key.
        key: String,
        /// Header for the value column, when the rows are scalars.
        value: Option<String>,
        /// The rows, in order.
        rows: Vec<(String, Value)>,
    },
    /// A rendered number that knows what kind of number it is.
    Quantity {
        /// The rendered digits.
        text: String,
        /// Exact, a rounding, or one bound of an enclosure.
        cert: Certification,
    },
    /// A rendered timestamp form; a string in JSON.
    Form(String),
}

// ---------------------------------------------------------------------------
// JSON
// ---------------------------------------------------------------------------

/// The lowercase hexadecimal digit for `d < 16`.
pub open spec fn hex_digit(d: nat) -> char {
    if d < 10 { (d + 48) as char } else { (d - 10 + 97) as char }
}

/// One character, escaped for a JSON string.
pub open spec fn escape_char(c: char) -> Seq<char> {
    if c == '"' {
        seq!['\\', '"']
    } else if c == '\\' {
        seq!['\\', '\\']
    } else if c == '\n' {
        seq!['\\', 'n']
    } else if c == '\t' {
        seq!['\\', 't']
    } else if ' ' > c {
        seq!['\\', 'u', '0', '0', hex_digit((c as nat) / 16), hex_digit((c as nat) % 16)]
    } else {
        seq![c]
    }
}

/// `s` escaped for a JSON string.
pub open spec fn escaped(s: Seq<char>) -> Seq<char>
    decreases s.len(),
{
    if s.len() == 0 {
        Seq::empty()
    } else {
        escaped(s.drop_last()) + escape_char(s.last())
    }
}

/// `s` as a JSON string literal.
pub open spec fn quoted(s: Seq<char>) -> Seq<char> {
    seq!['"'] + escaped(s) + seq!['"']
}

/// `n` levels of two-space indentation.
pub open spec fn indent_of(n: nat) -> Seq<char> {
    Seq::new(2 * n, |_i: int| ' ')
}

/// The separator after entry `i` of `n`: a comma except after the last.
pub open spec fn comma(i: int, n: int) -> Seq<char> {
    if i + 1 == n { Seq::empty() } else { seq![','] }
}

/// The entries of a JSON array of strings, one per line.
pub open spec fn json_items(items: Seq<String>, depth: nat, n: int) -> Seq<char>
    decreases items.len(),
{
    if items.len() == 0 {
        Seq::empty()
    } else {
        json_items(items.drop_last(), depth, n) + indent_of(depth) + seq![' ', ' '] + quoted(
            items.last()@,
        ) + comma(items.len() - 1, n) + seq!['\n']
    }
}

/// A JSON array of strings at nesting `depth`.
pub open spec fn json_list(items: Seq<String>, depth: nat) -> Seq<char> {
    if items.len() == 0 {
        "[]"@
    } else {
        seq!['[', '\n'] + json_items(items, depth, items.len() as int) + indent_of(depth) + seq![']']
    }
}

/// A JSON value at nesting `depth`.
pub open spec fn json_value(v: Value, depth: nat) -> Seq<char>
    decreases v, 0nat,
{
    match v {
        Value::Text(t) => quoted(t@),
        Value::Form(t) => quoted(t@),
        Value::Quantity { text, .. } => quoted(text@),
        Value::Number(t) => quoted(t@),
        Value::Bool(b) => if b { "true"@ } else { "false"@ },
        Value::List(items) => json_list(items@, depth),
        Value::Section(fields) => json_object(fields@, depth),
        Value::Rows { rows, .. } => json_object(rows@, depth),
    }
}

/// A JSON object of `fields` at nesting `depth`.
pub open spec fn json_object(fields: Seq<(String, Value)>, depth: nat) -> Seq<char>
    decreases fields, 1nat,
{
    if fields.len() == 0 {
        "{}"@
    } else {
        seq!['{', '\n'] + json_members(fields, depth, fields.len() as int) + indent_of(depth)
            + seq!['}']
    }
}

/// The members of a JSON object, one per line.
pub open spec fn json_members(fields: Seq<(String, Value)>, depth: nat, n: int) -> Seq<char>
    decreases fields, 0nat,
{
    if fields.len() == 0 {
        Seq::empty()
    } else {
        json_members(fields.drop_last(), depth, n) + indent_of(depth) + seq![' ', ' '] + quoted(
            fields.last().0@,
        ) + seq![':', ' '] + json_value(fields.last().1, depth + 1) + comma(fields.len() - 1, n)
            + seq!['\n']
    }
}


/// How deeply a value nests sections and tables.
pub open spec fn nesting(v: Value) -> nat
    decreases v, 1nat,
{
    match v {
        Value::Section(fields) => 1 + fields_nesting(fields@),
        Value::Rows { rows, .. } => 1 + fields_nesting(rows@),
        _ => 0,
    }
}

/// The deepest nesting among the values of `fields`.
pub open spec fn fields_nesting(fields: Seq<(String, Value)>) -> nat
    decreases fields, 0nat,
{
    if fields.len() == 0 {
        0
    } else {
        let a = fields_nesting(fields.drop_last());
        let b = nesting(fields.last().1);
        if a >= b { a } else { b }
    }
}

proof fn lemma_fields_nesting(fields: Seq<(String, Value)>, i: int)
    requires
        0 <= i < fields.len(),
    ensures
        nesting(fields[i].1) <= fields_nesting(fields),
        fields_nesting(fields.take(i)) <= fields_nesting(fields),
    decreases fields.len(),
{
    if i < fields.len() - 1 {
        lemma_fields_nesting(fields.drop_last(), i);
        assert(fields.drop_last()[i] == fields[i]);
        assert(fields.drop_last().take(i) =~= fields.take(i));
    } else {
        assert(fields.drop_last() =~= fields.take(i));
    }
}

/// `s` escaped for a JSON string.
pub fn escape(s: &str) -> (out: String)
    ensures
        out@ == escaped(s@),
{
    let cs = chars_of(s);
    let mut out = String::new();
    let mut i: usize = 0;
    while i < cs.len()
        invariant
            i <= cs.len(),
            cs@ == s@,
            out@ == escaped(cs@.take(i as int)),
        decreases cs.len() - i,
    {
        let c = cs[i];
        assert(cs@.take(i + 1).drop_last() =~= cs@.take(i as int));
        let ghost before = out@;
        if c == '"' {
            push_char(&mut out, '\\');
            push_char(&mut out, '"');
        } else if c == '\\' {
            push_char(&mut out, '\\');
            push_char(&mut out, '\\');
        } else if c == '\n' {
            push_char(&mut out, '\\');
            push_char(&mut out, 'n');
        } else if c == '\t' {
            push_char(&mut out, '\\');
            push_char(&mut out, 't');
        } else if ' ' > c {
            let n: u8 = control_code(c);
            push_char(&mut out, '\\');
            push_char(&mut out, 'u');
            push_char(&mut out, '0');
            push_char(&mut out, '0');
            push_char(&mut out, hex_char(n / 16));
            push_char(&mut out, hex_char(n % 16));
        } else {
            push_char(&mut out, c);
        }
        assert(out@ =~= before + escape_char(c));
        i = i + 1;
    }
    assert(cs@.take(cs.len() as int) =~= cs@);
    out
}

/// The code of a control character.
fn control_code(c: char) -> (n: u8)
    requires
        c < ' ',
    ensures
        n as nat == c as nat,
        n < 0x20,
{
    let mut n: u8 = 0;
    while n < 0x20
        invariant
            n <= 0x20,
            c < ' ',
            n as nat <= c as nat,
        decreases 0x20 - n,
    {
        if (n as char) == c {
            return n;
        }
        n = n + 1;
    }
    n
}

/// The lowercase hexadecimal digit for `d < 16`.
fn hex_char(d: u8) -> (c: char)
    requires
        d < 16,
    ensures
        c == hex_digit(d as nat),
{
    if d < 10 {
        (d + 48) as char
    } else {
        (d - 10 + 97) as char
    }
}

/// Append `s` as a JSON string literal.
fn push_quoted(out: &mut String, s: &str)
    ensures
        final(out)@ == old(out)@ + quoted(s@),
{
    push_char(out, '"');
    let e = escape(s);
    push_str(out, e.as_str());
    push_char(out, '"');
    assert(final(out)@ =~= old(out)@ + quoted(s@));
}

/// Append `n` levels of indentation.
fn push_indent(out: &mut String, n: usize)
    requires
        2 * n <= usize::MAX,
    ensures
        final(out)@ == old(out)@ + indent_of(n as nat),
{
    let mut i: usize = 0;
    while i < 2 * n
        invariant
            i <= 2 * n,
            2 * n <= usize::MAX,
            out@ == old(out)@ + Seq::new(i as nat, |_j: int| ' '),
        decreases 2 * n - i,
    {
        push_char(out, ' ');
        i = i + 1;
        assert(out@ =~= old(out)@ + Seq::new(i as nat, |_j: int| ' '));
    }
}

/// Append the separator after entry `i` of `n`.
fn push_comma(out: &mut String, i: usize, n: usize)
    ensures
        final(out)@ == old(out)@ + comma(i as int, n as int),
{
    if n > 0 && i == n - 1 {
        assert(old(out)@ + comma(i as int, n as int) =~= old(out)@);
    } else {
        push_char(out, ',');
    }
}

/// Append a JSON value at nesting `depth`.
fn write_json_value(out: &mut String, v: &Value, depth: usize)
    requires
        depth + nesting(*v) < usize::MAX / 2,
    ensures
        final(out)@ == old(out)@ + json_value(*v, depth as nat),
    decreases v,
{
    match v {
        Value::Text(t) => push_quoted(out, t.as_str()),
        Value::Form(t) => push_quoted(out, t.as_str()),
        Value::Quantity { text, .. } => push_quoted(out, text.as_str()),
        Value::Number(t) => push_quoted(out, t.as_str()),
        Value::Bool(b) => {
            if *b {
                push_str(out, "true");
            } else {
                push_str(out, "false");
            }
        },
        Value::List(items) => write_json_list(out, items, depth),
        Value::Section(fields) => write_json_object(out, fields, depth),
        Value::Rows { rows, .. } => write_json_object(out, rows, depth),
    }
}

/// Append a JSON array of strings at nesting `depth`.
fn write_json_list(out: &mut String, items: &Vec<String>, depth: usize)
    requires
        depth < usize::MAX / 2,
    ensures
        final(out)@ == old(out)@ + json_list(items@, depth as nat),
{
            if items.len() == 0 {
                push_str(out, "[]");
            } else {
                push_char(out, '[');
                push_char(out, '\n');
                let ghost start = out@;
                let mut i: usize = 0;
                assert(items@.take(0) =~= Seq::<String>::empty());
                while i < items.len()
                    invariant
                        i <= items.len(),
                        2 * depth <= usize::MAX,
                        out@ == start + json_items(items@.take(i as int), depth as nat, items.len() as int),
                    decreases items.len() - i,
                {
                    assert(items@.take(i + 1).drop_last() =~= items@.take(i as int));
                    push_indent(out, depth);
                    push_char(out, ' ');
                    push_char(out, ' ');
                    push_quoted(out, items[i].as_str());
                    push_comma(out, i, items.len());
                    push_char(out, '\n');
                    i = i + 1;
                    assert(out@ =~= start + json_items(items@.take(i as int), depth as nat, items.len() as int));
                }
                assert(items@.take(items.len() as int) =~= items@);
                push_indent(out, depth);
                push_char(out, ']');
                assert(final(out)@ =~= old(out)@ + json_list(items@, depth as nat));
            }
}

/// Append a JSON object of `fields` at nesting `depth`.
fn write_json_object(out: &mut String, fields: &Vec<(String, Value)>, depth: usize)
    requires
        depth + 1 + fields_nesting(fields@) < usize::MAX / 2,
    ensures
        final(out)@ == old(out)@ + json_object(fields@, depth as nat),
    decreases fields,
{
    if fields.len() == 0 {
        push_str(out, "{}");
        return;
    }
    push_char(out, '{');
    push_char(out, '\n');
    let ghost start = out@;
    let mut i: usize = 0;
    assert(fields@.take(0) =~= Seq::<(String, Value)>::empty());
    while i < fields.len()
        invariant
            i <= fields.len(),
            depth + 1 + fields_nesting(fields@) < usize::MAX / 2,
            out@ == start + json_members(fields@.take(i as int), depth as nat, fields.len() as int),
        decreases fields.len() - i,
    {
        assert(fields@.take(i + 1).drop_last() =~= fields@.take(i as int));
        proof {
            lemma_fields_nesting(fields@, i as int);
        }
        push_indent(out, depth);
        push_char(out, ' ');
        push_char(out, ' ');
        push_quoted(out, fields[i].0.as_str());
        push_char(out, ':');
        push_char(out, ' ');
        write_json_value(out, &fields[i].1, depth + 1);
        push_comma(out, i, fields.len());
        push_char(out, '\n');
        i = i + 1;
        assert(out@ =~= start + json_members(fields@.take(i as int), depth as nat, fields.len() as int));
    }
    assert(fields@.take(fields.len() as int) =~= fields@);
    push_indent(out, depth);
    push_char(out, '}');
    assert(final(out)@ =~= old(out)@ + json_object(fields@, depth as nat));
}


// ---------------------------------------------------------------------------
// values and documents
// ---------------------------------------------------------------------------

impl Value {
    /// A string value.
    pub fn text(s: &str) -> (v: Value)
        ensures
            v matches Value::Text(t) && t@ == s@,
    {
        Value::Text(s.to_owned())
    }

    /// A numeric value, given as a decimal string.
    pub fn number(s: &str) -> (v: Value)
        ensures
            v matches Value::Number(t) && t@ == s@,
    {
        Value::Number(s.to_owned())
    }

    /// A rendered timestamp form.
    pub fn form(s: &str) -> (v: Value)
        ensures
            v matches Value::Form(t) && t@ == s@,
    {
        Value::Form(s.to_owned())
    }

    /// An exactly-rendered value, for a quantity that is exact by construction.
    pub fn exact(s: &str) -> (v: Value)
        ensures
            v matches Value::Quantity { text, cert } && text@ == s@ && cert == Certification::Exact,
    {
        Value::Quantity { text: s.to_owned(), cert: Certification::Exact }
    }

    /// One bound of a certified pair.
    pub fn bound(s: &str) -> (v: Value)
        ensures
            v matches Value::Quantity { text, cert } && text@ == s@ && cert
                == Certification::Enclosure,
    {
        Value::Quantity { text: s.to_owned(), cert: Certification::Enclosure }
    }

    /// Rows of sections, rendered as a table.
    pub fn rows(key: &str, rows: Vec<(String, Value)>) -> (v: Value)
        ensures
            v matches Value::Rows { key: k, value, rows: r } && k@ == key@ && value is None && r
                == rows,
    {
        Value::Rows { key: key.to_owned(), value: None, rows }
    }

    /// Rows of scalars, rendered as two columns.
    pub fn rows_of(key: &str, value: &str, rows: Vec<(String, Value)>) -> (v: Value)
        ensures
            v matches Value::Rows { key: k, value: Some(h), rows: r } && k@ == key@ && h@ == value@
                && r == rows,
    {
        Value::Rows { key: key.to_owned(), value: Some(value.to_owned()), rows }
    }

    /// A list of strings.
    pub fn list(items: &[&str]) -> (v: Value)
        ensures
            v matches Value::List(l) && l@.len() == items@.len() && forall|i: int|
                0 <= i < items@.len() ==> #[trigger] l@[i]@ == items@[i]@,
    {
        let mut l: Vec<String> = Vec::new();
        let mut i: usize = 0;
        while i < items.len()
            invariant
                i <= items@.len(),
                l@.len() == i,
                forall|j: int| 0 <= j < i ==> #[trigger] l@[j]@ == items@[j]@,
            decreases items@.len() - i,
        {
            l.push(items[i].to_owned());
            i = i + 1;
        }
        Value::List(l)
    }

    /// The rows of a section or a table, whichever this is.
    pub fn as_rows(&self) -> (r: Option<&[(String, Value)]>)
        ensures
            r matches Some(rs) ==> (self matches Value::Section(f) && rs@ == f@) || (
            self matches Value::Rows { rows, .. } && rs@ == rows@),
            r is None <==> !(self is Section || self is Rows),
    {
        match self {
            Value::Section(f) => Some(f.as_slice()),
            Value::Rows { rows, .. } => Some(rows.as_slice()),
            _ => None,
        }
    }
}

/// The dotted path of a field under `prefix`.
pub open spec fn path_of(prefix: Seq<char>, key: Seq<char>) -> Seq<char> {
    if prefix.len() == 0 { key } else { prefix + seq!['.'] + key }
}

/// Every non-exact quantity among `fields` and beneath them, by dotted path,
/// in order.
pub open spec fn certs_of(fields: Seq<(String, Value)>, prefix: Seq<char>) -> Seq<(Seq<char>, Certification)>
    decreases fields, 0nat,
{
    if fields.len() == 0 {
        Seq::empty()
    } else {
        certs_of(fields.drop_last(), prefix) + certs_in(
            path_of(prefix, fields.last().0@),
            fields.last().1,
        )
    }
}

/// The non-exact quantities in one value whose path is `path`.
pub open spec fn certs_in(path: Seq<char>, v: Value) -> Seq<(Seq<char>, Certification)>
    decreases v, 1nat,
{
    match v {
        Value::Quantity { cert, .. } => if cert is Exact {
            Seq::empty()
        } else {
            seq![(path, cert)]
        },
        Value::Section(inner) => certs_of(inner@, path),
        Value::Rows { rows, .. } => certs_of(rows@, path),
        _ => Seq::empty(),
    }
}

/// The view of a list of certified paths.
pub open spec fn certs_view(v: Seq<(String, Certification)>) -> Seq<(Seq<char>, Certification)> {
    v.map_values(|e: (String, Certification)| (e.0@, e.1))
}

/// Walk a field tree, collecting every non-exact quantity by dotted path.
#[verifier::spinoff_prover]
fn collect_certs(fields: &Vec<(String, Value)>, prefix: &str, out: &mut Vec<(String, Certification)>)
    ensures
        certs_view(final(out)@) == certs_view(old(out)@) + certs_of(fields@, prefix@),
    decreases fields,
{
    let mut i: usize = 0;
    assert(fields@.take(0) =~= Seq::<(String, Value)>::empty());
    assert(certs_view(out@) =~= certs_view(old(out)@) + certs_of(fields@.take(0), prefix@));
    while i < fields.len()
        invariant
            i <= fields.len(),
            certs_view(out@) == certs_view(old(out)@) + certs_of(fields@.take(i as int), prefix@),
        decreases fields.len() - i,
    {
        assert(fields@.take(i + 1).drop_last() =~= fields@.take(i as int));
        let k = &fields[i].0;
        let mut path = String::new();
        if prefix.is_empty() {
            push_str(&mut path, k.as_str());
        } else {
            push_str(&mut path, prefix);
            push_char(&mut path, '.');
            push_str(&mut path, k.as_str());
        }
        assert(path@ =~= path_of(prefix@, k@));
        let ghost before = certs_view(out@);
        match &fields[i].1 {
            Value::Quantity { cert, .. } => {
                if !cert.is_exact() {
                    out.push((path, *cert));
                    assert(certs_view(out@) =~= before + certs_in(path_of(prefix@, k@), fields@[i as int].1));
                } else {
                    assert(certs_in(path_of(prefix@, k@), fields@[i as int].1) =~= Seq::<(Seq<char>, Certification)>::empty());
                }
            },
            Value::Section(inner) => collect_certs(inner, path.as_str(), out),
            Value::Rows { rows, .. } => collect_certs(rows, path.as_str(), out),
            _ => {
                assert(certs_in(path_of(prefix@, k@), fields@[i as int].1) =~= Seq::<(Seq<char>, Certification)>::empty());
            },
        }
        assert(certs_view(out@) == before + certs_in(path_of(prefix@, k@), fields@[i as int].1));
        assert(fields@.take(i + 1).last() == fields@[i as int]);
        assert(certs_of(fields@.take(i + 1), prefix@) == certs_of(fields@.take(i as int), prefix@)
            + certs_in(path_of(prefix@, k@), fields@[i as int].1));
        i = i + 1;
        assert(certs_view(out@) =~= certs_view(old(out)@) + certs_of(fields@.take(i as int), prefix@));
    }
    assert(fields@.take(fields.len() as int) =~= fields@);
}

/// A document: a titled, ordered sequence of fields, and trailing notes.
///
/// Order is significant and is part of the contract: the container preserves
/// insertion order rather than sorting.
pub struct Doc {
    title: Option<String>,
    fields: Vec<(String, Value)>,
    notes: Vec<String>,
}

impl Doc {
    /// The heading, if any.
    pub closed spec fn heading(&self) -> Option<Seq<char>> {
        match self.title {
            Some(t) => Some(t@),
            None => None,
        }
    }

    /// The fields, in order.
    pub closed spec fn entries(&self) -> Seq<(String, Value)> {
        self.fields@
    }

    /// The trailing notes, in order.
    pub closed spec fn remarks(&self) -> Seq<String> {
        self.notes@
    }

    /// An empty document.
    pub fn new() -> (d: Doc)
        ensures
            d.heading() is None,
            d.entries().len() == 0,
            d.remarks().len() == 0,
    {
        Doc { title: None, fields: Vec::new(), notes: Vec::new() }
    }

    /// Set the heading shown in text mode.
    pub fn title(self, t: &str) -> (d: Doc)
        ensures
            d.heading() == Some(t@),
            d.entries() == self.entries(),
            d.remarks() == self.remarks(),
    {
        Doc { title: Some(t.to_owned()), fields: self.fields, notes: self.notes }
    }

    /// Append a field. Insertion order is preserved.
    pub fn field(self, k: &str, v: Value) -> (d: Doc)
        ensures
            d.heading() == self.heading(),
            d.entries().len() == self.entries().len() + 1,
            d.entries().drop_last() == self.entries(),
            d.entries().last().0@ == k@,
            d.entries().last().1 == v,
            d.remarks() == self.remarks(),
    {
        let mut fields = self.fields;
        fields.push((k.to_owned(), v));
        Doc { title: self.title, fields, notes: self.notes }
    }

    /// Append a trailing note, shown after the fields in text mode.
    pub fn note(self, n: &str) -> (d: Doc)
        ensures
            d.heading() == self.heading(),
            d.entries() == self.entries(),
            d.remarks().len() == self.remarks().len() + 1,
            d.remarks().drop_last() == self.remarks(),
            d.remarks().last()@ == n@,
    {
        let mut notes = self.notes;
        notes.push(n.to_owned());
        Doc { title: self.title, fields: self.fields, notes }
    }

    /// Every field, in order.
    pub fn fields(&self) -> (r: &[(String, Value)])
        ensures
            r@ == self.entries(),
    {
        self.fields.as_slice()
    }

    /// The field keys, in order.
    pub fn keys(&self) -> (r: Vec<&str>)
        ensures
            r@.len() == self.entries().len(),
            forall|i: int| 0 <= i < r@.len() ==> #[trigger] r@[i]@ == self.entries()[i].0@,
    {
        let mut r: Vec<&str> = Vec::new();
        let mut i: usize = 0;
        while i < self.fields.len()
            invariant
                i <= self.fields.len(),
                r@.len() == i,
                forall|j: int| 0 <= j < i ==> #[trigger] r@[j]@ == self.fields@[j].0@,
            decreases self.fields.len() - i,
        {
            r.push(self.fields[i].0.as_str());
            i = i + 1;
        }
        r
    }

    /// The value of the first field named `key`.
    pub fn get(&self, key: &str) -> (r: Option<&Value>)
        ensures
            r is None <==> forall|i: int| 0 <= i < self.entries().len() ==> #[trigger] self.entries()[i].0@ != key@,
            r matches Some(v) ==> exists|i: int|
                0 <= i < self.entries().len() && #[trigger] self.entries()[i].0@ == key@ && *v
                    == self.entries()[i].1 && forall|j: int| 0 <= j < i ==> #[trigger] self.entries()[j].0@ != key@,
    {
        let mut i: usize = 0;
        while i < self.fields.len()
            invariant
                i <= self.fields.len(),
                forall|j: int| 0 <= j < i ==> #[trigger] self.fields@[j].0@ != key@,
            decreases self.fields.len() - i,
        {
            if crate::text::str_eq(self.fields[i].0.as_str(), key) {
                assert(self.entries()[i as int].0@ == key@);
                assert(forall|j: int| 0 <= j < i ==> #[trigger] self.entries()[j].0@ != key@);
                return Some(&self.fields[i].1);
            }
            i = i + 1;
        }
        None
    }

    /// The rows of the first field named `key`, whether it is a section or a
    /// table.
    pub fn rows(&self, key: &str) -> (r: Option<&[(String, Value)]>)
        ensures
            r matches Some(rs) ==> exists|i: int|
                0 <= i < self.entries().len() && #[trigger] self.entries()[i].0@ == key@ && (forall|j: int|
                    0 <= j < i ==> #[trigger] self.entries()[j].0@ != key@) && ((self.entries()[i].1 matches Value::Section(f) && rs@ == f@) || (
                self.entries()[i].1 matches Value::Rows { rows, .. } && rs@ == rows@)),
            r is None <==> forall|i: int|
                0 <= i < self.entries().len() && #[trigger] self.entries()[i].0@ == key@ ==> (exists|j: int|
                    0 <= j < i && #[trigger] self.entries()[j].0@ == key@) || !(self.entries()[i].1 is Section
                    || self.entries()[i].1 is Rows),
    {
        match self.get(key) {
            Some(v) => v.as_rows(),
            None => None,
        }
    }

    /// Every non-exact rendered number in this document, with its dotted path.
    pub fn certifications(&self) -> (r: Vec<(String, Certification)>)
        ensures
            certs_view(r@) == certs_of(self.entries(), Seq::empty()),
    {
        let mut out: Vec<(String, Certification)> = Vec::new();
        collect_certs(&self.fields, "", &mut out);
        proof {
            reveal_strlit("");
        }
        assert(certs_view(Seq::<(String, Certification)>::empty()) =~= Seq::<(Seq<char>, Certification)>::empty());
        assert(""@ =~= Seq::<char>::empty());
        assert(certs_view(out@) =~= certs_of(self.fields@, Seq::empty()));
        out
    }
}


/// The top-level members of a document, one per line; the last one takes a
/// comma only when more follows (`more`).
pub open spec fn top_members(fields: Seq<(String, Value)>, n: int, more: bool) -> Seq<char>
    decreases fields.len(),
{
    if fields.len() == 0 {
        Seq::empty()
    } else {
        top_members(fields.drop_last(), n, more) + "  "@ + quoted(fields.last().0@) + ": "@
            + json_value(fields.last().1, 1) + (if fields.len() == n && !more {
            Seq::<char>::empty()
        } else {
            seq![',']
        }) + "\n"@
    }
}

/// The lines of the `certification` object.
pub open spec fn cert_lines(certs: Seq<(Seq<char>, Certification)>, n: int) -> Seq<char>
    decreases certs.len(),
{
    if certs.len() == 0 {
        Seq::empty()
    } else {
        cert_lines(certs.drop_last(), n) + "    "@ + quoted(certs.last().0) + ": "@ + quoted(
            cert_text(certs.last().1),
        ) + comma(certs.len() - 1, n) + "\n"@
    }
}

/// The `certification` object, when there is anything to certify.
pub open spec fn cert_block(certs: Seq<(Seq<char>, Certification)>, notes_follow: bool) -> Seq<char> {
    if certs.len() == 0 {
        Seq::empty()
    } else {
        "  \"certification\": {\n"@ + cert_lines(certs, certs.len() as int) + "  }"@ + (if notes_follow {
            seq![',']
        } else {
            Seq::<char>::empty()
        }) + "\n"@
    }
}

/// The `notes` array, when there are notes.
pub open spec fn notes_block(notes: Seq<String>) -> Seq<char> {
    if notes.len() == 0 {
        Seq::empty()
    } else {
        "  \"notes\": "@ + json_list(notes, 1) + "\n"@
    }
}

/// A document as JSON: the format version, the fields in order, the
/// certification of every non-exact number, and the notes.
pub open spec fn doc_json(
    fields: Seq<(String, Value)>,
    certs: Seq<(Seq<char>, Certification)>,
    notes: Seq<String>,
) -> Seq<char> {
    "{\n"@ + "  \"format\": \""@ + JSON_FORMAT@ + "\",\n"@ + top_members(
        fields,
        fields.len() as int,
        notes.len() > 0 || certs.len() > 0,
    ) + cert_block(certs, notes.len() > 0) + notes_block(notes) + "}\n"@
}

impl Doc {
    /// Render for a program: stable and versioned JSON.
    pub fn to_json(&self) -> (s: String)
        requires
            fields_nesting(self.entries()) + 2 < usize::MAX / 2,
        ensures
            s@ == doc_json(self.entries(), certs_of(self.entries(), Seq::empty()), self.remarks()),
    {
        let certs = self.certifications();
        let mut s = String::new();
        push_str(&mut s, "{\n");
        push_str(&mut s, "  \"format\": \"");
        push_str(&mut s, JSON_FORMAT);
        push_str(&mut s, "\",\n");
        let more = self.notes.len() > 0 || certs.len() > 0;
        let n = self.fields.len();
        let ghost start = s@;
        let mut i: usize = 0;
        assert(self.fields@.take(0) =~= Seq::<(String, Value)>::empty());
        while i < n
            invariant
                i <= n,
                n == self.fields.len(),
                fields_nesting(self.fields@) + 2 < usize::MAX / 2,
                s@ == start + top_members(self.fields@.take(i as int), n as int, more),
            decreases n - i,
        {
            assert(self.fields@.take(i + 1).drop_last() =~= self.fields@.take(i as int));
            proof {
                lemma_fields_nesting(self.fields@, i as int);
            }
            push_str(&mut s, "  ");
            push_quoted(&mut s, self.fields[i].0.as_str());
            push_str(&mut s, ": ");
            write_json_value(&mut s, &self.fields[i].1, 1);
            if !(i + 1 == n && !more) {
                push_char(&mut s, ',');
            }
            push_str(&mut s, "\n");
            i = i + 1;
            assert(s@ =~= start + top_members(self.fields@.take(i as int), n as int, more));
        }
        assert(self.fields@.take(n as int) =~= self.fields@);
        let ghost mid = s@;
        if certs.len() > 0 {
            push_str(&mut s, "  \"certification\": {\n");
            let ghost cstart = s@;
            let cn = certs.len();
            let mut j: usize = 0;
            assert(certs_view(certs@).take(0) =~= Seq::<(Seq<char>, Certification)>::empty());
            while j < cn
                invariant
                    j <= cn,
                    cn == certs.len(),
                    s@ == cstart + cert_lines(certs_view(certs@).take(j as int), cn as int),
                decreases cn - j,
            {
                assert(certs_view(certs@).take(j + 1).drop_last() =~= certs_view(certs@).take(j as int));
                push_str(&mut s, "    ");
                push_quoted(&mut s, certs[j].0.as_str());
                push_str(&mut s, ": ");
                let label = certs[j].1.to_string();
                push_quoted(&mut s, label.as_str());
                push_comma(&mut s, j, cn);
                push_str(&mut s, "\n");
                j = j + 1;
                assert(s@ =~= cstart + cert_lines(certs_view(certs@).take(j as int), cn as int));
            }
            assert(certs_view(certs@).take(cn as int) =~= certs_view(certs@));
            push_str(&mut s, "  }");
            if self.notes.len() > 0 {
                push_char(&mut s, ',');
            }
            push_str(&mut s, "\n");
            assert(s@ =~= mid + cert_block(certs_view(certs@), self.notes@.len() > 0));
        } else {
            assert(s@ =~= mid + cert_block(certs_view(certs@), self.notes@.len() > 0));
        }
        let ghost mid2 = s@;
        if self.notes.len() > 0 {
            push_str(&mut s, "  \"notes\": ");
            write_json_list(&mut s, &self.notes, 1);
            push_str(&mut s, "\n");
        }
        assert(s@ =~= mid2 + notes_block(self.notes@));
        push_str(&mut s, "}\n");
        assert(s@ =~= doc_json(self.fields@, certs_view(certs@), self.notes@));
        s
    }
}


// ---------------------------------------------------------------------------
// text
// ---------------------------------------------------------------------------

/// The role a run of prose takes: a warning or an error when it carries that
/// diagnostic's code, else a note.
pub open spec fn prose_role(t: Seq<char>) -> Role {
    if contains_seq(t, "UCAL-W"@) {
        Role::Warning
    } else if contains_seq(t, "UCAL-E"@) {
        Role::Error
    } else {
        Role::Note
    }
}

/// Which role a run of prose takes. The test is the emitted code itself, not
/// a guess at tone.
pub fn role_of_prose(t: &str) -> (r: Role)
    ensures
        r == prose_role(t@),
{
    if contains_str(t, "UCAL-W") {
        Role::Warning
    } else if contains_str(t, "UCAL-E") {
        Role::Error
    } else {
        Role::Note
    }
}

/// One scalar value, painted; nothing for a value that is not a scalar.
pub open spec fn scalar_text(r: Render, v: Value) -> Seq<char> {
    match v {
        Value::Text(t) => painted(r.style.look(prose_role(t@)), t@),
        Value::Number(n) => grouped(r, n@),
        Value::Form(f) => painted_form(r.style, f@),
        Value::Quantity { text, .. } => grouped(r, text@),
        Value::Bool(b) => painted(r.style.look(Role::Value), if b { "true"@ } else { "false"@ }),
        _ => Seq::empty(),
    }
}

/// Paint one scalar value, the same way in a field and in a table cell.
pub fn render_scalar(r: &Render, v: &Value) -> (s: String)
    ensures
        s@ == scalar_text(*r, *v),
{
    match v {
        Value::Text(t) => r.style.paint(role_of_prose(t.as_str()), t.as_str()),
        Value::Number(n) => group_decimal(r, n.as_str()),
        Value::Form(f) => paint_form(r, f.as_str()),
        Value::Quantity { text, .. } => group_decimal(r, text.as_str()),
        Value::Bool(b) => r.style.paint(Role::Value, if *b { "true" } else { "false" }),
        _ => String::new(),
    }
}

/// `text` painted with `role`, then padded to `width` display columns.
pub open spec fn padded_text(style: Style, role: Role, text: Seq<char>, width: int) -> Seq<char> {
    painted(style.look(role), text) + spaces(if text.len() < width { (width - text.len()) as nat } else { 0 })
}

/// Pad `text` to `width` display columns, then paint it: padding is measured
/// on the characters a reader sees.
pub fn padded(style: &Style, role: Role, text: &str, width: usize) -> (s: String)
    ensures
        s@ == padded_text(*style, role, text@, width as int),
{
    let n = chars_of(text).len();
    let mut out = style.paint(role, text);
    let ghost start = out@;
    let mut i = n;
    while i < width
        invariant
            i == n || n < i <= width,
            n == text@.len(),
            out@ == start + spaces(if n < i { (i - n) as nat } else { 0 }),
        decreases width - i,
    {
        push_char(&mut out, ' ');
        i = i + 1;
        assert(out@ =~= start + spaces((i - n) as nat));
    }
    assert(out@ =~= padded_text(*style, role, text@, width as int));
    out
}

/// A list holding one string.
pub fn alloc_vec(s: String) -> (v: Vec<String>)
    ensures
        v@ == seq![s],
{
    let mut v = Vec::new();
    v.push(s);
    assert(v@ =~= seq![s]);
    v
}


/// The bound below which every key and every nesting depth lies, so the
/// column arithmetic of a layout fits a machine word.
pub open spec fn limit() -> int {
    (usize::MAX / 8) as int
}

/// Every key and table header inside `v` is shorter than [`limit`].
pub open spec fn value_fits(v: Value) -> bool
    decreases v, 1nat,
{
    match v {
        Value::Section(f) => fields_fit(f@),
        Value::Rows { key, rows, .. } => key@.len() < limit() && fields_fit(rows@),
        _ => true,
    }
}

/// Every key among `fields`, and inside their values, is shorter than
/// [`limit`].
pub open spec fn fields_fit(fields: Seq<(String, Value)>) -> bool
    decreases fields, 0nat,
{
    if fields.len() == 0 {
        true
    } else {
        fields_fit(fields.drop_last()) && fields.last().0@.len() < limit() && value_fits(
            fields.last().1,
        )
    }
}

proof fn lemma_fields_fit(fields: Seq<(String, Value)>, i: int)
    requires
        fields_fit(fields),
        0 <= i < fields.len(),
    ensures
        fields[i].0@.len() < limit(),
        value_fits(fields[i].1),
    decreases fields.len(),
{
    if i < fields.len() - 1 {
        lemma_fields_fit(fields.drop_last(), i);
        assert(fields.drop_last()[i] == fields[i]);
    }
}

proof fn lemma_max_key_fits(fields: Seq<(String, Value)>)
    requires
        fields_fit(fields),
    ensures
        0 <= max_key_len(fields) < limit(),
        0 <= scalar_key_width(fields) < limit(),
    decreases fields.len(),
{
    if fields.len() > 0 {
        lemma_max_key_fits(fields.drop_last());
    }
}

/// Whether a field's value is laid out on its own line beside its key (as
/// opposed to a section, a list or a table, which nest beneath it).
pub open spec fn is_inline(v: Value) -> bool {
    !(v is Section || v is List || v is Rows)
}

/// The longest key among the fields laid out beside their keys, or 0.
pub open spec fn scalar_key_width(fields: Seq<(String, Value)>) -> int
    decreases fields.len(),
{
    if fields.len() == 0 {
        0
    } else {
        let a = scalar_key_width(fields.drop_last());
        if is_inline(fields.last().1) && fields.last().0@.len() > a {
            fields.last().0@.len() as int
        } else {
            a
        }
    }
}

/// One `key  value` line, the value hanging under itself when it is too
/// long for the width.
pub open spec fn field_line(r: Render, pad: Seq<char>, key: Seq<char>, width: int, p: Seq<char>) -> Seq<char> {
    let label = padded_text(r.style, Role::Key, key, width);
    let col = pad.len() + (if width >= key.len() { width } else { key.len() as int }) + 2;
    let body = if col + stripped(p).len() > r.cols {
        wrapped_painted(p, col, col as nat, r.cols as int)
    } else {
        p
    };
    pad + label + "  "@ + body + "\n"@
}

/// The items of a list field, one per line under the key.
pub open spec fn list_lines(r: Render, items: Seq<String>, pad: Seq<char>, col: int) -> Seq<char>
    decreases items.len(),
{
    if items.len() == 0 {
        Seq::empty()
    } else {
        let i = items.last()@;
        let p = painted(r.style.look(prose_role(i)), i);
        list_lines(r, items.drop_last(), pad, col) + pad + "  "@ + (if col + i.len() > r.cols {
            wrapped_painted(p, col, col as nat, r.cols as int)
        } else {
            p
        }) + "\n"@
    }
}

/// The view of an optional string.
pub open spec fn opt_string(o: Option<String>) -> Option<Seq<char>> {
    match o {
        Some(s) => Some(s@),
        None => None,
    }
}

/// One field rendered for a person, at nesting `depth`, its key padded to
/// `width` when its value sits beside it.
pub open spec fn field_text(r: Render, k: Seq<char>, v: Value, width: int, depth: nat) -> Seq<char>
    decreases v, 1nat,
{
    let pad = indent_of(depth);
    let heading = pad + painted(r.style.look(Role::Key), k) + ":\n"@;
    match v {
        Value::Section(fields) => heading + fields_text(r, fields@, scalar_key_width(fields@), depth + 1),
        Value::List(items) => heading + list_lines(r, items@, pad, pad.len() + 2int),
        Value::Rows { key, value, rows } => heading + match table_text(
            r,
            pad.len() + 2int,
            key@,
            opt_string(value),
            rows@,
        ) {
            Some(t) => t,
            None => fields_text(r, rows@, 0, depth + 1),
        },
        _ => field_line(r, pad, k, width, scalar_text(r, v)),
    }
}

/// Fields rendered for a person, in order.
pub open spec fn fields_text(r: Render, fields: Seq<(String, Value)>, width: int, depth: nat) -> Seq<char>
    decreases fields, 0nat,
{
    if fields.len() == 0 {
        Seq::empty()
    } else {
        fields_text(r, fields.drop_last(), width, depth) + field_text(
            r,
            fields.last().0@,
            fields.last().1,
            width,
            depth,
        )
    }
}


/// Append `n` levels of two-space indentation.
fn pad_string(n: usize) -> (p: String)
    requires
        2 * n <= usize::MAX,
    ensures
        p@ == indent_of(n as nat),
{
    let mut p = String::new();
    push_indent(&mut p, n);
    assert(p@ =~= indent_of(n as nat));
    p
}

/// The longest key among the fields laid out beside their keys, or 0.
fn scalar_width(fields: &Vec<(String, Value)>) -> (w: usize)
    ensures
        w == scalar_key_width(fields@),
{
    let mut w: usize = 0;
    let mut i: usize = 0;
    assert(fields@.take(0) =~= Seq::<(String, Value)>::empty());
    while i < fields.len()
        invariant
            i <= fields.len(),
            w == scalar_key_width(fields@.take(i as int)),
        decreases fields.len() - i,
    {
        assert(fields@.take(i + 1).drop_last() =~= fields@.take(i as int));
        let n = chars_of(fields[i].0.as_str()).len();
        let inline = match &fields[i].1 {
            Value::Section(_) | Value::List(_) | Value::Rows { .. } => false,
            _ => true,
        };
        if inline && n > w {
            w = n;
        }
        i = i + 1;
    }
    assert(fields@.take(fields.len() as int) =~= fields@);
    w
}

/// Write one `key  value` line, wrapping the value under itself when it is
/// too long for the width.
fn write_field(s: &mut String, r: &Render, depth: usize, key: &str, width: usize, painted: &str)
    requires
        depth < limit(),
        key@.len() < limit(),
        width < limit(),
        r.cols < limit(),
    ensures
        final(s)@ == old(s)@ + field_line(*r, indent_of(depth as nat), key@, width as int, painted@),
{
    let pad = pad_string(depth);
    let label = padded(&r.style, Role::Key, key, width);
    let klen = chars_of(key).len();
    let col: usize = 2 * depth + (if width >= klen { width } else { klen }) + 2;
    let shown = chars_of(strip_ansi(painted).as_str()).len();
    let long = if col > r.cols { true } else { shown > r.cols - col };
    push_str(s, pad.as_str());
    push_str(s, label.as_str());
    push_str(s, "  ");
    if long {
        let body = wrap_painted(painted, col, col, r.cols);
        push_str(s, body.as_str());
    } else {
        push_str(s, painted);
    }
    push_str(s, "\n");
}

/// Write the items of a list field, one per line under the key.
fn write_list(s: &mut String, r: &Render, items: &Vec<String>, depth: usize)
    requires
        depth < limit(),
        r.cols < limit(),
    ensures
        final(s)@ == old(s)@ + list_lines(*r, items@, indent_of(depth as nat), 2 * depth + 2),
{
    let pad = pad_string(depth);
    let col: usize = 2 * depth + 2;
    let ghost start = s@;
    let mut i: usize = 0;
    assert(items@.take(0) =~= Seq::<String>::empty());
    while i < items.len()
        invariant
            i <= items.len(),
            depth < limit(),
            r.cols < limit(),
            col == 2 * depth + 2,
            pad@ == indent_of(depth as nat),
            s@ == start + list_lines(*r, items@.take(i as int), indent_of(depth as nat), 2 * depth + 2),
        decreases items.len() - i,
    {
        assert(items@.take(i + 1).drop_last() =~= items@.take(i as int));
        let item = items[i].as_str();
        let p = r.style.paint(role_of_prose(item), item);
        let n = chars_of(item).len();
        let long = if col > r.cols { true } else { n > r.cols - col };
        push_str(s, pad.as_str());
        push_str(s, "  ");
        if long {
            let body = wrap_painted(p.as_str(), col, col, r.cols);
            push_str(s, body.as_str());
        } else {
            push_str(s, p.as_str());
        }
        push_str(s, "\n");
        i = i + 1;
        assert(s@ =~= start + list_lines(*r, items@.take(i as int), indent_of(depth as nat), 2 * depth + 2));
    }
    assert(items@.take(items.len() as int) =~= items@);
}

/// The view of an optional string, as a borrowed one.
fn opt_str(o: &Option<String>) -> (r: Option<&str>)
    ensures
        opt_view(r) == opt_string(*o),
{
    match o {
        Some(h) => Some(h.as_str()),
        None => None,
    }
}

/// Write one field for a person.
fn render_field_text(s: &mut String, k: &str, v: &Value, width: usize, depth: usize, r: &Render)
    requires
        value_fits(*v),
        k@.len() < limit(),
        width < limit(),
        depth + nesting(*v) < limit(),
        r.cols < limit(),
    ensures
        final(s)@ == old(s)@ + field_text(*r, k@, *v, width as int, depth as nat),
    decreases v,
{
    match v {
        Value::Section(fields) => {
            let pad = pad_string(depth);
            push_str(s, pad.as_str());
            let kp = r.style.paint(Role::Key, k);
            push_str(s, kp.as_str());
            push_str(s, ":\n");
            proof {
                lemma_max_key_fits(fields@);
            }
            let inner = scalar_width(fields);
            write_fields(s, r, fields, inner, depth + 1);
        },
        Value::List(items) => {
            let pad = pad_string(depth);
            push_str(s, pad.as_str());
            let kp = r.style.paint(Role::Key, k);
            push_str(s, kp.as_str());
            push_str(s, ":\n");
            write_list(s, r, items, depth);
        },
        Value::Rows { key, value, rows } => {
            let pad = pad_string(depth);
            push_str(s, pad.as_str());
            let kp = r.style.paint(Role::Key, k);
            push_str(s, kp.as_str());
            push_str(s, ":\n");
            proof {
                lemma_max_key_fits(rows@);
            }
            let mut body = String::new();
            let vh = opt_str(value);
            if table::render(&mut body, r, 2 * depth + 2, key.as_str(), vh, rows.as_slice()) {
                push_str(s, body.as_str());
            } else {
                write_fields(s, r, rows, 0, depth + 1);
            }
        },
        _ => {
            let p = render_scalar(r, v);
            write_field(s, r, depth, k, width, p.as_str());
        },
    }
}

/// Write fields for a person, in order.
fn write_fields(s: &mut String, r: &Render, fields: &Vec<(String, Value)>, width: usize, depth: usize)
    requires
        fields_fit(fields@),
        width < limit(),
        depth + fields_nesting(fields@) < limit(),
        r.cols < limit(),
    ensures
        final(s)@ == old(s)@ + fields_text(*r, fields@, width as int, depth as nat),
    decreases fields,
{
    let ghost start = s@;
    let mut i: usize = 0;
    assert(fields@.take(0) =~= Seq::<(String, Value)>::empty());
    while i < fields.len()
        invariant
            i <= fields.len(),
            fields_fit(fields@),
            width < limit(),
            depth + fields_nesting(fields@) < limit(),
            r.cols < limit(),
            s@ == start + fields_text(*r, fields@.take(i as int), width as int, depth as nat),
        decreases fields.len() - i,
    {
        assert(fields@.take(i + 1).drop_last() =~= fields@.take(i as int));
        proof {
            lemma_fields_fit(fields@, i as int);
            lemma_fields_nesting(fields@, i as int);
        }
        render_field_text(s, fields[i].0.as_str(), &fields[i].1, width, depth, r);
        i = i + 1;
        assert(s@ =~= start + fields_text(*r, fields@.take(i as int), width as int, depth as nat));
    }
    assert(fields@.take(fields.len() as int) =~= fields@);
}


/// The last segment of a dotted path.
pub open spec fn leaf_of(path: Seq<char>) -> Seq<char>
    decreases path.len(),
{
    if path.len() == 0 || path.last() == '.' {
        Seq::empty()
    } else {
        leaf_of(path.drop_last()).push(path.last())
    }
}

/// The certifications among `certs`, each once, in first-seen order.
pub open spec fn cert_kinds(certs: Seq<(Seq<char>, Certification)>) -> Seq<Certification>
    decreases certs.len(),
{
    if certs.len() == 0 {
        Seq::empty()
    } else {
        let a = cert_kinds(certs.drop_last());
        if a.contains(certs.last().1) { a } else { a.push(certs.last().1) }
    }
}

/// The field names certified `c`, each once, in first-seen order.
pub open spec fn cert_names(certs: Seq<(Seq<char>, Certification)>, c: Certification) -> Seq<Seq<char>>
    decreases certs.len(),
{
    if certs.len() == 0 {
        Seq::empty()
    } else {
        let a = cert_names(certs.drop_last(), c);
        if certs.last().1 == c && !a.contains(leaf_of(certs.last().0)) {
            a.push(leaf_of(certs.last().0))
        } else {
            a
        }
    }
}

/// `names` separated by `sep`.
pub open spec fn joined_with(names: Seq<Seq<char>>, sep: Seq<char>) -> Seq<char>
    decreases names.len(),
{
    if names.len() == 0 {
        Seq::empty()
    } else if names.len() == 1 {
        names[0]
    } else {
        joined_with(names.drop_last(), sep) + sep + names.last()
    }
}

/// The widest certification label among `kinds`.
pub open spec fn label_width(kinds: Seq<Certification>) -> int
    decreases kinds.len(),
{
    if kinds.len() == 0 {
        0
    } else {
        let a = label_width(kinds.drop_last());
        let b = cert_text(kinds.last()).len() as int;
        if a >= b { a } else { b }
    }
}

/// One line per certification, naming the fields it applies to.
pub open spec fn group_lines(r: Render, certs: Seq<(Seq<char>, Certification)>, kinds: Seq<Certification>, w: int) -> Seq<char>
    decreases kinds.len(),
{
    if kinds.len() == 0 {
        Seq::empty()
    } else {
        group_lines(r, certs, kinds.drop_last(), w) + "  "@ + padded_text(
            r.style,
            Role::Warning,
            cert_text(kinds.last()),
            w,
        ) + "  "@ + painted(r.style.look(Role::Value), joined_with(cert_names(certs, kinds.last()), ", "@))
            + "\n"@
    }
}

/// What the certification block ends with.
pub const EXACT_NOTE: &'static str = "every other number above is exact: the digits shown are the value";

/// The certification block: every kind of non-exact number, grouped by what
/// was done, then the reminder that everything else is exact.
pub open spec fn certs_part(r: Render, certs: Seq<(Seq<char>, Certification)>) -> Seq<char> {
    if certs.len() == 0 {
        Seq::empty()
    } else {
        let kinds = cert_kinds(certs);
        painted(r.style.look(Role::Key), "certification"@) + ":\n"@ + group_lines(
            r,
            certs,
            kinds,
            label_width(kinds),
        ) + "  "@ + painted(r.style.look(Role::Note), EXACT_NOTE@) + "\n"@
    }
}

/// The trailing notes, each after a blank line, wrapped to the margin when
/// too long.
pub open spec fn notes_part(r: Render, notes: Seq<String>) -> Seq<char>
    decreases notes.len(),
{
    if notes.len() == 0 {
        Seq::empty()
    } else {
        let n = notes.last()@;
        let p = painted(r.style.look(prose_role(n)), n);
        notes_part(r, notes.drop_last()) + "\n"@ + (if n.len() > r.cols {
            wrapped_painted(p, 0, 0, r.cols as int)
        } else {
            p
        }) + "\n"@
    }
}

/// The heading and the rule beneath it.
pub open spec fn title_part(r: Render, title: Option<Seq<char>>) -> Seq<char> {
    match title {
        Some(t) => painted(r.style.look(Role::Title), t) + "\n"@ + painted(
            r.style.look(Role::Title),
            crate::table::rule_of(t.len() as int),
        ) + "\n"@,
        None => Seq::empty(),
    }
}

/// A document rendered for a person.
pub open spec fn doc_text(
    r: Render,
    title: Option<Seq<char>>,
    fields: Seq<(String, Value)>,
    notes: Seq<String>,
) -> Seq<char> {
    title_part(r, title) + fields_text(r, fields, scalar_key_width(fields), 0) + certs_part(
        r,
        certs_of(fields, Seq::empty()),
    ) + notes_part(r, notes)
}

/// The last segment of a dotted path.
fn leaf(path: &str) -> (out: String)
    ensures
        out@ == leaf_of(path@),
{
    let cs = chars_of(path);
    let mut start: usize = cs.len();
    assert(cs@.take(start as int) =~= cs@);
    assert(cs@.subrange(start as int, start as int) =~= Seq::<char>::empty());
    assert(leaf_of(path@) =~= leaf_of(cs@.take(start as int)) + cs@.subrange(start as int, cs.len() as int));
    while start > 0 && cs[start - 1] != '.'
        invariant
            start <= cs.len(),
            cs@ == path@,
            leaf_of(path@) == leaf_of(cs@.take(start as int)) + cs@.subrange(start as int, cs.len() as int),
        decreases start,
    {
        assert(cs@.take(start as int).drop_last() =~= cs@.take(start - 1));
        assert(cs@.subrange(start - 1, cs.len() as int) =~= seq![cs@[start - 1]] + cs@.subrange(start as int, cs.len() as int));
        start = start - 1;
    }
    assert(leaf_of(cs@.take(start as int)) =~= Seq::<char>::empty());
    let mut out = String::new();
    let mut i = start;
    while i < cs.len()
        invariant
            start <= i <= cs.len(),
            out@ == cs@.subrange(start as int, i as int),
        decreases cs.len() - i,
    {
        push_char(&mut out, cs[i]);
        i = i + 1;
        assert(out@ =~= cs@.subrange(start as int, i as int));
    }
    assert(out@ =~= leaf_of(path@));
    out
}


/// Whether `c` is among `kinds`.
fn has_kind(kinds: &Vec<Certification>, c: Certification) -> (b: bool)
    ensures
        b == kinds@.contains(c),
{
    let mut i: usize = 0;
    while i < kinds.len()
        invariant
            i <= kinds.len(),
            forall|j: int| 0 <= j < i ==> kinds@[j] != c,
        decreases kinds.len() - i,
    {
        if kinds[i] == c {
            assert(kinds@[i as int] == c);
            return true;
        }
        i = i + 1;
    }
    false
}

/// Whether `n` is among `names`.
fn has_name(names: &Vec<String>, n: &str) -> (b: bool)
    ensures
        b == names@.map_values(|x: String| x@).contains(n@),
{
    let ghost view = names@.map_values(|x: String| x@);
    let mut i: usize = 0;
    while i < names.len()
        invariant
            i <= names.len(),
            view == names@.map_values(|x: String| x@),
            forall|j: int| 0 <= j < i ==> #[trigger] view[j] != n@,
        decreases names.len() - i,
    {
        if crate::text::str_eq(names[i].as_str(), n) {
            assert(view[i as int] == n@);
            return true;
        }
        i = i + 1;
    }
    false
}

/// The certifications among `certs`, each once, in first-seen order.
fn kinds_of(certs: &Vec<(String, Certification)>) -> (kinds: Vec<Certification>)
    ensures
        kinds@ == cert_kinds(certs_view(certs@)),
{
    let ghost cv = certs_view(certs@);
    let mut kinds: Vec<Certification> = Vec::new();
    let mut i: usize = 0;
    assert(cv.take(0) =~= Seq::<(Seq<char>, Certification)>::empty());
    while i < certs.len()
        invariant
            i <= certs.len(),
            cv == certs_view(certs@),
            kinds@ == cert_kinds(cv.take(i as int)),
        decreases certs.len() - i,
    {
        assert(cv.take(i + 1).drop_last() =~= cv.take(i as int));
        let c = certs[i].1;
        if !has_kind(&kinds, c) {
            kinds.push(c);
        }
        i = i + 1;
    }
    assert(cv.take(certs.len() as int) =~= cv);
    kinds
}

/// The field names certified `c`, joined with commas.
fn names_of(certs: &Vec<(String, Certification)>, c: Certification) -> (s: String)
    ensures
        s@ == joined_with(cert_names(certs_view(certs@), c), ", "@),
{
    let ghost cv = certs_view(certs@);
    let mut names: Vec<String> = Vec::new();
    let mut i: usize = 0;
    assert(cv.take(0) =~= Seq::<(Seq<char>, Certification)>::empty());
    assert(names@.map_values(|x: String| x@) =~= Seq::<Seq<char>>::empty());
    while i < certs.len()
        invariant
            i <= certs.len(),
            cv == certs_view(certs@),
            names@.map_values(|x: String| x@) == cert_names(cv.take(i as int), c),
        decreases certs.len() - i,
    {
        assert(cv.take(i + 1).drop_last() =~= cv.take(i as int));
        if certs[i].1 == c {
            let l = leaf(certs[i].0.as_str());
            if !has_name(&names, l.as_str()) {
                let ghost before = names@.map_values(|x: String| x@);
                names.push(l);
                assert(names@.map_values(|x: String| x@) =~= before.push(leaf_of(cv[i as int].0)));
            }
        }
        i = i + 1;
    }
    assert(cv.take(certs.len() as int) =~= cv);
    let ghost nv = names@.map_values(|x: String| x@);
    let mut out = String::new();
    let mut j: usize = 0;
    while j < names.len()
        invariant
            j <= names.len(),
            nv == names@.map_values(|x: String| x@),
            out@ == joined_with(nv.take(j as int), ", "@),
        decreases names.len() - j,
    {
        if j > 0 {
            push_str(&mut out, ", ");
        }
        push_str(&mut out, names[j].as_str());
        assert(nv.take(j + 1).drop_last() =~= nv.take(j as int));
        j = j + 1;
        assert(out@ =~= joined_with(nv.take(j as int), ", "@)) by {
            if j == 1 {
                assert(nv.take(1) =~= seq![nv[0]]);
            }
        }
    }
    assert(nv.take(names.len() as int) =~= nv);
    out
}

impl Doc {
    /// Render for a person, with the given rendering choices.
    ///
    /// The layout is computed from the unpainted text and the sequences are
    /// added last, so a coloured column lines up with a plain one.
    pub fn render(&self, r: &Render) -> (s: String)
        requires
            fields_fit(self.entries()),
            fields_nesting(self.entries()) < limit(),
            r.cols < limit(),
        ensures
            s@ == doc_text(*r, self.heading(), self.entries(), self.remarks()),
    {
        let mut s = String::new();
        match &self.title {
            Some(t) => {
                let p = r.style.paint(Role::Title, t.as_str());
                push_str(&mut s, p.as_str());
                push_str(&mut s, "\n");
                let rule = crate::table::rule_string(chars_of(t.as_str()).len());
                let q = r.style.paint(Role::Title, rule.as_str());
                push_str(&mut s, q.as_str());
                push_str(&mut s, "\n");
            },
            None => {},
        }
        assert(s@ =~= title_part(*r, self.heading()));
        let width = scalar_width(&self.fields);
        proof {
            lemma_max_key_fits(self.fields@);
        }
        write_fields(&mut s, r, &self.fields, width, 0);
        let ghost after_fields = s@;
        let certs = self.certifications();
        if certs.len() > 0 {
            let kinds = kinds_of(&certs);
            let mut w: usize = 0;
            let mut k: usize = 0;
            assert(kinds@.take(0) =~= Seq::<Certification>::empty());
            while k < kinds.len()
                invariant
                    k <= kinds.len(),
                    w == label_width(kinds@.take(k as int)),
                decreases kinds.len() - k,
            {
                assert(kinds@.take(k + 1).drop_last() =~= kinds@.take(k as int));
                let n = chars_of(kinds[k].to_string().as_str()).len();
                if n > w {
                    w = n;
                }
                k = k + 1;
            }
            assert(kinds@.take(kinds.len() as int) =~= kinds@);
            let kp = r.style.paint(Role::Key, "certification");
            push_str(&mut s, kp.as_str());
            push_str(&mut s, ":\n");
            let ghost g0 = s@;
            let mut k: usize = 0;
            assert(kinds@.take(0) =~= Seq::<Certification>::empty());
            while k < kinds.len()
                invariant
                    k <= kinds.len(),
                    w == label_width(kinds@),
                    s@ == g0 + group_lines(*r, certs_view(certs@), kinds@.take(k as int), w as int),
                decreases kinds.len() - k,
            {
                assert(kinds@.take(k + 1).drop_last() =~= kinds@.take(k as int));
                push_str(&mut s, "  ");
                let label = kinds[k].to_string();
                let lp = padded(&r.style, Role::Warning, label.as_str(), w);
                push_str(&mut s, lp.as_str());
                push_str(&mut s, "  ");
                let names = names_of(&certs, kinds[k]);
                let np = r.style.paint(Role::Value, names.as_str());
                push_str(&mut s, np.as_str());
                push_str(&mut s, "\n");
                k = k + 1;
                assert(s@ =~= g0 + group_lines(*r, certs_view(certs@), kinds@.take(k as int), w as int));
            }
            assert(kinds@.take(kinds.len() as int) =~= kinds@);
            push_str(&mut s, "  ");
            let note = r.style.paint(Role::Note, EXACT_NOTE);
            push_str(&mut s, note.as_str());
            push_str(&mut s, "\n");
        }
        assert(s@ =~= after_fields + certs_part(*r, certs_of(self.fields@, Seq::empty())));
        let ghost after_certs = s@;
        let mut i: usize = 0;
        assert(self.notes@.take(0) =~= Seq::<String>::empty());
        while i < self.notes.len()
            invariant
                i <= self.notes.len(),
                s@ == after_certs + notes_part(*r, self.notes@.take(i as int)),
            decreases self.notes.len() - i,
        {
            assert(self.notes@.take(i + 1).drop_last() =~= self.notes@.take(i as int));
            let n = self.notes[i].as_str();
            let p = r.style.paint(role_of_prose(n), n);
            push_str(&mut s, "\n");
            if chars_of(n).len() > r.cols {
                let body = wrap_painted(p.as_str(), 0, 0, r.cols);
                push_str(&mut s, body.as_str());
            } else {
                push_str(&mut s, p.as_str());
            }
            push_str(&mut s, "\n");
            i = i + 1;
            assert(s@ =~= after_certs + notes_part(*r, self.notes@.take(i as int)));
        }
        assert(self.notes@.take(self.notes.len() as int) =~= self.notes@);
        s
    }

    /// Render for a person, without colour: the plain rendering, at the
    /// baseline width.
    pub fn to_text(&self) -> (s: String)
        requires
            fields_fit(self.entries()),
            fields_nesting(self.entries()) < limit(),
        ensures
            exists|r: Render|
                r.style.spec_is_plain() && r.group is None && r.cols == crate::table::BASELINE_WIDTH
                    && s@ == doc_text(r, self.heading(), self.entries(), self.remarks()),
    {
        let r = Render::plain();
        self.render(&r)
    }

    /// Render for a person, with colour and no group separator, at the
    /// baseline width.
    pub fn to_ansi(&self, style: &Style) -> (s: String)
        requires
            fields_fit(self.entries()),
            fields_nesting(self.entries()) < limit(),
        ensures
            exists|r: Render|
                r.style == *style && r.group is None && r.cols == crate::table::BASELINE_WIDTH
                    && s@ == doc_text(r, self.heading(), self.entries(), self.remarks()),
    {
        let r = Render::styled(*style);
        self.render(&r)
    }
}


// ---------------------------------------------------------------------------
// one document per line
// ---------------------------------------------------------------------------

/// Where a compaction scan stands: the text kept, whether it is inside a
/// string, and whether the previous character was an escaping backslash.
pub open spec fn compact_run(s: Seq<char>) -> (Seq<char>, bool, bool)
    decreases s.len(),
{
    if s.len() == 0 {
        (Seq::empty(), false, false)
    } else {
        let (out, in_string, escaped) = compact_run(s.drop_last());
        let c = s.last();
        if in_string {
            (
                out.push(c),
                !(!escaped && c == '"'),
                !escaped && c == '\\',
            )
        } else if c == '"' {
            (out.push(c), true, false)
        } else if c == ' ' || c == '\n' || c == '\t' || c == '\r' {
            (out, false, false)
        } else {
            (out.push(c), false, false)
        }
    }
}

/// A JSON document with its layout removed: whitespace outside strings is
/// dropped, and everything inside a string is kept as it is.
pub open spec fn compacted(s: Seq<char>) -> Seq<char> {
    compact_run(s).0
}

/// A pretty-printed JSON document on one line.
pub fn compact_json(pretty: &str) -> (out: String)
    ensures
        out@ == compacted(pretty@),
{
    let cs = chars_of(pretty);
    let mut out = String::new();
    let mut in_string = false;
    let mut escaped = false;
    let mut i: usize = 0;
    assert(cs@.take(0) =~= Seq::<char>::empty());
    while i < cs.len()
        invariant
            i <= cs.len(),
            cs@ == pretty@,
            !in_string ==> !escaped,
            compact_run(cs@.take(i as int)) == (out@, in_string, escaped),
        decreases cs.len() - i,
    {
        assert(cs@.take(i + 1).drop_last() =~= cs@.take(i as int));
        let ch = cs[i];
        if in_string {
            push_char(&mut out, ch);
            if escaped {
                escaped = false;
            } else if ch == '\\' {
                escaped = true;
            } else if ch == '"' {
                in_string = false;
            }
        } else if ch == '"' {
            in_string = true;
            push_char(&mut out, ch);
        } else if ch == ' ' || ch == '\n' || ch == '\t' || ch == '\r' {
        } else {
            push_char(&mut out, ch);
        }
        i = i + 1;
    }
    assert(cs@.take(cs.len() as int) =~= cs@);
    out
}

proof fn lemma_compact_run_fixed(s: Seq<char>)
    ensures
        compact_run(compact_run(s).0) == compact_run(s),
        !compact_run(s).1 ==> !compact_run(s).2,
    decreases s.len(),
{
    if s.len() > 0 {
        lemma_compact_run_fixed(s.drop_last());
        let (out, in_string, escaped) = compact_run(s.drop_last());
        let c = s.last();
        let (out2, _, _) = compact_run(s);
        if out2 != out {
            assert(out2 == out.push(c));
            assert(out2.drop_last() =~= out);
            assert(out2.last() == c);
        }
    }
}

/// **Compaction is idempotent.** A compacted document compacts to itself:
/// nothing outside its strings is layout any more, and nothing inside them
/// was touched.
pub proof fn lemma_compact_idempotent(s: Seq<char>)
    ensures
        compacted(compacted(s)) == compacted(s),
{
    lemma_compact_run_fixed(s);
}


/// **Rendering hints do not reach JSON.** A form, a quantity and a number
/// are strings in JSON, byte for byte what a text value with the same
/// characters gives; a table is exactly the section holding the same rows.
pub proof fn lemma_json_ignores_hints(t: String, cert: Certification, key: String, value: Option<String>, rows: Vec<(String, Value)>, depth: nat)
    ensures
        json_value(Value::Form(t), depth) == json_value(Value::Text(t), depth),
        json_value(Value::Quantity { text: t, cert }, depth) == json_value(Value::Text(t), depth),
        json_value(Value::Number(t), depth) == json_value(Value::Text(t), depth),
        json_value(Value::Rows { key, value, rows }, depth) == json_value(Value::Section(rows), depth),
{
}


/// `n`, or [`limit`] if that is smaller.
pub open spec fn capped(n: nat) -> nat {
    if n < limit() { n } else { limit() as nat }
}

/// Whether a value's keys fit, and its nesting, capped at [`limit`].
fn value_ok(v: &Value) -> (r: (bool, usize))
    ensures
        r.0 == value_fits(*v),
        r.1 == capped(nesting(*v)),
    decreases v,
{
    match v {
        Value::Section(f) => {
            let (ok, n) = fields_ok(f);
            (ok, if n < usize::MAX / 8 { n + 1 } else { usize::MAX / 8 })
        },
        Value::Rows { key, rows, .. } => {
            let (ok, n) = fields_ok(rows);
            let klen = chars_of(key.as_str()).len();
            (ok && klen < usize::MAX / 8, if n < usize::MAX / 8 { n + 1 } else { usize::MAX / 8 })
        },
        _ => (true, 0),
    }
}

/// Whether the keys of `fields` fit, and their deepest nesting, capped.
fn fields_ok(fields: &Vec<(String, Value)>) -> (r: (bool, usize))
    ensures
        r.0 == fields_fit(fields@),
        r.1 == capped(fields_nesting(fields@)),
    decreases fields,
{
    let mut ok = true;
    let mut n: usize = 0;
    let mut i: usize = 0;
    assert(fields@.take(0) =~= Seq::<(String, Value)>::empty());
    while i < fields.len()
        invariant
            i <= fields.len(),
            ok == fields_fit(fields@.take(i as int)),
            n == capped(fields_nesting(fields@.take(i as int))),
        decreases fields.len() - i,
    {
        assert(fields@.take(i + 1).drop_last() =~= fields@.take(i as int));
        let (vok, vn) = value_ok(&fields[i].1);
        let klen = chars_of(fields[i].0.as_str()).len();
        ok = ok && klen < usize::MAX / 8 && vok;
        if vn > n {
            n = vn;
        }
        i = i + 1;
    }
    assert(fields@.take(fields.len() as int) =~= fields@);
    (ok, n)
}

impl Doc {
    /// Whether this document can be laid out: every key, and its nesting,
    /// short of [`limit`].
    pub fn layout_fits(&self) -> (b: bool)
        ensures
            b == (fields_fit(self.entries()) && fields_nesting(self.entries()) < limit()),
    {
        let (ok, n) = fields_ok(&self.fields);
        ok && n < usize::MAX / 8
    }
}

} // verus!
