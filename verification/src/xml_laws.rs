//! Laws that tie the XML export to the import: attribute escaping is undone
//! by unescaping, decimal values are read back as written, and the element
//! events of a metadata-only export import back to the same properties.
use vstd::prelude::*;
use crate::attrs::{unescape_attr, entity_at, starts_with, parse_int, all_digits, digits_value, is_digit};
use crate::text::{decimal, decimal_nat, digit_char};
use crate::xml::{xml_escape, escape_char, indent, xml_prop, xml_list, xml_container, xml_document, element_tail, XmlMode, XmlInputs};
use crate::property::{PropV, PropList};
use crate::error::ErrV;
use crate::xml_import::{XmlEventV, ImportV, FloatTextV, import_step, import_run, import_outcome, import_start, add_entry,
    attrs_of, attr_get, attr_text, attr_int, leaf_of, frame_of, close_frame, FrameV};

verus! {

/// Escaping distributes over concatenation.
proof fn lemma_escape_concat(a: Seq<char>, b: Seq<char>)
    ensures
        xml_escape(a + b) == xml_escape(a) + xml_escape(b),
    decreases b.len(),
{
    if b.len() == 0 {
        assert(a + b =~= a);
        assert(xml_escape(a) + xml_escape(b) =~= xml_escape(a));
    } else {
        assert((a + b).drop_last() =~= a + b.drop_last());
        assert((a + b).last() == b.last());
        lemma_escape_concat(a, b.drop_last());
        assert(xml_escape(a) + xml_escape(b) =~= xml_escape(a) + xml_escape(b.drop_last()) + escape_char(b.last()));
    }
}

/// Unescaping the escape of one character, followed by `rest`, gives the
/// character back followed by the unescaping of `rest`.
proof fn lemma_unescape_escaped_char(c: char, rest: Seq<char>)
    ensures
        unescape_attr(escape_char(c) + rest) == seq![c] + unescape_attr(rest),
{
    reveal_strlit("&amp;");
    reveal_strlit("&lt;");
    reveal_strlit("&gt;");
    reveal_strlit("&quot;");
    reveal_strlit("&apos;");
    let s = escape_char(c) + rest;
    let e = escape_char(c);
    assert(s.len() > 0);
    if c == '&' || c == '<' || c == '>' || c == '"' {
        assert(s.subrange(0, e.len() as int) =~= e);
        assert(s.subrange(e.len() as int, s.len() as int) =~= rest);
        if c == '&' {
            assert(starts_with(s, "&amp;"@));
        } else if c == '<' {
            assert(s[1] == 'l');
            assert(!starts_with(s, "&amp;"@)) by {
                if starts_with(s, "&amp;"@) {
                    assert(s.subrange(0, 5)[1] == 'a');
                }
            }
            assert(starts_with(s, "&lt;"@));
        } else if c == '>' {
            assert(s[1] == 'g');
            assert(!starts_with(s, "&amp;"@)) by {
                if starts_with(s, "&amp;"@) {
                    assert(s.subrange(0, 5)[1] == 'a');
                }
            }
            assert(!starts_with(s, "&lt;"@)) by {
                if starts_with(s, "&lt;"@) {
                    assert(s.subrange(0, 4)[1] == 'l');
                }
            }
            assert(starts_with(s, "&gt;"@));
        } else {
            assert(s[1] == 'q');
            assert(!starts_with(s, "&amp;"@)) by {
                if starts_with(s, "&amp;"@) {
                    assert(s.subrange(0, 5)[1] == 'a');
                }
            }
            assert(!starts_with(s, "&lt;"@)) by {
                if starts_with(s, "&lt;"@) {
                    assert(s.subrange(0, 4)[1] == 'l');
                }
            }
            assert(!starts_with(s, "&gt;"@)) by {
                if starts_with(s, "&gt;"@) {
                    assert(s.subrange(0, 4)[1] == 'g');
                }
            }
            assert(starts_with(s, "&quot;"@));
        }
    } else {
        assert(s[0] == c);
        lemma_unescape_head_plain(s);
        assert(s.subrange(1, s.len() as int) =~= rest);
    }
}

/// A value whose first character is not `&` keeps that character.
proof fn lemma_unescape_head_plain(s: Seq<char>)
    requires
        s.len() > 0,
        s[0] != '&',
    ensures
        unescape_attr(s) == seq![s[0]] + unescape_attr(s.subrange(1, s.len() as int)),
{
    reveal_strlit("&amp;");
    reveal_strlit("&lt;");
    reveal_strlit("&gt;");
    reveal_strlit("&quot;");
    reveal_strlit("&apos;");
    assert(entity_at(s) is None) by {
        if starts_with(s, "&amp;"@) { assert(s.subrange(0, 5)[0] == '&'); }
        if starts_with(s, "&lt;"@) { assert(s.subrange(0, 4)[0] == '&'); }
        if starts_with(s, "&gt;"@) { assert(s.subrange(0, 4)[0] == '&'); }
        if starts_with(s, "&quot;"@) { assert(s.subrange(0, 6)[0] == '&'); }
        if starts_with(s, "&apos;"@) { assert(s.subrange(0, 6)[0] == '&'); }
    }
}

/// Law: unescaping an escaped attribute value gives the value back; each
/// entity the export writes is decoded exactly once.
pub proof fn lemma_unescape_escape(s: Seq<char>)
    ensures
        unescape_attr(xml_escape(s)) == s,
    decreases s.len(),
{
    if s.len() > 0 {
        let rest = s.subrange(1, s.len() as int);
        assert(s =~= seq![s[0]] + rest);
        lemma_escape_concat(seq![s[0]], rest);
        assert(seq![s[0]].drop_last() =~= Seq::<char>::empty());
        assert(xml_escape(Seq::<char>::empty()) =~= Seq::<char>::empty());
        assert(xml_escape(seq![s[0]]) =~= escape_char(s[0]));
        lemma_unescape_escaped_char(s[0], xml_escape(rest));
        lemma_unescape_escape(rest);
    }
}

/// Law: a value without `&` is read back unchanged.
pub proof fn lemma_unescape_plain(s: Seq<char>)
    requires
        forall|i: int| 0 <= i < s.len() ==> s[i] != '&',
    ensures
        unescape_attr(s) == s,
    decreases s.len(),
{
    if s.len() > 0 {
        let rest = s.subrange(1, s.len() as int);
        lemma_unescape_head_plain(s);
        lemma_unescape_plain(rest);
        assert(seq![s[0]] + rest =~= s);
    }
}

proof fn lemma_digit_char(d: int)
    requires
        0 <= d < 10,
    ensures
        digit_char(d) as int == '0' as int + d,
        is_digit(digit_char(d)),
{
}

/// The digits of a natural number read back as that number.
proof fn lemma_decimal_nat(n: nat)
    ensures
        decimal_nat(n).len() > 0,
        all_digits(decimal_nat(n)),
        digits_value(decimal_nat(n)) == n,
    decreases n,
{
    lemma_digit_char((n % 10) as int);
    if n < 10 {
        let s = decimal_nat(n);
        assert(s.drop_last() =~= Seq::<char>::empty());
        assert(digits_value(s.drop_last()) == 0);
        assert(s.last() == digit_char(n as int));
        assert(n % 10 == n);
        assert(digits_value(s) == digits_value(s.drop_last()) * 10 + (s.last() as int - '0' as int));
    } else {
        lemma_decimal_nat(n / 10);
        let s = decimal_nat(n);
        assert(s.drop_last() =~= decimal_nat(n / 10));
        assert(s.last() == digit_char((n % 10) as int));
        assert(digits_value(s) == digits_value(s.drop_last()) * 10 + (s.last() as int - '0' as int));
        assert(n == (n / 10) * 10 + n % 10);
        assert forall|i: int| 0 <= i < s.len() implies is_digit(#[trigger] s[i]) by {
            if i < s.len() - 1 {
                assert(s[i] == decimal_nat(n / 10)[i]);
            }
        }
    }
}

/// Law: the decimal text of an integer in `min..=max` is read back as that
/// integer, and holds no `&`.
pub proof fn lemma_parse_decimal(v: int, min: int, max: int)
    requires
        min <= v <= max,
    ensures
        parse_int(decimal(v), min, max) == Some(v),
        forall|i: int| 0 <= i < decimal(v).len() ==> decimal(v)[i] != '&',
{
    if v >= 0 {
        lemma_decimal_nat(v as nat);
        let s = decimal_nat(v as nat);
        assert(is_digit(s[0]));
        assert forall|i: int| 0 <= i < s.len() implies s[i] != '&' by {
            assert(is_digit(s[i]));
        }
    } else {
        lemma_decimal_nat((-v) as nat);
        let d = decimal_nat((-v) as nat);
        let s = decimal(v);
        assert(s.subrange(1, s.len() as int) =~= d);
        assert forall|i: int| 0 <= i < s.len() implies s[i] != '&' by {
            if i > 0 {
                assert(s[i] == d[i - 1]);
                assert(is_digit(d[i - 1]));
            }
        }
    }
}

// ── The element events of a metadata-only export ───────────────────────

/// An attribute as the export writes it: its key and its written value.
pub open spec fn written(key: Seq<char>, value: Seq<char>) -> Option<(Seq<char>, Seq<char>)> {
    Some((key, value))
}

/// The start tag (`open`) or empty-element tag the export writes for an
/// element `tag` named `name`, with the attributes `more` after the name.
pub open spec fn tag_event(open: bool, tag: Seq<char>, name: Seq<char>, more: Seq<Option<(Seq<char>, Seq<char>)>>) -> XmlEventV {
    XmlEventV::Element { open, tag, attrs: seq![written("name"@, xml_escape(name))] + more }
}

/// The empty-element tag of a leaf with a `value` attribute.
pub open spec fn value_event(tag: Seq<char>, name: Seq<char>, value: Seq<char>) -> XmlEventV {
    tag_event(false, tag, name, seq![written("value"@, value)])
}

/// Whether a property is built only from null, integer, string, UOL and
/// vector leaves, in directories and convex shapes: the kinds whose
/// metadata-only export holds all they are.
pub open spec fn plain_prop(p: PropV) -> bool
    decreases p, 0int,
{
    match p {
        PropV::Null => true,
        PropV::Short(_) => true,
        PropV::Int(_) => true,
        PropV::Long(_) => true,
        PropV::String(_) => true,
        PropV::Uol(_) => true,
        PropV::Vector { .. } => true,
        PropV::SubProperty(ch) => plain_list(ch, 0),
        PropV::Convex(ch) => plain_list(ch, 0),
        _ => false,
    }
}

/// Whether the entries of `l` from index `i` on are [`plain_prop`].
pub open spec fn plain_list(l: PropList, i: int) -> bool
    decreases l, l.len() - i,
{
    if i < 0 || i >= l.len() {
        true
    } else {
        proof {
            assert(decreases_to!(l => l[i]));
        }
        plain_prop(l[i].1) && plain_list(l, i + 1)
    }
}

/// The element events of the metadata-only export of the entry `name`,
/// `p` (see [`crate::xml::xml_prop`]): its tags with their attributes as
/// written, in document order.
pub open spec fn prop_events(name: Seq<char>, p: PropV) -> Seq<XmlEventV>
    decreases p, 0int,
{
    match p {
        PropV::Null => seq![tag_event(false, "null"@, name, Seq::empty())],
        PropV::Short(v) => seq![value_event("short"@, name, decimal(v as int))],
        PropV::Int(v) => seq![value_event("int"@, name, decimal(v as int))],
        PropV::Long(v) => seq![value_event("long"@, name, decimal(v as int))],
        PropV::String(v) => seq![value_event("string"@, name, xml_escape(v))],
        PropV::Uol(v) => seq![value_event("uol"@, name, xml_escape(v))],
        PropV::Vector { x, y } => seq![tag_event(
            false,
            "vector"@,
            name,
            seq![written("x"@, decimal(x as int)), written("y"@, decimal(y as int))],
        )],
        PropV::SubProperty(ch) => container_events("imgdir"@, name, ch),
        PropV::Convex(ch) => container_events("convex"@, name, ch),
        _ => Seq::empty(),
    }
}

/// The events of a container element: closed in place when it has no
/// children, else its start tag, its children's events and an end tag.
pub open spec fn container_events(tag: Seq<char>, name: Seq<char>, l: PropList) -> Seq<XmlEventV>
    decreases l, l.len() + 1,
{
    if l.len() == 0 {
        seq![tag_event(false, tag, name, Seq::empty())]
    } else {
        seq![tag_event(true, tag, name, Seq::empty())] + list_events(l, 0) + seq![XmlEventV::End]
    }
}

/// The events of the entries of `l` from index `i` on.
pub open spec fn list_events(l: PropList, i: int) -> Seq<XmlEventV>
    decreases l, l.len() - i,
{
    if i < 0 || i >= l.len() {
        Seq::empty()
    } else {
        proof {
            assert(decreases_to!(l => l[i]));
        }
        prop_events(l[i].0, l[i].1) + list_events(l, i + 1)
    }
}

/// The element events of a whole metadata-only document (see
/// [`crate::xml::xml_document`]): the root `imgdir` start tag, the
/// entries' events, the root's end tag, and the end of the document.
pub open spec fn document_events(img_name: Seq<char>, props: PropList) -> Seq<XmlEventV> {
    seq![tag_event(true, "imgdir"@, img_name, Seq::empty())] + list_events(props, 0) + seq![
        XmlEventV::End,
        XmlEventV::Eof,
    ]
}

// ── Reading them back ───────────────────────────────────────────────────

/// The state after each of `evs` is read in turn (no end of document).
pub open spec fn steps(evs: Seq<XmlEventV>, st: ImportV) -> ImportV
    decreases evs.len(),
{
    if evs.len() == 0 {
        st
    } else {
        steps(evs.subrange(1, evs.len() as int), import_step(st, evs[0]))
    }
}

/// Whether no event of `evs` ends the reading.
pub open spec fn no_stop(evs: Seq<XmlEventV>) -> bool {
    forall|k: int| 0 <= k < evs.len() ==> !(#[trigger] evs[k] is Eof) && !(evs[k] is Error)
}

proof fn lemma_steps_concat(a: Seq<XmlEventV>, b: Seq<XmlEventV>, st: ImportV)
    ensures
        steps(a + b, st) == steps(b, steps(a, st)),
    decreases a.len(),
{
    if a.len() == 0 {
        assert(a + b =~= b);
    } else {
        assert((a + b).subrange(1, (a + b).len() as int) =~= a.subrange(1, a.len() as int) + b);
        assert((a + b)[0] == a[0]);
        lemma_steps_concat(a.subrange(1, a.len() as int), b, import_step(st, a[0]));
    }
}

proof fn lemma_run_concat(a: Seq<XmlEventV>, b: Seq<XmlEventV>, st: ImportV)
    requires
        no_stop(a),
    ensures
        import_run(a + b, st) == import_run(b, steps(a, st)),
    decreases a.len(),
{
    if a.len() == 0 {
        assert(a + b =~= b);
    } else {
        let t = a.subrange(1, a.len() as int);
        assert((a + b).subrange(1, (a + b).len() as int) =~= t + b);
        assert((a + b)[0] == a[0]);
        assert(!(a[0] is Eof) && !(a[0] is Error));
        assert(no_stop(t)) by {
            assert forall|k: int| 0 <= k < t.len() implies !(#[trigger] t[k] is Eof) && !(t[k] is Error) by {
                assert(t[k] == a[k + 1]);
            }
        }
        lemma_run_concat(t, b, import_step(st, a[0]));
    }
}

proof fn lemma_no_stop_concat(a: Seq<XmlEventV>, b: Seq<XmlEventV>)
    requires
        no_stop(a),
        no_stop(b),
    ensures
        no_stop(a + b),
{
    assert forall|k: int| 0 <= k < (a + b).len() implies !(#[trigger] (a + b)[k] is Eof) && !((a + b)[k] is Error) by {
        if k < a.len() {
            assert((a + b)[k] == a[k]);
        } else {
            assert((a + b)[k] == b[k - a.len()]);
        }
    }
}

/// `st` with the entries `more` appended to the innermost open element.
pub open spec fn extend_top(st: ImportV, more: PropList) -> ImportV {
    let top = st.stack.last();
    ImportV { stack: st.stack.update(st.stack.len() - 1, (top.0, top.1 + more)), ..st }
}

/// A written attribute as the import reads it: its value unescaped.
pub open spec fn read_attr(w: Option<(Seq<char>, Seq<char>)>) -> (Seq<char>, Seq<char>) {
    match w {
        Some((k, v)) => (k, unescape_attr(v)),
        None => (Seq::empty(), Seq::empty()),
    }
}

/// The attributes the export writes are read as written, each value
/// unescaped.
proof fn lemma_attrs_of_written(raw: Seq<Option<(Seq<char>, Seq<char>)>>)
    requires
        forall|i: int| 0 <= i < raw.len() ==> #[trigger] raw[i] is Some,
    ensures
        attrs_of(raw) == Seq::new(raw.len(), |i: int| read_attr(raw[i])),
    decreases raw.len(),
{
    if raw.len() > 0 {
        lemma_attrs_of_written(raw.drop_last());
        assert(raw.last() is Some);
        assert(attrs_of(raw) =~= Seq::new(raw.len(), |i: int| read_attr(raw[i])));
    } else {
        assert(attrs_of(raw) =~= Seq::new(raw.len(), |i: int| read_attr(raw[i])));
    }
}

/// The tag names and attribute keys are distinct texts.
proof fn lemma_names_distinct()
    ensures
        "name"@ != "value"@,
        "name"@ != "x"@,
        "name"@ != "y"@,
        "x"@ != "y"@,
        "short"@ != "null"@,
        "int"@ != "null"@,
        "int"@ != "short"@,
        "long"@ != "null"@,
        "long"@ != "short"@,
        "long"@ != "int"@,
        "string"@ != "null"@,
        "string"@ != "short"@,
        "string"@ != "int"@,
        "string"@ != "long"@,
        "string"@ != "float"@,
        "string"@ != "double"@,
        "uol"@ != "null"@,
        "uol"@ != "short"@,
        "uol"@ != "int"@,
        "uol"@ != "long"@,
        "uol"@ != "float"@,
        "uol"@ != "double"@,
        "uol"@ != "string"@,
        "vector"@ != "null"@,
        "vector"@ != "short"@,
        "vector"@ != "int"@,
        "vector"@ != "long"@,
        "vector"@ != "float"@,
        "vector"@ != "double"@,
        "vector"@ != "string"@,
        "vector"@ != "uol"@,
        "imgdir"@ != "null"@,
        "imgdir"@ != "short"@,
        "imgdir"@ != "int"@,
        "imgdir"@ != "long"@,
        "imgdir"@ != "float"@,
        "imgdir"@ != "double"@,
        "imgdir"@ != "string"@,
        "imgdir"@ != "uol"@,
        "imgdir"@ != "vector"@,
        "convex"@ != "null"@,
        "convex"@ != "short"@,
        "convex"@ != "int"@,
        "convex"@ != "long"@,
        "convex"@ != "float"@,
        "convex"@ != "double"@,
        "convex"@ != "string"@,
        "convex"@ != "uol"@,
        "convex"@ != "vector"@,
        "convex"@ != "imgdir"@,
        "convex"@ != "canvas"@,
{
    reveal_strlit("name");
    reveal_strlit("value");
    reveal_strlit("x");
    reveal_strlit("y");
    reveal_strlit("short");
    reveal_strlit("null");
    reveal_strlit("int");
    reveal_strlit("long");
    reveal_strlit("string");
    reveal_strlit("float");
    reveal_strlit("double");
    reveal_strlit("uol");
    reveal_strlit("vector");
    reveal_strlit("imgdir");
    reveal_strlit("convex");
    reveal_strlit("canvas");
    assert("name"@.len() != "value"@.len());
    assert("name"@.len() != "x"@.len());
    assert("name"@.len() != "y"@.len());
    assert("x"@[0] != "y"@[0]);
    assert("short"@.len() != "null"@.len());
    assert("int"@.len() != "null"@.len());
    assert("int"@.len() != "short"@.len());
    assert("long"@[0] != "null"@[0]);
    assert("long"@.len() != "short"@.len());
    assert("long"@.len() != "int"@.len());
    assert("string"@.len() != "null"@.len());
    assert("string"@.len() != "short"@.len());
    assert("string"@.len() != "int"@.len());
    assert("string"@.len() != "long"@.len());
    assert("string"@.len() != "float"@.len());
    assert("string"@[0] != "double"@[0]);
    assert("uol"@.len() != "null"@.len());
    assert("uol"@.len() != "short"@.len());
    assert("uol"@[0] != "int"@[0]);
    assert("uol"@.len() != "long"@.len());
    assert("uol"@.len() != "float"@.len());
    assert("uol"@.len() != "double"@.len());
    assert("uol"@.len() != "string"@.len());
    assert("vector"@.len() != "null"@.len());
    assert("vector"@.len() != "short"@.len());
    assert("vector"@.len() != "int"@.len());
    assert("vector"@.len() != "long"@.len());
    assert("vector"@.len() != "float"@.len());
    assert("vector"@[0] != "double"@[0]);
    assert("vector"@[0] != "string"@[0]);
    assert("vector"@.len() != "uol"@.len());
    assert("imgdir"@.len() != "null"@.len());
    assert("imgdir"@.len() != "short"@.len());
    assert("imgdir"@.len() != "int"@.len());
    assert("imgdir"@.len() != "long"@.len());
    assert("imgdir"@.len() != "float"@.len());
    assert("imgdir"@[0] != "double"@[0]);
    assert("imgdir"@[0] != "string"@[0]);
    assert("imgdir"@.len() != "uol"@.len());
    assert("imgdir"@[0] != "vector"@[0]);
    assert("convex"@.len() != "null"@.len());
    assert("convex"@.len() != "short"@.len());
    assert("convex"@.len() != "int"@.len());
    assert("convex"@.len() != "long"@.len());
    assert("convex"@.len() != "float"@.len());
    assert("convex"@[0] != "double"@[0]);
    assert("convex"@[0] != "string"@[0]);
    assert("convex"@.len() != "uol"@.len());
    assert("convex"@[0] != "vector"@[0]);
    assert("convex"@[0] != "imgdir"@[0]);
    assert("convex"@[1] != "canvas"@[1]);
}

/// Whether a property is a leaf the metadata-only export writes in full.
pub open spec fn plain_leaf(p: PropV) -> bool {
    ||| p is Null
    ||| p is Short
    ||| p is Int
    ||| p is Long
    ||| p is String
    ||| p is Uol
    ||| p is Vector
}

/// Reading the one event of a plain leaf inside an open element adds the
/// leaf, as it was, to that element.
proof fn lemma_leaf_read(name: Seq<char>, p: PropV, st: ImportV)
    requires
        st.stack.len() > 0,
        plain_leaf(p),
    ensures
        no_stop(prop_events(name, p)),
        steps(prop_events(name, p), st) == add_entry(st, (name, p)),
{
    reveal_with_fuel(attr_get, 4);
    reveal_with_fuel(steps, 2);
    lemma_names_distinct();
    lemma_unescape_escape(name);
    let evs = prop_events(name, p);
    assert(evs.len() == 1);
    assert(evs.subrange(1, 1) =~= Seq::<XmlEventV>::empty());
    assert(steps(evs, st) == import_step(st, evs[0]));
    let raw = evs[0]->attrs;
    lemma_attrs_of_written(raw);
    let a = attrs_of(raw);
    assert(attr_get(a, "name"@) == Some(name));
    match p {
        PropV::Short(v) => {
            lemma_parse_decimal(v as int, i16::MIN as int, i16::MAX as int);
            lemma_unescape_plain(decimal(v as int));
            assert(attr_int(a, "value"@, i16::MIN as int, i16::MAX as int) == v as int);
        },
        PropV::Int(v) => {
            lemma_parse_decimal(v as int, i32::MIN as int, i32::MAX as int);
            lemma_unescape_plain(decimal(v as int));
            assert(attr_int(a, "value"@, i32::MIN as int, i32::MAX as int) == v as int);
        },
        PropV::Long(v) => {
            lemma_parse_decimal(v as int, i64::MIN as int, i64::MAX as int);
            lemma_unescape_plain(decimal(v as int));
            assert(attr_int(a, "value"@, i64::MIN as int, i64::MAX as int) == v as int);
        },
        PropV::String(v) => {
            lemma_unescape_escape(v);
            assert(attr_text(a, "value"@) == v);
        },
        PropV::Uol(v) => {
            lemma_unescape_escape(v);
            assert(attr_text(a, "value"@) == v);
        },
        PropV::Vector { x, y } => {
            lemma_parse_decimal(x as int, i32::MIN as int, i32::MAX as int);
            lemma_unescape_plain(decimal(x as int));
            lemma_parse_decimal(y as int, i32::MIN as int, i32::MAX as int);
            lemma_unescape_plain(decimal(y as int));
            assert(attr_int(a, "x"@, i32::MIN as int, i32::MAX as int) == x as int);
            assert(attr_int(a, "y"@, i32::MIN as int, i32::MAX as int) == y as int);
        },
        _ => {},
    }
}

proof fn lemma_extend_top(st: ImportV, a: PropList, b: PropList, e: (Seq<char>, PropV))
    requires
        st.stack.len() > 0,
    ensures
        add_entry(st, e) == extend_top(st, seq![e]),
        extend_top(extend_top(st, a), b) == extend_top(st, a + b),
        extend_top(st, a).stack.len() == st.stack.len(),
        extend_top(st, Seq::empty()) == st,
{
    let top = st.stack.last();
    assert(top.1.push(e) =~= top.1 + seq![e]);
    assert(top.1 + a + b =~= top.1 + (a + b));
    let s1 = extend_top(st, a);
    assert(s1.stack.last() == (top.0, top.1 + a));
    assert(extend_top(s1, b).stack =~= extend_top(st, a + b).stack);
    assert(top.1 + Seq::<(Seq<char>, PropV)>::empty() =~= top.1);
    assert(extend_top(st, Seq::empty()).stack =~= st.stack);
}

/// Reading the events of a plain entry inside an open element adds the
/// entry, as it was, to that element.
proof fn lemma_prop_read(name: Seq<char>, p: PropV, st: ImportV)
    requires
        st.stack.len() > 0,
        plain_prop(p),
    ensures
        no_stop(prop_events(name, p)),
        steps(prop_events(name, p), st) == add_entry(st, (name, p)),
    decreases p, 0int,
{
    if plain_leaf(p) {
        lemma_leaf_read(name, p, st);
    } else {
        let (tag, ch) = match p {
            PropV::SubProperty(ch) => ("imgdir"@, ch),
            PropV::Convex(ch) => ("convex"@, ch),
            _ => (Seq::empty(), Seq::empty()),
        };
        assert(p is SubProperty || p is Convex);
        assert(prop_events(name, p) == container_events(tag, name, ch));
        reveal_with_fuel(attr_get, 2);
        reveal_with_fuel(steps, 2);
        lemma_names_distinct();
        lemma_unescape_escape(name);
        lemma_attrs_of_written(seq![written("name"@, xml_escape(name))]);
        let start = tag_event(ch.len() > 0, tag, name, Seq::empty());
        assert(seq![written("name"@, xml_escape(name))] + Seq::<Option<(Seq<char>, Seq<char>)>>::empty()
            =~= seq![written("name"@, xml_escape(name))]);
        assert(attr_get(attrs_of(start->attrs), "name"@) == Some(name));
        if ch.len() == 0 {
            let evs = container_events(tag, name, ch);
            assert(evs.subrange(1, 1) =~= Seq::<XmlEventV>::empty());
            assert(ch =~= Seq::<(Seq<char>, PropV)>::empty());
            assert(steps(evs, st) == import_step(st, evs[0]));
        } else {
            let st1 = import_step(st, start);
            assert(st1.stack == st.stack.push((
                if p is SubProperty { FrameV::ImgDir(name) } else { FrameV::Convex(name) },
                Seq::<(Seq<char>, PropV)>::empty(),
            )));
            assert(seq![start].subrange(1, 1) =~= Seq::<XmlEventV>::empty());
            assert(steps(seq![start], st) == st1);
            lemma_list_read(ch, 0, st1);
            assert(ch.subrange(0, ch.len() as int) =~= ch);
            let st2 = steps(list_events(ch, 0), st1);
            let top = st1.stack.last();
            assert(Seq::<(Seq<char>, PropV)>::empty() + ch =~= ch);
            assert(st2.stack.last() == (top.0, ch));
            let st3 = import_step(st2, XmlEventV::End);
            assert(st2.stack.drop_last() =~= st.stack);
            assert(seq![XmlEventV::End].subrange(1, 1) =~= Seq::<XmlEventV>::empty());
            assert(steps(seq![XmlEventV::End], st2) == st3);
            lemma_steps_concat(seq![start], list_events(ch, 0), st);
            lemma_steps_concat(seq![start] + list_events(ch, 0), seq![XmlEventV::End], st);
            assert(no_stop(seq![start]));
            assert(no_stop(seq![XmlEventV::End]));
            lemma_no_stop_concat(seq![start], list_events(ch, 0));
            lemma_no_stop_concat(seq![start] + list_events(ch, 0), seq![XmlEventV::End]);
        }
    }
}

/// Reading the events of the plain entries of `l` from index `i` on inside
/// an open element appends those entries, as they were, to that element.
proof fn lemma_list_read(l: PropList, i: int, st: ImportV)
    requires
        st.stack.len() > 0,
        0 <= i <= l.len(),
        plain_list(l, i),
    ensures
        no_stop(list_events(l, i)),
        steps(list_events(l, i), st) == extend_top(st, l.subrange(i, l.len() as int)),
    decreases l, l.len() - i,
{
    if i == l.len() {
        assert(l.subrange(i, l.len() as int) =~= Seq::<(Seq<char>, PropV)>::empty());
        lemma_extend_top(st, Seq::empty(), Seq::empty(), l[0]);
        assert(no_stop(list_events(l, i)));
    } else {
        assert(decreases_to!(l => l[i]));
        lemma_prop_read(l[i].0, l[i].1, st);
        let st1 = add_entry(st, (l[i].0, l[i].1));
        lemma_extend_top(st, seq![(l[i].0, l[i].1)], l.subrange(i + 1, l.len() as int), (l[i].0, l[i].1));
        lemma_list_read(l, i + 1, st1);
        lemma_steps_concat(prop_events(l[i].0, l[i].1), list_events(l, i + 1), st);
        lemma_no_stop_concat(prop_events(l[i].0, l[i].1), list_events(l, i + 1));
        assert(seq![(l[i].0, l[i].1)] + l.subrange(i + 1, l.len() as int) =~= l.subrange(i, l.len() as int));
    }
}

/// Law: importing the element events of a metadata-only export gives back
/// the image's name and its properties, same names, order, kinds and
/// values, empty containers included, with no float texts to read; this
/// holds of properties built only from null, integer, string, UOL and
/// vector leaves in directories and convex shapes.
pub proof fn lemma_import_of_export(img_name: Seq<char>, props: PropList)
    requires
        plain_list(props, 0),
    ensures
        import_outcome(document_events(img_name, props))
            == Ok::<(Seq<char>, PropList, Seq<FloatTextV>), ErrV>((img_name, props, Seq::empty())),
{
    reveal_with_fuel(attr_get, 2);
    reveal_with_fuel(steps, 2);
    reveal_with_fuel(import_run, 2);
    lemma_names_distinct();
    lemma_unescape_escape(img_name);
    let start = tag_event(true, "imgdir"@, img_name, Seq::empty());
    lemma_attrs_of_written(seq![written("name"@, xml_escape(img_name))]);
    assert(seq![written("name"@, xml_escape(img_name))] + Seq::<Option<(Seq<char>, Seq<char>)>>::empty()
        =~= seq![written("name"@, xml_escape(img_name))]);
    assert(attr_get(attrs_of(start->attrs), "name"@) == Some(img_name));
    let st0 = import_start();
    let st1 = import_step(st0, start);
    assert(st1.stack == seq![(FrameV::ImgDir(img_name), Seq::<(Seq<char>, PropV)>::empty())]);
    assert(st1.root == img_name);
    assert(seq![start].subrange(1, 1) =~= Seq::<XmlEventV>::empty());
    assert(steps(seq![start], st0) == st1);
    lemma_list_read(props, 0, st1);
    assert(props.subrange(0, props.len() as int) =~= props);
    assert(Seq::<(Seq<char>, PropV)>::empty() + props =~= props);
    let st2 = steps(list_events(props, 0), st1);
    assert(st2.stack.len() == 1);
    assert(st2.stack.last() == (FrameV::ImgDir(img_name), props));
    let st3 = import_step(st2, XmlEventV::End);
    assert(st3.result == props);
    assert(st3.root == img_name);
    assert(st3.floats == Seq::<FloatTextV>::empty());
    assert(seq![XmlEventV::End].subrange(1, 1) =~= Seq::<XmlEventV>::empty());
    assert(steps(seq![XmlEventV::End], st2) == st3);
    let body = seq![start] + list_events(props, 0) + seq![XmlEventV::End];
    lemma_steps_concat(seq![start], list_events(props, 0), st0);
    lemma_steps_concat(seq![start] + list_events(props, 0), seq![XmlEventV::End], st0);
    assert(no_stop(seq![start]));
    assert(no_stop(seq![XmlEventV::End]));
    lemma_no_stop_concat(seq![start], list_events(props, 0));
    lemma_no_stop_concat(seq![start] + list_events(props, 0), seq![XmlEventV::End]);
    assert(document_events(img_name, props) =~= body + seq![XmlEventV::Eof]);
    lemma_run_concat(body, seq![XmlEventV::Eof], st0);
    assert(import_run(seq![XmlEventV::Eof], st3) == Ok::<ImportV, Seq<char>>(st3));
}

// ── Writing the events ──────────────────────────────────────────────────

/// Attributes as written in a tag: ` key="value"` each.
pub open spec fn attrs_text(attrs: Seq<Option<(Seq<char>, Seq<char>)>>) -> Seq<char>
    decreases attrs.len(),
{
    if attrs.len() == 0 {
        Seq::empty()
    } else {
        attrs_text(attrs.drop_last()) + match attrs.last() {
            Some((k, v)) => " "@ + k + "=\""@ + v + "\""@,
            None => Seq::empty(),
        }
    }
}

/// Events written as indented XML, one tag per line: a start tag opens a
/// level (its tag is remembered in `open`), an empty-element tag stays on
/// its level, an end tag closes the innermost open element one level up;
/// other events write nothing.
pub open spec fn render(evs: Seq<XmlEventV>, depth: nat, open: Seq<Seq<char>>) -> Seq<char>
    decreases evs.len(),
{
    if evs.len() == 0 {
        Seq::empty()
    } else {
        let rest = evs.subrange(1, evs.len() as int);
        match evs[0] {
            XmlEventV::Element { open: true, tag, attrs } => indent(depth) + "<"@ + tag + attrs_text(attrs) + ">\n"@
                + render(rest, depth + 1, open.push(tag)),
            XmlEventV::Element { open: false, tag, attrs } => indent(depth) + "<"@ + tag + attrs_text(attrs) + "/>\n"@
                + render(rest, depth, open),
            XmlEventV::End => indent((depth - 1) as nat) + "</"@ + open.last() + ">\n"@ + render(
                rest,
                (depth - 1) as nat,
                open.drop_last(),
            ),
            _ => render(rest, depth, open),
        }
    }
}

proof fn lemma_render_first(e: XmlEventV, rest: Seq<XmlEventV>, depth: nat, open: Seq<Seq<char>>)
    ensures
        render(seq![e] + rest, depth, open) == (match e {
            XmlEventV::Element { open: true, tag, attrs } => indent(depth) + "<"@ + tag + attrs_text(attrs) + ">\n"@
                + render(rest, depth + 1, open.push(tag)),
            XmlEventV::Element { open: false, tag, attrs } => indent(depth) + "<"@ + tag + attrs_text(attrs) + "/>\n"@
                + render(rest, depth, open),
            XmlEventV::End => indent((depth - 1) as nat) + "</"@ + open.last() + ">\n"@ + render(
                rest,
                (depth - 1) as nat,
                open.drop_last(),
            ),
            _ => render(rest, depth, open),
        }),
{
    let evs = seq![e] + rest;
    assert(evs.subrange(1, evs.len() as int) =~= rest);
    assert(evs[0] == e);
}

/// The start of a leaf's line: `<`, its tag, and the name attribute's
/// opening.
pub open spec fn leaf_head(tag: Seq<char>) -> Seq<char> {
    "<"@ + tag + " "@ + "name"@ + "=\""@
}

proof fn lemma_value_line(tag: Seq<char>, head: Seq<char>, ind: Seq<char>, nm: Seq<char>, val: Seq<char>, after: Seq<char>)
    requires
        head == leaf_head(tag),
    ensures
        ind + "<"@ + tag + attrs_text(seq![written("name"@, nm)] + seq![written("value"@, val)]) + "/>\n"@ + after
            == ind + head + nm + "\" value=\""@ + val + "\"/>\n"@ + after,
{
    reveal_with_fuel(attrs_text, 3);
    reveal_strlit("<");
    reveal_strlit("/>\n");
    reveal_strlit(" ");
    reveal_strlit("=\"");
    reveal_strlit("\"");
    reveal_strlit("name");
    reveal_strlit("value");
    reveal_strlit("\" value=\"");
    reveal_strlit("\"/>\n");
    let raw = seq![written("name"@, nm)] + seq![written("value"@, val)];
    assert(raw.drop_last() =~= seq![written("name"@, nm)]);
    assert(raw.drop_last().drop_last() =~= Seq::<Option<(Seq<char>, Seq<char>)>>::empty());
    assert(attrs_text(raw) =~= (" "@ + "name"@ + "=\""@ + nm + "\""@) + (" "@ + "value"@ + "=\""@ + val + "\""@));
    assert(ind + "<"@ + tag + attrs_text(raw) + "/>\n"@ + after =~= ind + head + nm + "\" value=\""@ + val + "\"/>\n"@
        + after);
}

proof fn lemma_null_line(ind: Seq<char>, nm: Seq<char>, after: Seq<char>)
    ensures
        ind + "<"@ + "null"@ + attrs_text(seq![written("name"@, nm)] + Seq::empty()) + "/>\n"@ + after
            == ind + "<null name=\""@ + nm + "\"/>\n"@ + after,
{
    reveal_with_fuel(attrs_text, 2);
    reveal_strlit("<");
    reveal_strlit("/>\n");
    reveal_strlit(" ");
    reveal_strlit("=\"");
    reveal_strlit("\"");
    reveal_strlit("name");
    reveal_strlit("null");
    reveal_strlit("<null name=\"");
    reveal_strlit("\"/>\n");
    let raw = seq![written("name"@, nm)] + Seq::<Option<(Seq<char>, Seq<char>)>>::empty();
    assert(raw.drop_last() =~= Seq::<Option<(Seq<char>, Seq<char>)>>::empty());
    assert(attrs_text(raw) =~= " "@ + "name"@ + "=\""@ + nm + "\""@);
    assert(ind + "<"@ + "null"@ + attrs_text(raw) + "/>\n"@ + after =~= ind + "<null name=\""@ + nm + "\"/>\n"@ + after);
}

proof fn lemma_vector_line(ind: Seq<char>, nm: Seq<char>, dx: Seq<char>, dy: Seq<char>, after: Seq<char>)
    ensures
        ind + "<"@ + "vector"@ + attrs_text(seq![written("name"@, nm)] + seq![written("x"@, dx), written("y"@, dy)])
            + "/>\n"@ + after == ind + "<vector name=\""@ + nm + "\" x=\""@ + dx + "\" y=\""@ + dy + "\"/>\n"@ + after,
{
    reveal_with_fuel(attrs_text, 4);
    reveal_strlit("<");
    reveal_strlit("/>\n");
    reveal_strlit(" ");
    reveal_strlit("=\"");
    reveal_strlit("\"");
    reveal_strlit("name");
    reveal_strlit("x");
    reveal_strlit("y");
    reveal_strlit("vector");
    reveal_strlit("<vector name=\"");
    reveal_strlit("\" x=\"");
    reveal_strlit("\" y=\"");
    reveal_strlit("\"/>\n");
    let raw = seq![written("name"@, nm)] + seq![written("x"@, dx), written("y"@, dy)];
    assert(raw.drop_last() =~= seq![written("name"@, nm), written("x"@, dx)]);
    assert(raw.drop_last().drop_last() =~= seq![written("name"@, nm)]);
    assert(raw.drop_last().drop_last().drop_last() =~= Seq::<Option<(Seq<char>, Seq<char>)>>::empty());
    assert(attrs_text(raw) =~= (" "@ + "name"@ + "=\""@ + nm + "\""@) + (" "@ + "x"@ + "=\""@ + dx + "\""@) + (" "@
        + "y"@ + "=\""@ + dy + "\""@));
    assert(ind + "<"@ + "vector"@ + attrs_text(raw) + "/>\n"@ + after =~= ind + "<vector name=\""@ + nm + "\" x=\""@ + dx
        + "\" y=\""@ + dy + "\"/>\n"@ + after);
}

/// The line a plain leaf's event is written as is the line the export
/// writes for it.
proof fn lemma_leaf_text(name: Seq<char>, p: PropV, depth: nat, ins: XmlInputs, fi: int, ci: int, rest: Seq<XmlEventV>, open: Seq<Seq<char>>)
    requires
        plain_leaf(p),
    ensures
        render(prop_events(name, p) + rest, depth, open) == xml_prop(name, p, XmlMode::MetadataOnly, depth, ins, fi, ci).0
            + render(rest, depth, open),
        xml_prop(name, p, XmlMode::MetadataOnly, depth, ins, fi, ci).1 == fi,
        xml_prop(name, p, XmlMode::MetadataOnly, depth, ins, fi, ci).2 == ci,
{
    let evs = prop_events(name, p);
    assert(evs.len() == 1);
    assert(evs =~= seq![evs[0]]);
    lemma_render_first(evs[0], rest, depth, open);
    let ind = indent(depth);
    let nm = xml_escape(name);
    let after = render(rest, depth, open);
    match p {
        PropV::Null => lemma_null_line(ind, nm, after),
        PropV::Short(v) => {
            assert("<short name=\""@ == leaf_head("short"@)) by {
                reveal_strlit("<short name=\"");
                reveal_strlit("short");
                reveal_strlit("<");
                reveal_strlit(" ");
                reveal_strlit("name");
                reveal_strlit("=\"");
                assert("<short name=\""@ =~= leaf_head("short"@));
            }
            lemma_value_line("short"@, "<short name=\""@, ind, nm, decimal(v as int), after);
        },
        PropV::Int(v) => {
            assert("<int name=\""@ == leaf_head("int"@)) by {
                reveal_strlit("<int name=\"");
                reveal_strlit("int");
                reveal_strlit("<");
                reveal_strlit(" ");
                reveal_strlit("name");
                reveal_strlit("=\"");
                assert("<int name=\""@ =~= leaf_head("int"@));
            }
            lemma_value_line("int"@, "<int name=\""@, ind, nm, decimal(v as int), after);
        },
        PropV::Long(v) => {
            assert("<long name=\""@ == leaf_head("long"@)) by {
                reveal_strlit("<long name=\"");
                reveal_strlit("long");
                reveal_strlit("<");
                reveal_strlit(" ");
                reveal_strlit("name");
                reveal_strlit("=\"");
                assert("<long name=\""@ =~= leaf_head("long"@));
            }
            lemma_value_line("long"@, "<long name=\""@, ind, nm, decimal(v as int), after);
        },
        PropV::String(v) => {
            assert("<string name=\""@ == leaf_head("string"@)) by {
                reveal_strlit("<string name=\"");
                reveal_strlit("string");
                reveal_strlit("<");
                reveal_strlit(" ");
                reveal_strlit("name");
                reveal_strlit("=\"");
                assert("<string name=\""@ =~= leaf_head("string"@));
            }
            lemma_value_line("string"@, "<string name=\""@, ind, nm, xml_escape(v), after);
        },
        PropV::Uol(v) => {
            assert("<uol name=\""@ == leaf_head("uol"@)) by {
                reveal_strlit("<uol name=\"");
                reveal_strlit("uol");
                reveal_strlit("<");
                reveal_strlit(" ");
                reveal_strlit("name");
                reveal_strlit("=\"");
                assert("<uol name=\""@ =~= leaf_head("uol"@));
            }
            lemma_value_line("uol"@, "<uol name=\""@, ind, nm, xml_escape(v), after);
        },
        PropV::Vector { x, y } => lemma_vector_line(ind, nm, decimal(x as int), decimal(y as int), after),
        _ => {},
    }
}

proof fn lemma_container_lines(tag: Seq<char>, head: Seq<char>, ind: Seq<char>, nm: Seq<char>)
    requires
        head == leaf_head(tag),
    ensures
        ind + "<"@ + tag + attrs_text(seq![written("name"@, nm)] + Seq::empty()) == ind + head + nm + "\""@,
{
    reveal_with_fuel(attrs_text, 2);
    reveal_strlit("<");
    reveal_strlit(" ");
    reveal_strlit("=\"");
    reveal_strlit("\"");
    reveal_strlit("name");
    let raw = seq![written("name"@, nm)] + Seq::<Option<(Seq<char>, Seq<char>)>>::empty();
    assert(raw.drop_last() =~= Seq::<Option<(Seq<char>, Seq<char>)>>::empty());
    assert(attrs_text(raw) =~= " "@ + "name"@ + "=\""@ + nm + "\""@);
    assert(ind + "<"@ + tag + attrs_text(raw) =~= ind + head + nm + "\""@);
}

proof fn lemma_heads()
    ensures
        "<imgdir name=\""@ == leaf_head("imgdir"@),
        "<convex name=\""@ == leaf_head("convex"@),
{
    reveal_strlit("<imgdir name=\"");
    reveal_strlit("<convex name=\"");
    reveal_strlit("imgdir");
    reveal_strlit("convex");
    reveal_strlit("<");
    reveal_strlit(" ");
    reveal_strlit("name");
    reveal_strlit("=\"");
    assert("<imgdir name=\""@ =~= leaf_head("imgdir"@));
    assert("<convex name=\""@ =~= leaf_head("convex"@));
}

/// The events of a plain entry are written as the text the export writes
/// for it.
proof fn lemma_prop_text(name: Seq<char>, p: PropV, depth: nat, ins: XmlInputs, fi: int, ci: int, rest: Seq<XmlEventV>, open: Seq<Seq<char>>)
    requires
        plain_prop(p),
    ensures
        render(prop_events(name, p) + rest, depth, open) == xml_prop(name, p, XmlMode::MetadataOnly, depth, ins, fi, ci).0
            + render(rest, depth, open),
        xml_prop(name, p, XmlMode::MetadataOnly, depth, ins, fi, ci).1 == fi,
        xml_prop(name, p, XmlMode::MetadataOnly, depth, ins, fi, ci).2 == ci,
    decreases p, 0int,
{
    if plain_leaf(p) {
        lemma_leaf_text(name, p, depth, ins, fi, ci, rest, open);
    } else {
        let (tag, ch) = match p {
            PropV::SubProperty(ch) => ("imgdir"@, ch),
            PropV::Convex(ch) => ("convex"@, ch),
            _ => (Seq::empty(), Seq::empty()),
        };
        assert(p is SubProperty || p is Convex);
        let head = if p is SubProperty { "<imgdir name=\""@ } else { "<convex name=\""@ };
        lemma_heads();
        let ind = indent(depth);
        let nm = xml_escape(name);
        assert(xml_prop(name, p, XmlMode::MetadataOnly, depth, ins, fi, ci) == xml_container(
            ind + head + nm + "\""@,
            ch,
            tag,
            XmlMode::MetadataOnly,
            depth,
            ins,
            fi,
            ci,
        ));
        assert(prop_events(name, p) == container_events(tag, name, ch));
        lemma_container_text(tag, head, name, ch, depth, ins, fi, ci, rest, open);
    }
}

/// The events of a container of plain entries are written as the text the
/// export writes for it.
proof fn lemma_container_text(
    tag: Seq<char>,
    head: Seq<char>,
    name: Seq<char>,
    ch: PropList,
    depth: nat,
    ins: XmlInputs,
    fi: int,
    ci: int,
    rest: Seq<XmlEventV>,
    open: Seq<Seq<char>>,
)
    requires
        head == leaf_head(tag),
        plain_list(ch, 0),
    ensures
        render(container_events(tag, name, ch) + rest, depth, open) == xml_container(
            indent(depth) + head + xml_escape(name) + "\""@,
            ch,
            tag,
            XmlMode::MetadataOnly,
            depth,
            ins,
            fi,
            ci,
        ).0 + render(rest, depth, open),
        xml_container(indent(depth) + head + xml_escape(name) + "\""@, ch, tag, XmlMode::MetadataOnly, depth, ins, fi, ci).1
            == fi,
        xml_container(indent(depth) + head + xml_escape(name) + "\""@, ch, tag, XmlMode::MetadataOnly, depth, ins, fi, ci).2
            == ci,
    decreases ch, ch.len() + 1,
{
    let ind = indent(depth);
    let nm = xml_escape(name);
    let mode = XmlMode::MetadataOnly;
    lemma_container_lines(tag, head, ind, nm);
    let start = tag_event(ch.len() > 0, tag, name, Seq::empty());
    let after = render(rest, depth, open);
    if ch.len() == 0 {
        assert(container_events(tag, name, ch) =~= seq![start]);
        lemma_render_first(start, rest, depth, open);
        assert(xml_list(ch, 0, mode, depth + 1, ins, fi, ci) == (Seq::<char>::empty(), fi, ci));
        reveal_strlit("/>\n");
        assert(ind + head + nm + "\""@ + element_tail(Seq::empty(), true, depth, tag) + after
            =~= ind + "<"@ + tag + attrs_text(seq![written("name"@, nm)] + Seq::empty()) + "/>\n"@ + after);
    } else {
        let l = list_events(ch, 0);
        let end_rest = seq![XmlEventV::End] + rest;
        assert(container_events(tag, name, ch) + rest =~= seq![start] + (l + end_rest));
        lemma_render_first(start, l + end_rest, depth, open);
        lemma_list_text(ch, 0, depth + 1, ins, fi, ci, end_rest, open.push(tag));
        lemma_render_first(XmlEventV::End, rest, depth + 1, open.push(tag));
        assert(((depth + 1 - 1) as nat) == depth);
        assert(open.push(tag).last() == tag);
        assert(open.push(tag).drop_last() =~= open);
        let body = xml_list(ch, 0, mode, depth + 1, ins, fi, ci).0;
        assert(ind + "<"@ + tag + attrs_text(seq![written("name"@, nm)] + Seq::empty()) + ">\n"@ + (body + (ind + "</"@
            + tag + ">\n"@ + after)) =~= ind + head + nm + "\""@ + element_tail(body, false, depth, tag) + after);
    }
}

/// The events of the plain entries of `l` from index `i` on are written as
/// the text the export writes for them.
proof fn lemma_list_text(l: PropList, i: int, depth: nat, ins: XmlInputs, fi: int, ci: int, rest: Seq<XmlEventV>, open: Seq<Seq<char>>)
    requires
        0 <= i <= l.len(),
        plain_list(l, i),
    ensures
        render(list_events(l, i) + rest, depth, open) == xml_list(l, i, XmlMode::MetadataOnly, depth, ins, fi, ci).0
            + render(rest, depth, open),
        xml_list(l, i, XmlMode::MetadataOnly, depth, ins, fi, ci).1 == fi,
        xml_list(l, i, XmlMode::MetadataOnly, depth, ins, fi, ci).2 == ci,
    decreases l, l.len() - i,
{
    if i == l.len() {
        assert(list_events(l, i) + rest =~= rest);
        assert(Seq::<char>::empty() + render(rest, depth, open) =~= render(rest, depth, open));
    } else {
        assert(decreases_to!(l => l[i]));
        let a = prop_events(l[i].0, l[i].1);
        let b = list_events(l, i + 1);
        assert(list_events(l, i) + rest =~= a + (b + rest));
        lemma_prop_text(l[i].0, l[i].1, depth, ins, fi, ci, b + rest, open);
        lemma_list_text(l, i + 1, depth, ins, fi, ci, rest, open);
        let head = xml_prop(l[i].0, l[i].1, XmlMode::MetadataOnly, depth, ins, fi, ci).0;
        let tail = xml_list(l, i + 1, XmlMode::MetadataOnly, depth, ins, fi, ci).0;
        assert(head + (tail + render(rest, depth, open)) =~= head + tail + render(rest, depth, open));
    }
}

/// Law: a metadata-only export is its element events written one tag per
/// line after the XML declaration: the document the export writes for
/// plain properties (see [`plain_list`]) is [`render`] of
/// [`document_events`].
pub proof fn lemma_export_is_rendered_events(img_name: Seq<char>, props: PropList, ins: XmlInputs)
    requires
        plain_list(props, 0),
    ensures
        xml_document(img_name, props, XmlMode::MetadataOnly, ins)
            == "<?xml version=\"1.0\" encoding=\"UTF-8\" standalone=\"yes\"?>\n"@ + render(
            document_events(img_name, props),
            0,
            Seq::empty(),
        ),
{
    lemma_heads();
    let nm = xml_escape(img_name);
    let start = tag_event(true, "imgdir"@, img_name, Seq::empty());
    let l = list_events(props, 0);
    let tail = seq![XmlEventV::End, XmlEventV::Eof];
    let open0 = Seq::<Seq<char>>::empty();
    assert(document_events(img_name, props) =~= seq![start] + (l + tail));
    lemma_render_first(start, l + tail, 0, open0);
    lemma_list_text(props, 0, 1, ins, 0, 0, tail, open0.push("imgdir"@));
    assert(tail =~= seq![XmlEventV::End] + seq![XmlEventV::Eof]);
    lemma_render_first(XmlEventV::End, seq![XmlEventV::Eof], 1, open0.push("imgdir"@));
    assert(open0.push("imgdir"@).drop_last() =~= open0);
    lemma_render_first(XmlEventV::Eof, Seq::empty(), 0, open0);
    assert(seq![XmlEventV::Eof] + Seq::<XmlEventV>::empty() =~= seq![XmlEventV::Eof]);
    assert(render(Seq::<XmlEventV>::empty(), 0, open0) == Seq::<char>::empty());
    let ind0 = indent(0);
    assert(ind0 =~= Seq::<char>::empty());
    lemma_container_lines("imgdir"@, "<imgdir name=\""@, ind0, nm);
    reveal_strlit("\">\n");
    reveal_strlit("\"");
    reveal_strlit(">\n");
    reveal_strlit("</");
    reveal_strlit("</imgdir>\n");
    reveal_strlit("imgdir");
    let body = xml_list(props, 0, XmlMode::MetadataOnly, 1, ins, 0, 0).0;
    let decl = "<?xml version=\"1.0\" encoding=\"UTF-8\" standalone=\"yes\"?>\n"@;
    assert(decl + (ind0 + "<imgdir name=\""@ + nm + "\""@ + ">\n"@ + (body + (ind0 + "</"@ + "imgdir"@ + ">\n"@
        + Seq::<char>::empty()))) =~= decl + "<imgdir name=\""@ + nm + "\">\n"@ + body + "</imgdir>\n"@);
}

/// Law: a metadata-only export of plain properties reads back as it was:
/// the document is its element events written one tag per line, and
/// importing those events gives the image's name and the same properties.
pub proof fn lemma_export_then_import(img_name: Seq<char>, props: PropList, ins: XmlInputs)
    requires
        plain_list(props, 0),
    ensures
        xml_document(img_name, props, XmlMode::MetadataOnly, ins)
            == "<?xml version=\"1.0\" encoding=\"UTF-8\" standalone=\"yes\"?>\n"@ + render(
            document_events(img_name, props),
            0,
            Seq::empty(),
        ),
        import_outcome(document_events(img_name, props))
            == Ok::<(Seq<char>, PropList, Seq<FloatTextV>), ErrV>((img_name, props, Seq::empty())),
{
    lemma_export_is_rendered_events(img_name, props, ins);
    lemma_import_of_export(img_name, props);
}

/// The events other than text, comments and declarations: the tags, the
/// end of the document and errors.
pub open spec fn without_other(evs: Seq<XmlEventV>) -> Seq<XmlEventV>
    decreases evs.len(),
{
    if evs.len() == 0 {
        evs
    } else {
        let rest = without_other(evs.subrange(1, evs.len() as int));
        if evs[0] is Other {
            rest
        } else {
            seq![evs[0]] + rest
        }
    }
}

proof fn lemma_run_without_other(evs: Seq<XmlEventV>, st: ImportV)
    ensures
        import_run(evs, st) == import_run(without_other(evs), st),
    decreases evs.len(),
{
    if evs.len() > 0 {
        let rest = evs.subrange(1, evs.len() as int);
        lemma_run_without_other(rest, import_step(st, evs[0]));
        lemma_run_without_other(rest, st);
        if !(evs[0] is Other) {
            let w = seq![evs[0]] + without_other(rest);
            assert(w.subrange(1, w.len() as int) =~= without_other(rest));
            assert(w[0] == evs[0]);
        }
    }
}

/// Law: text, comments and declarations between the tags change nothing
/// of what is imported.
pub proof fn lemma_import_ignores_other_events(evs: Seq<XmlEventV>)
    ensures
        import_outcome(evs) == import_outcome(without_other(evs)),
{
    lemma_run_without_other(evs, import_start());
}

/// Law: any event stream whose tags are those of a metadata-only export of
/// plain properties, whatever text, comments or declarations stand between
/// them, imports as the image's name and the same properties.
pub proof fn lemma_import_of_export_with_text(evs: Seq<XmlEventV>, img_name: Seq<char>, props: PropList)
    requires
        plain_list(props, 0),
        without_other(evs) == document_events(img_name, props),
    ensures
        import_outcome(evs) == Ok::<(Seq<char>, PropList, Seq<FloatTextV>), ErrV>((img_name, props, Seq::empty())),
{
    lemma_import_ignores_other_events(evs);
    lemma_import_of_export(img_name, props);
}

} // verus!
