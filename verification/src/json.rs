//! Property trees as JSON objects and as indented text trees.
use vstd::prelude::*;
use crate::property::{WzProperty, PropV, PropList, props_model, lemma_props_model};
use crate::text::{decimal, decimal_i64, decimal_u64, str_chars, push_all, string_from_chars, hex_char};
use crate::export::FloatBits;
use crate::xml::{f32_finite, f64_finite, push_str, push_decimal, prop_height, list_height, lemma_list_height};
use crate::tree::{kind_name, children_of, prop_type_name};

verus! {

/// The rendering of a float given in `table` (the first entry for its bit
/// pattern), or `0` when it has none.
pub open spec fn rendered(table: Seq<(FloatBits, Seq<char>)>, f: FloatBits) -> Seq<char>
    decreases table.len(),
{
    if table.len() == 0 {
        "0"@
    } else if table[0].0 == f {
        table[0].1
    } else {
        rendered(table.subrange(1, table.len() as int), f)
    }
}

pub open spec fn table_view(t: Seq<(FloatBits, String)>) -> Seq<(FloatBits, Seq<char>)> {
    Seq::new(t.len(), |i: int| (t[i].0, t[i].1@))
}

fn render_float(table: &[(FloatBits, String)], f: FloatBits) -> (r: Vec<char>)
    ensures
        r@ == rendered(table_view(table@), f),
{
    let ghost tv = table_view(table@);
    let mut i: usize = 0;
    assert(tv.subrange(0, tv.len() as int) =~= tv);
    while i < table.len()
        invariant
            0 <= i <= table.len(),
            tv == table_view(table@),
            rendered(tv, f) == rendered(tv.subrange(i as int, tv.len() as int), f),
        decreases table.len() - i,
    {
        let ghost rest = tv.subrange(i as int, tv.len() as int);
        assert(rest.subrange(1, rest.len() as int) =~= tv.subrange(i + 1, tv.len() as int));
        if table[i].0 == f {
            return str_chars(table[i].1.as_str());
        }
        i = i + 1;
    }
    str_chars("0")
}

/// One character of a JSON string literal.
pub open spec fn json_char(c: char) -> Seq<char> {
    if c == '"' {
        "\\\""@
    } else if c == '\\' {
        "\\\\"@
    } else if c == '\n' {
        "\\n"@
    } else if c == '\r' {
        "\\r"@
    } else if c == '\t' {
        "\\t"@
    } else if (c as u32) < 0x20 {
        "\\u00"@ + seq![hex_digit_lower((c as u32 / 16) as int), hex_digit_lower((c as u32 % 16) as int)]
    } else {
        seq![c]
    }
}

/// A lower-case hexadecimal digit.
pub open spec fn hex_digit_lower(d: int) -> char {
    if d < 10 {
        (('0' as int) + d) as char
    } else {
        (('a' as int) + d - 10) as char
    }
}

pub open spec fn json_body(s: Seq<char>) -> Seq<char>
    decreases s.len(),
{
    if s.len() == 0 {
        Seq::empty()
    } else {
        json_body(s.drop_last()) + json_char(s.last())
    }
}

/// `s` as a JSON string literal.
pub open spec fn json_text(s: Seq<char>) -> Seq<char> {
    "\""@ + json_body(s) + "\""@
}

fn push_json_string(out: &mut Vec<char>, s: &[char])
    ensures
        final(out)@ == old(out)@ + json_text(s@),
{
    let ghost start = out@;
    push_str(out, "\"");
    let ghost open = out@;
    let mut i: usize = 0;
    while i < s.len()
        invariant
            0 <= i <= s.len(),
            out@ == open + json_body(s@.subrange(0, i as int)),
        decreases s.len() - i,
    {
        let c = s[i];
        if c == '"' {
            push_str(out, "\\\"");
        } else if c == '\\' {
            push_str(out, "\\\\");
        } else if c == '\n' {
            push_str(out, "\\n");
        } else if c == '\r' {
            push_str(out, "\\r");
        } else if c == '\t' {
            push_str(out, "\\t");
        } else if (c as u32) < 0x20 {
            push_str(out, "\\u00");
            let hi = (c as u32 / 16) as u8;
            let lo = (c as u32 % 16) as u8;
            out.push(hex_lower(hi));
            out.push(hex_lower(lo));
        } else {
            out.push(c);
        }
        proof {
            let pre = s@.subrange(0, i + 1);
            assert(pre.drop_last() =~= s@.subrange(0, i as int));
            assert(pre.last() == c);
            assert(out@ =~= open + json_body(pre));
        }
        i = i + 1;
    }
    assert(s@.subrange(0, s@.len() as int) =~= s@);
    push_str(out, "\"");
    assert(out@ =~= start + json_text(s@));
}

fn hex_lower(d: u8) -> (c: char)
    requires
        d < 16,
    ensures
        c == hex_digit_lower(d as int),
{
    assert(('0' as int) == 48 && ('a' as int) == 97);
    if d < 10 {
        (48u8 + d) as char
    } else {
        (87u8 + d) as char
    }
}

/// `s` as a JSON string literal (quotes, backslash and control characters
/// escaped).
pub fn json_string(s: &str) -> (r: String)
    ensures
        r@ == json_text(s@),
{
    let mut out: Vec<char> = Vec::new();
    push_json_string(&mut out, str_chars(s).as_slice());
    string_from_chars(out.as_slice())
}


/// The path of a child: the parent's path, `/`, and the child's name (just
/// the name under an empty path).
pub open spec fn child_path(path: Seq<char>, name: Seq<char>) -> Seq<char> {
    if path.len() == 0 {
        name
    } else {
        path + "/"@ + name
    }
}

/// The `value` member of a property's JSON object, if it has one: numbers
/// in decimal (a non-finite float is `null`), strings as JSON strings, and
/// `null` for a null property.
pub open spec fn json_value(p: PropV, table: Seq<(FloatBits, Seq<char>)>) -> Seq<char> {
    match p {
        PropV::Short(v) => ",\"value\":"@ + decimal(v as int),
        PropV::Int(v) => ",\"value\":"@ + decimal(v as int),
        PropV::Long(v) => ",\"value\":"@ + decimal(v as int),
        PropV::Float(b) => ",\"value\":"@ + if f32_finite(b) {
            rendered(table, FloatBits::F32(b))
        } else {
            "null"@
        },
        PropV::Double(b) => ",\"value\":"@ + if f64_finite(b) {
            rendered(table, FloatBits::F64(b))
        } else {
            "null"@
        },
        PropV::String(s) => ",\"value\":"@ + json_text(s),
        PropV::Uol(s) => ",\"value\":"@ + json_text(s),
        PropV::Null => ",\"value\":null"@,
        _ => Seq::empty(),
    }
}

/// A property as a JSON object: its path, type, value if any, and its
/// children as an object keyed by name, down to `max_depth` levels (a
/// negative `max_depth` has no limit); below that only the number of
/// children.
pub open spec fn json_prop(p: PropV, path: Seq<char>, max_depth: int, depth: int, table: Seq<(FloatBits, Seq<char>)>) -> Seq<char>
    decreases p, 0int,
{
    let kids = match p {
        PropV::SubProperty(ch) => json_children(ch, path, max_depth, depth, table),
        PropV::Canvas { properties, .. } => json_children(properties, path, max_depth, depth, table),
        PropV::Video { properties, .. } => json_children(properties, path, max_depth, depth, table),
        PropV::Convex(points) => json_children(points, path, max_depth, depth, table),
        PropV::RawData { properties, .. } => json_children(properties, path, max_depth, depth, table),
        _ => Seq::empty(),
    };
    "{\"path\":"@ + json_text(path) + ",\"type\":"@ + json_text(kind_name(p)) + json_value(p, table) + kids + "}"@
}

/// The `children` (or `children_count`) member for the children `ch`.
pub open spec fn json_children(ch: PropList, path: Seq<char>, max_depth: int, depth: int, table: Seq<(FloatBits, Seq<char>)>) -> Seq<char>
    decreases ch, ch.len() + 1,
{
    if ch.len() == 0 {
        Seq::empty()
    } else if max_depth < 0 || depth < max_depth {
        ",\"children\":{"@ + json_entries(ch, 0, path, max_depth, depth + 1, table) + "}"@
    } else {
        ",\"children_count\":"@ + decimal(ch.len() as int)
    }
}

/// The members `"name":{...}` for the children from index `i` on.
pub open spec fn json_entries(ch: PropList, i: int, path: Seq<char>, max_depth: int, depth: int, table: Seq<(FloatBits, Seq<char>)>) -> Seq<char>
    decreases ch, ch.len() - i,
{
    if i < 0 || i >= ch.len() {
        Seq::empty()
    } else {
        proof {
            assert(decreases_to!(ch => ch[i]));
        }
        (if i > 0 { ","@ } else { Seq::empty() }) + json_text(ch[i].0) + ":"@ + json_prop(
            ch[i].1,
            child_path(path, ch[i].0),
            max_depth,
            depth,
            table,
        ) + json_entries(ch, i + 1, path, max_depth, depth, table)
    }
}

fn write_json_value(out: &mut Vec<char>, prop: &WzProperty, table: &[(FloatBits, String)])
    ensures
        final(out)@ == old(out)@ + json_value(prop.model(), table_view(table@)),
{
    let ghost start = out@;
    match prop {
        WzProperty::Short(v) => {
            push_str(out, ",\"value\":");
            push_decimal(out, *v as i64);
        },
        WzProperty::Int(v) => {
            push_str(out, ",\"value\":");
            push_decimal(out, *v as i64);
        },
        WzProperty::Long(v) => {
            push_str(out, ",\"value\":");
            push_decimal(out, *v);
        },
        WzProperty::Float(b) => {
            push_str(out, ",\"value\":");
            if (*b >> 23u32) & 0xFFu32 != 0xFFu32 {
                push_all(out, render_float(table, FloatBits::F32(*b)).as_slice());
            } else {
                push_str(out, "null");
            }
        },
        WzProperty::Double(b) => {
            push_str(out, ",\"value\":");
            if (*b >> 52u64) & 0x7FFu64 != 0x7FFu64 {
                push_all(out, render_float(table, FloatBits::F64(*b)).as_slice());
            } else {
                push_str(out, "null");
            }
        },
        WzProperty::String(s) => {
            push_str(out, ",\"value\":");
            push_json_string(out, str_chars(s.as_str()).as_slice());
        },
        WzProperty::Uol(s) => {
            push_str(out, ",\"value\":");
            push_json_string(out, str_chars(s.as_str()).as_slice());
        },
        WzProperty::Null => {
            push_str(out, ",\"value\":null");
        },
        _ => {
            assert(out@ =~= start + Seq::<char>::empty());
        },
    }
}

fn write_json_children(
    out: &mut Vec<char>,
    list: &Vec<(String, WzProperty)>,
    path: &Vec<char>,
    max_depth: i32,
    depth: i32,
    table: &[(FloatBits, String)],
)
    requires
        depth + 1 + list_height(props_model(list@), 0) <= i32::MAX,
    ensures
        final(out)@ == old(out)@ + json_children(props_model(list@), path@, max_depth as int, depth as int, table_view(table@)),
    decreases list, 1int,
{
    let ghost l = props_model(list@);
    let ghost tv = table_view(table@);
    let ghost start = out@;
    proof {
        lemma_props_model(list@);
    }
    if list.len() == 0 {
        return;
    }
    if !(max_depth < 0 || depth < max_depth) {
        push_str(out, ",\"children_count\":");
        push_all(out, decimal_u64(list.len() as u64).as_slice());
        return;
    }
    push_str(out, ",\"children\":{");
    let ghost open = out@;
    let ghost mut acc: Seq<char> = Seq::empty();
    let mut i: usize = 0;
    assert(json_entries(l, 0, path@, max_depth as int, depth + 1, tv) =~= acc + json_entries(l, 0, path@, max_depth as int, depth + 1, tv));
    while i < list.len()
        invariant
            0 <= i <= list.len(),
            l == props_model(list@),
            l.len() == list@.len(),
            forall|k: int| 0 <= k < list@.len() ==> #[trigger] l[k] == (list@[k].0@, list@[k].1.model()),
            tv == table_view(table@),
            depth + 1 + list_height(l, 0) <= i32::MAX,
            out@ == open + acc,
            json_entries(l, 0, path@, max_depth as int, depth + 1, tv) == acc + json_entries(l, i as int, path@, max_depth as int, depth + 1, tv),
        decreases list.len() - i,
    {
        let entry = &list[i];
        proof {
            lemma_list_height(l, 0, i as int);
            assert(decreases_to!(list => list@[i as int]));
        }
        let ghost before = out@;
        if i > 0 {
            push_str(out, ",");
        }
        let name_chars = str_chars(entry.0.as_str());
        push_json_string(out, name_chars.as_slice());
        push_str(out, ":");
        let mut cp: Vec<char> = Vec::new();
        if path.len() == 0 {
            push_all(&mut cp, name_chars.as_slice());
        } else {
            push_all(&mut cp, path.as_slice());
            push_str(&mut cp, "/");
            push_all(&mut cp, name_chars.as_slice());
        }
        assert(cp@ =~= child_path(path@, l[i as int].0));
        write_json(out, &entry.1, &cp, max_depth, depth + 1, table);
        proof {
            let head = (if i > 0 { ","@ } else { Seq::<char>::empty() }) + json_text(l[i as int].0) + ":"@ + json_prop(
                l[i as int].1,
                child_path(path@, l[i as int].0),
                max_depth as int,
                depth + 1,
                tv,
            );
            assert(out@ =~= before + head);
            assert(acc + (head + json_entries(l, i + 1, path@, max_depth as int, depth + 1, tv)) =~= (acc + head)
                + json_entries(l, i + 1, path@, max_depth as int, depth + 1, tv));
            acc = acc + head;
        }
        i = i + 1;
    }
    push_str(out, "}");
    assert(out@ =~= start + json_children(l, path@, max_depth as int, depth as int, tv));
}

#[verifier::rlimit(30)]
fn write_json(out: &mut Vec<char>, prop: &WzProperty, path: &Vec<char>, max_depth: i32, depth: i32, table: &[(FloatBits, String)])
    requires
        depth + prop_height(prop.model()) <= i32::MAX,
    ensures
        final(out)@ == old(out)@ + json_prop(prop.model(), path@, max_depth as int, depth as int, table_view(table@)),
    decreases prop, 2int,
{
    let ghost start = out@;
    push_str(out, "{\"path\":");
    push_json_string(out, path.as_slice());
    push_str(out, ",\"type\":");
    push_json_string(out, str_chars(prop_type_name(prop)).as_slice());
    write_json_value(out, prop, table);
    let ghost mid = out@;
    match prop {
        WzProperty::SubProperty { properties } => write_json_children(out, properties, path, max_depth, depth, table),
        WzProperty::Canvas { properties, .. } => write_json_children(out, properties, path, max_depth, depth, table),
        WzProperty::Video { properties, .. } => write_json_children(out, properties, path, max_depth, depth, table),
        WzProperty::Convex { points } => write_json_children(out, points, path, max_depth, depth, table),
        WzProperty::RawData { properties, .. } => write_json_children(out, properties, path, max_depth, depth, table),
        _ => {},
    }
    push_str(out, "}");
    assert(out@ =~= start + json_prop(prop.model(), path@, max_depth as int, depth as int, table_view(table@)));
}

/// A property as a JSON object (see [`json_prop`]) at `path_str`, at
/// nesting `depth`. `float_texts` gives the text of each finite float by its
/// bit pattern.
pub fn prop_to_json(prop: &WzProperty, path_str: &str, max_depth: i32, depth: i32, float_texts: &[(FloatBits, String)]) -> (r: String)
    requires
        depth + prop_height(prop.model()) <= i32::MAX,
    ensures
        r@ == json_prop(prop.model(), path_str@, max_depth as int, depth as int, table_view(float_texts@)),
{
    let mut out: Vec<char> = Vec::new();
    let path = str_chars(path_str);
    write_json(&mut out, prop, &path, max_depth, depth, float_texts);
    string_from_chars(out.as_slice())
}


/// A string shown in a tree: at most 60 characters, then `...` when cut.
pub open spec fn truncated(s: Seq<char>) -> Seq<char> {
    if s.len() > 60 {
        s.subrange(0, 60) + "..."@
    } else {
        s
    }
}

/// The ` = value` part of a tree line, if the property has a value.
pub open spec fn tree_value(p: PropV, table: Seq<(FloatBits, Seq<char>)>) -> Seq<char> {
    match p {
        PropV::Short(v) => " = "@ + decimal(v as int),
        PropV::Int(v) => " = "@ + decimal(v as int),
        PropV::Long(v) => " = "@ + decimal(v as int),
        PropV::Float(b) => " = "@ + rendered(table, FloatBits::F32(b)),
        PropV::Double(b) => " = "@ + rendered(table, FloatBits::F64(b)),
        PropV::String(s) => " = \""@ + truncated(s) + "\""@,
        PropV::Uol(s) => " = \""@ + truncated(s) + "\""@,
        PropV::Null => " = null"@,
        _ => Seq::empty(),
    }
}

/// A property as a text tree: its line (`line_prefix`, label, type, value),
/// then its children on lines of their own under `child_indent`, joined by
/// `├─` and `└─` (the last), down to `max_depth` levels (negative: no
/// limit); below that a line counting the children.
pub open spec fn tree_prop(
    p: PropV,
    label: Seq<char>,
    line_prefix: Seq<char>,
    child_indent: Seq<char>,
    max_depth: int,
    depth: int,
    table: Seq<(FloatBits, Seq<char>)>,
) -> Seq<char>
    decreases p, 0int,
{
    let kids = match p {
        PropV::SubProperty(ch) => tree_children(ch, child_indent, max_depth, depth, table),
        PropV::Canvas { properties, .. } => tree_children(properties, child_indent, max_depth, depth, table),
        PropV::Video { properties, .. } => tree_children(properties, child_indent, max_depth, depth, table),
        PropV::Convex(points) => tree_children(points, child_indent, max_depth, depth, table),
        PropV::RawData { properties, .. } => tree_children(properties, child_indent, max_depth, depth, table),
        _ => Seq::empty(),
    };
    line_prefix + label + " ["@ + kind_name(p) + "]"@ + tree_value(p, table) + kids
}

pub open spec fn tree_children(ch: PropList, child_indent: Seq<char>, max_depth: int, depth: int, table: Seq<(FloatBits, Seq<char>)>) -> Seq<char>
    decreases ch, ch.len() + 1,
{
    if ch.len() == 0 {
        Seq::empty()
    } else if max_depth < 0 || depth < max_depth {
        tree_entries(ch, 0, child_indent, max_depth, depth, table)
    } else {
        "\n"@ + child_indent + "  ... ("@ + decimal(ch.len() as int) + " children)"@
    }
}

pub open spec fn tree_entries(ch: PropList, i: int, child_indent: Seq<char>, max_depth: int, depth: int, table: Seq<(FloatBits, Seq<char>)>) -> Seq<char>
    decreases ch, ch.len() - i,
{
    if i < 0 || i >= ch.len() {
        Seq::empty()
    } else {
        proof {
            assert(decreases_to!(ch => ch[i]));
        }
        let last = i == ch.len() - 1;
        "\n"@ + tree_prop(
            ch[i].1,
            ch[i].0,
            child_indent + if last { "└─"@ } else { "├─"@ },
            child_indent + if last { "  "@ } else { "│ "@ },
            max_depth,
            depth + 1,
            table,
        ) + tree_entries(ch, i + 1, child_indent, max_depth, depth, table)
    }
}

fn push_truncated(out: &mut Vec<char>, s: &[char])
    ensures
        final(out)@ == old(out)@ + truncated(s@),
{
    if s.len() > 60 {
        push_all(out, &s[0..60]);
        push_str(out, "...");
    } else {
        push_all(out, s);
    }
}

fn write_tree_value(out: &mut Vec<char>, prop: &WzProperty, table: &[(FloatBits, String)])
    ensures
        final(out)@ == old(out)@ + tree_value(prop.model(), table_view(table@)),
{
    let ghost start = out@;
    match prop {
        WzProperty::Short(v) => {
            push_str(out, " = ");
            push_decimal(out, *v as i64);
        },
        WzProperty::Int(v) => {
            push_str(out, " = ");
            push_decimal(out, *v as i64);
        },
        WzProperty::Long(v) => {
            push_str(out, " = ");
            push_decimal(out, *v);
        },
        WzProperty::Float(b) => {
            push_str(out, " = ");
            push_all(out, render_float(table, FloatBits::F32(*b)).as_slice());
        },
        WzProperty::Double(b) => {
            push_str(out, " = ");
            push_all(out, render_float(table, FloatBits::F64(*b)).as_slice());
        },
        WzProperty::String(s) => {
            push_str(out, " = \"");
            push_truncated(out, str_chars(s.as_str()).as_slice());
            push_str(out, "\"");
        },
        WzProperty::Uol(s) => {
            push_str(out, " = \"");
            push_truncated(out, str_chars(s.as_str()).as_slice());
            push_str(out, "\"");
        },
        WzProperty::Null => {
            push_str(out, " = null");
        },
        _ => {
            assert(out@ =~= start + Seq::<char>::empty());
        },
    }
}

fn write_tree_children(
    out: &mut Vec<char>,
    list: &Vec<(String, WzProperty)>,
    child_indent: &Vec<char>,
    max_depth: i32,
    depth: i32,
    table: &[(FloatBits, String)],
)
    requires
        depth + 1 + list_height(props_model(list@), 0) <= i32::MAX,
    ensures
        final(out)@ == old(out)@ + tree_children(props_model(list@), child_indent@, max_depth as int, depth as int, table_view(table@)),
    decreases list, 1int,
{
    let ghost l = props_model(list@);
    let ghost tv = table_view(table@);
    let ghost start = out@;
    proof {
        lemma_props_model(list@);
    }
    if list.len() == 0 {
        return;
    }
    if !(max_depth < 0 || depth < max_depth) {
        push_str(out, "\n");
        push_all(out, child_indent.as_slice());
        push_str(out, "  ... (");
        push_all(out, decimal_u64(list.len() as u64).as_slice());
        push_str(out, " children)");
        assert(out@ =~= start + tree_children(l, child_indent@, max_depth as int, depth as int, tv));
        return;
    }
    let ghost mut acc: Seq<char> = Seq::empty();
    let mut i: usize = 0;
    assert(tree_entries(l, 0, child_indent@, max_depth as int, depth as int, tv) =~= acc + tree_entries(l, 0, child_indent@, max_depth as int, depth as int, tv));
    while i < list.len()
        invariant
            0 <= i <= list.len(),
            l == props_model(list@),
            l.len() == list@.len(),
            forall|k: int| 0 <= k < list@.len() ==> #[trigger] l[k] == (list@[k].0@, list@[k].1.model()),
            tv == table_view(table@),
            depth + 1 + list_height(l, 0) <= i32::MAX,
            out@ == start + acc,
            tree_entries(l, 0, child_indent@, max_depth as int, depth as int, tv) == acc + tree_entries(l, i as int, child_indent@, max_depth as int, depth as int, tv),
        decreases list.len() - i,
    {
        let entry = &list[i];
        proof {
            lemma_list_height(l, 0, i as int);
            assert(decreases_to!(list => list@[i as int]));
        }
        let ghost before = out@;
        let last = i == list.len() - 1;
        let mut line_prefix: Vec<char> = Vec::new();
        push_all(&mut line_prefix, child_indent.as_slice());
        push_str(&mut line_prefix, if last { "└─" } else { "├─" });
        let mut next_indent: Vec<char> = Vec::new();
        push_all(&mut next_indent, child_indent.as_slice());
        push_str(&mut next_indent, if last { "  " } else { "│ " });
        push_str(out, "\n");
        write_tree(out, &entry.1, str_chars(entry.0.as_str()).as_slice(), &line_prefix, &next_indent, max_depth, depth + 1, table);
        proof {
            let head = "\n"@ + tree_prop(
                l[i as int].1,
                l[i as int].0,
                child_indent@ + if last { "└─"@ } else { "├─"@ },
                child_indent@ + if last { "  "@ } else { "│ "@ },
                max_depth as int,
                depth + 1,
                tv,
            );
            assert(out@ =~= before + head);
            assert(acc + (head + tree_entries(l, i + 1, child_indent@, max_depth as int, depth as int, tv)) =~= (acc + head)
                + tree_entries(l, i + 1, child_indent@, max_depth as int, depth as int, tv));
            acc = acc + head;
        }
        i = i + 1;
    }
    assert(out@ =~= start + tree_children(l, child_indent@, max_depth as int, depth as int, tv));
}

#[verifier::rlimit(30)]
fn write_tree(
    out: &mut Vec<char>,
    prop: &WzProperty,
    label: &[char],
    line_prefix: &Vec<char>,
    child_indent: &Vec<char>,
    max_depth: i32,
    depth: i32,
    table: &[(FloatBits, String)],
)
    requires
        depth + prop_height(prop.model()) <= i32::MAX,
    ensures
        final(out)@ == old(out)@ + tree_prop(prop.model(), label@, line_prefix@, child_indent@, max_depth as int, depth as int, table_view(table@)),
    decreases prop, 2int,
{
    let ghost start = out@;
    push_all(out, line_prefix.as_slice());
    push_all(out, label);
    push_str(out, " [");
    push_str(out, prop_type_name(prop));
    push_str(out, "]");
    write_tree_value(out, prop, table);
    match prop {
        WzProperty::SubProperty { properties } => write_tree_children(out, properties, child_indent, max_depth, depth, table),
        WzProperty::Canvas { properties, .. } => write_tree_children(out, properties, child_indent, max_depth, depth, table),
        WzProperty::Video { properties, .. } => write_tree_children(out, properties, child_indent, max_depth, depth, table),
        WzProperty::Convex { points } => write_tree_children(out, points, child_indent, max_depth, depth, table),
        WzProperty::RawData { properties, .. } => write_tree_children(out, properties, child_indent, max_depth, depth, table),
        _ => {},
    }
    assert(out@ =~= start + tree_prop(prop.model(), label@, line_prefix@, child_indent@, max_depth as int, depth as int, table_view(table@)));
}

/// A property as a text tree (see [`tree_prop`]). `float_texts` gives the
/// text of each float by its bit pattern.
pub fn prop_to_tree(
    prop: &WzProperty,
    label: &str,
    line_prefix: &str,
    child_indent: &str,
    max_depth: i32,
    depth: i32,
    float_texts: &[(FloatBits, String)],
) -> (r: String)
    requires
        depth + prop_height(prop.model()) <= i32::MAX,
    ensures
        r@ == tree_prop(prop.model(), label@, line_prefix@, child_indent@, max_depth as int, depth as int, table_view(float_texts@)),
{
    let mut out: Vec<char> = Vec::new();
    let lp = str_chars(line_prefix);
    let ci = str_chars(child_indent);
    write_tree(&mut out, prop, str_chars(label).as_slice(), &lp, &ci, max_depth, depth, float_texts);
    string_from_chars(out.as_slice())
}

// ── Whole images ────────────────────────────────────────────────────

/// The members `"name":{...}` of an image's root entries from index `i`
/// on; each entry's path is its name.
pub open spec fn image_json_entries(l: PropList, i: int, max_depth: int, table: Seq<(FloatBits, Seq<char>)>) -> Seq<char>
    decreases l.len() - i,
{
    if i < 0 || i >= l.len() {
        Seq::empty()
    } else {
        (if i > 0 { ","@ } else { Seq::empty() }) + json_text(l[i].0) + ":"@ + json_prop(l[i].1, l[i].0, max_depth, 0, table)
            + image_json_entries(l, i + 1, max_depth, table)
    }
}

/// An image's root entries as one JSON object keyed by name.
pub open spec fn image_json(l: PropList, max_depth: int, table: Seq<(FloatBits, Seq<char>)>) -> Seq<char> {
    "{"@ + image_json_entries(l, 0, max_depth, table) + "}"@
}

/// An image's root entries as a JSON object (see [`image_json`]).
pub fn image_to_json(props: &Vec<(String, WzProperty)>, max_depth: i32, float_texts: &[(FloatBits, String)]) -> (r: String)
    requires
        list_height(props_model(props@), 0) <= i32::MAX,
    ensures
        r@ == image_json(props_model(props@), max_depth as int, table_view(float_texts@)),
{
    let ghost l = props_model(props@);
    let ghost tv = table_view(float_texts@);
    proof {
        lemma_props_model(props@);
    }
    let mut out: Vec<char> = Vec::new();
    push_str(&mut out, "{");
    let ghost open = out@;
    let ghost mut acc: Seq<char> = Seq::empty();
    let mut i: usize = 0;
    assert(image_json_entries(l, 0, max_depth as int, tv) =~= acc + image_json_entries(l, 0, max_depth as int, tv));
    while i < props.len()
        invariant
            0 <= i <= props.len(),
            l == props_model(props@),
            l.len() == props@.len(),
            forall|k: int| 0 <= k < props@.len() ==> #[trigger] l[k] == (props@[k].0@, props@[k].1.model()),
            tv == table_view(float_texts@),
            list_height(l, 0) <= i32::MAX,
            out@ == open + acc,
            image_json_entries(l, 0, max_depth as int, tv) == acc + image_json_entries(l, i as int, max_depth as int, tv),
        decreases props.len() - i,
    {
        let entry = &props[i];
        proof {
            lemma_list_height(l, 0, i as int);
        }
        let ghost before = out@;
        if i > 0 {
            push_str(&mut out, ",");
        }
        let name = str_chars(entry.0.as_str());
        push_json_string(&mut out, name.as_slice());
        push_str(&mut out, ":");
        write_json(&mut out, &entry.1, &name, max_depth, 0, float_texts);
        proof {
            let head = (if i > 0 { ","@ } else { Seq::<char>::empty() }) + json_text(l[i as int].0) + ":"@
                + json_prop(l[i as int].1, l[i as int].0, max_depth as int, 0, tv);
            assert(out@ =~= before + head);
            assert(acc + (head + image_json_entries(l, i + 1, max_depth as int, tv)) =~= (acc + head)
                + image_json_entries(l, i + 1, max_depth as int, tv));
            acc = acc + head;
        }
        i = i + 1;
    }
    push_str(&mut out, "}");
    assert(out@ =~= image_json(l, max_depth as int, tv));
    string_from_chars(out.as_slice())
}

/// An image's root entries from index `i` on as text trees, one after the
/// other on new lines.
pub open spec fn image_tree_entries(l: PropList, i: int, max_depth: int, table: Seq<(FloatBits, Seq<char>)>) -> Seq<char>
    decreases l.len() - i,
{
    if i < 0 || i >= l.len() {
        Seq::empty()
    } else {
        (if i > 0 { "\n"@ } else { Seq::empty() }) + tree_prop(l[i].1, l[i].0, Seq::empty(), Seq::empty(), max_depth, 0, table)
            + image_tree_entries(l, i + 1, max_depth, table)
    }
}

/// An image's root entries as text trees (see [`image_tree_entries`]).
pub fn image_to_tree(props: &Vec<(String, WzProperty)>, max_depth: i32, float_texts: &[(FloatBits, String)]) -> (r: String)
    requires
        list_height(props_model(props@), 0) <= i32::MAX,
    ensures
        r@ == image_tree_entries(props_model(props@), 0, max_depth as int, table_view(float_texts@)),
{
    let ghost l = props_model(props@);
    let ghost tv = table_view(float_texts@);
    proof {
        lemma_props_model(props@);
    }
    let mut out: Vec<char> = Vec::new();
    let none: Vec<char> = Vec::new();
    let ghost mut acc: Seq<char> = Seq::empty();
    let mut i: usize = 0;
    assert(image_tree_entries(l, 0, max_depth as int, tv) =~= acc + image_tree_entries(l, 0, max_depth as int, tv));
    while i < props.len()
        invariant
            0 <= i <= props.len(),
            l == props_model(props@),
            l.len() == props@.len(),
            forall|k: int| 0 <= k < props@.len() ==> #[trigger] l[k] == (props@[k].0@, props@[k].1.model()),
            tv == table_view(float_texts@),
            list_height(l, 0) <= i32::MAX,
            none@ == Seq::<char>::empty(),
            out@ == acc,
            image_tree_entries(l, 0, max_depth as int, tv) == acc + image_tree_entries(l, i as int, max_depth as int, tv),
        decreases props.len() - i,
    {
        let entry = &props[i];
        proof {
            lemma_list_height(l, 0, i as int);
        }
        let ghost before = out@;
        if i > 0 {
            push_str(&mut out, "\n");
        }
        let name = str_chars(entry.0.as_str());
        write_tree(&mut out, &entry.1, name.as_slice(), &none, &none, max_depth, 0, float_texts);
        proof {
            let head = (if i > 0 { "\n"@ } else { Seq::<char>::empty() }) + tree_prop(
                l[i as int].1,
                l[i as int].0,
                Seq::empty(),
                Seq::empty(),
                max_depth as int,
                0,
                tv,
            );
            assert(out@ =~= before + head);
            assert(acc + (head + image_tree_entries(l, i + 1, max_depth as int, tv)) =~= (acc + head)
                + image_tree_entries(l, i + 1, max_depth as int, tv));
            acc = acc + head;
        }
        i = i + 1;
    }
    assert(out@ =~= image_tree_entries(l, 0, max_depth as int, tv));
    string_from_chars(out.as_slice())
}

// ── Laws ────────────────────────────────────────────────────────────

/// Law: the JSON object of an integer property (short, int or long) is its
/// path, its type and a `value` member holding its number in decimal.
pub proof fn lemma_json_integer_value(p: PropV, path: Seq<char>, max_depth: int, depth: int, table: Seq<(FloatBits, Seq<char>)>)
    requires
        p is Short || p is Int || p is Long,
    ensures
        json_prop(p, path, max_depth, depth, table) == "{\"path\":"@ + json_text(path) + ",\"type\":"@ + json_text(
            match p {
                PropV::Short(_) => "Short"@,
                PropV::Int(_) => "Int"@,
                _ => "Long"@,
            },
        ) + ",\"value\":"@ + decimal(
            match p {
                PropV::Short(v) => v as int,
                PropV::Int(v) => v as int,
                PropV::Long(v) => v as int,
                _ => 0,
            },
        ) + "}"@,
{
    let v = match p {
        PropV::Short(v) => v as int,
        PropV::Int(v) => v as int,
        PropV::Long(v) => v as int,
        _ => 0,
    };
    let t = match p {
        PropV::Short(_) => "Short"@,
        PropV::Int(_) => "Int"@,
        _ => "Long"@,
    };
    assert(json_value(p, table) == ",\"value\":"@ + decimal(v));
    assert(kind_name(p) == t);
    assert("{\"path\":"@ + json_text(path) + ",\"type\":"@ + json_text(t) + (",\"value\":"@ + decimal(v)) + Seq::<char>::empty()
        + "}"@ =~= "{\"path\":"@ + json_text(path) + ",\"type\":"@ + json_text(t) + ",\"value\":"@ + decimal(v) + "}"@);
}

/// Law: the JSON object of a string or UOL property has a `value` member
/// holding its text as a JSON string, and that of a null property a `null`
/// value.
pub proof fn lemma_json_text_and_null_value(p: PropV, path: Seq<char>, max_depth: int, depth: int, table: Seq<(FloatBits, Seq<char>)>)
    requires
        p is String || p is Uol || p is Null,
    ensures
        json_prop(p, path, max_depth, depth, table) == "{\"path\":"@ + json_text(path) + ",\"type\":"@ + json_text(
            kind_name(p),
        ) + match p {
            PropV::String(s) => ",\"value\":"@ + json_text(s),
            PropV::Uol(s) => ",\"value\":"@ + json_text(s),
            _ => ",\"value\":null"@,
        } + "}"@,
{
    let val = match p {
        PropV::String(s) => ",\"value\":"@ + json_text(s),
        PropV::Uol(s) => ",\"value\":"@ + json_text(s),
        _ => ",\"value\":null"@,
    };
    assert(json_value(p, table) == val);
    assert("{\"path\":"@ + json_text(path) + ",\"type\":"@ + json_text(kind_name(p)) + val + Seq::<char>::empty() + "}"@
        =~= "{\"path\":"@ + json_text(path) + ",\"type\":"@ + json_text(kind_name(p)) + val + "}"@);
}

/// Law: the tree line of an integer property ends with ` = ` and its number
/// in decimal.
pub proof fn lemma_tree_integer_value(
    p: PropV,
    label: Seq<char>,
    line_prefix: Seq<char>,
    child_indent: Seq<char>,
    max_depth: int,
    depth: int,
    table: Seq<(FloatBits, Seq<char>)>,
)
    requires
        p is Short || p is Int || p is Long,
    ensures
        tree_prop(p, label, line_prefix, child_indent, max_depth, depth, table) == line_prefix + label + " ["@ + kind_name(p)
            + "] = "@ + decimal(
            match p {
                PropV::Short(v) => v as int,
                PropV::Int(v) => v as int,
                PropV::Long(v) => v as int,
                _ => 0,
            },
        ),
{
    let v = match p {
        PropV::Short(v) => v as int,
        PropV::Int(v) => v as int,
        PropV::Long(v) => v as int,
        _ => 0,
    };
    reveal_strlit("]");
    reveal_strlit(" = ");
    reveal_strlit("] = ");
    assert(tree_value(p, table) == " = "@ + decimal(v));
    assert(line_prefix + label + " ["@ + kind_name(p) + "]"@ + (" = "@ + decimal(v)) + Seq::<char>::empty() =~= line_prefix
        + label + " ["@ + kind_name(p) + "] = "@ + decimal(v));
}

/// Law: a float's rendering is the text the table gives first for its bit
/// pattern: the first entry with that pattern wins, and a pattern the table
/// lacks is rendered `0`.
pub proof fn lemma_rendered_first_match(table: Seq<(FloatBits, Seq<char>)>, f: FloatBits, i: int)
    requires
        0 <= i < table.len(),
        table[i].0 == f,
        forall|k: int| 0 <= k < i ==> table[k].0 != f,
    ensures
        rendered(table, f) == table[i].1,
    decreases i,
{
    if i > 0 {
        let rest = table.subrange(1, table.len() as int);
        assert forall|k: int| 0 <= k < i - 1 implies rest[k].0 != f by {
            assert(rest[k] == table[k + 1]);
        }
        lemma_rendered_first_match(rest, f, i - 1);
    }
}

/// Law: the JSON object of a float or double has a `value` member holding
/// its rendering from the table when it is finite, and `null` when it is
/// not.
pub proof fn lemma_json_float_value(p: PropV, path: Seq<char>, max_depth: int, depth: int, table: Seq<(FloatBits, Seq<char>)>)
    requires
        p is Float || p is Double,
    ensures
        json_prop(p, path, max_depth, depth, table) == "{\"path\":"@ + json_text(path) + ",\"type\":"@ + json_text(
            kind_name(p),
        ) + ",\"value\":"@ + (match p {
            PropV::Float(b) => if f32_finite(b) {
                rendered(table, FloatBits::F32(b))
            } else {
                "null"@
            },
            PropV::Double(b) => if f64_finite(b) {
                rendered(table, FloatBits::F64(b))
            } else {
                "null"@
            },
            _ => Seq::empty(),
        }) + "}"@,
{
    let v = match p {
        PropV::Float(b) => if f32_finite(b) {
            rendered(table, FloatBits::F32(b))
        } else {
            "null"@
        },
        PropV::Double(b) => if f64_finite(b) {
            rendered(table, FloatBits::F64(b))
        } else {
            "null"@
        },
        _ => Seq::empty(),
    };
    assert(json_value(p, table) == ",\"value\":"@ + v);
    assert("{\"path\":"@ + json_text(path) + ",\"type\":"@ + json_text(kind_name(p)) + (",\"value\":"@ + v) + Seq::<char>::empty()
        + "}"@ =~= "{\"path\":"@ + json_text(path) + ",\"type\":"@ + json_text(kind_name(p)) + ",\"value\":"@ + v + "}"@);
}

/// Law: a directory with children below the depth limit (`max_depth >= 0`
/// and `depth >= max_depth`) shows only how many children it has.
pub proof fn lemma_json_children_count(ch: PropList, path: Seq<char>, max_depth: int, depth: int, table: Seq<(FloatBits, Seq<char>)>)
    requires
        ch.len() > 0,
        max_depth >= 0,
        depth >= max_depth,
    ensures
        json_prop(PropV::SubProperty(ch), path, max_depth, depth, table) == "{\"path\":"@ + json_text(path)
            + ",\"type\":"@ + json_text("SubProperty"@) + ",\"children_count\":"@ + decimal(ch.len() as int) + "}"@,
{
    let p = PropV::SubProperty(ch);
    assert(json_value(p, table) == Seq::<char>::empty());
    assert("{\"path\":"@ + json_text(path) + ",\"type\":"@ + json_text("SubProperty"@) + Seq::<char>::empty() + (
    ",\"children_count\":"@ + decimal(ch.len() as int)) + "}"@ =~= "{\"path\":"@ + json_text(path) + ",\"type\":"@
        + json_text("SubProperty"@) + ",\"children_count\":"@ + decimal(ch.len() as int) + "}"@);
}

/// Law: a directory with children within the depth limit lists them as a
/// `children` object: each child by name, its object built one level
/// deeper, at the path of the parent joined with the child's name.
pub proof fn lemma_json_children_listed(ch: PropList, path: Seq<char>, max_depth: int, depth: int, table: Seq<(FloatBits, Seq<char>)>)
    requires
        ch.len() > 0,
        max_depth < 0 || depth < max_depth,
    ensures
        json_prop(PropV::SubProperty(ch), path, max_depth, depth, table) == "{\"path\":"@ + json_text(path)
            + ",\"type\":"@ + json_text("SubProperty"@) + ",\"children\":{"@ + json_entries(ch, 0, path, max_depth, depth + 1, table)
            + "}"@ + "}"@,
        json_entries(ch, 0, path, max_depth, depth + 1, table) == json_text(ch[0].0) + ":"@ + json_prop(
            ch[0].1,
            child_path(path, ch[0].0),
            max_depth,
            depth + 1,
            table,
        ) + json_entries(ch, 1, path, max_depth, depth + 1, table),
{
    let p = PropV::SubProperty(ch);
    assert(json_value(p, table) == Seq::<char>::empty());
    let e = json_entries(ch, 0, path, max_depth, depth + 1, table);
    assert("{\"path\":"@ + json_text(path) + ",\"type\":"@ + json_text("SubProperty"@) + Seq::<char>::empty() + (
    ",\"children\":{"@ + e + "}"@) + "}"@ =~= "{\"path\":"@ + json_text(path) + ",\"type\":"@ + json_text("SubProperty"@)
        + ",\"children\":{"@ + e + "}"@ + "}"@);
    assert(Seq::<char>::empty() + json_text(ch[0].0) =~= json_text(ch[0].0));
}

} // verus!
