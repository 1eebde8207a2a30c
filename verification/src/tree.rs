//! Reading a property tree: type names, children, scalar values, and
//! looking a property up by a slash-separated path.
use vstd::prelude::*;
use crate::property::{WzProperty, PropV, PropList, props_model, lemma_props_model};
use crate::text::{str_chars, chars_eq, string_from_chars};

verus! {

/// The name of a property's type.
pub open spec fn kind_name(p: PropV) -> Seq<char> {
    match p {
        PropV::Null => "Null"@,
        PropV::Short(_) => "Short"@,
        PropV::Int(_) => "Int"@,
        PropV::Long(_) => "Long"@,
        PropV::Float(_) => "Float"@,
        PropV::Double(_) => "Double"@,
        PropV::String(_) => "String"@,
        PropV::SubProperty(_) => "SubProperty"@,
        PropV::Canvas { .. } => "Canvas"@,
        PropV::Vector { .. } => "Vector"@,
        PropV::Convex(_) => "Convex"@,
        PropV::Sound { .. } => "Sound"@,
        PropV::Uol(_) => "UOL"@,
        PropV::Lua(_) => "Lua"@,
        PropV::RawData { .. } => "RawData"@,
        PropV::Video { .. } => "Video"@,
    }
}

/// The named children of a property: those of a container, canvas, convex
/// shape, raw data or video; `None` for any other property.
pub open spec fn children_of(p: PropV) -> Option<PropList> {
    match p {
        PropV::SubProperty(ch) => Some(ch),
        PropV::Canvas { properties, .. } => Some(properties),
        PropV::Video { properties, .. } => Some(properties),
        PropV::Convex(points) => Some(points),
        PropV::RawData { properties, .. } => Some(properties),
        _ => None,
    }
}

/// The integer value of a short, int or long.
pub open spec fn int_of(p: PropV) -> Option<int> {
    match p {
        PropV::Short(v) => Some(v as int),
        PropV::Int(v) => Some(v as int),
        PropV::Long(v) => Some(v as int),
        _ => None,
    }
}

/// The name of a property's type (see [`kind_name`]).
pub fn prop_type_name(prop: &WzProperty) -> (r: &'static str)
    ensures
        r@ == kind_name(prop.model()),
{
    match prop {
        WzProperty::Null => "Null",
        WzProperty::Short(_) => "Short",
        WzProperty::Int(_) => "Int",
        WzProperty::Long(_) => "Long",
        WzProperty::Float(_) => "Float",
        WzProperty::Double(_) => "Double",
        WzProperty::String(_) => "String",
        WzProperty::SubProperty { .. } => "SubProperty",
        WzProperty::Canvas { .. } => "Canvas",
        WzProperty::Vector { .. } => "Vector",
        WzProperty::Convex { .. } => "Convex",
        WzProperty::Sound { .. } => "Sound",
        WzProperty::Uol(_) => "UOL",
        WzProperty::Lua(_) => "Lua",
        WzProperty::RawData { .. } => "RawData",
        WzProperty::Video { .. } => "Video",
    }
}

impl WzProperty {
    /// The named children (see [`children_of`]).
    pub fn children(&self) -> (r: Option<&Vec<(String, WzProperty)>>)
        ensures
            match children_of(self.model()) {
                Some(l) => r matches Some(v) && props_model(v@) == l,
                None => r is None,
            },
    {
        match self {
            WzProperty::SubProperty { properties } => Some(properties),
            WzProperty::Canvas { properties, .. } => Some(properties),
            WzProperty::Video { properties, .. } => Some(properties),
            WzProperty::Convex { points } => Some(points),
            WzProperty::RawData { properties, .. } => Some(properties),
            _ => None,
        }
    }

    /// The value of a short, int or long, widened to `i64`.
    pub fn as_int(&self) -> (r: Option<i64>)
        ensures
            match int_of(self.model()) {
                Some(v) => r == Some(v as i64),
                None => r is None,
            },
    {
        match self {
            WzProperty::Short(v) => Some(*v as i64),
            WzProperty::Int(v) => Some(*v as i64),
            WzProperty::Long(v) => Some(*v),
            _ => None,
        }
    }

    /// The text of a string or UOL property.
    pub fn as_str(&self) -> (r: Option<&str>)
        ensures
            match self.model() {
                PropV::String(s) => r matches Some(t) && t@ == s,
                PropV::Uol(s) => r matches Some(t) && t@ == s,
                _ => r is None,
            },
    {
        match self {
            WzProperty::String(s) => Some(s.as_str()),
            WzProperty::Uol(s) => Some(s.as_str()),
            _ => None,
        }
    }
}

/// The property at `path` among `props`: the first entry named `path[0]`,
/// then (for a longer path) the same among its children (see
/// [`children_of`]).
pub open spec fn lookup_children(props: PropList, path: Seq<Seq<char>>) -> Option<PropV>
    decreases path.len(), props.len(),
{
    if path.len() == 0 || props.len() == 0 {
        None
    } else if props[0].0 == path[0] {
        if path.len() == 1 {
            Some(props[0].1)
        } else {
            match children_of(props[0].1) {
                Some(ch) => lookup_children(ch, path.subrange(1, path.len() as int)),
                None => None,
            }
        }
    } else {
        lookup_children(props.subrange(1, props.len() as int), path)
    }
}

pub open spec fn str_path_view(path: Seq<&str>) -> Seq<Seq<char>> {
    Seq::new(path.len(), |i: int| path[i]@)
}

proof fn lemma_lookup_skip(props: PropList, path: Seq<Seq<char>>, i: int)
    requires
        0 <= i <= props.len(),
        path.len() > 0,
        forall|k: int| 0 <= k < i ==> props[k].0 != path[0],
    ensures
        lookup_children(props, path) == lookup_children(props.subrange(i, props.len() as int), path),
    decreases i,
{
    if i > 0 {
        let rest = props.subrange(1, props.len() as int);
        assert forall|k: int| 0 <= k < i - 1 implies rest[k].0 != path[0] by {
            assert(rest[k] == props[k + 1]);
        }
        lemma_lookup_skip(rest, path, i - 1);
        assert(rest.subrange(i - 1, rest.len() as int) =~= props.subrange(i, props.len() as int));
    } else {
        assert(props.subrange(0, props.len() as int) =~= props);
    }
}

fn lookup_from<'a>(props: &'a Vec<(String, WzProperty)>, path: &[&str], k: usize) -> (r: Option<&'a WzProperty>)
    requires
        k < path.len(),
    ensures
        match lookup_children(props_model(props@), str_path_view(path@).subrange(k as int, path@.len() as int)) {
            Some(p) => r matches Some(q) && q.model() == p,
            None => r is None,
        },
    decreases path.len() - k,
{
    let ghost l = props_model(props@);
    let ghost rest = str_path_view(path@).subrange(k as int, path@.len() as int);
    proof {
        lemma_props_model(props@);
    }
    let want = str_chars(path[k]);
    let mut i: usize = 0;
    while i < props.len()
        invariant
            0 <= i <= props.len(),
            k < path.len(),
            l == props_model(props@),
            l.len() == props@.len(),
            forall|j: int| 0 <= j < props@.len() ==> #[trigger] l[j] == (props@[j].0@, props@[j].1.model()),
            rest == str_path_view(path@).subrange(k as int, path@.len() as int),
            want@ == rest[0],
            forall|j: int| 0 <= j < i ==> l[j].0 != rest[0],
        decreases props.len() - i,
    {
        if chars_eq(str_chars(props[i].0.as_str()).as_slice(), want.as_slice()) {
            proof {
                lemma_lookup_skip(l, rest, i as int);
                let tail = l.subrange(i as int, l.len() as int);
                assert(tail[0] == l[i as int]);
            }
            if k + 1 == path.len() {
                return Some(&props[i].1);
            }
            assert(rest.subrange(1, rest.len() as int) =~= str_path_view(path@).subrange(k + 1, path@.len() as int));
            return match props[i].1.children() {
                Some(ch) => lookup_from(ch, path, k + 1),
                None => None,
            };
        }
        i = i + 1;
    }
    proof {
        lemma_lookup_skip(l, rest, i as int);
    }
    None
}

/// The property at `path` among `props` (see [`lookup_children`]); `None`
/// for an empty path or one that is absent.
pub fn get_prop<'a>(props: &'a Vec<(String, WzProperty)>, path: &[&str]) -> (r: Option<&'a WzProperty>)
    ensures
        match lookup_children(props_model(props@), str_path_view(path@)) {
            Some(p) => r matches Some(q) && q.model() == p,
            None => r is None,
        },
{
    if path.len() == 0 {
        return None;
    }
    assert(str_path_view(path@).subrange(0, path@.len() as int) =~= str_path_view(path@));
    lookup_from(props, path, 0)
}

/// The non-empty segments of a `/`-separated path, in order.
pub open spec fn path_segments(s: Seq<char>) -> Seq<Seq<char>>
    decreases s.len(),
{
    segments_from(s, 0, Seq::empty())
}

/// The segments of `s` from position `i` on, with `cur` the characters of
/// the segment in progress.
pub open spec fn segments_from(s: Seq<char>, i: int, cur: Seq<char>) -> Seq<Seq<char>>
    decreases s.len() - i,
{
    if i >= s.len() {
        if cur.len() > 0 {
            seq![cur]
        } else {
            Seq::empty()
        }
    } else if s[i] == '/' {
        if cur.len() > 0 {
            seq![cur] + segments_from(s, i + 1, Seq::empty())
        } else {
            segments_from(s, i + 1, Seq::empty())
        }
    } else {
        segments_from(s, i + 1, cur.push(s[i]))
    }
}

/// Splits a path at `/`, dropping empty segments.
pub fn path_parts(path: &str) -> (r: Vec<String>)
    ensures
        Seq::new(r@.len(), |i: int| r@[i]@) == path_segments(path@),
{
    let cs = str_chars(path);
    let mut out: Vec<String> = Vec::new();
    let mut cur: Vec<char> = Vec::new();
    let mut i: usize = 0;
    while i < cs.len()
        invariant
            0 <= i <= cs.len(),
            cs@ == path@,
            path_segments(path@) == Seq::new(out@.len(), |j: int| out@[j]@) + segments_from(cs@, i as int, cur@),
        decreases cs.len() - i,
    {
        let ghost ov = Seq::new(out@.len(), |j: int| out@[j]@);
        if cs[i] == '/' {
            if cur.len() > 0 {
                let seg = string_from_chars(cur.as_slice());
                out.push(seg);
                assert(Seq::new(out@.len(), |j: int| out@[j]@) =~= ov.push(cur@));
                assert(ov + (seq![cur@] + segments_from(cs@, i + 1, Seq::empty())) =~= ov.push(cur@) + segments_from(cs@, i + 1, Seq::empty()));
                cur = Vec::new();
            } else {
                assert(cur@ =~= Seq::<char>::empty());
            }
        } else {
            cur.push(cs[i]);
        }
        i = i + 1;
    }
    if cur.len() > 0 {
        let ghost ov = Seq::new(out@.len(), |j: int| out@[j]@);
        out.push(string_from_chars(cur.as_slice()));
        assert(Seq::new(out@.len(), |j: int| out@[j]@) =~= ov + seq![cur@]);
    } else {
        assert(Seq::new(out@.len(), |j: int| out@[j]@) + Seq::<Seq<char>>::empty() =~= Seq::new(out@.len(), |j: int| out@[j]@));
    }
    out
}

} // verus!
