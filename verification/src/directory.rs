//! The directory tree of a WZ file: finding an image by its path, listing
//! every image's path, and parsing an image where its entry says it starts.
use vstd::prelude::*;
use crate::error::{ErrV, WzResult};
use crate::property::{WzProperty, PropList, props_model};
use crate::reader::WzBinaryReader;
use crate::parse::parse_image;
use crate::grammar::sp_image;
use crate::text::{str_chars, chars_eq, push_all, string_from_chars};

verus! {

/// An image of a directory: its name, where its data starts in the file,
/// its size in bytes, and its own IV where it differs from the file's.
pub struct WzImageEntry {
    pub name: String,
    pub offset: u64,
    pub size: i32,
    pub iv: Option<[u8; 4]>,
}

/// A directory of a WZ file: its name, subdirectories and images.
pub struct WzDirectoryEntry {
    pub name: String,
    pub subdirectories: Vec<WzDirectoryEntry>,
    pub images: Vec<WzImageEntry>,
}

/// Model of [`WzImageEntry`].
pub struct ImageV {
    pub name: Seq<char>,
    pub offset: u64,
    pub size: i32,
    pub iv: Option<[u8; 4]>,
}

/// Model of [`WzDirectoryEntry`].
pub struct DirV {
    pub name: Seq<char>,
    pub subs: Seq<DirV>,
    pub images: Seq<ImageV>,
}

impl WzImageEntry {
    pub open spec fn model(&self) -> ImageV {
        ImageV { name: self.name@, offset: self.offset, size: self.size, iv: self.iv }
    }
}

pub open spec fn images_model(s: Seq<WzImageEntry>) -> Seq<ImageV> {
    Seq::new(s.len(), |i: int| s[i].model())
}

impl WzDirectoryEntry {
    pub open spec fn model(&self) -> DirV
        decreases self,
    {
        DirV { name: self.name@, subs: dirs_model(self.subdirectories@), images: images_model(self.images@) }
    }
}

/// Model of a list of directories.
pub open spec fn dirs_model(s: Seq<WzDirectoryEntry>) -> Seq<DirV>
    decreases s,
{
    if s.len() == 0 {
        Seq::empty()
    } else {
        dirs_model(s.subrange(0, s.len() - 1)).push(s[s.len() - 1].model())
    }
}

pub proof fn lemma_dirs_model(s: Seq<WzDirectoryEntry>)
    ensures
        dirs_model(s).len() == s.len(),
        forall|i: int| 0 <= i < s.len() ==> #[trigger] dirs_model(s)[i] == s[i].model(),
    decreases s.len(),
{
    if s.len() > 0 {
        lemma_dirs_model(s.subrange(0, s.len() - 1));
    }
}

// ── Finding an image ────────────────────────────────────────────────

/// The position of the first `/` in `s` from `i` on.
pub open spec fn slash_at(s: Seq<char>, i: int) -> Option<int>
    decreases s.len() - i,
{
    if i < 0 || i >= s.len() {
        None
    } else if s[i] == '/' {
        Some(i)
    } else {
        slash_at(s, i + 1)
    }
}

proof fn lemma_slash_at(s: Seq<char>, i: int)
    requires
        0 <= i,
    ensures
        slash_at(s, i) matches Some(k) ==> i <= k < s.len() && s[k] == '/',
        slash_at(s, i) is None ==> forall|j: int| i <= j < s.len() ==> s[j] != '/',
    decreases s.len() - i,
{
    if i < s.len() && s[i] != '/' {
        lemma_slash_at(s, i + 1);
    }
}

/// The index of the first subdirectory named `name`, from `i` on.
pub open spec fn dir_named(subs: Seq<DirV>, name: Seq<char>, i: int) -> Option<int>
    decreases subs.len() - i,
{
    if i < 0 || i >= subs.len() {
        None
    } else if subs[i].name == name {
        Some(i)
    } else {
        dir_named(subs, name, i + 1)
    }
}

/// The index of the first image named `name`, from `i` on.
pub open spec fn image_named(imgs: Seq<ImageV>, name: Seq<char>, i: int) -> Option<int>
    decreases imgs.len() - i,
{
    if i < 0 || i >= imgs.len() {
        None
    } else if imgs[i].name == name {
        Some(i)
    } else {
        image_named(imgs, name, i + 1)
    }
}

/// The image at a `/`-separated path: the part before the first `/` names
/// a subdirectory (the first so named) to look the rest up in; a path
/// without `/` names an image of the directory (the first so named).
pub open spec fn find_image(d: DirV, path: Seq<char>) -> Option<ImageV>
    decreases path.len(),
{
    match slash_at(path, 0) {
        Some(k) => match dir_named(d.subs, path.subrange(0, k), 0) {
            Some(j) => if 0 <= j < d.subs.len() && 0 <= k < path.len() {
                find_image(d.subs[j], path.subrange(k + 1, path.len() as int))
            } else {
                None
            },
            None => None,
        },
        None => match image_named(d.images, path, 0) {
            Some(j) => Some(d.images[j]),
            None => None,
        },
    }
}

proof fn lemma_dir_named(subs: Seq<DirV>, name: Seq<char>, i: int)
    requires
        0 <= i,
    ensures
        dir_named(subs, name, i) matches Some(j) ==> i <= j < subs.len() && subs[j].name == name,
    decreases subs.len() - i,
{
    if i < subs.len() && subs[i].name != name {
        lemma_dir_named(subs, name, i + 1);
    }
}

/// The image entry at `path` under `dir` (see [`find_image`]).
pub fn find_image_entry<'a>(dir: &'a WzDirectoryEntry, path: &str) -> (r: Option<&'a WzImageEntry>)
    ensures
        match find_image(dir.model(), path@) {
            Some(e) => r matches Some(x) && x.model() == e,
            None => r is None,
        },
    decreases path@.len(),
{
    let cs = str_chars(path);
    let mut k: usize = 0;
    while k < cs.len() && cs[k] != '/'
        invariant
            0 <= k <= cs.len(),
            cs@ == path@,
            slash_at(path@, 0) == slash_at(path@, k as int),
        decreases cs.len() - k,
    {
        k = k + 1;
    }
    let ghost d = dir.model();
    proof {
        lemma_dirs_model(dir.subdirectories@);
    }
    if k < cs.len() {
        assert(slash_at(path@, 0) == Some(k as int));
        let head = &cs.as_slice()[0..k];
        assert(head@ =~= path@.subrange(0, k as int));
        let rest_chars = &cs.as_slice()[k + 1..cs.len()];
        let rest = string_from_chars(rest_chars);
        assert(rest@ =~= path@.subrange(k + 1, path@.len() as int));
        assert(rest@.len() < path@.len());
        let mut j: usize = 0;
        while j < dir.subdirectories.len()
            invariant
                0 <= j <= dir.subdirectories.len(),
                slash_at(path@, 0) == Some(k as int),
                0 <= k < path@.len(),
                rest@ == path@.subrange(k + 1, path@.len() as int),
                rest@.len() < path@.len(),
                head@ == path@.subrange(0, k as int),
                d == dir.model(),
                d.subs.len() == dir.subdirectories@.len(),
                forall|i: int| 0 <= i < dir.subdirectories@.len() ==> #[trigger] d.subs[i] == dir.subdirectories@[i].model(),
                dir_named(d.subs, head@, 0) == dir_named(d.subs, head@, j as int),
            decreases dir.subdirectories.len() - j,
        {
            let sub = &dir.subdirectories[j];
            if chars_eq(str_chars(sub.name.as_str()).as_slice(), head) {
                assert(d.subs[j as int].name == head@);
                assert(dir_named(d.subs, head@, j as int) == Some(j as int));
                assert(find_image(d, path@) == find_image(d.subs[j as int], rest@));
                return find_image_entry(sub, rest.as_str());
            }
            j = j + 1;
        }
        None
    } else {
        assert(slash_at(path@, 0) is None);
        let mut j: usize = 0;
        while j < dir.images.len()
            invariant
                0 <= j <= dir.images.len(),
                d == dir.model(),
                cs@ == path@,
                slash_at(path@, 0) is None,
                image_named(d.images, path@, 0) == image_named(d.images, path@, j as int),
            decreases dir.images.len() - j,
        {
            let img = &dir.images[j];
            assert(d.images[j as int] == img.model());
            if chars_eq(str_chars(img.name.as_str()).as_slice(), cs.as_slice()) {
                assert(image_named(d.images, path@, j as int) == Some(j as int));
                return Some(img);
            }
            j = j + 1;
        }
        None
    }
}

// ── Listing the images ──────────────────────────────────────────────

/// `name` under `prefix`: the name alone under an empty prefix, else
/// `prefix/name`.
pub open spec fn joined(prefix: Seq<char>, name: Seq<char>) -> Seq<char> {
    if prefix.len() == 0 {
        name
    } else {
        prefix + "/"@ + name
    }
}

/// The paths of every image under a directory, depth first: its own images
/// in order, then those of each subdirectory in order.
pub open spec fn image_paths(d: DirV, prefix: Seq<char>) -> Seq<Seq<char>>
    decreases d, 0int,
{
    Seq::new(d.images.len(), |i: int| joined(prefix, d.images[i].name)) + sub_paths(d.subs, 0, prefix)
}

/// The image paths of the subdirectories from index `i` on.
pub open spec fn sub_paths(subs: Seq<DirV>, i: int, prefix: Seq<char>) -> Seq<Seq<char>>
    decreases subs, subs.len() - i,
{
    if i < 0 || i >= subs.len() {
        Seq::empty()
    } else {
        proof {
            assert(decreases_to!(subs => subs[i]));
        }
        image_paths(subs[i], joined(prefix, subs[i].name)) + sub_paths(subs, i + 1, prefix)
    }
}

/// The texts of a list of strings.
pub open spec fn texts(v: Seq<String>) -> Seq<Seq<char>> {
    Seq::new(v.len(), |i: int| v[i]@)
}

fn join_path(prefix: &str, name: &str) -> (r: String)
    ensures
        r@ == joined(prefix@, name@),
{
    let mut cs = str_chars(prefix);
    if cs.len() == 0 {
        return string_from_chars(str_chars(name).as_slice());
    }
    push_all(&mut cs, str_chars("/").as_slice());
    push_all(&mut cs, str_chars(name).as_slice());
    string_from_chars(cs.as_slice())
}

/// Appends to `out` the path of every image under `dir` (see
/// [`image_paths`]).
pub fn collect_image_paths(dir: &WzDirectoryEntry, prefix: &str, out: &mut Vec<String>)
    ensures
        texts(final(out)@) == texts(old(out)@) + image_paths(dir.model(), prefix@),
    decreases dir, 0int,
{
    let ghost d = dir.model();
    let ghost start = texts(out@);
    let mut i: usize = 0;
    while i < dir.images.len()
        invariant
            0 <= i <= dir.images.len(),
            d == dir.model(),
            texts(out@) == start + Seq::new(i as nat, |k: int| joined(prefix@, d.images[k].name)),
        decreases dir.images.len() - i,
    {
        let ghost before = texts(out@);
        out.push(join_path(prefix, dir.images[i].name.as_str()));
        assert(texts(out@) =~= before.push(joined(prefix@, d.images[i as int].name)));
        assert(Seq::new((i + 1) as nat, |k: int| joined(prefix@, d.images[k].name)) =~= Seq::new(
            i as nat,
            |k: int| joined(prefix@, d.images[k].name),
        ).push(joined(prefix@, d.images[i as int].name)));
        i = i + 1;
    }
    let ghost own = Seq::new(d.images.len(), |k: int| joined(prefix@, d.images[k].name));
    assert(texts(out@) == start + own);
    proof {
        lemma_dirs_model(dir.subdirectories@);
    }
    let mut j: usize = 0;
    let ghost mut acc: Seq<Seq<char>> = Seq::empty();
    assert(sub_paths(d.subs, 0, prefix@) =~= acc + sub_paths(d.subs, 0, prefix@));
    while j < dir.subdirectories.len()
        invariant
            0 <= j <= dir.subdirectories.len(),
            d == dir.model(),
            d.subs.len() == dir.subdirectories@.len(),
            forall|k: int| 0 <= k < dir.subdirectories@.len() ==> #[trigger] d.subs[k] == dir.subdirectories@[k].model(),
            texts(out@) == start + own + acc,
            sub_paths(d.subs, 0, prefix@) == acc + sub_paths(d.subs, j as int, prefix@),
        decreases dir.subdirectories.len() - j,
    {
        let sub = &dir.subdirectories[j];
        proof {
            assert(decreases_to!(dir => dir.subdirectories));
            assert(decreases_to!(dir.subdirectories => dir.subdirectories@));
            assert(decreases_to!(dir.subdirectories@ => dir.subdirectories@[j as int]));
        }
        let sub_prefix = join_path(prefix, sub.name.as_str());
        let ghost before = texts(out@);
        collect_image_paths(sub, sub_prefix.as_str(), out);
        proof {
            let part = image_paths(d.subs[j as int], joined(prefix@, d.subs[j as int].name));
            assert(texts(out@) == before + part);
            assert(acc + (part + sub_paths(d.subs, j + 1, prefix@)) =~= (acc + part) + sub_paths(d.subs, j + 1, prefix@));
            assert(start + own + acc + part =~= start + own + (acc + part));
            acc = acc + part;
        }
        j = j + 1;
    }
    assert(acc =~= sub_paths(d.subs, 0, prefix@));
    assert(start + own + acc =~= start + image_paths(d, prefix@));
}

// ── Listed images are found ─────────────────────────────────────────

/// A name without `/`.
pub open spec fn plain_name(s: Seq<char>) -> bool {
    forall|i: int| 0 <= i < s.len() ==> s[i] != '/'
}

/// Whether every path of a directory tree leads to one place: image names
/// are plain, subdirectory names are plain and non-empty, and the
/// subdirectories of each directory have distinct names.
pub open spec fn dir_ok(d: DirV) -> bool
    decreases d, 1int,
{
    &&& forall|i: int, j: int| 0 <= i < j < d.subs.len() ==> d.subs[i].name != d.subs[j].name
    &&& forall|i: int| 0 <= i < d.images.len() ==> plain_name(#[trigger] d.images[i].name)
    &&& subs_ok(d.subs, 0)
}

/// [`dir_ok`] of the subdirectories from index `i` on, with their names
/// plain and non-empty.
pub open spec fn subs_ok(subs: Seq<DirV>, i: int) -> bool
    decreases subs, subs.len() - i,
{
    if i < 0 || i >= subs.len() {
        true
    } else {
        proof {
            assert(decreases_to!(subs => subs[i]));
        }
        subs[i].name.len() > 0 && plain_name(subs[i].name) && dir_ok(subs[i]) && subs_ok(subs, i + 1)
    }
}

proof fn lemma_subs_ok(subs: Seq<DirV>, i: int, j: int)
    requires
        0 <= i <= j < subs.len(),
        subs_ok(subs, i),
    ensures
        subs[j].name.len() > 0,
        plain_name(subs[j].name),
        dir_ok(subs[j]),
    decreases j - i,
{
    if i < j {
        lemma_subs_ok(subs, i + 1, j);
    }
}

/// Each path of `qs` under `prefix`.
pub open spec fn prefixed(prefix: Seq<char>, qs: Seq<Seq<char>>) -> Seq<Seq<char>> {
    Seq::new(qs.len(), |k: int| joined(prefix, qs[k]))
}

proof fn lemma_joined_assoc(pre: Seq<char>, s: Seq<char>, q: Seq<char>)
    requires
        s.len() > 0,
    ensures
        joined(pre, joined(s, q)) == joined(joined(pre, s), q),
{
    if pre.len() > 0 {
        assert(pre + "/"@ + (s + "/"@ + q) =~= (pre + "/"@ + s) + "/"@ + q);
    }
}

proof fn lemma_image_paths_prefixed(d: DirV, pre: Seq<char>)
    requires
        dir_ok(d),
    ensures
        image_paths(d, pre) == prefixed(pre, image_paths(d, Seq::empty())),
    decreases d, 0int,
{
    lemma_sub_paths_prefixed(d.subs, 0, pre);
    let own_pre = Seq::new(d.images.len(), |i: int| joined(pre, d.images[i].name));
    let own = Seq::new(d.images.len(), |i: int| joined(Seq::<char>::empty(), d.images[i].name));
    let rest = sub_paths(d.subs, 0, Seq::empty());
    assert(own_pre =~= prefixed(pre, own));
    assert(prefixed(pre, own + rest) =~= prefixed(pre, own) + prefixed(pre, rest));
}

proof fn lemma_sub_paths_prefixed(subs: Seq<DirV>, i: int, pre: Seq<char>)
    requires
        0 <= i,
        subs_ok(subs, i),
    ensures
        sub_paths(subs, i, pre) == prefixed(pre, sub_paths(subs, i, Seq::empty())),
    decreases subs, subs.len() - i,
{
    if i < subs.len() {
        assert(decreases_to!(subs => subs[i]));
        let s = subs[i].name;
        lemma_image_paths_prefixed(subs[i], joined(pre, s));
        lemma_image_paths_prefixed(subs[i], joined(Seq::<char>::empty(), s));
        lemma_sub_paths_prefixed(subs, i + 1, pre);
        let base = image_paths(subs[i], Seq::empty());
        assert forall|k: int| 0 <= k < base.len() implies joined(joined(pre, s), base[k]) == joined(
            pre,
            joined(s, base[k]),
        ) by {
            lemma_joined_assoc(pre, s, base[k]);
        }
        assert(joined(Seq::<char>::empty(), s) == s);
        assert(prefixed(joined(pre, s), base) =~= prefixed(pre, prefixed(s, base)));
        let rest = sub_paths(subs, i + 1, Seq::empty());
        assert(prefixed(pre, prefixed(s, base) + rest) =~= prefixed(pre, prefixed(s, base)) + prefixed(pre, rest));
    } else {
        assert(prefixed(pre, Seq::<Seq<char>>::empty()) =~= Seq::<Seq<char>>::empty());
    }
}

proof fn lemma_slash_after(s: Seq<char>, r: Seq<char>, i: int)
    requires
        0 <= i <= s.len(),
        plain_name(s),
    ensures
        slash_at(s + "/"@ + r, i) == Some(s.len() as int),
    decreases s.len() - i,
{
    reveal_strlit("/");
    let x = s + "/"@ + r;
    if i < s.len() {
        assert(x[i] == s[i]);
        lemma_slash_after(s, r, i + 1);
    } else {
        assert(x[i] == '/');
    }
}

proof fn lemma_no_slash(s: Seq<char>, i: int)
    requires
        0 <= i,
        plain_name(s),
    ensures
        slash_at(s, i) is None,
    decreases s.len() - i,
{
    if i < s.len() {
        lemma_no_slash(s, i + 1);
    }
}

proof fn lemma_dir_named_at(subs: Seq<DirV>, name: Seq<char>, i: int, j: int)
    requires
        0 <= j <= i < subs.len(),
        subs[i].name == name,
        forall|k: int| 0 <= k < i ==> subs[k].name != name,
    ensures
        dir_named(subs, name, j) == Some(i),
    decreases i - j,
{
    if j < i {
        lemma_dir_named_at(subs, name, i, j + 1);
    }
}

proof fn lemma_image_named_some(imgs: Seq<ImageV>, name: Seq<char>, i: int, j: int)
    requires
        0 <= j <= i < imgs.len(),
        imgs[i].name == name,
    ensures
        image_named(imgs, name, j) is Some,
    decreases i - j,
{
    if j < i && imgs[j].name != name {
        lemma_image_named_some(imgs, name, i, j + 1);
    }
}

/// In a directory tree whose paths each lead to one place (see
/// [`dir_ok`]), every path the listing gives finds an image.
pub proof fn lemma_listed_images_found(d: DirV)
    requires
        dir_ok(d),
    ensures
        forall|k: int|
            0 <= k < image_paths(d, Seq::empty()).len() ==> #[trigger] find_image(d, image_paths(d, Seq::empty())[k]) is Some,
    decreases d, d.subs.len() + 1,
{
    let own = Seq::new(d.images.len(), |i: int| joined(Seq::<char>::empty(), d.images[i].name));
    let all = image_paths(d, Seq::empty());
    lemma_subs_found(d, 0);
    assert forall|k: int| 0 <= k < all.len() implies #[trigger] find_image(d, all[k]) is Some by {
        if k < own.len() {
            let q = d.images[k].name;
            assert(all[k] == q);
            lemma_no_slash(q, 0);
            lemma_image_named_some(d.images, q, k, 0);
        } else {
            assert(all[k] == sub_paths(d.subs, 0, Seq::empty())[k - own.len()]);
        }
    }
}

/// A path that leads into the subdirectory `i` finds there what it finds
/// from `d`.
proof fn lemma_found_under(d: DirV, i: int, r: Seq<char>)
    requires
        dir_ok(d),
        0 <= i < d.subs.len(),
        find_image(d.subs[i], r) is Some,
    ensures
        find_image(d, d.subs[i].name + "/"@ + r) is Some,
{
    reveal_strlit("/");
    let subs = d.subs;
    let s = subs[i].name;
    lemma_subs_ok(subs, 0, i);
    lemma_slash_after(s, r, 0);
    let path = s + "/"@ + r;
    assert(path.subrange(0, s.len() as int) =~= s);
    assert(path.subrange(s.len() as int + 1, path.len() as int) =~= r);
    assert forall|j: int| 0 <= j < i implies subs[j].name != s by {
        assert(d.subs[j].name != d.subs[i].name);
    }
    lemma_dir_named_at(subs, s, i, 0);
}

/// Every path listed for the subdirectories of `d` from index `i` on finds
/// an image of `d`.
proof fn lemma_subs_found(d: DirV, i: int)
    requires
        0 <= i,
        dir_ok(d),
    ensures
        forall|k: int|
            0 <= k < sub_paths(d.subs, i, Seq::empty()).len() ==> #[trigger] find_image(
                d,
                sub_paths(d.subs, i, Seq::empty())[k],
            ) is Some,
    decreases d, d.subs.len() - i,
{
    let subs = d.subs;
    if i < subs.len() {
        lemma_subs_found(d, i + 1);
        lemma_subs_ok(subs, 0, i);
        let sub = subs[i];
        let s = sub.name;
        assert(decreases_to!(d => d.subs));
        assert(decreases_to!(d.subs => d.subs[i]));
        lemma_listed_images_found(sub);
        lemma_image_paths_prefixed(sub, s);
        assert(joined(Seq::<char>::empty(), s) == s);
        let base = image_paths(sub, Seq::empty());
        let mine = image_paths(sub, s);
        let rest = sub_paths(subs, i + 1, Seq::empty());
        let all = sub_paths(subs, i, Seq::empty());
        assert(all == mine + rest);
        assert forall|k: int| 0 <= k < all.len() implies #[trigger] find_image(d, all[k]) is Some by {
            if k < mine.len() {
                assert(all[k] == mine[k]);
                assert(mine[k] == joined(s, base[k]));
                assert(find_image(sub, base[k]) is Some);
                lemma_found_under(d, i, base[k]);
            } else {
                assert(all[k] == rest[k - mine.len()]);
            }
        }
    }
}

// ── Parsing an image of a file ──────────────────────────────────────

/// Parses the image whose data starts at `offset` of the file `raw`, with
/// the key stream of `iv` (see [`parse_image`]).
pub fn parse_image_at(raw: Vec<u8>, iv: [u8; 4], offset: u64) -> (res: WzResult<Vec<(String, WzProperty)>>)
    requires
        raw@.len() <= 0x4000_0000_0000_0000,
        raw@.len() + 16 <= usize::MAX,
    ensures
        match sp_image(raw@, iv, None, offset as int) {
            Ok((props, _)) => res matches Ok(v) && props_model(v@) == props,
            Err(e) => res matches Err(err) && err@ == e,
        },
{
    let mut reader = WzBinaryReader::new(raw, iv);
    reader.seek(offset);
    parse_image(&mut reader)
}

} // verus!
