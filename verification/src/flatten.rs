//! Layer flattening decisions: the format of a layer file, what each tar
//! entry does to the rootfs, and where whiteouts may delete.
use crate::error::BonkError;
use crate::path::{
    chars_eq, chars_start_with, comps_size, comps_view, components, components_start_with, dot,
    dotdot, is_plain_name, join_comps, join_components, lemma_comps_size_prefix,
    lemma_components_plain, lemma_components_size, lemma_join_comps_adds_names,
    lemma_push_plain_name, path_components, path_starts_with, push_path, push_path_exec,
    Component, PathComp,
};
use crate::text::{chars_of, string_of};
use vstd::prelude::*;
use vstd::slice::slice_subrange;

verus! {

/// Compression of a layer file, told by its first two bytes.
#[derive(Clone, Copy, Debug, PartialEq, Eq, Structural)]
pub enum LayerFormat {
    Gzip,
    Zstd,
    Raw,
}

impl LayerFormat {
    /// The format's name: `gzip`, `zstd` or `raw`.
    pub fn as_str(&self) -> (r: &'static str)
        ensures
            r@ == match self {
                LayerFormat::Gzip => seq!['g', 'z', 'i', 'p'],
                LayerFormat::Zstd => seq!['z', 's', 't', 'd'],
                LayerFormat::Raw => seq!['r', 'a', 'w'],
            },
    {
        proof {
            reveal_strlit("gzip");
            reveal_strlit("zstd");
            reveal_strlit("raw");
        }
        match self {
            LayerFormat::Gzip => "gzip",
            LayerFormat::Zstd => "zstd",
            LayerFormat::Raw => "raw",
        }
    }
}

/// The format of a layer file whose leading bytes are `header`: gzip and
/// zstd by their magic bytes, anything else raw. A file shorter than two
/// bytes is refused.
pub fn determine_file_format(header: &[u8]) -> (r: Result<LayerFormat, BonkError>)
    ensures
        header@.len() < 2 ==> r == Err::<LayerFormat, BonkError>(BonkError::LayerTooShort),
        header@.len() >= 2 ==> r == Ok::<LayerFormat, BonkError>(
            if header@[0] == 0x1F && header@[1] == 0x8B {
                LayerFormat::Gzip
            } else if header@[0] == 0x28 && header@[1] == 0xB5 {
                LayerFormat::Zstd
            } else {
                LayerFormat::Raw
            },
        ),
{
    if header.len() < 2 {
        return Err(BonkError::LayerTooShort);
    }
    if header[0] == 0x1F && header[1] == 0x8B {
        Ok(LayerFormat::Gzip)
    } else if header[0] == 0x28 && header[1] == 0xB5 {
        Ok(LayerFormat::Zstd)
    } else {
        Ok(LayerFormat::Raw)
    }
}

/// `rootfs` joined with a path from a tar entry; `None` if the path has a
/// root or `..` component that would escape the rootfs.
pub open spec fn safe_join_spec(rootfs: Seq<char>, tar_path: Seq<char>) -> Option<Seq<char>> {
    join_comps(rootfs, components(tar_path))
}

/// Safely joins `rootfs` with a path from a tar entry, normalizing away any
/// `.` components. Returns `None` if the path contains a `..` or root
/// component that would escape the rootfs.
pub fn safe_join(rootfs: &str, tar_path: &str) -> (r: Option<String>)
    requires
        rootfs@.len() + tar_path@.len() + 1 <= usize::MAX,
    ensures
        match r {
            Some(s) => safe_join_spec(rootfs@, tar_path@) == Some(s@),
            None => safe_join_spec(rootfs@, tar_path@) is None,
        },
{
    let root = chars_of(rootfs);
    let p = chars_of(tar_path);
    let cs = path_components(p.as_slice());
    proof {
        lemma_components_size(p@);
    }
    match join_components(root.as_slice(), cs.as_slice()) {
        Some(v) => Some(string_of(v.as_slice())),
        None => None,
    }
}

/// Whether `target` lies under `rootfs`, component by component, as
/// `Path::starts_with` decides. The caller resolves symlinks first
/// (canonicalizes both paths), so that this check sees where they really lead.
pub fn verify_inside_rootfs(rootfs: &str, target: &str) -> (r: bool)
    ensures
        r == path_starts_with(target@, rootfs@),
{
    let root = chars_of(rootfs);
    let t = chars_of(target);
    let rc = path_components(root.as_slice());
    let tc = path_components(t.as_slice());
    components_start_with(tc.as_slice(), rc.as_slice())
}

/// The last component of a path if it is a name, else nothing (the empty
/// name): `Path::file_name`, read with `unwrap_or("")`.
pub open spec fn file_name(cs: Seq<PathComp>) -> Seq<char> {
    if cs.len() > 0 && cs.last() is Normal {
        cs.last()->Normal_0
    } else {
        Seq::empty()
    }
}

/// The components of `Path::parent`, with no parent read as the empty path.
pub open spec fn parent_comps(cs: Seq<PathComp>) -> Seq<PathComp> {
    if cs.len() == 0 || cs.last() is Root {
        Seq::empty()
    } else {
        cs.drop_last()
    }
}

/// The prefix that marks a whiteout entry: `.wh.`.
pub open spec fn wh_prefix() -> Seq<char> {
    seq!['.', 'w', 'h', '.']
}

/// The name of an opaque whiteout entry: `.wh..wh..opq`.
pub open spec fn opaque_marker() -> Seq<char> {
    seq!['.', 'w', 'h', '.', '.', 'w', 'h', '.', '.', 'o', 'p', 'q']
}

/// `name` without a leading `.wh.`, if it has one.
pub open spec fn strip_wh(name: Seq<char>) -> Seq<char> {
    if name.len() >= 4 && name.take(4) == wh_prefix() {
        name.skip(4)
    } else {
        name
    }
}

/// Why a whiteout entry is skipped instead of applied.
#[derive(Clone, Copy, Debug, PartialEq, Eq, Structural)]
pub enum WhiteoutSkip {
    /// The name it whites out is empty, `.` or `..`.
    InvalidName,
    /// Its directory has a root or `..` component.
    UnsafePath,
}

/// What a regular whiteout entry (`dir/.wh.name`) removes: `rootfs/dir/name`.
pub open spec fn regular_whiteout_spec(rootfs: Seq<char>, whiteout_path: Seq<char>) -> Result<
    Seq<char>,
    WhiteoutSkip,
> {
    let cs = components(whiteout_path);
    let real_name = strip_wh(file_name(cs));
    if real_name == dotdot() || real_name == dot() || real_name.len() == 0 {
        Err(WhiteoutSkip::InvalidName)
    } else {
        match join_comps(rootfs, parent_comps(cs)) {
            None => Err(WhiteoutSkip::UnsafePath),
            Some(base) => Ok(push_path(base, real_name)),
        }
    }
}

/// The directory whose contents an opaque whiteout entry
/// (`dir/.wh..wh..opq`) clears: `rootfs/dir`.
pub open spec fn opaque_whiteout_spec(rootfs: Seq<char>, whiteout_path: Seq<char>) -> Result<
    Seq<char>,
    WhiteoutSkip,
> {
    match join_comps(rootfs, parent_comps(components(whiteout_path))) {
        None => Err(WhiteoutSkip::UnsafePath),
        Some(dir) => Ok(dir),
    }
}

/// The name of the last component of `cs`, or the empty name.
fn file_name_exec(cs: &Vec<Component>) -> (r: Vec<char>)
    ensures
        r@ == file_name(comps_view(cs@)),
{
    if cs.len() > 0 {
        match &cs[cs.len() - 1] {
            Component::Normal(n) => {
                return slice_to_vec_chars(n.as_slice());
            },
            _ => {},
        }
    }
    Vec::new()
}

fn slice_to_vec_chars(s: &[char]) -> (r: Vec<char>)
    ensures
        r@ == s@,
{
    vstd::slice::slice_to_vec(s)
}

/// The components of the parent, as a prefix of `cs`.
fn parent_exec(cs: &Vec<Component>) -> (r: &[Component])
    ensures
        comps_view(r@) == parent_comps(comps_view(cs@)),
        r@.len() <= cs@.len(),
        r@ == cs@.take(r@.len() as int),
{
    if cs.len() == 0 {
        return slice_subrange(cs.as_slice(), 0, 0);
    }
    match &cs[cs.len() - 1] {
        Component::RootDir => slice_subrange(cs.as_slice(), 0, 0),
        _ => {
            let r = slice_subrange(cs.as_slice(), 0, cs.len() - 1);
            assert(comps_view(r@) =~= comps_view(cs@).drop_last());
            r
        },
    }
}

proof fn lemma_file_name_size(cs: Seq<PathComp>)
    ensures
        file_name(cs).len() + 1 <= comps_size(cs) || file_name(cs).len() == 0,
{
}

/// Handles a regular whiteout (`.wh.<name>`): the path in `rootfs` of the
/// file or directory to remove, or why the entry is skipped. A name that is
/// empty, `.` or `..` after the prefix is refused (so `.wh...` cannot reach
/// the parent of the rootfs), and so is a directory that would escape the
/// rootfs.
pub fn regular_whiteout_target(rootfs: &str, whiteout_path: &str) -> (r: Result<
    String,
    WhiteoutSkip,
>)
    requires
        rootfs@.len() + 2 * whiteout_path@.len() + 3 <= usize::MAX,
    ensures
        match r {
            Ok(t) => regular_whiteout_spec(rootfs@, whiteout_path@) == Ok::<
                Seq<char>,
                WhiteoutSkip,
            >(t@),
            Err(e) => regular_whiteout_spec(rootfs@, whiteout_path@) == Err::<
                Seq<char>,
                WhiteoutSkip,
            >(e),
        },
{
    let root = chars_of(rootfs);
    let p = chars_of(whiteout_path);
    let cs = path_components(p.as_slice());
    let name = file_name_exec(&cs);
    let prefix = vec!['.', 'w', 'h', '.'];
    proof {
        assert(prefix@ =~= wh_prefix());
    }
    let real_name: &[char] = if chars_start_with(name.as_slice(), prefix.as_slice()) {
        slice_subrange(name.as_slice(), 4, name.len())
    } else {
        name.as_slice()
    };
    proof {
        assert(real_name@ =~= strip_wh(name@));
    }
    let dd = vec!['.', '.'];
    let d = vec!['.'];
    proof {
        assert(dd@ =~= dotdot());
        assert(d@ =~= dot());
    }
    if chars_eq(real_name, dd.as_slice()) || chars_eq(real_name, d.as_slice()) || real_name.len() == 0 {
        return Err(WhiteoutSkip::InvalidName);
    }
    let parent = parent_exec(&cs);
    proof {
        lemma_components_size(p@);
        lemma_comps_size_prefix(comps_view(cs@), parent@.len() as int);
        assert(comps_view(cs@).take(parent@.len() as int) =~= comps_view(parent@));
        lemma_file_name_size(comps_view(cs@));
    }
    match join_components(root.as_slice(), parent) {
        None => Err(WhiteoutSkip::UnsafePath),
        Some(mut base) => {
            push_path_exec(&mut base, real_name);
            Ok(string_of(base.as_slice()))
        },
    }
}

/// Handles an opaque whiteout (`.wh..wh..opq`): the directory in `rootfs`
/// whose contents are removed (the directory itself is kept, so that new
/// entries of the same layer can still be placed inside it), or why the
/// entry is skipped.
pub fn opaque_whiteout_dir(rootfs: &str, whiteout_path: &str) -> (r: Result<
    String,
    WhiteoutSkip,
>)
    requires
        rootfs@.len() + whiteout_path@.len() + 1 <= usize::MAX,
    ensures
        match r {
            Ok(t) => opaque_whiteout_spec(rootfs@, whiteout_path@) == Ok::<
                Seq<char>,
                WhiteoutSkip,
            >(t@),
            Err(e) => opaque_whiteout_spec(rootfs@, whiteout_path@) == Err::<
                Seq<char>,
                WhiteoutSkip,
            >(e),
        },
{
    let root = chars_of(rootfs);
    let p = chars_of(whiteout_path);
    let cs = path_components(p.as_slice());
    let parent = parent_exec(&cs);
    proof {
        lemma_components_size(p@);
        lemma_comps_size_prefix(comps_view(cs@), parent@.len() as int);
        assert(comps_view(cs@).take(parent@.len() as int) =~= comps_view(parent@));
    }
    match join_components(root.as_slice(), parent) {
        None => Err(WhiteoutSkip::UnsafePath),
        Some(dir) => Ok(string_of(dir.as_slice())),
    }
}

/// What a tar entry does to the rootfs.
#[derive(Clone, Copy, Debug, PartialEq, Eq, Structural)]
pub enum EntryKind {
    /// `.wh..wh..opq`: clears its directory.
    OpaqueWhiteout,
    /// `.wh.<name>`: removes `<name>`.
    RegularWhiteout,
    /// Anything else: unpacked into the rootfs.
    Unpack,
}

/// What the tar entry at `path` does, by its file name.
pub open spec fn entry_kind_spec(path: Seq<char>) -> EntryKind {
    let name = file_name(components(path));
    if name == opaque_marker() {
        EntryKind::OpaqueWhiteout
    } else if name.len() >= 4 && name.take(4) == wh_prefix() {
        EntryKind::RegularWhiteout
    } else {
        EntryKind::Unpack
    }
}

/// Classifies a tar entry by its file name.
pub fn classify_entry(path: &str) -> (r: EntryKind)
    ensures
        r == entry_kind_spec(path@),
{
    let p = chars_of(path);
    let cs = path_components(p.as_slice());
    let name = file_name_exec(&cs);
    let opq = vec!['.', 'w', 'h', '.', '.', 'w', 'h', '.', '.', 'o', 'p', 'q'];
    let prefix = vec!['.', 'w', 'h', '.'];
    proof {
        assert(opq@ =~= opaque_marker());
        assert(prefix@ =~= wh_prefix());
    }
    if chars_eq(name.as_slice(), opq.as_slice()) {
        EntryKind::OpaqueWhiteout
    } else if chars_start_with(name.as_slice(), prefix.as_slice()) {
        EntryKind::RegularWhiteout
    } else {
        EntryKind::Unpack
    }
}

/// `r` is `root` followed only by plain names: its components begin with
/// those of `root`, and each one after them is a name other than `.` and `..`.
pub open spec fn confined_under(root: Seq<char>, r: Seq<char>) -> bool {
    let bc = components(root);
    let rc = components(r);
    &&& bc.len() <= rc.len()
    &&& rc.take(bc.len() as int) == bc
    &&& forall|i: int|
        bc.len() <= i < rc.len() ==> (#[trigger] rc[i]) is Normal && is_plain_name(
            rc[i]->Normal_0,
        )
}

/// Whether a component would leave the directory it is joined onto.
pub open spec fn escapes(c: PathComp) -> bool {
    c is Root || c is Parent
}

proof fn lemma_join_comps_refuses_exactly(base: Seq<char>, cs: Seq<PathComp>)
    ensures
        join_comps(base, cs) is None <==> exists|i: int| 0 <= i < cs.len() && escapes(#[trigger] cs[i]),
    decreases cs.len(),
{
    if cs.len() > 0 {
        let cs0 = cs.drop_last();
        lemma_join_comps_refuses_exactly(base, cs0);
        if exists|i: int| 0 <= i < cs0.len() && escapes(#[trigger] cs0[i]) {
            let i = choose|i: int| 0 <= i < cs0.len() && escapes(#[trigger] cs0[i]);
            assert(cs[i] == cs0[i]);
        }
        if exists|i: int| 0 <= i < cs.len() && escapes(#[trigger] cs[i]) {
            let i = choose|i: int| 0 <= i < cs.len() && escapes(#[trigger] cs[i]);
            if i < cs0.len() {
                assert(cs0[i] == cs[i]);
            }
        }
        assert(cs.last() == cs[cs.len() - 1]);
    }
}

/// A tar path is joined onto the rootfs exactly when none of its components
/// is a root or `..`; and what it is joined to stays under the rootfs: the
/// rootfs followed by plain names only.
pub proof fn lemma_safe_join_confined(rootfs: Seq<char>, tar_path: Seq<char>)
    ensures
        safe_join_spec(rootfs, tar_path) is None <==> exists|i: int|
            0 <= i < components(tar_path).len() && escapes(#[trigger] components(tar_path)[i]),
        safe_join_spec(rootfs, tar_path) matches Some(r) ==> confined_under(rootfs, r)
            && path_starts_with(r, rootfs),
{
    lemma_join_comps_refuses_exactly(rootfs, components(tar_path));
    lemma_components_plain(tar_path);
    lemma_join_comps_adds_names(rootfs, components(tar_path));
}

proof fn lemma_parent_comps_plain(p: Seq<char>)
    ensures
        forall|i: int|
            0 <= i < parent_comps(components(p)).len() && (#[trigger] parent_comps(
                components(p),
            )[i]) is Normal ==> is_plain_name(parent_comps(components(p))[i]->Normal_0),
{
    lemma_components_plain(p);
    let cs = components(p);
    assert forall|i: int|
        0 <= i < parent_comps(cs).len() && (#[trigger] parent_comps(cs)[i]) is Normal implies is_plain_name(
        parent_comps(cs)[i]->Normal_0,
    ) by {
        assert(parent_comps(cs)[i] == cs[i]);
    }
}

/// A regular whiteout only ever removes something strictly inside the
/// rootfs: the target is the rootfs followed by at least one plain name, so
/// neither the rootfs itself, nor its parent, nor anything beside it.
pub proof fn lemma_regular_whiteout_confined(rootfs: Seq<char>, whiteout_path: Seq<char>)
    ensures
        regular_whiteout_spec(rootfs, whiteout_path) matches Ok(t) ==> confined_under(rootfs, t)
            && components(rootfs).len() < components(t).len(),
{
    let cs = components(whiteout_path);
    let name = file_name(cs);
    let real_name = strip_wh(name);
    lemma_parent_comps_plain(whiteout_path);
    lemma_join_comps_adds_names(rootfs, parent_comps(cs));
    lemma_components_plain(whiteout_path);
    if regular_whiteout_spec(rootfs, whiteout_path) is Ok {
        let base = join_comps(rootfs, parent_comps(cs))->Some_0;
        assert(cs.last() == cs[cs.len() - 1]);
        assert(is_plain_name(name));
        if name.len() >= 4 && name.take(4) == wh_prefix() {
            assert forall|i: int| 0 <= i < real_name.len() implies real_name[i] != '/' by {
                assert(real_name[i] == name[i + 4]);
            }
        }
        assert(is_plain_name(real_name));
        lemma_push_plain_name(base, real_name);
        let bc = components(rootfs);
        let prev = components(base);
        let rc = components(push_path(base, real_name));
        assert(rc.take(bc.len() as int) =~= prev.take(bc.len() as int));
        assert forall|i: int| bc.len() <= i < rc.len() implies (#[trigger] rc[i]) is Normal
            && is_plain_name(rc[i]->Normal_0) by {
            if i < prev.len() {
                assert(rc[i] == prev[i]);
            }
        }
    }
}

/// An opaque whiteout only ever clears a directory under the rootfs (or the
/// rootfs itself, for a whiteout at the top of a layer).
pub proof fn lemma_opaque_whiteout_confined(rootfs: Seq<char>, whiteout_path: Seq<char>)
    ensures
        opaque_whiteout_spec(rootfs, whiteout_path) matches Ok(d) ==> confined_under(rootfs, d),
{
    lemma_parent_comps_plain(whiteout_path);
    lemma_join_comps_adds_names(rootfs, parent_comps(components(whiteout_path)));
}


/// How a tar entry is classified, by the last component of its path: a name
/// that is exactly `.wh..wh..opq` is an opaque whiteout; any other name that
/// begins with the four characters `.wh.` is a regular whiteout, whatever
/// characters follow them; every other entry (including one whose path ends
/// in no name at all) is unpacked.
pub proof fn lemma_entry_kind_by_name(path: Seq<char>)
    ensures
        ({
            let cs = components(path);
            let named = cs.len() > 0 && cs.last() is Normal;
            let n = if named {
                cs.last()->Normal_0
            } else {
                Seq::<char>::empty()
            };
            let opq = seq!['.', 'w', 'h', '.', '.', 'w', 'h', '.', '.', 'o', 'p', 'q'];
            let whiteout_name = n.len() >= 4 && n[0] == '.' && n[1] == 'w' && n[2] == 'h' && n[3]
                == '.';
            &&& (named && n == opq) ==> entry_kind_spec(path) == EntryKind::OpaqueWhiteout
            &&& (named && whiteout_name && n != opq) ==> entry_kind_spec(path)
                == EntryKind::RegularWhiteout
            &&& !(named && whiteout_name) ==> entry_kind_spec(path) == EntryKind::Unpack
        }),
{
    let cs = components(path);
    let n = file_name(cs);
    assert(opaque_marker() =~= seq!['.', 'w', 'h', '.', '.', 'w', 'h', '.', '.', 'o', 'p', 'q']);
    if n.len() >= 4 {
        if n[0] == '.' && n[1] == 'w' && n[2] == 'h' && n[3] == '.' {
            assert(n.take(4) =~= wh_prefix());
        } else {
            assert(n.take(4) != wh_prefix()) by {
                if n.take(4) == wh_prefix() {
                    assert(n.take(4)[0] == n[0] && n.take(4)[1] == n[1] && n.take(4)[2] == n[2]
                        && n.take(4)[3] == n[3]);
                }
            }
        }
    }
}

} // verus!
