//! The project tree as a value: a list of files, each a path of components
//! and its bytes. The orchestrator builds a tree on save and reads one on
//! load; the caller maps it onto a real directory, one component per level.

use vstd::prelude::*;
use crate::bytes::{dec_of, push_u64, bytes_eq, bytes_to_vec};

verus! {

/// One file of the tree.
pub struct TreeFile {
    pub path: Vec<Vec<u8>>,
    pub data: Vec<u8>,
}

/// A whole project tree. Paths are unique: the savers write each path once.
pub struct ProjectTree {
    pub files: Vec<TreeFile>,
}

pub open spec fn path_view(p: Seq<Vec<u8>>) -> Seq<Seq<u8>> {
    p.map_values(|c: Vec<u8>| c@)
}

pub open spec fn tree_view(t: &ProjectTree) -> Seq<(Seq<Seq<u8>>, Seq<u8>)> {
    t.files@.map_values(|f: TreeFile| (path_view(f.path@), f.data@))
}

/// The data of the first file with this path, if any.
pub open spec fn lookup_in(fs: Seq<(Seq<Seq<u8>>, Seq<u8>)>, p: Seq<Seq<u8>>) -> Option<Seq<u8>>
    decreases fs.len(),
{
    if fs.len() == 0 {
        None
    } else if fs[0].0 == p {
        Some(fs[0].1)
    } else {
        lookup_in(fs.drop_first(), p)
    }
}

/// True when two paths hold the same components.
pub fn path_eq(a: &Vec<Vec<u8>>, b: &Vec<Vec<u8>>) -> (r: bool)
    ensures
        r == (path_view(a@) =~~= path_view(b@)),
{
    if a.len() != b.len() {
        assert(path_view(a@).len() != path_view(b@).len());
        return false;
    }
    let mut i: usize = 0;
    while i < a.len()
        invariant
            a@.len() == b@.len(),
            0 <= i <= a@.len(),
            forall|j: int| 0 <= j < i ==> #[trigger] path_view(a@)[j] == path_view(b@)[j],
        decreases a@.len() - i,
    {
        if !bytes_eq(a[i].as_slice(), b[i].as_slice()) {
            assert(path_view(a@)[i as int] != path_view(b@)[i as int]);
            return false;
        }
        assert(path_view(a@)[i as int] == path_view(b@)[i as int]);
        i = i + 1;
    }
    assert(path_view(a@) =~~= path_view(b@));
    true
}

/// Copies a path.
pub fn clone_path(p: &Vec<Vec<u8>>) -> (r: Vec<Vec<u8>>)
    ensures
        path_view(r@) == path_view(p@),
{
    let mut out: Vec<Vec<u8>> = Vec::new();
    let mut i: usize = 0;
    while i < p.len()
        invariant
            0 <= i <= p@.len(),
            out@.len() == i,
            forall|j: int| 0 <= j < i ==> (#[trigger] out@[j])@ == p@[j]@,
        decreases p@.len() - i,
    {
        out.push(bytes_to_vec(p[i].as_slice()));
        i = i + 1;
    }
    proof {
        assert forall|j: int| 0 <= j < p@.len() implies #[trigger] path_view(out@)[j]
            == path_view(p@)[j] by {
            assert(path_view(out@)[j] == out@[j]@);
            assert(path_view(p@)[j] == p@[j]@);
        }
        assert(path_view(out@) =~= path_view(p@));
    }
    out
}

impl ProjectTree {
    /// A tree with no files.
    pub fn new() -> (r: ProjectTree)
        ensures
            tree_view(&r) == Seq::<(Seq<Seq<u8>>, Seq<u8>)>::empty(),
    {
        let r = ProjectTree { files: Vec::new() };
        proof {
            assert(tree_view(&r) =~= Seq::<(Seq<Seq<u8>>, Seq<u8>)>::empty());
        }
        r
    }

    /// Appends one file.
    pub fn put(&mut self, path: Vec<Vec<u8>>, data: Vec<u8>)
        ensures
            tree_view(final(self)) == tree_view(old(self)).push((path_view(path@), data@)),
    {
        let ghost p = path_view(path@);
        let ghost d = data@;
        self.files.push(TreeFile { path, data });
        proof {
            assert(tree_view(self) =~= tree_view(old(self)).push((p, d)));
        }
    }

    /// The data of the file at `path`, if the tree holds one.
    pub fn get(&self, path: &Vec<Vec<u8>>) -> (r: Option<&Vec<u8>>)
        ensures
            match r {
                Some(d) => lookup_in(tree_view(self), path_view(path@)) == Some(d@),
                None => lookup_in(tree_view(self), path_view(path@)) is None,
            },
    {
        let mut i: usize = 0;
        proof {
            assert(tree_view(self).skip(0) =~= tree_view(self));
        }
        while i < self.files.len()
            invariant
                0 <= i <= self.files@.len(),
                lookup_in(tree_view(self), path_view(path@)) == lookup_in(
                    tree_view(self).skip(i as int),
                    path_view(path@),
                ),
            decreases self.files@.len() - i,
        {
            let ghost fs = tree_view(self).skip(i as int);
            proof {
                assert(fs[0] == tree_view(self)[i as int]);
            }
            if path_eq(&self.files[i].path, path) {
                assert(lookup_in(fs, path_view(path@)) == Some(tree_view(self)[i as int].1));
                return Some(&self.files[i].data);
            }
            proof {
                assert(fs.drop_first() =~= tree_view(self).skip(i + 1));
            }
            i = i + 1;
        }
        proof {
            assert(tree_view(self).skip(i as int) =~= Seq::<(Seq<Seq<u8>>, Seq<u8>)>::empty());
        }
        None
    }
}

/// The decimal form of an index or id, as a path component.
pub fn c_index(n: u64) -> (r: Vec<u8>)
    ensures
        r@ == dec_of(n as nat),
{
    let mut v: Vec<u8> = Vec::new();
    push_u64(&mut v, n);
    v
}

/// The path component `manifest.txt`.
pub open spec fn s_manifest() -> Seq<u8> {
    seq![109u8, 97u8, 110u8, 105u8, 102u8, 101u8, 115u8, 116u8, 46u8, 116u8, 120u8, 116u8]
}

pub fn c_manifest() -> (r: Vec<u8>)
    ensures
        r@ == s_manifest(),
{
    let r: Vec<u8> = vec![109u8, 97u8, 110u8, 105u8, 102u8, 101u8, 115u8, 116u8, 46u8, 116u8, 120u8, 116u8];
    proof { assert(r@ =~= s_manifest()); }
    r
}

/// The path component `sprites`.
pub open spec fn s_sprites() -> Seq<u8> {
    seq![115u8, 112u8, 114u8, 105u8, 116u8, 101u8, 115u8]
}

pub fn c_sprites() -> (r: Vec<u8>)
    ensures
        r@ == s_sprites(),
{
    let r: Vec<u8> = vec![115u8, 112u8, 114u8, 105u8, 116u8, 101u8, 115u8];
    proof { assert(r@ =~= s_sprites()); }
    r
}

/// The path component `sounds`.
pub open spec fn s_sounds() -> Seq<u8> {
    seq![115u8, 111u8, 117u8, 110u8, 100u8, 115u8]
}

pub fn c_sounds() -> (r: Vec<u8>)
    ensures
        r@ == s_sounds(),
{
    let r: Vec<u8> = vec![115u8, 111u8, 117u8, 110u8, 100u8, 115u8];
    proof { assert(r@ =~= s_sounds()); }
    r
}

/// The path component `backgrounds`.
pub open spec fn s_backgrounds() -> Seq<u8> {
    seq![98u8, 97u8, 99u8, 107u8, 103u8, 114u8, 111u8, 117u8, 110u8, 100u8, 115u8]
}

pub fn c_backgrounds() -> (r: Vec<u8>)
    ensures
        r@ == s_backgrounds(),
{
    let r: Vec<u8> = vec![98u8, 97u8, 99u8, 107u8, 103u8, 114u8, 111u8, 117u8, 110u8, 100u8, 115u8];
    proof { assert(r@ =~= s_backgrounds()); }
    r
}

/// The path component `paths`.
pub open spec fn s_paths() -> Seq<u8> {
    seq![112u8, 97u8, 116u8, 104u8, 115u8]
}

pub fn c_paths() -> (r: Vec<u8>)
    ensures
        r@ == s_paths(),
{
    let r: Vec<u8> = vec![112u8, 97u8, 116u8, 104u8, 115u8];
    proof { assert(r@ =~= s_paths()); }
    r
}

/// The path component `scripts`.
pub open spec fn s_scripts() -> Seq<u8> {
    seq![115u8, 99u8, 114u8, 105u8, 112u8, 116u8, 115u8]
}

pub fn c_scripts() -> (r: Vec<u8>)
    ensures
        r@ == s_scripts(),
{
    let r: Vec<u8> = vec![115u8, 99u8, 114u8, 105u8, 112u8, 116u8, 115u8];
    proof { assert(r@ =~= s_scripts()); }
    r
}

/// The path component `fonts`.
pub open spec fn s_fonts() -> Seq<u8> {
    seq![102u8, 111u8, 110u8, 116u8, 115u8]
}

pub fn c_fonts() -> (r: Vec<u8>)
    ensures
        r@ == s_fonts(),
{
    let r: Vec<u8> = vec![102u8, 111u8, 110u8, 116u8, 115u8];
    proof { assert(r@ =~= s_fonts()); }
    r
}

/// The path component `timelines`.
pub open spec fn s_timelines() -> Seq<u8> {
    seq![116u8, 105u8, 109u8, 101u8, 108u8, 105u8, 110u8, 101u8, 115u8]
}

pub fn c_timelines() -> (r: Vec<u8>)
    ensures
        r@ == s_timelines(),
{
    let r: Vec<u8> = vec![116u8, 105u8, 109u8, 101u8, 108u8, 105u8, 110u8, 101u8, 115u8];
    proof { assert(r@ =~= s_timelines()); }
    r
}

/// The path component `objects`.
pub open spec fn s_objects() -> Seq<u8> {
    seq![111u8, 98u8, 106u8, 101u8, 99u8, 116u8, 115u8]
}

pub fn c_objects() -> (r: Vec<u8>)
    ensures
        r@ == s_objects(),
{
    let r: Vec<u8> = vec![111u8, 98u8, 106u8, 101u8, 99u8, 116u8, 115u8];
    proof { assert(r@ =~= s_objects()); }
    r
}

/// The path component `rooms`.
pub open spec fn s_rooms() -> Seq<u8> {
    seq![114u8, 111u8, 111u8, 109u8, 115u8]
}

pub fn c_rooms() -> (r: Vec<u8>)
    ensures
        r@ == s_rooms(),
{
    let r: Vec<u8> = vec![114u8, 111u8, 111u8, 109u8, 115u8];
    proof { assert(r@ =~= s_rooms()); }
    r
}

/// The path component `triggers`.
pub open spec fn s_triggers() -> Seq<u8> {
    seq![116u8, 114u8, 105u8, 103u8, 103u8, 101u8, 114u8, 115u8]
}

pub fn c_triggers() -> (r: Vec<u8>)
    ensures
        r@ == s_triggers(),
{
    let r: Vec<u8> = vec![116u8, 114u8, 105u8, 103u8, 103u8, 101u8, 114u8, 115u8];
    proof { assert(r@ =~= s_triggers()); }
    r
}

/// The path component `datafiles`.
pub open spec fn s_datafiles() -> Seq<u8> {
    seq![100u8, 97u8, 116u8, 97u8, 102u8, 105u8, 108u8, 101u8, 115u8]
}

pub fn c_datafiles() -> (r: Vec<u8>)
    ensures
        r@ == s_datafiles(),
{
    let r: Vec<u8> = vec![100u8, 97u8, 116u8, 97u8, 102u8, 105u8, 108u8, 101u8, 115u8];
    proof { assert(r@ =~= s_datafiles()); }
    r
}

/// The path component `extensions`.
pub open spec fn s_extensions() -> Seq<u8> {
    seq![101u8, 120u8, 116u8, 101u8, 110u8, 115u8, 105u8, 111u8, 110u8, 115u8]
}

pub fn c_extensions() -> (r: Vec<u8>)
    ensures
        r@ == s_extensions(),
{
    let r: Vec<u8> = vec![101u8, 120u8, 116u8, 101u8, 110u8, 115u8, 105u8, 111u8, 110u8, 115u8];
    proof { assert(r@ =~= s_extensions()); }
    r
}

/// The path component `asset.txt`.
pub open spec fn s_asset_txt() -> Seq<u8> {
    seq![97u8, 115u8, 115u8, 101u8, 116u8, 46u8, 116u8, 120u8, 116u8]
}

pub fn c_asset_txt() -> (r: Vec<u8>)
    ensures
        r@ == s_asset_txt(),
{
    let r: Vec<u8> = vec![97u8, 115u8, 115u8, 101u8, 116u8, 46u8, 116u8, 120u8, 116u8];
    proof { assert(r@ =~= s_asset_txt()); }
    r
}

/// The path component `code.gml`.
pub open spec fn s_code_gml() -> Seq<u8> {
    seq![99u8, 111u8, 100u8, 101u8, 46u8, 103u8, 109u8, 108u8]
}

pub fn c_code_gml() -> (r: Vec<u8>)
    ensures
        r@ == s_code_gml(),
{
    let r: Vec<u8> = vec![99u8, 111u8, 100u8, 101u8, 46u8, 103u8, 109u8, 108u8];
    proof { assert(r@ =~= s_code_gml()); }
    r
}

/// The path component `data`.
pub open spec fn s_data_bin() -> Seq<u8> {
    seq![100u8, 97u8, 116u8, 97u8]
}

pub fn c_data_bin() -> (r: Vec<u8>)
    ensures
        r@ == s_data_bin(),
{
    let r: Vec<u8> = vec![100u8, 97u8, 116u8, 97u8];
    proof { assert(r@ =~= s_data_bin()); }
    r
}

/// The path component `image.png`.
pub open spec fn s_image_png() -> Seq<u8> {
    seq![105u8, 109u8, 97u8, 103u8, 101u8, 46u8, 112u8, 110u8, 103u8]
}

pub fn c_image_png() -> (r: Vec<u8>)
    ensures
        r@ == s_image_png(),
{
    let r: Vec<u8> = vec![105u8, 109u8, 97u8, 103u8, 101u8, 46u8, 112u8, 110u8, 103u8];
    proof { assert(r@ =~= s_image_png()); }
    r
}

/// The path component `frames`.
pub open spec fn s_frames() -> Seq<u8> {
    seq![102u8, 114u8, 97u8, 109u8, 101u8, 115u8]
}

pub fn c_frames() -> (r: Vec<u8>)
    ensures
        r@ == s_frames(),
{
    let r: Vec<u8> = vec![102u8, 114u8, 97u8, 109u8, 101u8, 115u8];
    proof { assert(r@ =~= s_frames()); }
    r
}

/// The path component `points`.
pub open spec fn s_points() -> Seq<u8> {
    seq![112u8, 111u8, 105u8, 110u8, 116u8, 115u8]
}

pub fn c_points() -> (r: Vec<u8>)
    ensures
        r@ == s_points(),
{
    let r: Vec<u8> = vec![112u8, 111u8, 105u8, 110u8, 116u8, 115u8];
    proof { assert(r@ =~= s_points()); }
    r
}

/// The path component `events`.
pub open spec fn s_events() -> Seq<u8> {
    seq![101u8, 118u8, 101u8, 110u8, 116u8, 115u8]
}

pub fn c_events() -> (r: Vec<u8>)
    ensures
        r@ == s_events(),
{
    let r: Vec<u8> = vec![101u8, 118u8, 101u8, 110u8, 116u8, 115u8];
    proof { assert(r@ =~= s_events()); }
    r
}

/// The path component `moments`.
pub open spec fn s_moments() -> Seq<u8> {
    seq![109u8, 111u8, 109u8, 101u8, 110u8, 116u8, 115u8]
}

pub fn c_moments() -> (r: Vec<u8>)
    ensures
        r@ == s_moments(),
{
    let r: Vec<u8> = vec![109u8, 111u8, 109u8, 101u8, 110u8, 116u8, 115u8];
    proof { assert(r@ =~= s_moments()); }
    r
}

/// The path component `room.txt`.
pub open spec fn s_room_txt() -> Seq<u8> {
    seq![114u8, 111u8, 111u8, 109u8, 46u8, 116u8, 120u8, 116u8]
}

pub fn c_room_txt() -> (r: Vec<u8>)
    ensures
        r@ == s_room_txt(),
{
    let r: Vec<u8> = vec![114u8, 111u8, 111u8, 109u8, 46u8, 116u8, 120u8, 116u8];
    proof { assert(r@ =~= s_room_txt()); }
    r
}

/// The path component `layers`.
pub open spec fn s_room_backgrounds() -> Seq<u8> {
    seq![108u8, 97u8, 121u8, 101u8, 114u8, 115u8]
}

pub fn c_room_backgrounds() -> (r: Vec<u8>)
    ensures
        r@ == s_room_backgrounds(),
{
    let r: Vec<u8> = vec![108u8, 97u8, 121u8, 101u8, 114u8, 115u8];
    proof { assert(r@ =~= s_room_backgrounds()); }
    r
}

/// The path component `views`.
pub open spec fn s_room_views() -> Seq<u8> {
    seq![118u8, 105u8, 101u8, 119u8, 115u8]
}

pub fn c_room_views() -> (r: Vec<u8>)
    ensures
        r@ == s_room_views(),
{
    let r: Vec<u8> = vec![118u8, 105u8, 101u8, 119u8, 115u8];
    proof { assert(r@ =~= s_room_views()); }
    r
}

/// The path component `instances`.
pub open spec fn s_instances() -> Seq<u8> {
    seq![105u8, 110u8, 115u8, 116u8, 97u8, 110u8, 99u8, 101u8, 115u8]
}

pub fn c_instances() -> (r: Vec<u8>)
    ensures
        r@ == s_instances(),
{
    let r: Vec<u8> = vec![105u8, 110u8, 115u8, 116u8, 97u8, 110u8, 99u8, 101u8, 115u8];
    proof { assert(r@ =~= s_instances()); }
    r
}

/// The path component `tiles`.
pub open spec fn s_tiles() -> Seq<u8> {
    seq![116u8, 105u8, 108u8, 101u8, 115u8]
}

pub fn c_tiles() -> (r: Vec<u8>)
    ensures
        r@ == s_tiles(),
{
    let r: Vec<u8> = vec![116u8, 105u8, 108u8, 101u8, 115u8];
    proof { assert(r@ =~= s_tiles()); }
    r
}

/// The path component `extras`.
pub open spec fn s_extras() -> Seq<u8> {
    seq![101u8, 120u8, 116u8, 114u8, 97u8, 115u8]
}

pub fn c_extras() -> (r: Vec<u8>)
    ensures
        r@ == s_extras(),
{
    let r: Vec<u8> = vec![101u8, 120u8, 116u8, 114u8, 97u8, 115u8];
    proof { assert(r@ =~= s_extras()); }
    r
}

/// The component for an indexed code sidecar: the index digits and a
/// trailing marker byte, so it cannot collide with the record's own index.
pub fn c_index_code(n: u64) -> (r: Vec<u8>)
    ensures
        r@ == dec_of(n as nat).push(99u8),
{
    let mut v: Vec<u8> = Vec::new();
    push_u64(&mut v, n);
    v.push(99);
    v
}

/// The component for an overlay entry: a one-byte prefix telling instances
/// from tiles, then the id digits.
pub fn c_id_comp(prefix: u8, id: u32) -> (r: Vec<u8>)
    ensures
        r@ == seq![prefix] + dec_of(id as nat),
{
    let mut v: Vec<u8> = Vec::new();
    v.push(prefix);
    push_u64(&mut v, id as u64);
    proof {
        assert(v@ =~= seq![prefix] + dec_of(id as nat));
    }
    v
}

/// The path component `editor.txt`.
pub open spec fn s_editor_txt() -> Seq<u8> {
    seq![101u8, 100u8, 105u8, 116u8, 111u8, 114u8, 46u8, 116u8, 120u8, 116u8]
}

pub fn c_editor_txt() -> (r: Vec<u8>)
    ensures
        r@ == s_editor_txt(),
{
    let r: Vec<u8> = vec![101u8, 100u8, 105u8, 116u8, 111u8, 114u8, 46u8, 116u8, 120u8, 116u8];
    proof { assert(r@ =~= s_editor_txt()); }
    r
}


/// Appending a file whose path nothing earlier uses makes it findable.
pub proof fn lemma_lookup_appended(
    fs: Seq<(Seq<Seq<u8>>, Seq<u8>)>,
    q: (Seq<Seq<u8>>, Seq<u8>),
    p: Seq<Seq<u8>>,
)
    requires
        forall|j: int| 0 <= j < fs.len() ==> (#[trigger] fs[j]).0 != p,
        q.0 == p,
    ensures
        lookup_in(fs.push(q), p) == Some(q.1),
    decreases fs.len(),
{
    if fs.len() == 0 {
        assert(fs.push(q) =~= seq![q]);
        assert(seq![q][0] == q);
    } else {
        assert(fs.push(q)[0] == fs[0]);
        assert(fs.push(q).drop_first() =~= fs.drop_first().push(q));
        assert(forall|j: int|
            0 <= j < fs.drop_first().len() ==> (#[trigger] fs.drop_first()[j]).0 != p) by {
            assert(forall|j: int|
                0 <= j < fs.drop_first().len() ==> fs.drop_first()[j] == fs[j + 1]);
        }
        lemma_lookup_appended(fs.drop_first(), q, p);
    }
}

} // verus!
