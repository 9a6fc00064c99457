//! The project tree orchestrator: one save or one load per call, no state
//! kept between calls.
//!
//! A save validates every name, walks the graph kind by kind, and builds
//! the whole tree as a value; the caller stages it onto disk and renames it
//! over the destination, so a failure never leaves a half-written tree. A
//! load reads the manifest first — a tree stamped with a newer version than
//! this codec understands is refused with `OldGM82` before any asset is
//! decoded — then rebuilds the graph kind by kind, resolving textual
//! references through the name tables, and repairs instance and tile ids
//! if any collide.

use vstd::prelude::*;
use crate::asset::{Sprite, Sound, Background, Path, PathPoint, Script, Font, Timeline, Object,
    Event, Action, Room, RoomBackground, RoomView, Instance, Tile, Trigger, IncludedFile,
    Extension, ActionLibrary, Frame, Real};
use crate::actions::{encode_event_text, decode_event_text, wf_action_shape};
use crate::bytes::{push_u64, bytes_to_vec, dec_of, NL};
use crate::error::{Error, KIND_OBJECT, KIND_SPRITE, KIND_SOUND, KIND_ROOM, KIND_BACKGROUND,
    KIND_SCRIPT, KIND_PATH, KIND_FONT, KIND_TIMELINE, KIND_TRIGGER, KIND_INCLUDED_FILE,
    KIND_EXTENSION};
use crate::fields::{kv_map, lemma_kv_map_push, fld_u64, val_ok_u64, parse_u64_val,
    parse_u32_val};
use crate::freshen::freshen_room_ids;
use crate::kv::{encode_pairs, decode_pairs, pairs_view, parse_kv};
use crate::list::DelphiList;
use crate::name::validate_name;
use crate::overlay::{ExtraData, InstanceExtra, TileExtra, encode_instance_extra,
    encode_tile_extra, decode_instance_extra, decode_tile_extra};
use crate::records::{encode_font, decode_font, encode_sound, decode_sound,
    encode_included_file, decode_included_file, encode_sprite, decode_sprite,
    encode_background, decode_background, encode_path, decode_path, encode_path_point,
    decode_path_point};
use crate::records_obj::{encode_object, decode_object, encode_event, decode_event,
    encode_timeline, decode_timeline, encode_moment, decode_moment};
use crate::records_room::{encode_room, decode_room, encode_room_editor, decode_room_editor,
    encode_layer, decode_layer, encode_view, decode_view, encode_instance, decode_instance,
    encode_tile, decode_tile};
use crate::codec_misc::{encode_trigger, decode_trigger};
use crate::outside::{frame_to_png, png_to_frame};
use crate::tree::{ProjectTree, TreeFile, clone_path, c_index, c_index_code, c_id_comp,
    c_manifest, c_sprites, c_sounds, c_backgrounds, c_paths, c_scripts, c_fonts, c_timelines,
    c_objects, c_rooms, c_triggers, c_datafiles, c_extensions, c_asset_txt, c_code_gml,
    c_data_bin, c_image_png, c_frames, c_points, c_events, c_moments, c_room_txt, c_editor_txt,
    c_room_backgrounds, c_room_views, c_instances, c_tiles, c_extras, path_view, lookup_in,
    tree_view};
use crate::xref::{check_names_unique, resolve_ref, ref_to_name};

verus! {

/// The newest tree-format version this codec understands; the version
/// every save stamps.
pub const CURRENT_VERSION: u64 = 825;

/// Key of the version stamp in the manifest.
pub const MK_VERSION: u8 = 118;  // v

// Keys of the per-kind name lists in the manifest, in load order.
pub const MK_TRIGGER: u8 = 71;  // G
pub const MK_SPRITE: u8 = 83;  // S
pub const MK_SOUND: u8 = 68;  // D
pub const MK_BACKGROUND: u8 = 66;  // B
pub const MK_PATH: u8 = 80;  // P
pub const MK_SCRIPT: u8 = 67;  // C
pub const MK_FONT: u8 = 70;  // F
pub const MK_TIMELINE: u8 = 84;  // T
pub const MK_OBJECT: u8 = 79;  // O
pub const MK_ROOM: u8 = 82;  // R
pub const MK_INCLUDED: u8 = 73;  // I
pub const MK_EXTENSION: u8 = 88;  // X

/// One named asset slot.
pub struct Asset<T> {
    pub name: Vec<u8>,
    pub body: T,
}

/// The whole in-memory project graph this codec reads and writes.
pub struct Project {
    pub sprites: DelphiList<Option<Asset<Sprite>>>,
    pub sounds: DelphiList<Option<Asset<Sound>>>,
    pub backgrounds: DelphiList<Option<Asset<Background>>>,
    pub paths: DelphiList<Option<Asset<Path>>>,
    pub scripts: DelphiList<Option<Asset<Script>>>,
    pub fonts: DelphiList<Option<Asset<Font>>>,
    pub timelines: DelphiList<Option<Asset<Timeline>>>,
    pub objects: DelphiList<Option<Asset<Object>>>,
    pub rooms: DelphiList<Option<Asset<Room>>>,
    pub triggers: DelphiList<Option<Trigger>>,
    pub included_files: DelphiList<Option<IncludedFile>>,
    pub extensions: DelphiList<Option<Extension>>,
    /// The highest instance id handed out so far.
    pub last_instance_id: u32,
    /// The highest tile id handed out so far.
    pub last_tile_id: u32,
}

impl Project {
    /// An empty project.
    pub fn new() -> (r: Project) {
        Project {
            sprites: DelphiList::new(),
            sounds: DelphiList::new(),
            backgrounds: DelphiList::new(),
            paths: DelphiList::new(),
            scripts: DelphiList::new(),
            fonts: DelphiList::new(),
            timelines: DelphiList::new(),
            objects: DelphiList::new(),
            rooms: DelphiList::new(),
            triggers: DelphiList::new(),
            included_files: DelphiList::new(),
            extensions: DelphiList::new(),
            last_instance_id: 0,
            last_tile_id: 0,
        }
    }
}

/// Appends a key=value file to the tree.
fn put_kv(tree: &mut ProjectTree, path: Vec<Vec<u8>>, pairs: &Vec<(u8, Vec<u8>)>)
    ensures
        tree_view(final(tree)) == tree_view(old(tree)).push(
            (path_view(path@), crate::kv::enc_pairs(pairs_view(pairs@))),
        ),
{
    let data = encode_pairs(pairs);
    tree.put(path, data);
}

/// The file a path must hold; its absence is an error carrying the path.
fn get_file<'a>(tree: &'a ProjectTree, path: &Vec<Vec<u8>>) -> (r: Result<&'a Vec<u8>, Error>) {
    match tree.get(path) {
        Some(d) => Ok(d),
        None => Err(Error::FileMissing(clone_path(path))),
    }
}

/// The pairs of a key=value file the tree must hold.
fn get_kv(tree: &ProjectTree, path: &Vec<Vec<u8>>) -> (r: Result<Vec<(u8, Vec<u8>)>, Error>) {
    let data = get_file(tree, path)?;
    match decode_pairs(data.as_slice()) {
        Some(ps) => Ok(ps),
        None => Err(Error::SyntaxError(clone_path(path))),
    }
}

/// A three-component asset path: kind directory, asset name, file.
fn asset_path(kind_dir: Vec<u8>, name: &Vec<u8>, file: Vec<u8>) -> (r: Vec<Vec<u8>>)
    ensures
        path_view(r@) == seq![kind_dir@, name@, file@],
{
    let mut p: Vec<Vec<u8>> = Vec::new();
    p.push(kind_dir);
    p.push(bytes_to_vec(name.as_slice()));
    p.push(file);
    proof {
        assert(path_view(p@) =~= seq![kind_dir@, name@, file@]);
    }
    p
}

/// A four-component asset path: kind directory, name, group, entry.
fn asset_path4(kind_dir: Vec<u8>, name: &Vec<u8>, group: Vec<u8>, entry: Vec<u8>) -> (r: Vec<
    Vec<u8>,
>)
    ensures
        path_view(r@) == seq![kind_dir@, name@, group@, entry@],
{
    let mut p: Vec<Vec<u8>> = Vec::new();
    p.push(kind_dir);
    p.push(bytes_to_vec(name.as_slice()));
    p.push(group);
    p.push(entry);
    proof {
        assert(path_view(p@) =~= seq![kind_dir@, name@, group@, entry@]);
    }
    p
}

/// The names and presence flags of one asset list, for reference
/// projection; a deleted slot keeps an empty name and a false flag.
fn names_of_assets<T>(list: &DelphiList<Option<Asset<T>>>) -> (r: (Vec<Vec<u8>>, Vec<bool>))
    ensures
        r.0@.len() == list.items@.len(),
        r.1@.len() == list.items@.len(),
        forall|i: int|
            0 <= i < list.items@.len() ==> match #[trigger] list.items@[i] {
                Some(a) => r.1@[i] && r.0@[i]@ == a.name@,
                None => !r.1@[i] && r.0@[i]@.len() == 0,
            },
{
    let mut names: Vec<Vec<u8>> = Vec::new();
    let mut present: Vec<bool> = Vec::new();
    let mut i: usize = 0;
    while i < list.len()
        invariant
            0 <= i <= list.items@.len(),
            names@.len() == i,
            present@.len() == i,
            forall|j: int|
                0 <= j < i ==> match #[trigger] list.items@[j] {
                    Some(a) => present@[j] && names@[j]@ == a.name@,
                    None => !present@[j] && names@[j]@.len() == 0,
                },
        decreases list.items@.len() - i,
    {
        match list.get(i) {
            Some(a) => {
                names.push(bytes_to_vec(a.name.as_slice()));
                present.push(true);
            },
            None => {
                names.push(Vec::new());
                present.push(false);
            },
        }
        i = i + 1;
    }
    (names, present)
}


/// Checks that a length fits the 32-bit counts the record format stores.
fn len_u32(n: usize, path: &Vec<Vec<u8>>) -> (r: Result<u32, Error>)
    ensures
        r matches Result::Ok(v) ==> v == n,
        r is Err ==> n > u32::MAX,
{
    if n as u64 > u32::MAX as u64 {
        Err(Error::SyntaxError(clone_path(path)))
    } else {
        Ok(n as u32)
    }
}

/// Checks one action's fixed shape: eight parameter slots, eight type
/// slots, a count within them, unused slots empty.
fn check_action_shape(a: &Action) -> (r: bool)
    ensures
        r == wf_action_shape(*a),
{
    if a.param_strings.len() != 8 || a.param_types.len() != 8 || a.param_count > 8 {
        return false;
    }
    let mut j: usize = a.param_count as usize;
    while j < 8
        invariant
            a.param_count <= j <= 8,
            a.param_strings@.len() == 8,
            a.param_types@.len() == 8,
            forall|m: int|
                a.param_count <= m < j ==> (#[trigger] a.param_strings@[m])@.len() == 0,
        decreases 8 - j,
    {
        if a.param_strings[j].len() != 0 {
            return false;
        }
        j = j + 1;
    }
    true
}

/// Encodes one event's action list, projecting each applies-to target to
/// the object name it references.
fn save_event_text(
    actions: &Vec<Action>,
    obj_names: &Vec<Vec<u8>>,
    obj_present: &Vec<bool>,
    path: &Vec<Vec<u8>>,
) -> (r: Result<Vec<u8>, Error>)
    requires
        obj_names@.len() == obj_present@.len(),
        forall|i: int| 0 <= i < obj_names@.len() ==> crate::kv::no_nl((#[trigger] obj_names@[i])@),
    ensures
        r is Ok <==> (forall|j: int|
            0 <= j < actions@.len() ==> wf_action_shape(#[trigger] actions@[j])
                && crate::actions::action_params_clean(actions@[j])),
{
    let mut anames: Vec<Vec<u8>> = Vec::new();
    let mut i: usize = 0;
    while i < actions.len()
        invariant
            0 <= i <= actions@.len(),
            anames@.len() == i,
            obj_names@.len() == obj_present@.len(),
            forall|k: int|
                0 <= k < obj_names@.len() ==> crate::kv::no_nl((#[trigger] obj_names@[k])@),
            forall|j: int| 0 <= j < i ==> crate::kv::no_nl((#[trigger] anames@[j])@),
            forall|j: int| 0 <= j < i ==> wf_action_shape(#[trigger] actions@[j]),
        decreases actions@.len() - i,
    {
        if !check_action_shape(&actions[i]) {
            proof {
                assert(!wf_action_shape(actions@[i as int]));
            }
            return Err(Error::SyntaxError(clone_path(path)));
        }
        let n = if actions[i].applies_to >= 0 {
            ref_to_name(obj_names, obj_present, actions[i].applies_to)
        } else {
            Vec::new()
        };
        proof {
            assert(crate::kv::no_nl(n@));
        }
        anames.push(n);
        i = i + 1;
    }
    match encode_event_text(actions, &anames) {
        Ok(v) => Ok(v),
        Err(e) => {
            proof {
                assert(!(forall|j: int|
                    0 <= j < actions@.len() ==> crate::actions::action_params_clean(
                        #[trigger] actions@[j],
                    )));
            }
            Err(e)
        },
    }
}

/// Writes the files of every present asset of one room, and its overlay
/// entries, into the tree.
#[verifier::rlimit(60)]
fn save_room_files(
    tree: &mut ProjectTree,
    name: &Vec<u8>,
    room: &Room,
    extra: &ExtraData,
    obj_names: &Vec<Vec<u8>>,
    obj_present: &Vec<bool>,
    bg_names: &Vec<Vec<u8>>,
    bg_present: &Vec<bool>,
) -> (r: Result<(), Error>)
    requires
        obj_names@.len() == obj_present@.len(),
        bg_names@.len() == bg_present@.len(),
    ensures
        r is Ok <==> room.backgrounds@.len() == 8 && room.views@.len() == 8
            && room.instances@.len() <= u32::MAX && room.tiles@.len() <= u32::MAX,
        tree_view(final(tree)).len() >= tree_view(old(tree)).len(),
        tree_view(final(tree)).take(tree_view(old(tree)).len() as int) == tree_view(old(tree)),
        forall|j: int|
            tree_view(old(tree)).len() <= j < tree_view(final(tree)).len() ==> (
            #[trigger] tree_view(final(tree))[j]).0.len() >= 3,
{
    let rpath = asset_path(c_rooms(), name, c_room_txt());
    if room.backgrounds.len() != 8 || room.views.len() != 8 {
        return Err(Error::SyntaxError(clone_path(&rpath)));
    }
    let n_inst = len_u32(room.instances.len(), &rpath)?;
    let n_tiles = len_u32(room.tiles.len(), &rpath)?;
    let pairs = encode_room(room, n_inst, n_tiles);
    put_kv(tree, rpath, &pairs);
    let epairs = encode_room_editor(room);
    put_kv(tree, asset_path(c_rooms(), name, c_editor_txt()), &epairs);
    tree.put(
        asset_path(c_rooms(), name, c_code_gml()),
        bytes_to_vec(room.creation_code.as_slice()),
    );
    let mut k: usize = 0;
    while k < room.backgrounds.len()
        invariant
            bg_names@.len() == bg_present@.len(),
            tree_view(&tree).len() >= tree_view(old(tree)).len(),
            tree_view(&tree).take(tree_view(old(tree)).len() as int) == tree_view(old(tree)),
            forall|j: int|
                tree_view(old(tree)).len() <= j < tree_view(&tree).len() ==> (
                #[trigger] tree_view(&tree)[j]).0.len() >= 3,
        decreases room.backgrounds@.len() - k,
    {
        let l = &room.backgrounds[k];
        let bname = ref_to_name(bg_names, bg_present, l.source_bg);
        let lp = encode_layer(l, &bname);
        put_kv(tree, asset_path4(c_rooms(), name, c_room_backgrounds(), c_index(k as u64)), &lp);
        k = k + 1;
    }
    let mut k: usize = 0;
    while k < room.views.len()
        invariant
            obj_names@.len() == obj_present@.len(),
            tree_view(&tree).len() >= tree_view(old(tree)).len(),
            tree_view(&tree).take(tree_view(old(tree)).len() as int) == tree_view(old(tree)),
            forall|j: int|
                tree_view(old(tree)).len() <= j < tree_view(&tree).len() ==> (
                #[trigger] tree_view(&tree)[j]).0.len() >= 3,
        decreases room.views@.len() - k,
    {
        let v = &room.views[k];
        let tname = ref_to_name(obj_names, obj_present, v.following_target);
        let vp = encode_view(v, &tname);
        put_kv(tree, asset_path4(c_rooms(), name, c_room_views(), c_index(k as u64)), &vp);
        k = k + 1;
    }
    let mut k: usize = 0;
    while k < room.instances.len()
        invariant
            obj_names@.len() == obj_present@.len(),
            tree_view(&tree).len() >= tree_view(old(tree)).len(),
            tree_view(&tree).take(tree_view(old(tree)).len() as int) == tree_view(old(tree)),
            forall|j: int|
                tree_view(old(tree)).len() <= j < tree_view(&tree).len() ==> (
                #[trigger] tree_view(&tree)[j]).0.len() >= 3,
        decreases room.instances@.len() - k,
    {
        let inst = &room.instances[k];
        let oname = ref_to_name(obj_names, obj_present, inst.object);
        let ip = encode_instance(inst, &oname);
        put_kv(tree, asset_path4(c_rooms(), name, c_instances(), c_index(k as u64)), &ip);
        tree.put(
            asset_path4(c_rooms(), name, c_instances(), c_index_code(k as u64)),
            bytes_to_vec(inst.creation_code.as_slice()),
        );
        match extra.get_instance(inst.id) {
            Some(e) => {
                let xp = encode_instance_extra(&e);
                if xp.len() > 0 {
                    put_kv(
                        tree,
                        asset_path4(c_rooms(), name, c_extras(), c_id_comp(105, inst.id)),
                        &xp,
                    );
                }
            },
            None => {},
        }
        k = k + 1;
    }
    let mut k: usize = 0;
    while k < room.tiles.len()
        invariant
            bg_names@.len() == bg_present@.len(),
            tree_view(&tree).len() >= tree_view(old(tree)).len(),
            tree_view(&tree).take(tree_view(old(tree)).len() as int) == tree_view(old(tree)),
            forall|j: int|
                tree_view(old(tree)).len() <= j < tree_view(&tree).len() ==> (
                #[trigger] tree_view(&tree)[j]).0.len() >= 3,
        decreases room.tiles@.len() - k,
    {
        let tile = &room.tiles[k];
        let bname = ref_to_name(bg_names, bg_present, tile.source_bg);
        let tp = encode_tile(tile, &bname);
        put_kv(tree, asset_path4(c_rooms(), name, c_tiles(), c_index(k as u64)), &tp);
        match extra.get_tile(tile.id) {
            Some(e) => {
                let xp = encode_tile_extra(&e);
                if xp.len() > 0 {
                    put_kv(
                        tree,
                        asset_path4(c_rooms(), name, c_extras(), c_id_comp(116, tile.id)),
                        &xp,
                    );
                }
            },
            None => {},
        }
        k = k + 1;
    }
    Ok(())
}


/// A name the tree format accepts: nonempty and free of reserved
/// characters.
pub open spec fn good_name(s: Seq<u8>) -> bool {
    crate::name::valid_name(s) && s.len() > 0
}

/// A frame whose byte count matches its dimensions.
pub open spec fn wf_frame(f: Frame) -> bool {
    f.width > 0 && f.height > 0 && f.data@.len() == 4 * f.width * f.height
}

/// Every action of an event fits the format: eight slots, a count within
/// them, unused slots empty, and line-bound parameters free of line breaks.
pub open spec fn wf_event_actions(e: Event) -> bool {
    forall|j: int|
        0 <= j < e.actions@.len() ==> wf_action_shape(#[trigger] e.actions@[j])
            && crate::actions::action_params_clean(e.actions@[j])
}

pub open spec fn wf_sprite_slot(o: Option<Asset<Sprite>>) -> bool {
    match o {
        Some(a) => good_name(a.name@) && a.body.frames@.len() <= u32::MAX && (forall|k: int|
            0 <= k < a.body.frames@.len() ==> wf_frame(#[trigger] a.body.frames@[k])),
        None => true,
    }
}

pub open spec fn wf_background_slot(o: Option<Asset<Background>>) -> bool {
    match o {
        Some(a) => good_name(a.name@) && wf_frame(a.body.frame),
        None => true,
    }
}

pub open spec fn wf_path_slot(o: Option<Asset<Path>>) -> bool {
    match o {
        Some(a) => good_name(a.name@) && a.body.points@.len() <= u32::MAX,
        None => true,
    }
}

pub open spec fn wf_timeline_slot(o: Option<Asset<Timeline>>) -> bool {
    match o {
        Some(a) => good_name(a.name@) && a.body.moment_times@.len()
            == a.body.moment_events@.len() && a.body.moment_times@.len() <= u32::MAX && (forall|
            m: int,
        |
            0 <= m < a.body.moment_events@.len() ==> wf_event_actions(
                #[trigger] a.body.moment_events@[m],
            )),
        None => true,
    }
}

pub open spec fn wf_object_slot(o: Option<Asset<Object>>) -> bool {
    match o {
        Some(a) => good_name(a.name@) && a.body.events@.len() <= u32::MAX && (forall|e: int|
            0 <= e < a.body.events@.len() ==> wf_event_actions(#[trigger] a.body.events@[e])),
        None => true,
    }
}

pub open spec fn wf_room_slot(o: Option<Asset<Room>>) -> bool {
    match o {
        Some(a) => good_name(a.name@) && a.body.backgrounds@.len() == 8 && a.body.views@.len()
            == 8 && a.body.instances@.len() <= u32::MAX && a.body.tiles@.len() <= u32::MAX,
        None => true,
    }
}

/// A graph the tree format can carry: every present name is valid, every
/// frame's bytes match its dimensions, rooms hold their eight layers and
/// views, counts fit the record format, and every action fits its block.
/// `save_project` succeeds on exactly these graphs.
pub open spec fn wf_save(p: &Project) -> bool {
    &&& forall|i: int|
        0 <= i < p.triggers.items@.len() ==> match #[trigger] p.triggers.items@[i] {
            Some(t) => good_name(t.name@),
            None => true,
        }
    &&& forall|i: int|
        0 <= i < p.sprites.items@.len() ==> wf_sprite_slot(#[trigger] p.sprites.items@[i])
    &&& forall|i: int|
        0 <= i < p.sounds.items@.len() ==> match #[trigger] p.sounds.items@[i] {
            Some(a) => good_name(a.name@),
            None => true,
        }
    &&& forall|i: int|
        0 <= i < p.backgrounds.items@.len() ==> wf_background_slot(
            #[trigger] p.backgrounds.items@[i],
        )
    &&& forall|i: int| 0 <= i < p.paths.items@.len() ==> wf_path_slot(#[trigger] p.paths.items@[i])
    &&& forall|i: int|
        0 <= i < p.scripts.items@.len() ==> match #[trigger] p.scripts.items@[i] {
            Some(a) => good_name(a.name@),
            None => true,
        }
    &&& forall|i: int|
        0 <= i < p.fonts.items@.len() ==> match #[trigger] p.fonts.items@[i] {
            Some(a) => good_name(a.name@),
            None => true,
        }
    &&& forall|i: int|
        0 <= i < p.timelines.items@.len() ==> wf_timeline_slot(#[trigger] p.timelines.items@[i])
    &&& forall|i: int|
        0 <= i < p.objects.items@.len() ==> wf_object_slot(#[trigger] p.objects.items@[i])
    &&& forall|i: int| 0 <= i < p.rooms.items@.len() ==> wf_room_slot(#[trigger] p.rooms.items@[i])
    &&& forall|i: int|
        0 <= i < p.included_files.items@.len() ==> match #[trigger] p.included_files.items@[i] {
            Some(f) => good_name(f.file_name@),
            None => true,
        }
    &&& forall|i: int|
        0 <= i < p.extensions.items@.len() ==> match #[trigger] p.extensions.items@[i] {
            Some(e) => good_name(e.name@),
            None => true,
        }
}

/// Writes the whole project as a tree of files: the manifest with the
/// current version stamp and every kind's name order, then each present
/// asset's record, sidecars and overlay entries. Every name is validated
/// before it becomes a path; the first failure aborts the save.
pub fn save_project(p: &Project, extra: &ExtraData) -> (r: Result<ProjectTree, Error>)
    ensures
        r is Ok <==> wf_save(p),
        r matches Result::Ok(t) ==> tree_version(&t) == Some(CURRENT_VERSION),
{
    // every name is validated before any of them becomes a file path
    let mut i: usize = 0;
    while i < p.triggers.len()
        invariant
            forall|j: int|
                0 <= j < i ==> match #[trigger] p.triggers.items@[j] {
                    Some(t) => good_name(t.name@),
                    None => true,
                },
        decreases p.triggers.items@.len() - i,
    {
        match p.triggers.get(i) {
            Some(t) => {
                match validate_name(&t.name, KIND_TRIGGER) {
                    Ok(()) => {},
                    Err(e) => {
                        proof {
                            assert(!good_name(t.name@));
                        }
                        return Err(e);
                    },
                }
            },
            None => {},
        }
        i = i + 1;
    }
    let mut i: usize = 0;
    while i < p.sprites.len()
        invariant
            forall|j: int|
                0 <= j < i ==> match #[trigger] p.sprites.items@[j] {
                    Some(a) => good_name(a.name@),
                    None => true,
                },
        decreases p.sprites.items@.len() - i,
    {
        match p.sprites.get(i) {
            Some(a) => {
                match validate_name(&a.name, KIND_SPRITE) {
                    Ok(()) => {},
                    Err(e) => {
                        proof {
                            assert(!wf_sprite_slot(p.sprites.items@[i as int]));
                        }
                        return Err(e);
                    },
                }
            },
            None => {},
        }
        i = i + 1;
    }
    let mut i: usize = 0;
    while i < p.sounds.len()
        invariant
            forall|j: int|
                0 <= j < i ==> match #[trigger] p.sounds.items@[j] {
                    Some(a) => good_name(a.name@),
                    None => true,
                },
        decreases p.sounds.items@.len() - i,
    {
        match p.sounds.get(i) {
            Some(a) => {
                match validate_name(&a.name, KIND_SOUND) {
                    Ok(()) => {},
                    Err(e) => {
                        return Err(e);
                    },
                }
            },
            None => {},
        }
        i = i + 1;
    }
    let mut i: usize = 0;
    while i < p.backgrounds.len()
        invariant
            forall|j: int|
                0 <= j < i ==> match #[trigger] p.backgrounds.items@[j] {
                    Some(a) => good_name(a.name@),
                    None => true,
                },
        decreases p.backgrounds.items@.len() - i,
    {
        match p.backgrounds.get(i) {
            Some(a) => {
                match validate_name(&a.name, KIND_BACKGROUND) {
                    Ok(()) => {},
                    Err(e) => {
                        proof {
                            assert(!wf_background_slot(p.backgrounds.items@[i as int]));
                        }
                        return Err(e);
                    },
                }
            },
            None => {},
        }
        i = i + 1;
    }
    let mut i: usize = 0;
    while i < p.paths.len()
        invariant
            forall|j: int|
                0 <= j < i ==> match #[trigger] p.paths.items@[j] {
                    Some(a) => good_name(a.name@),
                    None => true,
                },
        decreases p.paths.items@.len() - i,
    {
        match p.paths.get(i) {
            Some(a) => {
                match validate_name(&a.name, KIND_PATH) {
                    Ok(()) => {},
                    Err(e) => {
                        proof {
                            assert(!wf_path_slot(p.paths.items@[i as int]));
                        }
                        return Err(e);
                    },
                }
            },
            None => {},
        }
        i = i + 1;
    }
    let mut i: usize = 0;
    while i < p.scripts.len()
        invariant
            forall|j: int|
                0 <= j < i ==> match #[trigger] p.scripts.items@[j] {
                    Some(a) => good_name(a.name@),
                    None => true,
                },
        decreases p.scripts.items@.len() - i,
    {
        match p.scripts.get(i) {
            Some(a) => {
                match validate_name(&a.name, KIND_SCRIPT) {
                    Ok(()) => {},
                    Err(e) => {
                        return Err(e);
                    },
                }
            },
            None => {},
        }
        i = i + 1;
    }
    let mut i: usize = 0;
    while i < p.fonts.len()
        invariant
            forall|j: int|
                0 <= j < i ==> match #[trigger] p.fonts.items@[j] {
                    Some(a) => good_name(a.name@),
                    None => true,
                },
        decreases p.fonts.items@.len() - i,
    {
        match p.fonts.get(i) {
            Some(a) => {
                match validate_name(&a.name, KIND_FONT) {
                    Ok(()) => {},
                    Err(e) => {
                        return Err(e);
                    },
                }
            },
            None => {},
        }
        i = i + 1;
    }
    let mut i: usize = 0;
    while i < p.timelines.len()
        invariant
            forall|j: int|
                0 <= j < i ==> match #[trigger] p.timelines.items@[j] {
                    Some(a) => good_name(a.name@),
                    None => true,
                },
        decreases p.timelines.items@.len() - i,
    {
        match p.timelines.get(i) {
            Some(a) => {
                match validate_name(&a.name, KIND_TIMELINE) {
                    Ok(()) => {},
                    Err(e) => {
                        proof {
                            assert(!wf_timeline_slot(p.timelines.items@[i as int]));
                        }
                        return Err(e);
                    },
                }
            },
            None => {},
        }
        i = i + 1;
    }
    let mut i: usize = 0;
    while i < p.objects.len()
        invariant
            forall|j: int|
                0 <= j < i ==> match #[trigger] p.objects.items@[j] {
                    Some(a) => good_name(a.name@),
                    None => true,
                },
        decreases p.objects.items@.len() - i,
    {
        match p.objects.get(i) {
            Some(a) => {
                match validate_name(&a.name, KIND_OBJECT) {
                    Ok(()) => {},
                    Err(e) => {
                        proof {
                            assert(!wf_object_slot(p.objects.items@[i as int]));
                        }
                        return Err(e);
                    },
                }
            },
            None => {},
        }
        i = i + 1;
    }
    let mut i: usize = 0;
    while i < p.rooms.len()
        invariant
            forall|j: int|
                0 <= j < i ==> match #[trigger] p.rooms.items@[j] {
                    Some(a) => good_name(a.name@),
                    None => true,
                },
        decreases p.rooms.items@.len() - i,
    {
        match p.rooms.get(i) {
            Some(a) => {
                match validate_name(&a.name, KIND_ROOM) {
                    Ok(()) => {},
                    Err(e) => {
                        proof {
                            assert(!wf_room_slot(p.rooms.items@[i as int]));
                        }
                        return Err(e);
                    },
                }
            },
            None => {},
        }
        i = i + 1;
    }
    let mut i: usize = 0;
    while i < p.included_files.len()
        invariant
            forall|j: int|
                0 <= j < i ==> match #[trigger] p.included_files.items@[j] {
                    Some(f) => good_name(f.file_name@),
                    None => true,
                },
        decreases p.included_files.items@.len() - i,
    {
        match p.included_files.get(i) {
            Some(f) => {
                match validate_name(&f.file_name, KIND_INCLUDED_FILE) {
                    Ok(()) => {},
                    Err(e) => {
                        return Err(e);
                    },
                }
            },
            None => {},
        }
        i = i + 1;
    }
    let mut i: usize = 0;
    while i < p.extensions.len()
        invariant
            forall|j: int|
                0 <= j < i ==> match #[trigger] p.extensions.items@[j] {
                    Some(e) => good_name(e.name@),
                    None => true,
                },
        decreases p.extensions.items@.len() - i,
    {
        match p.extensions.get(i) {
            Some(e) => {
                match validate_name(&e.name, KIND_EXTENSION) {
                    Ok(()) => {},
                    Err(er) => {
                        return Err(er);
                    },
                }
            },
            None => {},
        }
        i = i + 1;
    }

    let mut tree = ProjectTree::new();
    let mut manifest: Vec<(u8, Vec<u8>)> = Vec::new();
    let mut vver: Vec<u8> = Vec::new();
    push_u64(&mut vver, CURRENT_VERSION);
    proof {
        assert(vver@ =~= dec_of(CURRENT_VERSION as nat));
        crate::bytes::lemma_dec_of_digits(CURRENT_VERSION as nat);
        crate::codec_misc::lemma_digits_no_nl(dec_of(CURRENT_VERSION as nat));
    }
    manifest.push((MK_VERSION, vver));

    let (obj_names, obj_present) = names_of_assets(&p.objects);
    let (bg_names, bg_present) = names_of_assets(&p.backgrounds);
    let (spr_names, spr_present) = names_of_assets(&p.sprites);
    let (room_names, room_present) = names_of_assets(&p.rooms);
    proof {
        // valid names hold no line break, and deleted slots project to the
        // empty reference, so every projected name fits on a header line
        assert forall|k: int| 0 <= k < obj_names@.len() implies crate::kv::no_nl(
            (#[trigger] obj_names@[k])@,
        ) by {
            match p.objects.items@[k] {
                Some(a) => {
                    assert(good_name(a.name@));
                    assert(obj_names@[k]@ == a.name@);
                },
                None => {},
            }
        }
    }

    // triggers
    let mut i: usize = 0;
    while i < p.triggers.len()
        invariant
            forall|j: int|
                0 <= j < tree_view(&tree).len() ==> (#[trigger] tree_view(&tree)[j]).0.len()
                    >= 3,
            manifest@.len() >= 1,
            manifest@[0].0 == MK_VERSION,
            manifest@[0].1@ == dec_of(CURRENT_VERSION as nat),
            forall|j: int| 1 <= j < manifest@.len() ==> (#[trigger] manifest@[j]).0 != MK_VERSION,
            forall|j: int|
                0 <= j < manifest@.len() ==> (#[trigger] manifest@[j]).0 != crate::bytes::NL
                    && crate::kv::no_nl((#[trigger] manifest@[j]).1@),
            forall|j: int|
                0 <= j < p.triggers.items@.len() ==> match #[trigger] p.triggers.items@[j] {
                    Some(t) => good_name(t.name@),
                    None => true,
                },
        decreases p.triggers.items@.len() - i,
    {
        match p.triggers.get(i) {
            Some(t) => {
                manifest.push((MK_TRIGGER, bytes_to_vec(t.name.as_slice())));
                let pairs = encode_trigger(t);
                put_kv(&mut tree, asset_path(c_triggers(), &t.name, c_asset_txt()), &pairs);
                tree.put(
                    asset_path(c_triggers(), &t.name, c_code_gml()),
                    bytes_to_vec(t.condition.as_slice()),
                );
            },
            None => {},
        }
        i = i + 1;
    }
    // sprites
    let mut i: usize = 0;
    while i < p.sprites.len()
        invariant
            forall|j: int|
                0 <= j < tree_view(&tree).len() ==> (#[trigger] tree_view(&tree)[j]).0.len()
                    >= 3,
            manifest@.len() >= 1,
            manifest@[0].0 == MK_VERSION,
            manifest@[0].1@ == dec_of(CURRENT_VERSION as nat),
            forall|j: int| 1 <= j < manifest@.len() ==> (#[trigger] manifest@[j]).0 != MK_VERSION,
            forall|j: int|
                0 <= j < manifest@.len() ==> (#[trigger] manifest@[j]).0 != crate::bytes::NL
                    && crate::kv::no_nl((#[trigger] manifest@[j]).1@),
            forall|j: int|
                0 <= j < p.sprites.items@.len() ==> match #[trigger] p.sprites.items@[j] {
                    Some(a) => good_name(a.name@),
                    None => true,
                },
            forall|j: int|
                0 <= j < i ==> wf_sprite_slot(#[trigger] p.sprites.items@[j]),
        decreases p.sprites.items@.len() - i,
    {
        match p.sprites.get(i) {
            Some(a) => {
                manifest.push((MK_SPRITE, bytes_to_vec(a.name.as_slice())));
                let rp = asset_path(c_sprites(), &a.name, c_asset_txt());
                let nf = match len_u32(a.body.frames.len(), &rp) {
                    Ok(n) => n,
                    Err(e) => {
                        proof {
                            assert(!wf_sprite_slot(p.sprites.items@[i as int]));
                        }
                        return Err(e);
                    },
                };
                let pairs = encode_sprite(&a.body, nf);
                put_kv(&mut tree, rp, &pairs);
                let mut k: usize = 0;
                while k < a.body.frames.len()
                    invariant
                forall|j: int|
                    0 <= j < tree_view(&tree).len() ==> (
                    #[trigger] tree_view(&tree)[j]).0.len() >= 3,
                        0 <= i < p.sprites.items@.len(),
                        p.sprites.items@[i as int] matches Some(aa) && aa.body.frames@
                            == a.body.frames@ && aa.name@ == a.name@ && aa.body.frames@.len()
                            <= u32::MAX,
                        forall|m: int|
                            0 <= m < k ==> wf_frame(#[trigger] a.body.frames@[m]),
                    decreases a.body.frames@.len() - k,
                {
                    let fpath = asset_path4(c_sprites(), &a.name, c_frames(), c_index(k as u64));
                    let png = match frame_to_png(&a.body.frames[k], &fpath) {
                        Ok(v) => v,
                        Err(e) => {
                            proof {
                                assert(!wf_frame(a.body.frames@[k as int]));
                                assert(!wf_sprite_slot(p.sprites.items@[i as int]));
                            }
                            return Err(e);
                        },
                    };
                    tree.put(fpath, png);
                    k = k + 1;
                }
                proof {
                    assert(wf_sprite_slot(p.sprites.items@[i as int])) by {
                        assert(good_name(a.name@));
                    }
                }
            },
            None => {},
        }
        i = i + 1;
    }
    // sounds
    let mut i: usize = 0;
    while i < p.sounds.len()
        invariant
            forall|j: int|
                0 <= j < p.sounds.items@.len() ==> match #[trigger] p.sounds.items@[j] {
                    Some(a) => good_name(a.name@),
                    None => true,
                },
            forall|j: int|
                0 <= j < tree_view(&tree).len() ==> (#[trigger] tree_view(&tree)[j]).0.len()
                    >= 3,
            manifest@.len() >= 1,
            manifest@[0].0 == MK_VERSION,
            manifest@[0].1@ == dec_of(CURRENT_VERSION as nat),
            forall|j: int| 1 <= j < manifest@.len() ==> (#[trigger] manifest@[j]).0 != MK_VERSION,
            forall|j: int|
                0 <= j < manifest@.len() ==> (#[trigger] manifest@[j]).0 != crate::bytes::NL
                    && crate::kv::no_nl((#[trigger] manifest@[j]).1@),
        decreases p.sounds.items@.len() - i,
    {
        match p.sounds.get(i) {
            Some(a) => {
                manifest.push((MK_SOUND, bytes_to_vec(a.name.as_slice())));
                let has = match &a.body.data {
                    Some(_) => true,
                    None => false,
                };
                let pairs = encode_sound(&a.body, has);
                put_kv(&mut tree, asset_path(c_sounds(), &a.name, c_asset_txt()), &pairs);
                match &a.body.data {
                    Some(d) => {
                        tree.put(
                            asset_path(c_sounds(), &a.name, c_data_bin()),
                            bytes_to_vec(d.as_slice()),
                        );
                    },
                    None => {},
                }
            },
            None => {},
        }
        i = i + 1;
    }
    // backgrounds
    let mut i: usize = 0;
    while i < p.backgrounds.len()
        invariant
            forall|j: int|
                0 <= j < tree_view(&tree).len() ==> (#[trigger] tree_view(&tree)[j]).0.len()
                    >= 3,
            manifest@.len() >= 1,
            manifest@[0].0 == MK_VERSION,
            manifest@[0].1@ == dec_of(CURRENT_VERSION as nat),
            forall|j: int| 1 <= j < manifest@.len() ==> (#[trigger] manifest@[j]).0 != MK_VERSION,
            forall|j: int|
                0 <= j < manifest@.len() ==> (#[trigger] manifest@[j]).0 != crate::bytes::NL
                    && crate::kv::no_nl((#[trigger] manifest@[j]).1@),
            forall|j: int|
                0 <= j < p.backgrounds.items@.len() ==> match #[trigger] p.backgrounds.items@[j] {
                    Some(a) => good_name(a.name@),
                    None => true,
                },
            forall|j: int|
                0 <= j < i ==> wf_background_slot(#[trigger] p.backgrounds.items@[j]),
        decreases p.backgrounds.items@.len() - i,
    {
        match p.backgrounds.get(i) {
            Some(a) => {
                manifest.push((MK_BACKGROUND, bytes_to_vec(a.name.as_slice())));
                let pairs = encode_background(&a.body);
                put_kv(&mut tree, asset_path(c_backgrounds(), &a.name, c_asset_txt()), &pairs);
                let ipath = asset_path(c_backgrounds(), &a.name, c_image_png());
                let png = match frame_to_png(&a.body.frame, &ipath) {
                    Ok(v) => v,
                    Err(e) => {
                        proof {
                            assert(!wf_background_slot(p.backgrounds.items@[i as int]));
                        }
                        return Err(e);
                    },
                };
                tree.put(ipath, png);
                proof {
                    assert(p.backgrounds.items@[i as int] matches Some(aa) && wf_frame(
                        aa.body.frame,
                    ) && good_name(aa.name@));
                    assert(wf_background_slot(p.backgrounds.items@[i as int]));
                }
            },
            None => {},
        }
        i = i + 1;
    }
    // paths
    let mut i: usize = 0;
    while i < p.paths.len()
        invariant
            forall|j: int|
                0 <= j < tree_view(&tree).len() ==> (#[trigger] tree_view(&tree)[j]).0.len()
                    >= 3,
            manifest@.len() >= 1,
            manifest@[0].0 == MK_VERSION,
            manifest@[0].1@ == dec_of(CURRENT_VERSION as nat),
            forall|j: int| 1 <= j < manifest@.len() ==> (#[trigger] manifest@[j]).0 != MK_VERSION,
            forall|j: int|
                0 <= j < manifest@.len() ==> (#[trigger] manifest@[j]).0 != crate::bytes::NL
                    && crate::kv::no_nl((#[trigger] manifest@[j]).1@),
            room_names@.len() == room_present@.len(),
            forall|j: int|
                0 <= j < p.paths.items@.len() ==> match #[trigger] p.paths.items@[j] {
                    Some(a) => good_name(a.name@),
                    None => true,
                },
            forall|j: int| 0 <= j < i ==> wf_path_slot(#[trigger] p.paths.items@[j]),
        decreases p.paths.items@.len() - i,
    {
        match p.paths.get(i) {
            Some(a) => {
                let rp = asset_path(c_paths(), &a.name, c_asset_txt());
                let np = match len_u32(a.body.points.len(), &rp) {
                    Ok(n) => n,
                    Err(e) => {
                        proof {
                            assert(!wf_path_slot(p.paths.items@[i as int]));
                        }
                        return Err(e);
                    },
                };
                manifest.push((MK_PATH, bytes_to_vec(a.name.as_slice())));
                let rname = ref_to_name(&room_names, &room_present,
                    a.body.path_editor_room_background);
                let pairs = encode_path(&a.body, &rname, np);
                put_kv(&mut tree, rp, &pairs);
                let mut k: usize = 0;
                while k < a.body.points.len()
                    invariant
                forall|j: int|
                    0 <= j < tree_view(&tree).len() ==> (
                    #[trigger] tree_view(&tree)[j]).0.len() >= 3,
                        0 <= i < p.paths.items@.len(),
                        p.paths.items@[i as int] matches Some(aa) && aa.body.points@
                            == a.body.points@,
                    decreases a.body.points@.len() - k,
                {
                    let pp = encode_path_point(&a.body.points[k]);
                    put_kv(
                        &mut tree,
                        asset_path4(c_paths(), &a.name, c_points(), c_index(k as u64)),
                        &pp,
                    );
                    k = k + 1;
                }
                proof {
                    assert(wf_path_slot(p.paths.items@[i as int]));
                }
            },
            None => {},
        }
        i = i + 1;
    }
    // scripts
    let mut i: usize = 0;
    while i < p.scripts.len()
        invariant
            forall|j: int|
                0 <= j < p.scripts.items@.len() ==> match #[trigger] p.scripts.items@[j] {
                    Some(a) => good_name(a.name@),
                    None => true,
                },
            forall|j: int|
                0 <= j < tree_view(&tree).len() ==> (#[trigger] tree_view(&tree)[j]).0.len()
                    >= 3,
            manifest@.len() >= 1,
            manifest@[0].0 == MK_VERSION,
            manifest@[0].1@ == dec_of(CURRENT_VERSION as nat),
            forall|j: int| 1 <= j < manifest@.len() ==> (#[trigger] manifest@[j]).0 != MK_VERSION,
            forall|j: int|
                0 <= j < manifest@.len() ==> (#[trigger] manifest@[j]).0 != crate::bytes::NL
                    && crate::kv::no_nl((#[trigger] manifest@[j]).1@),
        decreases p.scripts.items@.len() - i,
    {
        match p.scripts.get(i) {
            Some(a) => {
                manifest.push((MK_SCRIPT, bytes_to_vec(a.name.as_slice())));
                tree.put(
                    asset_path(c_scripts(), &a.name, c_code_gml()),
                    bytes_to_vec(a.body.source.as_slice()),
                );
            },
            None => {},
        }
        i = i + 1;
    }
    // fonts
    let mut i: usize = 0;
    while i < p.fonts.len()
        invariant
            forall|j: int|
                0 <= j < p.fonts.items@.len() ==> match #[trigger] p.fonts.items@[j] {
                    Some(a) => good_name(a.name@),
                    None => true,
                },
            forall|j: int|
                0 <= j < tree_view(&tree).len() ==> (#[trigger] tree_view(&tree)[j]).0.len()
                    >= 3,
            manifest@.len() >= 1,
            manifest@[0].0 == MK_VERSION,
            manifest@[0].1@ == dec_of(CURRENT_VERSION as nat),
            forall|j: int| 1 <= j < manifest@.len() ==> (#[trigger] manifest@[j]).0 != MK_VERSION,
            forall|j: int|
                0 <= j < manifest@.len() ==> (#[trigger] manifest@[j]).0 != crate::bytes::NL
                    && crate::kv::no_nl((#[trigger] manifest@[j]).1@),
        decreases p.fonts.items@.len() - i,
    {
        match p.fonts.get(i) {
            Some(a) => {
                manifest.push((MK_FONT, bytes_to_vec(a.name.as_slice())));
                let pairs = encode_font(&a.body);
                put_kv(&mut tree, asset_path(c_fonts(), &a.name, c_asset_txt()), &pairs);
            },
            None => {},
        }
        i = i + 1;
    }
    // timelines
    let mut i: usize = 0;
    while i < p.timelines.len()
        invariant
            forall|j: int|
                0 <= j < tree_view(&tree).len() ==> (#[trigger] tree_view(&tree)[j]).0.len()
                    >= 3,
            manifest@.len() >= 1,
            manifest@[0].0 == MK_VERSION,
            manifest@[0].1@ == dec_of(CURRENT_VERSION as nat),
            forall|j: int| 1 <= j < manifest@.len() ==> (#[trigger] manifest@[j]).0 != MK_VERSION,
            forall|j: int|
                0 <= j < manifest@.len() ==> (#[trigger] manifest@[j]).0 != crate::bytes::NL
                    && crate::kv::no_nl((#[trigger] manifest@[j]).1@),
            obj_names@.len() == obj_present@.len(),
            forall|k: int|
                0 <= k < obj_names@.len() ==> crate::kv::no_nl((#[trigger] obj_names@[k])@),
            forall|j: int|
                0 <= j < p.timelines.items@.len() ==> match #[trigger] p.timelines.items@[j] {
                    Some(a) => good_name(a.name@),
                    None => true,
                },
            forall|j: int| 0 <= j < i ==> wf_timeline_slot(#[trigger] p.timelines.items@[j]),
        decreases p.timelines.items@.len() - i,
    {
        match p.timelines.get(i) {
            Some(a) => {
                let rp = asset_path(c_timelines(), &a.name, c_asset_txt());
                if a.body.moment_times.len() != a.body.moment_events.len() {
                    proof {
                        assert(!wf_timeline_slot(p.timelines.items@[i as int]));
                    }
                    return Err(Error::SyntaxError(clone_path(&rp)));
                }
                let nm = match len_u32(a.body.moment_times.len(), &rp) {
                    Ok(n) => n,
                    Err(e) => {
                        proof {
                            assert(!wf_timeline_slot(p.timelines.items@[i as int]));
                        }
                        return Err(e);
                    },
                };
                manifest.push((MK_TIMELINE, bytes_to_vec(a.name.as_slice())));
                let pairs = encode_timeline(&a.body, nm);
                put_kv(&mut tree, rp, &pairs);
                let mut k: usize = 0;
                while k < a.body.moment_times.len()
                    invariant
                forall|j: int|
                    0 <= j < tree_view(&tree).len() ==> (
                    #[trigger] tree_view(&tree)[j]).0.len() >= 3,
                        0 <= i < p.timelines.items@.len(),
                        p.timelines.items@[i as int] matches Some(aa) && aa.body.moment_events@
                            == a.body.moment_events@,
                        a.body.moment_times@.len() == a.body.moment_events@.len(),
                        obj_names@.len() == obj_present@.len(),
                        forall|m: int|
                            0 <= m < obj_names@.len() ==> crate::kv::no_nl(
                                (#[trigger] obj_names@[m])@,
                            ),
                        forall|m: int|
                            0 <= m < k ==> wf_event_actions(#[trigger] a.body.moment_events@[m]),
                    decreases a.body.moment_times@.len() - k,
                {
                    let mp = encode_moment(a.body.moment_times[k]);
                    put_kv(
                        &mut tree,
                        asset_path4(c_timelines(), &a.name, c_moments(), c_index(k as u64)),
                        &mp,
                    );
                    let tpath = asset_path4(
                        c_timelines(),
                        &a.name,
                        c_moments(),
                        c_index_code(k as u64),
                    );
                    let text = match save_event_text(
                        &a.body.moment_events[k].actions,
                        &obj_names,
                        &obj_present,
                        &tpath,
                    ) {
                        Ok(v) => v,
                        Err(e) => {
                            proof {
                                assert(!wf_event_actions(a.body.moment_events@[k as int]));
                                assert(!wf_timeline_slot(p.timelines.items@[i as int]));
                            }
                            return Err(e);
                        },
                    };
                    tree.put(tpath, text);
                    k = k + 1;
                }
                proof {
                    assert(wf_timeline_slot(p.timelines.items@[i as int])) by {
                        assert(good_name(a.name@));
                    }
                }
            },
            None => {},
        }
        i = i + 1;
    }
    // objects
    let mut i: usize = 0;
    while i < p.objects.len()
        invariant
            forall|j: int|
                0 <= j < tree_view(&tree).len() ==> (#[trigger] tree_view(&tree)[j]).0.len()
                    >= 3,
            manifest@.len() >= 1,
            manifest@[0].0 == MK_VERSION,
            manifest@[0].1@ == dec_of(CURRENT_VERSION as nat),
            forall|j: int| 1 <= j < manifest@.len() ==> (#[trigger] manifest@[j]).0 != MK_VERSION,
            forall|j: int|
                0 <= j < manifest@.len() ==> (#[trigger] manifest@[j]).0 != crate::bytes::NL
                    && crate::kv::no_nl((#[trigger] manifest@[j]).1@),
            obj_names@.len() == obj_present@.len(),
            spr_names@.len() == spr_present@.len(),
            forall|k: int|
                0 <= k < obj_names@.len() ==> crate::kv::no_nl((#[trigger] obj_names@[k])@),
            forall|j: int|
                0 <= j < p.objects.items@.len() ==> match #[trigger] p.objects.items@[j] {
                    Some(a) => good_name(a.name@),
                    None => true,
                },
            forall|j: int| 0 <= j < i ==> wf_object_slot(#[trigger] p.objects.items@[j]),
        decreases p.objects.items@.len() - i,
    {
        match p.objects.get(i) {
            Some(a) => {
                let rp = asset_path(c_objects(), &a.name, c_asset_txt());
                let ne = match len_u32(a.body.events.len(), &rp) {
                    Ok(n) => n,
                    Err(e) => {
                        proof {
                            assert(!wf_object_slot(p.objects.items@[i as int]));
                        }
                        return Err(e);
                    },
                };
                manifest.push((MK_OBJECT, bytes_to_vec(a.name.as_slice())));
                let sref = ref_to_name(&spr_names, &spr_present, a.body.sprite_index);
                let pref = ref_to_name(&obj_names, &obj_present, a.body.parent_index);
                let mref = ref_to_name(&spr_names, &spr_present, a.body.mask_index);
                let pairs = encode_object(&a.body, &sref, &pref, &mref, ne);
                put_kv(&mut tree, rp, &pairs);
                let mut k: usize = 0;
                while k < a.body.events.len()
                    invariant
                forall|j: int|
                    0 <= j < tree_view(&tree).len() ==> (
                    #[trigger] tree_view(&tree)[j]).0.len() >= 3,
                        0 <= i < p.objects.items@.len(),
                        p.objects.items@[i as int] matches Some(aa) && aa.body.events@
                            == a.body.events@,
                        obj_names@.len() == obj_present@.len(),
                        forall|m: int|
                            0 <= m < obj_names@.len() ==> crate::kv::no_nl(
                                (#[trigger] obj_names@[m])@,
                            ),
                        forall|m: int|
                            0 <= m < k ==> wf_event_actions(#[trigger] a.body.events@[m]),
                    decreases a.body.events@.len() - k,
                {
                    let ep = encode_event(&a.body.events[k]);
                    put_kv(
                        &mut tree,
                        asset_path4(c_objects(), &a.name, c_events(), c_index(k as u64)),
                        &ep,
                    );
                    let tpath = asset_path4(
                        c_objects(),
                        &a.name,
                        c_events(),
                        c_index_code(k as u64),
                    );
                    let text = match save_event_text(
                        &a.body.events[k].actions,
                        &obj_names,
                        &obj_present,
                        &tpath,
                    ) {
                        Ok(v) => v,
                        Err(e) => {
                            proof {
                                assert(!wf_event_actions(a.body.events@[k as int]));
                                assert(!wf_object_slot(p.objects.items@[i as int]));
                            }
                            return Err(e);
                        },
                    };
                    tree.put(tpath, text);
                    k = k + 1;
                }
                proof {
                    assert(wf_object_slot(p.objects.items@[i as int])) by {
                        assert(good_name(a.name@));
                    }
                }
            },
            None => {},
        }
        i = i + 1;
    }
    // rooms
    let mut i: usize = 0;
    while i < p.rooms.len()
        invariant
            forall|j: int|
                0 <= j < tree_view(&tree).len() ==> (#[trigger] tree_view(&tree)[j]).0.len()
                    >= 3,
            manifest@.len() >= 1,
            manifest@[0].0 == MK_VERSION,
            manifest@[0].1@ == dec_of(CURRENT_VERSION as nat),
            forall|j: int| 1 <= j < manifest@.len() ==> (#[trigger] manifest@[j]).0 != MK_VERSION,
            forall|j: int|
                0 <= j < manifest@.len() ==> (#[trigger] manifest@[j]).0 != crate::bytes::NL
                    && crate::kv::no_nl((#[trigger] manifest@[j]).1@),
            obj_names@.len() == obj_present@.len(),
            bg_names@.len() == bg_present@.len(),
            forall|j: int|
                0 <= j < p.rooms.items@.len() ==> match #[trigger] p.rooms.items@[j] {
                    Some(a) => good_name(a.name@),
                    None => true,
                },
            forall|j: int| 0 <= j < i ==> wf_room_slot(#[trigger] p.rooms.items@[j]),
        decreases p.rooms.items@.len() - i,
    {
        match p.rooms.get(i) {
            Some(a) => {
                manifest.push((MK_ROOM, bytes_to_vec(a.name.as_slice())));
                let ghost tv0 = tree_view(&tree);
                match save_room_files(
                    &mut tree,
                    &a.name,
                    &a.body,
                    extra,
                    &obj_names,
                    &obj_present,
                    &bg_names,
                    &bg_present,
                ) {
                    Ok(()) => {},
                    Err(e) => {
                        proof {
                            assert(!wf_room_slot(p.rooms.items@[i as int]));
                        }
                        return Err(e);
                    },
                }
                proof {
                    assert(wf_room_slot(p.rooms.items@[i as int])) by {
                        assert(good_name(a.name@));
                    }
                }
                proof {
                    assert forall|j: int| 0 <= j < tree_view(&tree).len() implies (
                    #[trigger] tree_view(&tree)[j]).0.len() >= 3 by {
                        if j < tv0.len() {
                            assert(tree_view(&tree).take(tv0.len() as int)[j] == tree_view(
                                &tree,
                            )[j]);
                            assert(tv0[j].0.len() >= 3);
                        }
                    }
                }
            },
            None => {},
        }
        i = i + 1;
    }
    // included files
    let mut i: usize = 0;
    while i < p.included_files.len()
        invariant
            forall|j: int|
                0 <= j < p.included_files.items@.len() ==> match
                    #[trigger] p.included_files.items@[j] {
                    Some(f) => good_name(f.file_name@),
                    None => true,
                },
            forall|j: int|
                0 <= j < tree_view(&tree).len() ==> (#[trigger] tree_view(&tree)[j]).0.len()
                    >= 3,
            manifest@.len() >= 1,
            manifest@[0].0 == MK_VERSION,
            manifest@[0].1@ == dec_of(CURRENT_VERSION as nat),
            forall|j: int| 1 <= j < manifest@.len() ==> (#[trigger] manifest@[j]).0 != MK_VERSION,
            forall|j: int|
                0 <= j < manifest@.len() ==> (#[trigger] manifest@[j]).0 != crate::bytes::NL
                    && crate::kv::no_nl((#[trigger] manifest@[j]).1@),
        decreases p.included_files.items@.len() - i,
    {
        match p.included_files.get(i) {
            Some(f) => {
                manifest.push((MK_INCLUDED, bytes_to_vec(f.file_name.as_slice())));
                let pairs = encode_included_file(f);
                put_kv(&mut tree, asset_path(c_datafiles(), &f.file_name, c_asset_txt()), &pairs);
                match &f.data {
                    Some(d) => {
                        tree.put(
                            asset_path(c_datafiles(), &f.file_name, c_data_bin()),
                            bytes_to_vec(d.as_slice()),
                        );
                    },
                    None => {},
                }
            },
            None => {},
        }
        i = i + 1;
    }
    // extensions
    let mut i: usize = 0;
    while i < p.extensions.len()
        invariant
            forall|j: int|
                0 <= j < p.extensions.items@.len() ==> match #[trigger] p.extensions.items@[j] {
                    Some(e) => good_name(e.name@),
                    None => true,
                },
            forall|j: int|
                0 <= j < tree_view(&tree).len() ==> (#[trigger] tree_view(&tree)[j]).0.len()
                    >= 3,
            manifest@.len() >= 1,
            manifest@[0].0 == MK_VERSION,
            manifest@[0].1@ == dec_of(CURRENT_VERSION as nat),
            forall|j: int| 1 <= j < manifest@.len() ==> (#[trigger] manifest@[j]).0 != MK_VERSION,
            forall|j: int|
                0 <= j < manifest@.len() ==> (#[trigger] manifest@[j]).0 != crate::bytes::NL
                    && crate::kv::no_nl((#[trigger] manifest@[j]).1@),
        decreases p.extensions.items@.len() - i,
    {
        match p.extensions.get(i) {
            Some(e) => {
                manifest.push((MK_EXTENSION, bytes_to_vec(e.name.as_slice())));
            },
            None => {},
        }
        i = i + 1;
    }
    let mut mpath: Vec<Vec<u8>> = Vec::new();
    mpath.push(c_manifest());
    let ghost tv_before = tree_view(&tree);
    let ghost mp = path_view(mpath@);
    proof {
        assert(mp =~= manifest_path_spec());
    }
    put_kv(&mut tree, mpath, &manifest);
    proof {
        let mv = pairs_view(manifest@);
        assert forall|j: int| 0 <= j < tv_before.len() implies (#[trigger] tv_before[j]).0
            != mp by {
            assert(tv_before[j].0.len() >= 3);
            assert(mp.len() == 1);
        }
        crate::tree::lemma_lookup_appended(
            tv_before,
            (mp, crate::kv::enc_pairs(mv)),
            mp,
        );
        assert(crate::kv::wf_pairs(mv)) by {
            assert(forall|j: int|
                0 <= j < mv.len() ==> #[trigger] mv[j] == (manifest@[j].0, manifest@[j].1@));
        }
        crate::kv::lemma_kv_round_trip(mv);
        assert(mv[0] == (MK_VERSION, dec_of(CURRENT_VERSION as nat)));
        assert(forall|j: int| 1 <= j < mv.len() ==> (#[trigger] mv[j]).0 != MK_VERSION) by {
            assert(forall|j: int|
                0 <= j < mv.len() ==> #[trigger] mv[j] == (manifest@[j].0, manifest@[j].1@));
        }
        crate::fields::lemma_kv_map_first_only(mv, MK_VERSION);
        crate::bytes::lemma_u64_round_trip(CURRENT_VERSION);
        assert(tree_version(&tree) == Some(CURRENT_VERSION));
    }
    Ok(tree)
}

/// The path of the manifest file.
pub open spec fn manifest_path_spec() -> Seq<Seq<u8>> {
    seq![crate::tree::s_manifest()]
}

/// The version a tree claims: the parsed stamp of its manifest, zero when
/// the manifest carries none, and nothing when the manifest is absent, is
/// not key=value text, or stamps an unreadable number.
pub open spec fn tree_version(tree: &ProjectTree) -> Option<u64> {
    match lookup_in(tree_view(tree), manifest_path_spec()) {
        None => None,
        Some(bytes) => match parse_kv(bytes) {
            None => None,
            Some(ps) => {
                let m = kv_map(ps);
                if m.dom().contains(MK_VERSION) {
                    crate::bytes::parse_u64_spec(m[MK_VERSION])
                } else {
                    Some(0)
                }
            },
        },
    }
}

/// The values of all manifest lines with this key, in file order.
pub open spec fn names_for_key(ps: Seq<(u8, Seq<u8>)>, key: u8) -> Seq<Seq<u8>>
    decreases ps.len(),
{
    if ps.len() == 0 {
        Seq::empty()
    } else {
        let rest = names_for_key(ps.drop_last(), key);
        if ps.last().0 == key {
            rest.push(ps.last().1)
        } else {
            rest
        }
    }
}

pub proof fn lemma_names_for_key_push(ps: Seq<(u8, Seq<u8>)>, q: (u8, Seq<u8>), key: u8)
    ensures
        names_for_key(ps.push(q), key) == if q.0 == key {
            names_for_key(ps, key).push(q.1)
        } else {
            names_for_key(ps, key)
        },
{
    assert(ps.push(q).drop_last() =~= ps);
    assert(ps.push(q).last() == q);
}

/// The name order one kind's manifest lines give, for a tree whose
/// manifest is present and parses.
pub open spec fn manifest_names(tree: &ProjectTree, key: u8) -> Seq<Seq<u8>> {
    names_for_key(
        (parse_kv((lookup_in(tree_view(tree), manifest_path_spec()))->0))->0,
        key,
    )
}

pub open spec fn manifest_key_known(k: u8) -> bool {
    k == MK_VERSION || k == MK_TRIGGER || k == MK_SPRITE || k == MK_SOUND || k == MK_BACKGROUND
        || k == MK_PATH || k == MK_SCRIPT || k == MK_FONT || k == MK_TIMELINE || k == MK_OBJECT
        || k == MK_ROOM || k == MK_INCLUDED || k == MK_EXTENSION
}

/// Every line of the manifest carries a key this codec defines.
pub open spec fn manifest_keys_known(tree: &ProjectTree) -> bool {
    lookup_in(tree_view(tree), manifest_path_spec()) matches Some(bytes) && parse_kv(bytes)
        matches Some(ps) && (forall|i: int|
        0 <= i < ps.len() ==> manifest_key_known((#[trigger] ps[i]).0))
}

/// The id of one instance of one present room slot.
pub open spec fn inst_id_of(rooms: Seq<Option<Asset<Room>>>, r: int, k: int) -> u32 {
    (rooms[r]->0).body.instances@[k].id
}

/// A valid (room slot, instance) index pair.
pub open spec fn inst_ok_idx(rooms: Seq<Option<Asset<Room>>>, r: int, k: int) -> bool {
    0 <= r < rooms.len() && rooms[r] is Some && 0 <= k < (rooms[r]->0).body.instances@.len()
}

/// Every instance id is unique across every room of the project.
pub open spec fn instance_ids_unique(rooms: Seq<Option<Asset<Room>>>) -> bool {
    forall|r1: int, k1: int, r2: int, k2: int|
        inst_ok_idx(rooms, r1, k1) && inst_ok_idx(rooms, r2, k2) && (r1 != r2 || k1 != k2)
            ==> #[trigger] inst_id_of(rooms, r1, k1) != #[trigger] inst_id_of(rooms, r2, k2)
}

/// The id of one tile of one present room slot.
pub open spec fn tile_id_of(rooms: Seq<Option<Asset<Room>>>, r: int, k: int) -> u32 {
    (rooms[r]->0).body.tiles@[k].id
}

pub open spec fn tile_ok_idx(rooms: Seq<Option<Asset<Room>>>, r: int, k: int) -> bool {
    0 <= r < rooms.len() && rooms[r] is Some && 0 <= k < (rooms[r]->0).body.tiles@.len()
}

/// Every tile id is unique across every room of the project.
pub open spec fn tile_ids_unique(rooms: Seq<Option<Asset<Room>>>) -> bool {
    forall|r1: int, k1: int, r2: int, k2: int|
        tile_ok_idx(rooms, r1, k1) && tile_ok_idx(rooms, r2, k2) && (r1 != r2 || k1 != k2)
            ==> #[trigger] tile_id_of(rooms, r1, k1) != #[trigger] tile_id_of(rooms, r2, k2)
}

/// A file that may be absent; absence means the documented defaults.
fn get_optional<'a>(tree: &'a ProjectTree, path: &Vec<Vec<u8>>) -> (r: Option<&'a Vec<u8>>) {
    tree.get(path)
}

/// The manifest, split into the version stamp and each kind's name order.
struct Manifest {
    version: u64,
    triggers: Vec<Vec<u8>>,
    sprites: Vec<Vec<u8>>,
    sounds: Vec<Vec<u8>>,
    backgrounds: Vec<Vec<u8>>,
    paths: Vec<Vec<u8>>,
    scripts: Vec<Vec<u8>>,
    fonts: Vec<Vec<u8>>,
    timelines: Vec<Vec<u8>>,
    objects: Vec<Vec<u8>>,
    rooms: Vec<Vec<u8>>,
    included: Vec<Vec<u8>>,
    extensions: Vec<Vec<u8>>,
}

/// Reads the manifest and applies the version gate: a tree stamped newer
/// than this codec understands is refused before anything else is read.
fn read_manifest(tree: &ProjectTree) -> (r: Result<Manifest, Error>)
    ensures
        r == Result::<Manifest, Error>::Err(Error::OldGM82) <==> (tree_version(tree) matches Some(
            v,
        ) && v > CURRENT_VERSION),
        r matches Result::Ok(m) ==> (tree_version(tree) matches Some(v) && v == m.version && v
            <= CURRENT_VERSION),
        r is Ok ==> manifest_keys_known(tree),
        (tree_version(tree) matches Some(v) && v <= CURRENT_VERSION && manifest_keys_known(tree))
            ==> r is Ok,
        r matches Result::Ok(m) ==> {
            &&& crate::xref::names_view(m.triggers@) == manifest_names(tree, MK_TRIGGER)
            &&& crate::xref::names_view(m.sprites@) == manifest_names(tree, MK_SPRITE)
            &&& crate::xref::names_view(m.sounds@) == manifest_names(tree, MK_SOUND)
            &&& crate::xref::names_view(m.backgrounds@) == manifest_names(tree, MK_BACKGROUND)
            &&& crate::xref::names_view(m.paths@) == manifest_names(tree, MK_PATH)
            &&& crate::xref::names_view(m.scripts@) == manifest_names(tree, MK_SCRIPT)
            &&& crate::xref::names_view(m.fonts@) == manifest_names(tree, MK_FONT)
            &&& crate::xref::names_view(m.timelines@) == manifest_names(tree, MK_TIMELINE)
            &&& crate::xref::names_view(m.objects@) == manifest_names(tree, MK_OBJECT)
            &&& crate::xref::names_view(m.rooms@) == manifest_names(tree, MK_ROOM)
            &&& crate::xref::names_view(m.included@) == manifest_names(tree, MK_INCLUDED)
            &&& crate::xref::names_view(m.extensions@) == manifest_names(tree, MK_EXTENSION)
        },
{
    let mut mpath: Vec<Vec<u8>> = Vec::new();
    mpath.push(c_manifest());
    proof {
        assert(path_view(mpath@) =~= manifest_path_spec());
    }
    let data = match tree.get(&mpath) {
        Some(d) => d,
        None => {
            return Err(Error::FileMissing(mpath));
        },
    };
    let pairs = match decode_pairs(data.as_slice()) {
        Some(ps) => ps,
        None => {
            return Err(Error::SyntaxError(mpath));
        },
    };
    // the version stamp is examined before any asset is decoded
    let mut last_v: Option<Vec<u8>> = None;
    let mut i: usize = 0;
    proof {
        assert(pairs_view(pairs@).take(0) =~= Seq::<(u8, Seq<u8>)>::empty());
        assert(kv_map(pairs_view(pairs@).take(0)) == Map::<u8, Seq<u8>>::empty());
    }
    while i < pairs.len()
        invariant
            0 <= i <= pairs@.len(),
            match last_v {
                Some(v) => kv_map(pairs_view(pairs@).take(i as int)).dom().contains(MK_VERSION)
                    && kv_map(pairs_view(pairs@).take(i as int))[MK_VERSION] == v@,
                None => !kv_map(pairs_view(pairs@).take(i as int)).dom().contains(MK_VERSION),
            },
        decreases pairs@.len() - i,
    {
        let k = pairs[i].0;
        let ghost prefix = pairs_view(pairs@).take(i as int);
        let ghost v = pairs@[i as int].1@;
        proof {
            assert(pairs_view(pairs@).take(i + 1) =~= prefix.push((k, v)));
            lemma_kv_map_push(prefix, k, v);
        }
        if k == MK_VERSION {
            last_v = Some(bytes_to_vec(pairs[i].1.as_slice()));
        }
        i = i + 1;
    }
    proof {
        assert(pairs_view(pairs@).take(i as int) =~= pairs_view(pairs@));
    }
    let version: u64 = match &last_v {
        Some(v) => match parse_u64_val(v.as_slice()) {
            Some(n) => n,
            None => {
                return Err(Error::InvalidVersion(bytes_to_vec(v.as_slice())));
            },
        },
        None => 0,
    };
    if version > CURRENT_VERSION {
        return Err(Error::OldGM82);
    }
    proof {
        assert(tree_version(tree) == Some(version));
    }
    // now the name lists, in file order
    let mut m = Manifest {
        version,
        triggers: Vec::new(),
        sprites: Vec::new(),
        sounds: Vec::new(),
        backgrounds: Vec::new(),
        paths: Vec::new(),
        scripts: Vec::new(),
        fonts: Vec::new(),
        timelines: Vec::new(),
        objects: Vec::new(),
        rooms: Vec::new(),
        included: Vec::new(),
        extensions: Vec::new(),
    };
    let ghost pv = pairs_view(pairs@);
    proof {
        assert(pv.take(0) =~= Seq::<(u8, Seq<u8>)>::empty());
    }
    let mut i: usize = 0;
    while i < pairs.len()
        invariant
            0 <= i <= pairs@.len(),
            pv == pairs_view(pairs@),
            m.version == version,
            tree_version(tree) == Some(version),
            version <= CURRENT_VERSION,
            lookup_in(tree_view(tree), manifest_path_spec()) matches Some(b) && parse_kv(b)
                == Some(pv),
            forall|j: int| 0 <= j < i ==> manifest_key_known((#[trigger] pv[j]).0),
            crate::xref::names_view(m.triggers@) == names_for_key(pv.take(i as int), MK_TRIGGER),
            crate::xref::names_view(m.sprites@) == names_for_key(pv.take(i as int), MK_SPRITE),
            crate::xref::names_view(m.sounds@) == names_for_key(pv.take(i as int), MK_SOUND),
            crate::xref::names_view(m.backgrounds@) == names_for_key(
                pv.take(i as int),
                MK_BACKGROUND,
            ),
            crate::xref::names_view(m.paths@) == names_for_key(pv.take(i as int), MK_PATH),
            crate::xref::names_view(m.scripts@) == names_for_key(pv.take(i as int), MK_SCRIPT),
            crate::xref::names_view(m.fonts@) == names_for_key(pv.take(i as int), MK_FONT),
            crate::xref::names_view(m.timelines@) == names_for_key(pv.take(i as int), MK_TIMELINE),
            crate::xref::names_view(m.objects@) == names_for_key(pv.take(i as int), MK_OBJECT),
            crate::xref::names_view(m.rooms@) == names_for_key(pv.take(i as int), MK_ROOM),
            crate::xref::names_view(m.included@) == names_for_key(pv.take(i as int), MK_INCLUDED),
            crate::xref::names_view(m.extensions@) == names_for_key(
                pv.take(i as int),
                MK_EXTENSION,
            ),
        decreases pairs@.len() - i,
    {
        let k = pairs[i].0;
        let v = bytes_to_vec(pairs[i].1.as_slice());
        let ghost vv = v@;
        proof {
            assert(pv.take(i + 1) =~= pv.take(i as int).push((k, vv)));
            lemma_names_for_key_push(pv.take(i as int), (k, vv), MK_TRIGGER);
            lemma_names_for_key_push(pv.take(i as int), (k, vv), MK_SPRITE);
            lemma_names_for_key_push(pv.take(i as int), (k, vv), MK_SOUND);
            lemma_names_for_key_push(pv.take(i as int), (k, vv), MK_BACKGROUND);
            lemma_names_for_key_push(pv.take(i as int), (k, vv), MK_PATH);
            lemma_names_for_key_push(pv.take(i as int), (k, vv), MK_SCRIPT);
            lemma_names_for_key_push(pv.take(i as int), (k, vv), MK_FONT);
            lemma_names_for_key_push(pv.take(i as int), (k, vv), MK_TIMELINE);
            lemma_names_for_key_push(pv.take(i as int), (k, vv), MK_OBJECT);
            lemma_names_for_key_push(pv.take(i as int), (k, vv), MK_ROOM);
            lemma_names_for_key_push(pv.take(i as int), (k, vv), MK_INCLUDED);
            lemma_names_for_key_push(pv.take(i as int), (k, vv), MK_EXTENSION);
        }
        if k == MK_VERSION {
        } else if k == MK_TRIGGER {
            m.triggers.push(v);
        } else if k == MK_SPRITE {
            m.sprites.push(v);
        } else if k == MK_SOUND {
            m.sounds.push(v);
        } else if k == MK_BACKGROUND {
            m.backgrounds.push(v);
        } else if k == MK_PATH {
            m.paths.push(v);
        } else if k == MK_SCRIPT {
            m.scripts.push(v);
        } else if k == MK_FONT {
            m.fonts.push(v);
        } else if k == MK_TIMELINE {
            m.timelines.push(v);
        } else if k == MK_OBJECT {
            m.objects.push(v);
        } else if k == MK_ROOM {
            m.rooms.push(v);
        } else if k == MK_INCLUDED {
            m.included.push(v);
        } else if k == MK_EXTENSION {
            m.extensions.push(v);
        } else {
            proof {
                assert(pv[i as int].0 == k);
                assert(!manifest_key_known(k));
                assert(!manifest_keys_known(tree));
            }
            return Err(Error::UnknownKey(mpath, k));
        }
        proof {
            assert(crate::xref::names_view(m.triggers@) =~= names_for_key(
                pv.take(i + 1),
                MK_TRIGGER,
            ));
            assert(crate::xref::names_view(m.sprites@) =~= names_for_key(
                pv.take(i + 1),
                MK_SPRITE,
            ));
            assert(crate::xref::names_view(m.sounds@) =~= names_for_key(pv.take(i + 1), MK_SOUND));
            assert(crate::xref::names_view(m.backgrounds@) =~= names_for_key(
                pv.take(i + 1),
                MK_BACKGROUND,
            ));
            assert(crate::xref::names_view(m.paths@) =~= names_for_key(pv.take(i + 1), MK_PATH));
            assert(crate::xref::names_view(m.scripts@) =~= names_for_key(
                pv.take(i + 1),
                MK_SCRIPT,
            ));
            assert(crate::xref::names_view(m.fonts@) =~= names_for_key(pv.take(i + 1), MK_FONT));
            assert(crate::xref::names_view(m.timelines@) =~= names_for_key(
                pv.take(i + 1),
                MK_TIMELINE,
            ));
            assert(crate::xref::names_view(m.objects@) =~= names_for_key(
                pv.take(i + 1),
                MK_OBJECT,
            ));
            assert(crate::xref::names_view(m.rooms@) =~= names_for_key(pv.take(i + 1), MK_ROOM));
            assert(crate::xref::names_view(m.included@) =~= names_for_key(
                pv.take(i + 1),
                MK_INCLUDED,
            ));
            assert(crate::xref::names_view(m.extensions@) =~= names_for_key(
                pv.take(i + 1),
                MK_EXTENSION,
            ));
        }
        i = i + 1;
    }
    proof {
        assert(pv.take(i as int) =~= pv);
        assert(manifest_keys_known(tree));
    }
    Ok(m)
}

/// Decodes one event's action list and resolves each stored applies-to
/// name against the object table.
fn load_event_actions(
    cat: &Vec<ActionLibrary>,
    text: &Vec<u8>,
    path: &Vec<Vec<u8>>,
    obj_names: &Vec<Vec<u8>>,
    ctx: &Vec<u8>,
) -> (r: Result<Vec<Action>, Error>)
    requires
        obj_names@.len() <= i32::MAX as int,
{
    let (mut acts, mut names) = decode_event_text(cat, text, path)?;
    let mut out: Vec<Action> = Vec::new();
    while acts.len() > 0
        invariant
            obj_names@.len() <= i32::MAX as int,
            names@.len() >= acts@.len(),
        decreases acts@.len(),
    {
        let mut a = acts.remove(0);
        let n = names.remove(0);
        if n.len() > 0 {
            let id = resolve_ref(obj_names, &n, KIND_OBJECT, ctx)?;
            a.applies_to = id;
        }
        out.push(a);
    }
    Ok(out)
}

/// Loads one room directory: the settings and editor records, the eight
/// layers and views, the ordered instances and tiles with their code, and
/// the room's overlay entries (only under a tree version that has them).
#[verifier::rlimit(60)]
fn load_room(
    tree: &ProjectTree,
    name: &Vec<u8>,
    cat: &Vec<ActionLibrary>,
    obj_names: &Vec<Vec<u8>>,
    bg_names: &Vec<Vec<u8>>,
    with_extras: bool,
) -> (r: Result<(Room, ExtraData), Error>)
    requires
        obj_names@.len() <= i32::MAX as int,
        bg_names@.len() <= i32::MAX as int,
{
    let rpath = asset_path(c_rooms(), name, c_room_txt());
    let pairs = get_kv(tree, &rpath)?;
    let (mut room, n_inst, n_tiles) = decode_room(&pairs, &rpath)?;
    // editor state; an older tree without the file keeps the defaults
    let epath = asset_path(c_rooms(), name, c_editor_txt());
    match get_optional(tree, &epath) {
        Some(data) => {
            let ep = match decode_pairs(data.as_slice()) {
                Some(x) => x,
                None => {
                    return Err(Error::SyntaxError(clone_path(&epath)));
                },
            };
            let e = decode_room_editor(&ep, &epath)?;
            room.remember_room_editor_info = e.remember_room_editor_info;
            room.editor_width = e.editor_width;
            room.editor_height = e.editor_height;
            room.show_grid = e.show_grid;
            room.show_objects = e.show_objects;
            room.show_tiles = e.show_tiles;
            room.show_backgrounds = e.show_backgrounds;
            room.show_foregrounds = e.show_foregrounds;
            room.show_views = e.show_views;
            room.delete_underlying_objects = e.delete_underlying_objects;
            room.delete_underlying_tiles = e.delete_underlying_tiles;
            room.tab = e.tab;
            room.x_position_scroll = e.x_position_scroll;
            room.y_position_scroll = e.y_position_scroll;
        },
        None => {},
    }
    match get_optional(tree, &asset_path(c_rooms(), name, c_code_gml())) {
        Some(d) => {
            room.creation_code = bytes_to_vec(d.as_slice());
        },
        None => {},
    }
    let mut k: usize = 0;
    while k < 8
        invariant
            bg_names@.len() <= i32::MAX as int,
        decreases 8 - k,
    {
        let lpath = asset_path4(c_rooms(), name, c_room_backgrounds(), c_index(k as u64));
        let lp = get_kv(tree, &lpath)?;
        let (mut layer, bgref) = decode_layer(&lp, &lpath)?;
        layer.source_bg = resolve_ref(bg_names, &bgref, KIND_BACKGROUND, name)?;
        room.backgrounds.push(layer);
        k = k + 1;
    }
    let mut k: usize = 0;
    while k < 8
        invariant
            obj_names@.len() <= i32::MAX as int,
        decreases 8 - k,
    {
        let vpath = asset_path4(c_rooms(), name, c_room_views(), c_index(k as u64));
        let vp = get_kv(tree, &vpath)?;
        let (mut view, tref) = decode_view(&vp, &vpath)?;
        view.following_target = resolve_ref(obj_names, &tref, KIND_OBJECT, name)?;
        room.views.push(view);
        k = k + 1;
    }
    let mut extra = ExtraData::new();
    let mut k: usize = 0;
    while k < n_inst as usize
        invariant
            obj_names@.len() <= i32::MAX as int,
        decreases n_inst as int - k,
    {
        let ipath = asset_path4(c_rooms(), name, c_instances(), c_index(k as u64));
        let ip = get_kv(tree, &ipath)?;
        let (mut inst, oref) = decode_instance(&ip, &ipath)?;
        inst.object = resolve_ref(obj_names, &oref, KIND_OBJECT, name)?;
        match get_optional(tree, &asset_path4(c_rooms(), name, c_instances(), c_index_code(
            k as u64,
        ))) {
            Some(d) => {
                inst.creation_code = bytes_to_vec(d.as_slice());
            },
            None => {},
        }
        if with_extras {
            let xpath = asset_path4(c_rooms(), name, c_extras(), c_id_comp(105, inst.id));
            match get_optional(tree, &xpath) {
                Some(d) => {
                    let xp = match decode_pairs(d.as_slice()) {
                        Some(x) => x,
                        None => {
                            return Err(Error::SyntaxError(clone_path(&xpath)));
                        },
                    };
                    let e = decode_instance_extra(&xp, &xpath)?;
                    extra.instances.push((inst.id, e));
                },
                None => {},
            }
        }
        room.instances.push(inst);
        k = k + 1;
    }
    let mut k: usize = 0;
    while k < n_tiles as usize
        invariant
            bg_names@.len() <= i32::MAX as int,
        decreases n_tiles as int - k,
    {
        let tpath = asset_path4(c_rooms(), name, c_tiles(), c_index(k as u64));
        let tp = get_kv(tree, &tpath)?;
        let (mut tile, bgref) = decode_tile(&tp, &tpath)?;
        tile.source_bg = resolve_ref(bg_names, &bgref, KIND_BACKGROUND, name)?;
        if with_extras {
            let xpath = asset_path4(c_rooms(), name, c_extras(), c_id_comp(116, tile.id));
            match get_optional(tree, &xpath) {
                Some(d) => {
                    let xp = match decode_pairs(d.as_slice()) {
                        Some(x) => x,
                        None => {
                            return Err(Error::SyntaxError(clone_path(&xpath)));
                        },
                    };
                    let e = decode_tile_extra(&xp, &xpath)?;
                    extra.tiles.push((tile.id, e));
                },
                None => {},
            }
        }
        room.tiles.push(tile);
        k = k + 1;
    }
    Ok((room, extra))
}

/// True when the list holds the value.
fn contains_u32(v: &Vec<u32>, x: u32) -> (r: bool)
    ensures
        r == v@.contains(x),
{
    let mut i: usize = 0;
    while i < v.len()
        invariant
            0 <= i <= v@.len(),
            forall|j: int| 0 <= j < i ==> v@[j] != x,
        decreases v@.len() - i,
    {
        if v[i] == x {
            return true;
        }
        i = i + 1;
    }
    proof {
        if v@.contains(x) {
            let j = choose|j: int| 0 <= j < v@.len() && v@[j] == x;
        }
    }
    false
}

/// Reads a whole project tree back into a graph. The manifest's version
/// stamp gates the load: a newer tree fails with `OldGM82` before any
/// asset is decoded, leaving the caller's graph untouched. Duplicate names
/// within a kind, unknown keys, unresolved references and malformed values
/// all abort the load; instance and tile ids are made project-wide unique,
/// the overlay following the renumbering.
#[verifier::rlimit(100)]
pub fn load_project(tree: &ProjectTree, cat: &Vec<ActionLibrary>) -> (r: Result<
    (Project, ExtraData),
    Error,
>)
    ensures
        (tree_version(tree) matches Some(v) && v > CURRENT_VERSION) ==> r == Result::<
            (Project, ExtraData),
            Error,
        >::Err(Error::OldGM82),
        r matches Result::Ok(pr) ==> instance_ids_unique(pr.0.rooms.items@) && tile_ids_unique(
            pr.0.rooms.items@,
        ),
        (tree_version(tree) matches Some(v) && v <= CURRENT_VERSION && manifest_keys_known(
            tree,
        )
            && !crate::xref::names_unique_ci(manifest_names(tree, MK_TRIGGER))) ==> (r matches
            Result::Err(e) && crate::xref::is_duplicate_error(
            e,
            KIND_TRIGGER,
            manifest_names(tree, MK_TRIGGER),
        )),
        (tree_version(tree) matches Some(v) && v <= CURRENT_VERSION && manifest_keys_known(
            tree,
        )
            && crate::xref::names_unique_ci(manifest_names(tree, MK_TRIGGER))
            && !crate::xref::names_unique_ci(manifest_names(tree, MK_SPRITE))) ==> (r matches
            Result::Err(e) && crate::xref::is_duplicate_error(
            e,
            KIND_SPRITE,
            manifest_names(tree, MK_SPRITE),
        )),
        (tree_version(tree) matches Some(v) && v <= CURRENT_VERSION && manifest_keys_known(
            tree,
        )
            && crate::xref::names_unique_ci(manifest_names(tree, MK_TRIGGER))
            && crate::xref::names_unique_ci(manifest_names(tree, MK_SPRITE))
            && !crate::xref::names_unique_ci(manifest_names(tree, MK_SOUND))) ==> (r matches
            Result::Err(e) && crate::xref::is_duplicate_error(
            e,
            KIND_SOUND,
            manifest_names(tree, MK_SOUND),
        )),
        (tree_version(tree) matches Some(v) && v <= CURRENT_VERSION && manifest_keys_known(
            tree,
        )
            && crate::xref::names_unique_ci(manifest_names(tree, MK_TRIGGER))
            && crate::xref::names_unique_ci(manifest_names(tree, MK_SPRITE))
            && crate::xref::names_unique_ci(manifest_names(tree, MK_SOUND))
            && !crate::xref::names_unique_ci(manifest_names(tree, MK_BACKGROUND))) ==> (r matches
            Result::Err(e) && crate::xref::is_duplicate_error(
            e,
            KIND_BACKGROUND,
            manifest_names(tree, MK_BACKGROUND),
        )),
        (tree_version(tree) matches Some(v) && v <= CURRENT_VERSION && manifest_keys_known(
            tree,
        )
            && crate::xref::names_unique_ci(manifest_names(tree, MK_TRIGGER))
            && crate::xref::names_unique_ci(manifest_names(tree, MK_SPRITE))
            && crate::xref::names_unique_ci(manifest_names(tree, MK_SOUND))
            && crate::xref::names_unique_ci(manifest_names(tree, MK_BACKGROUND))
            && !crate::xref::names_unique_ci(manifest_names(tree, MK_PATH))) ==> (r matches
            Result::Err(e) && crate::xref::is_duplicate_error(
            e,
            KIND_PATH,
            manifest_names(tree, MK_PATH),
        )),
        (tree_version(tree) matches Some(v) && v <= CURRENT_VERSION && manifest_keys_known(
            tree,
        )
            && crate::xref::names_unique_ci(manifest_names(tree, MK_TRIGGER))
            && crate::xref::names_unique_ci(manifest_names(tree, MK_SPRITE))
            && crate::xref::names_unique_ci(manifest_names(tree, MK_SOUND))
            && crate::xref::names_unique_ci(manifest_names(tree, MK_BACKGROUND))
            && crate::xref::names_unique_ci(manifest_names(tree, MK_PATH))
            && !crate::xref::names_unique_ci(manifest_names(tree, MK_SCRIPT))) ==> (r matches
            Result::Err(e) && crate::xref::is_duplicate_error(
            e,
            KIND_SCRIPT,
            manifest_names(tree, MK_SCRIPT),
        )),
        (tree_version(tree) matches Some(v) && v <= CURRENT_VERSION && manifest_keys_known(
            tree,
        )
            && crate::xref::names_unique_ci(manifest_names(tree, MK_TRIGGER))
            && crate::xref::names_unique_ci(manifest_names(tree, MK_SPRITE))
            && crate::xref::names_unique_ci(manifest_names(tree, MK_SOUND))
            && crate::xref::names_unique_ci(manifest_names(tree, MK_BACKGROUND))
            && crate::xref::names_unique_ci(manifest_names(tree, MK_PATH))
            && crate::xref::names_unique_ci(manifest_names(tree, MK_SCRIPT))
            && !crate::xref::names_unique_ci(manifest_names(tree, MK_FONT))) ==> (r matches
            Result::Err(e) && crate::xref::is_duplicate_error(
            e,
            KIND_FONT,
            manifest_names(tree, MK_FONT),
        )),
        (tree_version(tree) matches Some(v) && v <= CURRENT_VERSION && manifest_keys_known(
            tree,
        )
            && crate::xref::names_unique_ci(manifest_names(tree, MK_TRIGGER))
            && crate::xref::names_unique_ci(manifest_names(tree, MK_SPRITE))
            && crate::xref::names_unique_ci(manifest_names(tree, MK_SOUND))
            && crate::xref::names_unique_ci(manifest_names(tree, MK_BACKGROUND))
            && crate::xref::names_unique_ci(manifest_names(tree, MK_PATH))
            && crate::xref::names_unique_ci(manifest_names(tree, MK_SCRIPT))
            && crate::xref::names_unique_ci(manifest_names(tree, MK_FONT))
            && !crate::xref::names_unique_ci(manifest_names(tree, MK_TIMELINE))) ==> (r matches
            Result::Err(e) && crate::xref::is_duplicate_error(
            e,
            KIND_TIMELINE,
            manifest_names(tree, MK_TIMELINE),
        )),
        (tree_version(tree) matches Some(v) && v <= CURRENT_VERSION && manifest_keys_known(
            tree,
        )
            && crate::xref::names_unique_ci(manifest_names(tree, MK_TRIGGER))
            && crate::xref::names_unique_ci(manifest_names(tree, MK_SPRITE))
            && crate::xref::names_unique_ci(manifest_names(tree, MK_SOUND))
            && crate::xref::names_unique_ci(manifest_names(tree, MK_BACKGROUND))
            && crate::xref::names_unique_ci(manifest_names(tree, MK_PATH))
            && crate::xref::names_unique_ci(manifest_names(tree, MK_SCRIPT))
            && crate::xref::names_unique_ci(manifest_names(tree, MK_FONT))
            && crate::xref::names_unique_ci(manifest_names(tree, MK_TIMELINE))
            && !crate::xref::names_unique_ci(manifest_names(tree, MK_OBJECT))) ==> (r matches
            Result::Err(e) && crate::xref::is_duplicate_error(
            e,
            KIND_OBJECT,
            manifest_names(tree, MK_OBJECT),
        )),
        (tree_version(tree) matches Some(v) && v <= CURRENT_VERSION && manifest_keys_known(
            tree,
        )
            && crate::xref::names_unique_ci(manifest_names(tree, MK_TRIGGER))
            && crate::xref::names_unique_ci(manifest_names(tree, MK_SPRITE))
            && crate::xref::names_unique_ci(manifest_names(tree, MK_SOUND))
            && crate::xref::names_unique_ci(manifest_names(tree, MK_BACKGROUND))
            && crate::xref::names_unique_ci(manifest_names(tree, MK_PATH))
            && crate::xref::names_unique_ci(manifest_names(tree, MK_SCRIPT))
            && crate::xref::names_unique_ci(manifest_names(tree, MK_FONT))
            && crate::xref::names_unique_ci(manifest_names(tree, MK_TIMELINE))
            && crate::xref::names_unique_ci(manifest_names(tree, MK_OBJECT))
            && !crate::xref::names_unique_ci(manifest_names(tree, MK_ROOM))) ==> (r matches
            Result::Err(e) && crate::xref::is_duplicate_error(
            e,
            KIND_ROOM,
            manifest_names(tree, MK_ROOM),
        )),
        (tree_version(tree) matches Some(v) && v <= CURRENT_VERSION && manifest_keys_known(
            tree,
        )
            && crate::xref::names_unique_ci(manifest_names(tree, MK_TRIGGER))
            && crate::xref::names_unique_ci(manifest_names(tree, MK_SPRITE))
            && crate::xref::names_unique_ci(manifest_names(tree, MK_SOUND))
            && crate::xref::names_unique_ci(manifest_names(tree, MK_BACKGROUND))
            && crate::xref::names_unique_ci(manifest_names(tree, MK_PATH))
            && crate::xref::names_unique_ci(manifest_names(tree, MK_SCRIPT))
            && crate::xref::names_unique_ci(manifest_names(tree, MK_FONT))
            && crate::xref::names_unique_ci(manifest_names(tree, MK_TIMELINE))
            && crate::xref::names_unique_ci(manifest_names(tree, MK_OBJECT))
            && crate::xref::names_unique_ci(manifest_names(tree, MK_ROOM))
            && !crate::xref::names_unique_ci(manifest_names(tree, MK_INCLUDED))) ==> (r matches
            Result::Err(e) && crate::xref::is_duplicate_error(
            e,
            KIND_INCLUDED_FILE,
            manifest_names(tree, MK_INCLUDED),
        )),
        (tree_version(tree) matches Some(v) && v <= CURRENT_VERSION && manifest_keys_known(
            tree,
        )
            && crate::xref::names_unique_ci(manifest_names(tree, MK_TRIGGER))
            && crate::xref::names_unique_ci(manifest_names(tree, MK_SPRITE))
            && crate::xref::names_unique_ci(manifest_names(tree, MK_SOUND))
            && crate::xref::names_unique_ci(manifest_names(tree, MK_BACKGROUND))
            && crate::xref::names_unique_ci(manifest_names(tree, MK_PATH))
            && crate::xref::names_unique_ci(manifest_names(tree, MK_SCRIPT))
            && crate::xref::names_unique_ci(manifest_names(tree, MK_FONT))
            && crate::xref::names_unique_ci(manifest_names(tree, MK_TIMELINE))
            && crate::xref::names_unique_ci(manifest_names(tree, MK_OBJECT))
            && crate::xref::names_unique_ci(manifest_names(tree, MK_ROOM))
            && crate::xref::names_unique_ci(manifest_names(tree, MK_INCLUDED))
            && !crate::xref::names_unique_ci(manifest_names(tree, MK_EXTENSION))) ==> (r matches
            Result::Err(e) && crate::xref::is_duplicate_error(
            e,
            KIND_EXTENSION,
            manifest_names(tree, MK_EXTENSION),
        )),
{
    let m = read_manifest(tree)?;
    // every kind's names are checked for case-insensitive duplicates before
    // any asset body is decoded
    check_names_unique(&m.triggers, KIND_TRIGGER)?;
    check_names_unique(&m.sprites, KIND_SPRITE)?;
    check_names_unique(&m.sounds, KIND_SOUND)?;
    check_names_unique(&m.backgrounds, KIND_BACKGROUND)?;
    check_names_unique(&m.paths, KIND_PATH)?;
    check_names_unique(&m.scripts, KIND_SCRIPT)?;
    check_names_unique(&m.fonts, KIND_FONT)?;
    check_names_unique(&m.timelines, KIND_TIMELINE)?;
    check_names_unique(&m.objects, KIND_OBJECT)?;
    check_names_unique(&m.rooms, KIND_ROOM)?;
    check_names_unique(&m.included, KIND_INCLUDED_FILE)?;
    check_names_unique(&m.extensions, KIND_EXTENSION)?;
    load_assets(tree, cat, m)
}

/// Loads every asset of a manifest whose version gate has already passed.
#[verifier::rlimit(100)]
fn load_assets(tree: &ProjectTree, cat: &Vec<ActionLibrary>, m: Manifest) -> (r: Result<
    (Project, ExtraData),
    Error,
>)
    ensures
        r matches Result::Ok(pr) ==> instance_ids_unique(pr.0.rooms.items@) && tile_ids_unique(
            pr.0.rooms.items@,
        ),
{
    let mut mpath: Vec<Vec<u8>> = Vec::new();
    mpath.push(c_manifest());
    if m.sprites.len() > 0x7fffffff || m.sounds.len() > 0x7fffffff || m.backgrounds.len()
        > 0x7fffffff || m.paths.len() > 0x7fffffff || m.scripts.len() > 0x7fffffff
        || m.fonts.len() > 0x7fffffff || m.timelines.len() > 0x7fffffff || m.objects.len()
        > 0x7fffffff || m.rooms.len() > 0x7fffffff || m.triggers.len() > 0x7fffffff
        || m.included.len() > 0x7fffffff || m.extensions.len() > 0x7fffffff {
        return Err(Error::SyntaxError(mpath));
    }
    let with_extras = m.version >= 810;
    let mut p = Project::new();

    // triggers
    let mut i: usize = 0;
    while i < m.triggers.len()
        decreases m.triggers@.len() - i,
    {
        let name = &m.triggers[i];
        let rpath = asset_path(c_triggers(), name, c_asset_txt());
        let pairs = get_kv(tree, &rpath)?;
        let cond = match get_optional(tree, &asset_path(c_triggers(), name, c_code_gml())) {
            Some(d) => bytes_to_vec(d.as_slice()),
            None => Vec::new(),
        };
        let t = decode_trigger(name, &cond, &pairs, &rpath)?;
        p.triggers.push(Some(t));
        i = i + 1;
    }
    // sprites
    let mut i: usize = 0;
    while i < m.sprites.len()
        decreases m.sprites@.len() - i,
    {
        let name = &m.sprites[i];
        let rpath = asset_path(c_sprites(), name, c_asset_txt());
        let pairs = get_kv(tree, &rpath)?;
        let (mut spr, nf) = decode_sprite(&pairs, &rpath)?;
        let mut k: usize = 0;
        while k < nf as usize
            decreases nf as int - k,
        {
            let fpath = asset_path4(c_sprites(), name, c_frames(), c_index(k as u64));
            let data = get_file(tree, &fpath)?;
            let frame = png_to_frame(data, &fpath)?;
            spr.frames.push(frame);
            k = k + 1;
        }
        p.sprites.push(Some(Asset { name: bytes_to_vec(name.as_slice()), body: spr }));
        i = i + 1;
    }
    // sounds
    let mut i: usize = 0;
    while i < m.sounds.len()
        decreases m.sounds@.len() - i,
    {
        let name = &m.sounds[i];
        let rpath = asset_path(c_sounds(), name, c_asset_txt());
        let pairs = get_kv(tree, &rpath)?;
        let (mut snd, has_data) = decode_sound(&pairs, &rpath)?;
        if has_data {
            let d = get_file(tree, &asset_path(c_sounds(), name, c_data_bin()))?;
            snd.data = Some(bytes_to_vec(d.as_slice()));
        }
        p.sounds.push(Some(Asset { name: bytes_to_vec(name.as_slice()), body: snd }));
        i = i + 1;
    }
    // backgrounds
    let mut i: usize = 0;
    while i < m.backgrounds.len()
        decreases m.backgrounds@.len() - i,
    {
        let name = &m.backgrounds[i];
        let rpath = asset_path(c_backgrounds(), name, c_asset_txt());
        let pairs = get_kv(tree, &rpath)?;
        let mut bg = decode_background(&pairs, &rpath)?;
        let ipath = asset_path(c_backgrounds(), name, c_image_png());
        let data = get_file(tree, &ipath)?;
        bg.frame = png_to_frame(data, &ipath)?;
        p.backgrounds.push(Some(Asset { name: bytes_to_vec(name.as_slice()), body: bg }));
        i = i + 1;
    }
    // paths
    let mut i: usize = 0;
    while i < m.paths.len()
        invariant
            m.rooms@.len() <= i32::MAX as int,
        decreases m.paths@.len() - i,
    {
        let name = &m.paths[i];
        let rpath = asset_path(c_paths(), name, c_asset_txt());
        let pairs = get_kv(tree, &rpath)?;
        let (mut pa, rref, np) = decode_path(&pairs, &rpath)?;
        pa.path_editor_room_background = resolve_ref(&m.rooms, &rref, KIND_ROOM, name)?;
        let mut k: usize = 0;
        while k < np as usize
            decreases np as int - k,
        {
            let ppath = asset_path4(c_paths(), name, c_points(), c_index(k as u64));
            let pp = get_kv(tree, &ppath)?;
            let point = decode_path_point(&pp, &ppath)?;
            pa.points.push(point);
            k = k + 1;
        }
        p.paths.push(Some(Asset { name: bytes_to_vec(name.as_slice()), body: pa }));
        i = i + 1;
    }
    // scripts
    let mut i: usize = 0;
    while i < m.scripts.len()
        decreases m.scripts@.len() - i,
    {
        let name = &m.scripts[i];
        let d = get_file(tree, &asset_path(c_scripts(), name, c_code_gml()))?;
        p.scripts.push(Some(Asset {
            name: bytes_to_vec(name.as_slice()),
            body: Script { source: bytes_to_vec(d.as_slice()) },
        }));
        i = i + 1;
    }
    // fonts
    let mut i: usize = 0;
    while i < m.fonts.len()
        decreases m.fonts@.len() - i,
    {
        let name = &m.fonts[i];
        let rpath = asset_path(c_fonts(), name, c_asset_txt());
        let pairs = get_kv(tree, &rpath)?;
        let f = decode_font(&pairs, &rpath)?;
        p.fonts.push(Some(Asset { name: bytes_to_vec(name.as_slice()), body: f }));
        i = i + 1;
    }
    // timelines
    let mut i: usize = 0;
    while i < m.timelines.len()
        invariant
            m.objects@.len() <= i32::MAX as int,
        decreases m.timelines@.len() - i,
    {
        let name = &m.timelines[i];
        let rpath = asset_path(c_timelines(), name, c_asset_txt());
        let pairs = get_kv(tree, &rpath)?;
        let (mut tl, nm) = decode_timeline(&pairs, &rpath)?;
        let mut k: usize = 0;
        while k < nm as usize
            invariant
                m.objects@.len() <= i32::MAX as int,
            decreases nm as int - k,
        {
            let mpath2 = asset_path4(c_timelines(), name, c_moments(), c_index(k as u64));
            let mp = get_kv(tree, &mpath2)?;
            let time = decode_moment(&mp, &mpath2)?;
            let tpath = asset_path4(c_timelines(), name, c_moments(), c_index_code(k as u64));
            let text = match get_optional(tree, &tpath) {
                Some(d) => bytes_to_vec(d.as_slice()),
                None => Vec::new(),
            };
            let acts = load_event_actions(cat, &text, &tpath, &m.objects, name)?;
            tl.moment_times.push(time);
            tl.moment_events.push(Event { event_type: 0, event_subtype: 0, actions: acts });
            k = k + 1;
        }
        p.timelines.push(Some(Asset { name: bytes_to_vec(name.as_slice()), body: tl }));
        i = i + 1;
    }
    // objects
    let mut i: usize = 0;
    while i < m.objects.len()
        invariant
            m.objects@.len() <= i32::MAX as int,
            m.sprites@.len() <= i32::MAX as int,
        decreases m.objects@.len() - i,
    {
        let name = &m.objects[i];
        let rpath = asset_path(c_objects(), name, c_asset_txt());
        let pairs = get_kv(tree, &rpath)?;
        let (mut ob, sref, pref, mref, ne) = decode_object(&pairs, &rpath)?;
        ob.sprite_index = resolve_ref(&m.sprites, &sref, KIND_SPRITE, name)?;
        ob.parent_index = resolve_ref(&m.objects, &pref, KIND_OBJECT, name)?;
        ob.mask_index = resolve_ref(&m.sprites, &mref, KIND_SPRITE, name)?;
        let mut k: usize = 0;
        while k < ne as usize
            invariant
                m.objects@.len() <= i32::MAX as int,
            decreases ne as int - k,
        {
            let epath = asset_path4(c_objects(), name, c_events(), c_index(k as u64));
            let ep = get_kv(tree, &epath)?;
            let mut ev = decode_event(&ep, &epath)?;
            let tpath = asset_path4(c_objects(), name, c_events(), c_index_code(k as u64));
            let text = match get_optional(tree, &tpath) {
                Some(d) => bytes_to_vec(d.as_slice()),
                None => Vec::new(),
            };
            ev.actions = load_event_actions(cat, &text, &tpath, &m.objects, name)?;
            ob.events.push(ev);
            k = k + 1;
        }
        p.objects.push(Some(Asset { name: bytes_to_vec(name.as_slice()), body: ob }));
        i = i + 1;
    }
    // rooms, each with its own overlay entries
    let mut rooms: Vec<Asset<Room>> = Vec::new();
    let mut locals: Vec<ExtraData> = Vec::new();
    let mut i: usize = 0;
    while i < m.rooms.len()
        invariant
            m.objects@.len() <= i32::MAX as int,
            m.backgrounds@.len() <= i32::MAX as int,
            locals@.len() == rooms@.len(),
        decreases m.rooms@.len() - i,
    {
        let name = &m.rooms[i];
        let (room, local) = load_room(tree, name, cat, &m.objects, &m.backgrounds, with_extras)?;
        rooms.push(Asset { name: bytes_to_vec(name.as_slice()), body: room });
        locals.push(local);
        i = i + 1;
    }
    // the id-uniqueness repair: find the highest id, then renumber any
    // room whose ids collide with what an earlier room already uses
    let mut max_inst: u32 = 0;
    let mut max_tile: u32 = 0;
    let mut i: usize = 0;
    while i < rooms.len()
        invariant
            locals@.len() == rooms@.len(),
            forall|r: int, k: int|
                0 <= r < i && 0 <= k < rooms@[r].body.instances@.len() ==> (
                #[trigger] rooms@[r].body.instances@[k]).id <= max_inst,
            forall|r: int, k: int|
                0 <= r < i && 0 <= k < rooms@[r].body.tiles@.len() ==> (
                #[trigger] rooms@[r].body.tiles@[k]).id <= max_tile,
            forall|r: int, k: int|
                0 <= r < i && 0 <= k < locals@[r].instances@.len() ==> (
                #[trigger] locals@[r].instances@[k]).0 <= max_inst,
            forall|r: int, k: int|
                0 <= r < i && 0 <= k < locals@[r].tiles@.len() ==> (
                #[trigger] locals@[r].tiles@[k]).0 <= max_tile,
        decreases rooms@.len() - i,
    {
        let ghost max0 = max_inst;
        let ghost tmax0 = max_tile;
        let mut k: usize = 0;
        while k < rooms[i].body.instances.len()
            invariant
                0 <= i < rooms@.len(),
                locals@.len() == rooms@.len(),
                max_inst >= max0,
                max_tile == tmax0,
                forall|r: int, kk: int|
                    0 <= r < i && 0 <= kk < rooms@[r].body.instances@.len() ==> (
                    #[trigger] rooms@[r].body.instances@[kk]).id <= max0,
                forall|r: int, kk: int|
                    0 <= r < i && 0 <= kk < rooms@[r].body.tiles@.len() ==> (
                    #[trigger] rooms@[r].body.tiles@[kk]).id <= tmax0,
                forall|r: int, kk: int|
                    0 <= r < i && 0 <= kk < locals@[r].instances@.len() ==> (
                    #[trigger] locals@[r].instances@[kk]).0 <= max0,
                forall|r: int, kk: int|
                    0 <= r < i && 0 <= kk < locals@[r].tiles@.len() ==> (
                    #[trigger] locals@[r].tiles@[kk]).0 <= tmax0,
                forall|kk: int|
                    0 <= kk < k ==> (#[trigger] rooms@[i as int].body.instances@[kk]).id
                        <= max_inst,
            decreases rooms@[i as int].body.instances@.len() - k,
        {
            if rooms[i].body.instances[k].id > max_inst {
                max_inst = rooms[i].body.instances[k].id;
            }
            k = k + 1;
        }
        let mut k: usize = 0;
        while k < rooms[i].body.tiles.len()
            invariant
                0 <= i < rooms@.len(),
                locals@.len() == rooms@.len(),
                max_inst >= max0,
                max_tile >= tmax0,
                forall|r: int, kk: int|
                    0 <= r < i && 0 <= kk < rooms@[r].body.instances@.len() ==> (
                    #[trigger] rooms@[r].body.instances@[kk]).id <= max0,
                forall|r: int, kk: int|
                    0 <= r < i && 0 <= kk < rooms@[r].body.tiles@.len() ==> (
                    #[trigger] rooms@[r].body.tiles@[kk]).id <= tmax0,
                forall|r: int, kk: int|
                    0 <= r < i && 0 <= kk < locals@[r].instances@.len() ==> (
                    #[trigger] locals@[r].instances@[kk]).0 <= max0,
                forall|r: int, kk: int|
                    0 <= r < i && 0 <= kk < locals@[r].tiles@.len() ==> (
                    #[trigger] locals@[r].tiles@[kk]).0 <= tmax0,
                forall|kk: int|
                    0 <= kk < k ==> (#[trigger] rooms@[i as int].body.tiles@[kk]).id <= max_tile,
            decreases rooms@[i as int].body.tiles@.len() - k,
        {
            if rooms[i].body.tiles[k].id > max_tile {
                max_tile = rooms[i].body.tiles[k].id;
            }
            k = k + 1;
        }
        // overlay keys count as seen ids too
        let ghost imax0 = max_inst;
        let mut k: usize = 0;
        while k < locals[i].instances.len()
            invariant
                0 <= i < rooms@.len(),
                locals@.len() == rooms@.len(),
                max_inst >= imax0,
                max_tile >= tmax0,
                forall|r: int, kk: int|
                    0 <= r <= i && 0 <= kk < rooms@[r].body.instances@.len() ==> (
                    #[trigger] rooms@[r].body.instances@[kk]).id <= imax0,
                forall|r: int, kk: int|
                    0 <= r <= i && 0 <= kk < rooms@[r].body.tiles@.len() ==> (
                    #[trigger] rooms@[r].body.tiles@[kk]).id <= max_tile,
                forall|r: int, kk: int|
                    0 <= r < i && 0 <= kk < locals@[r].instances@.len() ==> (
                    #[trigger] locals@[r].instances@[kk]).0 <= imax0,
                forall|r: int, kk: int|
                    0 <= r < i && 0 <= kk < locals@[r].tiles@.len() ==> (
                    #[trigger] locals@[r].tiles@[kk]).0 <= max_tile,
                forall|kk: int|
                    0 <= kk < k ==> (#[trigger] locals@[i as int].instances@[kk]).0 <= max_inst,
            decreases locals@[i as int].instances@.len() - k,
        {
            if locals[i].instances[k].0 > max_inst {
                max_inst = locals[i].instances[k].0;
            }
            k = k + 1;
        }
        let ghost imax1 = max_inst;
        let ghost xmax0 = max_tile;
        let mut k: usize = 0;
        while k < locals[i].tiles.len()
            invariant
                0 <= i < rooms@.len(),
                locals@.len() == rooms@.len(),
                max_inst == imax1,
                max_tile >= xmax0,
                forall|r: int, kk: int|
                    0 <= r <= i && 0 <= kk < rooms@[r].body.instances@.len() ==> (
                    #[trigger] rooms@[r].body.instances@[kk]).id <= imax1,
                forall|r: int, kk: int|
                    0 <= r <= i && 0 <= kk < rooms@[r].body.tiles@.len() ==> (
                    #[trigger] rooms@[r].body.tiles@[kk]).id <= xmax0,
                forall|r: int, kk: int|
                    0 <= r <= i && 0 <= kk < locals@[r].instances@.len() ==> (
                    #[trigger] locals@[r].instances@[kk]).0 <= imax1,
                forall|r: int, kk: int|
                    0 <= r < i && 0 <= kk < locals@[r].tiles@.len() ==> (
                    #[trigger] locals@[r].tiles@[kk]).0 <= xmax0,
                forall|kk: int|
                    0 <= kk < k ==> (#[trigger] locals@[i as int].tiles@[kk]).0 <= max_tile,
            decreases locals@[i as int].tiles@.len() - k,
        {
            if locals[i].tiles[k].0 > max_tile {
                max_tile = locals[i].tiles[k].0;
            }
            k = k + 1;
        }
        i = i + 1;
    }
    let mut next_inst: u32 = max_inst;
    let mut next_tile: u32 = max_tile;
    let mut seen_inst: Vec<u32> = Vec::new();
    let mut seen_tile: Vec<u32> = Vec::new();
    let mut adopted: DelphiList<Option<Asset<Room>>> = DelphiList::new();
    let mut extra = ExtraData::new();
    while rooms.len() > 0
        invariant
            locals@.len() == rooms@.len(),
            next_inst >= max_inst,
            next_tile >= max_tile,
            forall|r: int, k: int|
                0 <= r < rooms@.len() && 0 <= k < rooms@[r].body.instances@.len() ==> (
                #[trigger] rooms@[r].body.instances@[k]).id <= max_inst,
            forall|r: int, k: int|
                0 <= r < rooms@.len() && 0 <= k < rooms@[r].body.tiles@.len() ==> (
                #[trigger] rooms@[r].body.tiles@[k]).id <= max_tile,
            forall|r: int, k: int|
                0 <= r < rooms@.len() && 0 <= k < locals@[r].instances@.len() ==> (
                #[trigger] locals@[r].instances@[k]).0 <= max_inst,
            forall|r: int, k: int|
                0 <= r < rooms@.len() && 0 <= k < locals@[r].tiles@.len() ==> (
                #[trigger] locals@[r].tiles@[k]).0 <= max_tile,
            // what is adopted so far has pairwise unique ids, all of them
            // recorded in the seen lists, and nothing recorded is above the
            // counters
            instance_ids_unique(adopted.items@),
            tile_ids_unique(adopted.items@),
            forall|r: int, k: int|
                inst_ok_idx(adopted.items@, r, k) ==> seen_inst@.contains(
                    #[trigger] inst_id_of(adopted.items@, r, k),
                ),
            forall|r: int, k: int|
                tile_ok_idx(adopted.items@, r, k) ==> seen_tile@.contains(
                    #[trigger] tile_id_of(adopted.items@, r, k),
                ),
            forall|j: int| 0 <= j < seen_inst@.len() ==> #[trigger] seen_inst@[j] <= next_inst,
            forall|j: int| 0 <= j < seen_tile@.len() ==> #[trigger] seen_tile@[j] <= next_tile,
        decreases rooms@.len(),
    {
        let ghost rooms0 = rooms@;
        let ghost locals0 = locals@;
        let mut a = rooms.remove(0);
        let mut local = locals.remove(0);
        proof {
            assert(a == rooms0[0]);
            assert(local == locals0[0]);
            assert forall|r: int, k: int|
                0 <= r < rooms@.len() && 0 <= k < rooms@[r].body.instances@.len() implies (
            #[trigger] rooms@[r].body.instances@[k]).id <= max_inst by {
                assert(rooms@[r] == rooms0[r + 1]);
            }
            assert forall|r: int, k: int|
                0 <= r < rooms@.len() && 0 <= k < rooms@[r].body.tiles@.len() implies (
            #[trigger] rooms@[r].body.tiles@[k]).id <= max_tile by {
                assert(rooms@[r] == rooms0[r + 1]);
            }
            assert forall|r: int, k: int|
                0 <= r < rooms@.len() && 0 <= k < locals@[r].instances@.len() implies (
            #[trigger] locals@[r].instances@[k]).0 <= max_inst by {
                assert(locals@[r] == locals0[r + 1]);
            }
            assert forall|r: int, k: int|
                0 <= r < rooms@.len() && 0 <= k < locals@[r].tiles@.len() implies (
            #[trigger] locals@[r].tiles@[k]).0 <= max_tile by {
                assert(locals@[r] == locals0[r + 1]);
            }
        }
        // does this room collide with anything already adopted, or within
        // itself?
        let ghost seen_i0 = seen_inst@;
        let ghost seen_t0 = seen_tile@;
        let mut coll = false;
        let mut k: usize = 0;
        while k < a.body.instances.len()
            invariant
                0 <= k <= a.body.instances@.len(),
                forall|kk: int|
                    0 <= kk < a.body.instances@.len() ==> (
                    #[trigger] a.body.instances@[kk]).id <= max_inst,
                forall|kk: int|
                    0 <= kk < a.body.tiles@.len() ==> (#[trigger] a.body.tiles@[kk]).id
                        <= max_tile,
                forall|kk: int|
                    0 <= kk < local.instances@.len() ==> (#[trigger] local.instances@[kk]).0
                        <= max_inst,
                forall|kk: int|
                    0 <= kk < local.tiles@.len() ==> (#[trigger] local.tiles@[kk]).0 <= max_tile,
                next_inst >= max_inst,
                seen_inst@.len() >= seen_i0.len(),
                seen_inst@.take(seen_i0.len() as int) == seen_i0,
                forall|j: int| 0 <= j < seen_inst@.len() ==> #[trigger] seen_inst@[j] <= next_inst,
                !coll ==> (forall|kk: int|
                    0 <= kk < k ==> !seen_i0.contains(
                        (#[trigger] a.body.instances@[kk]).id,
                    )),
                !coll ==> (forall|k1: int, k2: int|
                    0 <= k1 < k2 < k ==> (#[trigger] a.body.instances@[k1]).id != (
                    #[trigger] a.body.instances@[k2]).id),
                !coll ==> (forall|kk: int|
                    0 <= kk < k ==> seen_inst@.contains(
                        (#[trigger] a.body.instances@[kk]).id,
                    )),
            decreases a.body.instances@.len() - k,
    {
            let ghost seen_before = seen_inst@;
            if contains_u32(&seen_inst, a.body.instances[k].id) {
                coll = true;
            } else {
                seen_inst.push(a.body.instances[k].id);
                proof {
                    if !coll {
                        assert(seen_inst@[seen_inst@.len() - 1] == a.body.instances@[k as int].id);
                        assert forall|kk: int| 0 <= kk < k + 1 implies seen_inst@.contains(
                            (#[trigger] a.body.instances@[kk]).id,
                        ) by {
                            if kk < k {
                                let j = choose|j: int|
                                    0 <= j < seen_before.len() && seen_before[j]
                                        == a.body.instances@[kk].id;
                                assert(seen_inst@[j] == a.body.instances@[kk].id);
                            }
                        }
                        assert forall|kk: int| 0 <= kk < k + 1 implies !seen_i0.contains(
                            (#[trigger] a.body.instances@[kk]).id,
                        ) by {}
                        assert forall|k1: int, k2: int| 0 <= k1 < k2 < k + 1 implies (
                        #[trigger] a.body.instances@[k1]).id != (
                        #[trigger] a.body.instances@[k2]).id by {
                            if k2 == k {
                                if a.body.instances@[k1].id == a.body.instances@[k as int].id {
                                    let j = choose|j: int|
                                        0 <= j < seen_before.len() && seen_before[j]
                                            == a.body.instances@[k1].id;
                                    assert(seen_before.contains(a.body.instances@[k as int].id));
                                }
                            }
                        }
                    }
                }
            }
            proof {
                assert(seen_inst@.take(seen_i0.len() as int) =~= seen_i0);
            }
            k = k + 1;
        }
        let ghost coll_i = coll;
        let mut k: usize = 0;
        while k < a.body.tiles.len()
            invariant
                0 <= k <= a.body.tiles@.len(),
                forall|kk: int|
                    0 <= kk < a.body.instances@.len() ==> (
                    #[trigger] a.body.instances@[kk]).id <= max_inst,
                forall|kk: int|
                    0 <= kk < a.body.tiles@.len() ==> (#[trigger] a.body.tiles@[kk]).id
                        <= max_tile,
                forall|kk: int|
                    0 <= kk < local.instances@.len() ==> (#[trigger] local.instances@[kk]).0
                        <= max_inst,
                forall|kk: int|
                    0 <= kk < local.tiles@.len() ==> (#[trigger] local.tiles@[kk]).0 <= max_tile,
                next_tile >= max_tile,
                coll_i ==> coll,
                seen_tile@.len() >= seen_t0.len(),
                seen_tile@.take(seen_t0.len() as int) == seen_t0,
                forall|j: int| 0 <= j < seen_tile@.len() ==> #[trigger] seen_tile@[j] <= next_tile,
                !coll ==> (forall|kk: int|
                    0 <= kk < k ==> !seen_t0.contains((#[trigger] a.body.tiles@[kk]).id)),
                !coll ==> (forall|k1: int, k2: int|
                    0 <= k1 < k2 < k ==> (#[trigger] a.body.tiles@[k1]).id != (
                    #[trigger] a.body.tiles@[k2]).id),
                !coll ==> (forall|kk: int|
                    0 <= kk < k ==> seen_tile@.contains((#[trigger] a.body.tiles@[kk]).id)),
                // what the instance scan settled stays settled
                !coll ==> (forall|kk: int|
                    0 <= kk < a.body.instances@.len() ==> !seen_i0.contains(
                        (#[trigger] a.body.instances@[kk]).id,
                    )),
                !coll ==> (forall|k1: int, k2: int|
                    0 <= k1 < k2 < a.body.instances@.len() ==> (
                    #[trigger] a.body.instances@[k1]).id != (
                    #[trigger] a.body.instances@[k2]).id),
                !coll ==> (forall|kk: int|
                    0 <= kk < a.body.instances@.len() ==> seen_inst@.contains(
                        (#[trigger] a.body.instances@[kk]).id,
                    )),
                seen_inst@.len() >= seen_i0.len(),
                seen_inst@.take(seen_i0.len() as int) == seen_i0,
                forall|j: int| 0 <= j < seen_inst@.len() ==> #[trigger] seen_inst@[j] <= next_inst,
                next_inst >= max_inst,
            decreases a.body.tiles@.len() - k,
        {
            let ghost seen_before = seen_tile@;
            if contains_u32(&seen_tile, a.body.tiles[k].id) {
                coll = true;
            } else {
                seen_tile.push(a.body.tiles[k].id);
                proof {
                    if !coll {
                        assert(seen_tile@[seen_tile@.len() - 1] == a.body.tiles@[k as int].id);
                        assert forall|kk: int| 0 <= kk < k + 1 implies seen_tile@.contains(
                            (#[trigger] a.body.tiles@[kk]).id,
                        ) by {
                            if kk < k {
                                let j = choose|j: int|
                                    0 <= j < seen_before.len() && seen_before[j]
                                        == a.body.tiles@[kk].id;
                                assert(seen_tile@[j] == a.body.tiles@[kk].id);
                            }
                        }
                        assert forall|k1: int, k2: int| 0 <= k1 < k2 < k + 1 implies (
                        #[trigger] a.body.tiles@[k1]).id != (#[trigger] a.body.tiles@[k2]).id by {
                            if k2 == k {
                                if a.body.tiles@[k1].id == a.body.tiles@[k as int].id {
                                    let j = choose|j: int|
                                        0 <= j < seen_before.len() && seen_before[j]
                                            == a.body.tiles@[k1].id;
                                    assert(seen_before.contains(a.body.tiles@[k as int].id));
                                }
                            }
                        }
                    }
                }
            }
            proof {
                assert(seen_tile@.take(seen_t0.len() as int) =~= seen_t0);
                assert(seen_inst@.take(seen_i0.len() as int) =~= seen_i0);
            }
            k = k + 1;
        }
        if coll {
            if a.body.instances.len() as u64 >= u32::MAX as u64 || a.body.tiles.len() as u64
                >= u32::MAX as u64 {
                return Err(Error::SyntaxError(mpath));
            }
            if a.body.instances.len() as u64 + next_inst as u64 >= u32::MAX as u64
                || a.body.tiles.len() as u64 + next_tile as u64 >= u32::MAX as u64 {
                return Err(Error::SyntaxError(mpath));
            }
            let ghost next_i0 = next_inst;
            let ghost next_t0 = next_tile;
            freshen_room_ids(&mut a.body, &mut local, &mut next_inst, &mut next_tile);
            let mut k: usize = 0;
            while k < a.body.instances.len()
                invariant
                    0 <= k <= a.body.instances@.len(),
                    next_inst >= max_inst,
                    next_tile >= max_tile,
                    next_inst >= next_i0,
                    forall|kk: int|
                        0 <= kk < a.body.instances@.len() ==> (
                        #[trigger] a.body.instances@[kk]).id == next_i0 + 1 + kk,
                    next_inst == next_i0 + a.body.instances@.len(),
                    seen_inst@.len() >= seen_i0.len(),
                    seen_inst@.take(seen_i0.len() as int) == seen_i0,
                    forall|j: int|
                        0 <= j < seen_inst@.len() ==> #[trigger] seen_inst@[j] <= next_inst,
                    forall|kk: int|
                        0 <= kk < k ==> seen_inst@.contains(
                            (#[trigger] a.body.instances@[kk]).id,
                        ),
                decreases a.body.instances@.len() - k,
            {
                let ghost seen_before = seen_inst@;
                seen_inst.push(a.body.instances[k].id);
                proof {
                    assert(seen_inst@[seen_inst@.len() - 1] == a.body.instances@[k as int].id);
                    assert forall|kk: int| 0 <= kk < k + 1 implies seen_inst@.contains(
                        (#[trigger] a.body.instances@[kk]).id,
                    ) by {
                        if kk < k {
                            let j = choose|j: int|
                                0 <= j < seen_before.len() && seen_before[j]
                                    == a.body.instances@[kk].id;
                            assert(seen_inst@[j] == a.body.instances@[kk].id);
                        }
                    }
                    assert(seen_inst@.take(seen_i0.len() as int) =~= seen_i0);
                }
                k = k + 1;
            }
            let mut k: usize = 0;
            while k < a.body.tiles.len()
                invariant
                    0 <= k <= a.body.tiles@.len(),
                    next_inst >= max_inst,
                    next_tile >= max_tile,
                    next_tile >= next_t0,
                    forall|kk: int|
                        0 <= kk < a.body.tiles@.len() ==> (#[trigger] a.body.tiles@[kk]).id
                            == next_t0 + 1 + kk,
                    next_tile == next_t0 + a.body.tiles@.len(),
                    seen_tile@.len() >= seen_t0.len(),
                    seen_tile@.take(seen_t0.len() as int) == seen_t0,
                    forall|j: int|
                        0 <= j < seen_tile@.len() ==> #[trigger] seen_tile@[j] <= next_tile,
                    forall|kk: int|
                        0 <= kk < k ==> seen_tile@.contains((#[trigger] a.body.tiles@[kk]).id),
                    // the instance half stays put
                    seen_inst@.len() >= seen_i0.len(),
                    seen_inst@.take(seen_i0.len() as int) == seen_i0,
                    forall|j: int|
                        0 <= j < seen_inst@.len() ==> #[trigger] seen_inst@[j] <= next_inst,
                    forall|kk: int|
                        0 <= kk < a.body.instances@.len() ==> (
                        #[trigger] a.body.instances@[kk]).id == next_i0 + 1 + kk,
                    forall|kk: int|
                        0 <= kk < a.body.instances@.len() ==> seen_inst@.contains(
                            (#[trigger] a.body.instances@[kk]).id,
                        ),
                decreases a.body.tiles@.len() - k,
            {
                let ghost seen_before = seen_tile@;
                seen_tile.push(a.body.tiles[k].id);
                proof {
                    assert(seen_tile@[seen_tile@.len() - 1] == a.body.tiles@[k as int].id);
                    assert forall|kk: int| 0 <= kk < k + 1 implies seen_tile@.contains(
                        (#[trigger] a.body.tiles@[kk]).id,
                    ) by {
                        if kk < k {
                            let j = choose|j: int|
                                0 <= j < seen_before.len() && seen_before[j]
                                    == a.body.tiles@[kk].id;
                            assert(seen_tile@[j] == a.body.tiles@[kk].id);
                        }
                    }
                    assert(seen_tile@.take(seen_t0.len() as int) =~= seen_t0);
                }
                k = k + 1;
            }
            proof {
                // the fresh ids sit above everything recorded before this room
                assert forall|kk: int|
                    0 <= kk < a.body.instances@.len() implies !seen_i0.contains(
                        (#[trigger] a.body.instances@[kk]).id,
                    ) by {
                    if seen_i0.contains(a.body.instances@[kk].id) {
                        let j = choose|j: int|
                            0 <= j < seen_i0.len() && seen_i0[j] == a.body.instances@[kk].id;
                        assert(seen_i0[j] <= next_i0);
                    }
                }
                assert forall|kk: int|
                    0 <= kk < a.body.tiles@.len() implies !seen_t0.contains(
                        (#[trigger] a.body.tiles@[kk]).id,
                    ) by {
                    if seen_t0.contains(a.body.tiles@[kk].id) {
                        let j = choose|j: int|
                            0 <= j < seen_t0.len() && seen_t0[j] == a.body.tiles@[kk].id;
                        assert(seen_t0[j] <= next_t0);
                    }
                }
            }
        }
        // adopt the room's own overlay entries under its (possibly new) ids;
        // an entry whose id matches no instance or tile is silently dropped
        let mut k: usize = 0;
        while k < a.body.instances.len()
            invariant
                forall|kk: int|
                    0 <= kk < a.body.instances@.len() ==> !seen_i0.contains(
                        (#[trigger] a.body.instances@[kk]).id,
                    ),
                forall|k1: int, k2: int|
                    0 <= k1 < k2 < a.body.instances@.len() ==> (
                    #[trigger] a.body.instances@[k1]).id != (
                    #[trigger] a.body.instances@[k2]).id,
                forall|kk: int|
                    0 <= kk < a.body.instances@.len() ==> seen_inst@.contains(
                        (#[trigger] a.body.instances@[kk]).id,
                    ),
                forall|kk: int|
                    0 <= kk < a.body.tiles@.len() ==> !seen_t0.contains(
                        (#[trigger] a.body.tiles@[kk]).id,
                    ),
                forall|k1: int, k2: int|
                    0 <= k1 < k2 < a.body.tiles@.len() ==> (#[trigger] a.body.tiles@[k1]).id != (
                    #[trigger] a.body.tiles@[k2]).id,
                forall|kk: int|
                    0 <= kk < a.body.tiles@.len() ==> seen_tile@.contains(
                        (#[trigger] a.body.tiles@[kk]).id,
                    ),
                forall|j: int| 0 <= j < seen_inst@.len() ==> #[trigger] seen_inst@[j] <= next_inst,
                forall|j: int| 0 <= j < seen_tile@.len() ==> #[trigger] seen_tile@[j] <= next_tile,
                seen_inst@.take(seen_i0.len() as int) == seen_i0,
                seen_tile@.take(seen_t0.len() as int) == seen_t0,
                seen_inst@.len() >= seen_i0.len(),
                seen_tile@.len() >= seen_t0.len(),
                next_inst >= max_inst,
                next_tile >= max_tile,
            decreases a.body.instances@.len() - k,
        {
            match local.get_instance(a.body.instances[k].id) {
                Some(e) => {
                    extra.instances.push((a.body.instances[k].id, e));
                },
                None => {},
            }
            k = k + 1;
        }
        let mut k: usize = 0;
        while k < a.body.tiles.len()
            invariant
                forall|kk: int|
                    0 <= kk < a.body.instances@.len() ==> !seen_i0.contains(
                        (#[trigger] a.body.instances@[kk]).id,
                    ),
                forall|k1: int, k2: int|
                    0 <= k1 < k2 < a.body.instances@.len() ==> (
                    #[trigger] a.body.instances@[k1]).id != (
                    #[trigger] a.body.instances@[k2]).id,
                forall|kk: int|
                    0 <= kk < a.body.instances@.len() ==> seen_inst@.contains(
                        (#[trigger] a.body.instances@[kk]).id,
                    ),
                forall|kk: int|
                    0 <= kk < a.body.tiles@.len() ==> !seen_t0.contains(
                        (#[trigger] a.body.tiles@[kk]).id,
                    ),
                forall|k1: int, k2: int|
                    0 <= k1 < k2 < a.body.tiles@.len() ==> (#[trigger] a.body.tiles@[k1]).id != (
                    #[trigger] a.body.tiles@[k2]).id,
                forall|kk: int|
                    0 <= kk < a.body.tiles@.len() ==> seen_tile@.contains(
                        (#[trigger] a.body.tiles@[kk]).id,
                    ),
                forall|j: int| 0 <= j < seen_inst@.len() ==> #[trigger] seen_inst@[j] <= next_inst,
                forall|j: int| 0 <= j < seen_tile@.len() ==> #[trigger] seen_tile@[j] <= next_tile,
                seen_inst@.take(seen_i0.len() as int) == seen_i0,
                seen_tile@.take(seen_t0.len() as int) == seen_t0,
                seen_inst@.len() >= seen_i0.len(),
                seen_tile@.len() >= seen_t0.len(),
                next_inst >= max_inst,
                next_tile >= max_tile,
            decreases a.body.tiles@.len() - k,
        {
            match local.get_tile(a.body.tiles[k].id) {
                Some(e) => {
                    extra.tiles.push((a.body.tiles[k].id, e));
                },
                None => {},
            }
            k = k + 1;
        }
        let ghost a_g = a;
        let ghost adopted0 = adopted.items@;
        adopted.push(Some(a));
        proof {
            assert(adopted.items@ == adopted0.push(Some(a_g)));
            // the new room's ids collide with nothing already adopted: every
            // adopted id sits in the old seen list, which the new ids avoid
            assert forall|r1: int, k1: int, r2: int, k2: int|
                inst_ok_idx(adopted.items@, r1, k1) && inst_ok_idx(adopted.items@, r2, k2) && (r1
                    != r2 || k1 != k2) implies #[trigger] inst_id_of(adopted.items@, r1, k1) != (
            #[trigger] inst_id_of(adopted.items@, r2, k2)) by {
                if r1 < adopted0.len() && r2 < adopted0.len() {
                    assert(adopted.items@[r1] == adopted0[r1]);
                    assert(adopted.items@[r2] == adopted0[r2]);
                    assert(inst_id_of(adopted0, r1, k1) != inst_id_of(adopted0, r2, k2));
                } else if r1 == adopted0.len() && r2 == adopted0.len() {
                    assert(adopted.items@[r1] == Some(a_g));
                    assert(inst_id_of(adopted.items@, r1, k1) == a_g.body.instances@[k1].id);
                    assert(inst_id_of(adopted.items@, r2, k2) == a_g.body.instances@[k2].id);
                } else if r1 == adopted0.len() {
                    assert(adopted.items@[r2] == adopted0[r2]);
                    assert(inst_ok_idx(adopted0, r2, k2));
                    assert(seen_i0.contains(inst_id_of(adopted0, r2, k2)));
                } else {
                    assert(adopted.items@[r1] == adopted0[r1]);
                    assert(inst_ok_idx(adopted0, r1, k1));
                    assert(seen_i0.contains(inst_id_of(adopted0, r1, k1)));
                }
            }
            assert forall|r1: int, k1: int, r2: int, k2: int|
                tile_ok_idx(adopted.items@, r1, k1) && tile_ok_idx(adopted.items@, r2, k2) && (r1
                    != r2 || k1 != k2) implies #[trigger] tile_id_of(adopted.items@, r1, k1) != (
            #[trigger] tile_id_of(adopted.items@, r2, k2)) by {
                if r1 < adopted0.len() && r2 < adopted0.len() {
                    assert(adopted.items@[r1] == adopted0[r1]);
                    assert(adopted.items@[r2] == adopted0[r2]);
                    assert(tile_id_of(adopted0, r1, k1) != tile_id_of(adopted0, r2, k2));
                } else if r1 == adopted0.len() && r2 == adopted0.len() {
                    assert(adopted.items@[r1] == Some(a_g));
                } else if r1 == adopted0.len() {
                    assert(adopted.items@[r2] == adopted0[r2]);
                    assert(tile_ok_idx(adopted0, r2, k2));
                    assert(seen_t0.contains(tile_id_of(adopted0, r2, k2)));
                } else {
                    assert(adopted.items@[r1] == adopted0[r1]);
                    assert(tile_ok_idx(adopted0, r1, k1));
                    assert(seen_t0.contains(tile_id_of(adopted0, r1, k1)));
                }
            }
            assert forall|r: int, k: int|
                inst_ok_idx(adopted.items@, r, k) implies seen_inst@.contains(
                #[trigger] inst_id_of(adopted.items@, r, k),
            ) by {
                if r < adopted0.len() {
                    assert(adopted.items@[r] == adopted0[r]);
                    let j = choose|j: int|
                        0 <= j < seen_inst@.len() && seen_inst@[j] == inst_id_of(adopted0, r, k);
                    assert(seen_inst@[j] == inst_id_of(adopted.items@, r, k));
                } else {
                    assert(adopted.items@[r] == Some(a_g));
                    assert(seen_inst@.contains(a_g.body.instances@[k].id));
                }
            }
            assert forall|r: int, k: int|
                tile_ok_idx(adopted.items@, r, k) implies seen_tile@.contains(
                #[trigger] tile_id_of(adopted.items@, r, k),
            ) by {
                if r < adopted0.len() {
                    assert(adopted.items@[r] == adopted0[r]);
                    let j = choose|j: int|
                        0 <= j < seen_tile@.len() && seen_tile@[j] == tile_id_of(adopted0, r, k);
                    assert(seen_tile@[j] == tile_id_of(adopted.items@, r, k));
                } else {
                    assert(adopted.items@[r] == Some(a_g));
                    assert(seen_tile@.contains(a_g.body.tiles@[k].id));
                }
            }
        }
    }
    p.last_instance_id = next_inst;
    p.last_tile_id = next_tile;
    // included files
    let mut i: usize = 0;
    while i < m.included.len()
        decreases m.included@.len() - i,
    {
        let name = &m.included[i];
        let rpath = asset_path(c_datafiles(), name, c_asset_txt());
        let pairs = get_kv(tree, &rpath)?;
        let mut f = decode_included_file(&pairs, &rpath)?;
        f.file_name = bytes_to_vec(name.as_slice());
        if f.data_exists {
            let d = get_file(tree, &asset_path(c_datafiles(), name, c_data_bin()))?;
            f.data = Some(bytes_to_vec(d.as_slice()));
        }
        p.included_files.push(Some(f));
        i = i + 1;
    }
    // extensions
    let mut i: usize = 0;
    while i < m.extensions.len()
        decreases m.extensions@.len() - i,
    {
        p.extensions.push(Some(Extension { name: bytes_to_vec(m.extensions[i].as_slice()) }));
        i = i + 1;
    }
    p.rooms = adopted;
    Ok((p, extra))
}
} // verus!
