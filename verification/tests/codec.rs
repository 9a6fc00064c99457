//! End-to-end and scenario tests for the tree-format codec.

use gm82save::asset::{Action, ActionDefinition, ActionLibrary, Background, Event, Frame,
    IncludedFile, Instance, PathPoint, Real, Room, RoomBackground, RoomView, Script, Sound,
    Sprite, Tile, Trigger, Font, Path, NO_BLEND, REAL_ONE_BITS, REAL_ZERO_BITS};
use gm82save::error::{Error, KIND_SPRITE, KIND_TRIGGER};
use gm82save::list::DelphiList;
use gm82save::misc::{fix_broken_room_size, progress_position, run_while_updating_bar,
    script_arg_hint, script_hint, three_newest_ids, FakeSender};
use gm82save::name::validate_name;
use gm82save::outside::{deflate, inflate, frame_to_png, png_to_frame, rename_room_refs};
use gm82save::overlay::{ExtraData, InstanceExtra, TileExtra};
use gm82save::project::{load_project, save_project, Asset, Project, CURRENT_VERSION};
use gm82save::tree::ProjectTree;
use gm82save::xref::check_names_unique;

fn code_action_def() -> ActionDefinition {
    ActionDefinition {
        name: b"Execute Code".to_vec(),
        id: 603,
        kind: 7,
        interface: 1,
        question: false,
        apply_to: true,
        relative: false,
        arg_count: 1,
        arg_types: vec![1, 0, 0, 0, 0, 0, 0, 0],
        execution_type: 2,
        function_name: Vec::new(),
        code_string: Vec::new(),
    }
}

fn move_action_def() -> ActionDefinition {
    ActionDefinition {
        name: b"Move Fixed".to_vec(),
        id: 101,
        kind: 0,
        interface: 0,
        question: false,
        apply_to: true,
        relative: true,
        arg_count: 2,
        arg_types: vec![0, 0, 0, 0, 0, 0, 0, 0],
        execution_type: 1,
        function_name: b"action_move".to_vec(),
        code_string: Vec::new(),
    }
}

fn catalog() -> Vec<ActionLibrary> {
    vec![ActionLibrary { id: 1, version: 520, actions: vec![code_action_def(), move_action_def()] }]
}

fn action_from_def(d: &ActionDefinition, params: Vec<Vec<u8>>) -> Action {
    let mut ps = params;
    while ps.len() < 8 {
        ps.push(Vec::new());
    }
    Action {
        lib_id: 1,
        id: d.id,
        action_kind: d.kind,
        can_be_relative: d.relative,
        is_condition: d.question,
        applies_to_something: d.apply_to,
        execution_type: d.execution_type,
        fn_name: d.function_name.clone(),
        fn_code: d.code_string.clone(),
        param_count: d.arg_count,
        param_types: d.arg_types.clone(),
        applies_to: -1,
        is_relative: false,
        param_strings: ps,
        invert_condition: false,
    }
}

fn empty_room() -> Room {
    Room {
        caption: b"a room".to_vec(),
        speed: 30,
        width: 640,
        height: 480,
        snap_x: 16,
        snap_y: 16,
        isometric: false,
        persistent: false,
        bg_colour: 0,
        clear_screen: true,
        backgrounds: (0..8).map(|_| RoomBackground {
            visible_on_start: false,
            is_foreground: false,
            source_bg: -1,
            xoffset: 0,
            yoffset: 0,
            tile_horz: true,
            tile_vert: true,
            hspeed: -1,
            vspeed: -1,
            stretch: false,
        }).collect(),
        views_enabled: false,
        clear_view: true,
        views: (0..8).map(|_| RoomView {
            visible: false,
            source_x: 0,
            source_y: 0,
            source_w: 640,
            source_h: 480,
            port_x: 0,
            port_y: 0,
            port_w: 640,
            port_h: 480,
            following_hborder: 32,
            following_vborder: 32,
            following_hspeed: 4294967295,
            following_vspeed: 4294967295,
            following_target: -1,
        }).collect(),
        creation_code: Vec::new(),
        instances: Vec::new(),
        tiles: Vec::new(),
        remember_room_editor_info: true,
        editor_width: 0,
        editor_height: 0,
        show_grid: true,
        show_objects: true,
        show_tiles: true,
        show_backgrounds: true,
        show_foregrounds: true,
        show_views: false,
        delete_underlying_objects: true,
        delete_underlying_tiles: true,
        tab: 0,
        x_position_scroll: 0,
        y_position_scroll: 0,
    }
}

fn instance(id: u32, x: i32, y: i32) -> Instance {
    Instance { x, y, object: -1, id, creation_code: Vec::new(), locked: false }
}

fn sample_project() -> Project {
    let mut p = Project::new();
    p.triggers.push(Some(Trigger {
        name: b"trg_hit".to_vec(),
        condition: b"place_meeting(x, y, obj_wall)".to_vec(),
        constant_name: b"TRG_HIT".to_vec(),
        kind: 1,
    }));
    p.sprites.push(Some(Asset {
        name: b"spr_player".to_vec(),
        body: Sprite {
            origin_x: 4,
            origin_y: -2,
            collision_shape: 2,
            alpha_tolerance: 128,
            per_frame_colliders: false,
            bbox_type: 1,
            bbox_left: 0,
            bbox_bottom: 7,
            bbox_right: 7,
            bbox_top: 0,
            frames: vec![Frame { width: 2, height: 2, data: vec![0u8; 16] }],
        },
    }));
    p.sounds.push(Some(Asset {
        name: b"snd_jump".to_vec(),
        body: Sound {
            kind: 0,
            extension: b".wav".to_vec(),
            effects: 0,
            volume: Real { bits: REAL_ONE_BITS },
            pan: Real { bits: REAL_ZERO_BITS },
            preload: true,
            data: Some(vec![1, 2, 3, 4]),
        },
    }));
    p.backgrounds.push(Some(Asset {
        name: b"bg_sky".to_vec(),
        body: Background {
            frame: Frame { width: 1, height: 1, data: vec![10, 20, 30, 255] },
            is_tileset: true,
            tile_width: 16,
            tile_height: 16,
            h_offset: 0,
            v_offset: 0,
            h_sep: 1,
            v_sep: 1,
        },
    }));
    p.paths.push(Some(Asset {
        name: b"pth_loop".to_vec(),
        body: Path {
            points: vec![PathPoint {
                x: Real { bits: REAL_ONE_BITS },
                y: Real { bits: REAL_ZERO_BITS },
                speed: Real { bits: REAL_ONE_BITS },
            }],
            connection: 1,
            closed: true,
            precision: 4,
            path_editor_room_background: 0,
            snap_x: 16,
            snap_y: 16,
        },
    }));
    p.scripts.push(Some(Asset {
        name: b"scr_step".to_vec(),
        body: Script { source: b"/// scr_step(a)\nreturn argument0;".to_vec() },
    }));
    p.fonts.push(Some(Asset {
        name: b"fnt_main".to_vec(),
        body: Font {
            sys_name: b"Arial".to_vec(),
            size: 12,
            bold: false,
            italic: false,
            range_start: 32,
            range_end: 127,
            charset: 1,
            aa_level: 3,
        },
    }));
    let code_act = action_from_def(&code_action_def(), vec![b"x += 1;\ny += 2;".to_vec()]);
    let mut move_act = action_from_def(&move_action_def(), vec![b"5".to_vec(), b"9".to_vec()]);
    move_act.is_relative = true;
    p.objects.push(Some(Asset {
        name: b"obj_player".to_vec(),
        body: gm82save::asset::Object {
            sprite_index: 0,
            solid: false,
            visible: true,
            depth: -5,
            persistent: false,
            parent_index: -1,
            mask_index: -1,
            events: vec![Event { event_type: 3, event_subtype: 0, actions: vec![code_act, move_act] }],
        },
    }));
    let tl_act = action_from_def(&code_action_def(), vec![b"speed = 0;".to_vec()]);
    p.timelines.push(Some(Asset {
        name: b"tml_intro".to_vec(),
        body: gm82save::asset::Timeline {
            moment_times: vec![30],
            moment_events: vec![Event { event_type: 0, event_subtype: 0, actions: vec![tl_act] }],
        },
    }));
    let mut room = empty_room();
    room.instances.push(instance(100, 32, 64));
    room.tiles.push(Tile {
        x: 0,
        y: 0,
        source_bg: 0,
        u: 16,
        v: 0,
        width: 16,
        height: 16,
        depth: 1000,
        id: 200,
        locked: false,
    });
    p.rooms.push(Some(Asset { name: b"rm_start".to_vec(), body: room }));
    p.included_files.push(Some(IncludedFile {
        file_name: b"readme.dat".to_vec(),
        source_path: b"C:\\readme.dat".to_vec(),
        data_exists: true,
        source_length: 3,
        stored_in_gmk: true,
        data: Some(vec![9, 8, 7]),
        export_setting: 0,
        export_custom_folder: Vec::new(),
        overwrite_file: false,
        free_memory: true,
        remove_at_end: false,
    }));
    p.extensions.push(Some(gm82save::asset::Extension { name: b"ext_tools".to_vec() }));
    p
}

fn sample_extra() -> ExtraData {
    let mut e = ExtraData::new();
    e.instances.push((
        100,
        InstanceExtra {
            name: 0,
            xscale: Real { bits: 0x4000000000000000 },  // 2.0
            yscale: Real { bits: REAL_ONE_BITS },
            blend: NO_BLEND,
            angle: Real { bits: REAL_ZERO_BITS },
        },
    ));
    e
}

#[test]
fn round_trip_whole_project() {
    let p = sample_project();
    let extra = sample_extra();
    let tree = save_project(&p, &extra).expect("save");
    let (q, extra2) = load_project(&tree, &catalog()).expect("load");

    // triggers
    let t = q.triggers.get(0).as_ref().unwrap();
    assert_eq!(t.name, b"trg_hit".to_vec());
    assert_eq!(t.condition, b"place_meeting(x, y, obj_wall)".to_vec());
    assert_eq!(t.constant_name, b"TRG_HIT".to_vec());
    assert_eq!(t.kind, 1);
    // sprites
    let s = q.sprites.get(0).as_ref().unwrap();
    assert_eq!(s.name, b"spr_player".to_vec());
    assert_eq!(s.body.origin_x, 4);
    assert_eq!(s.body.origin_y, -2);
    assert_eq!(s.body.frames.len(), 1);
    assert_eq!(s.body.frames[0].width, 2);
    assert_eq!(s.body.frames[0].data, vec![0u8; 16]);
    // sounds
    let snd = q.sounds.get(0).as_ref().unwrap();
    assert_eq!(snd.body.extension, b".wav".to_vec());
    assert_eq!(snd.body.volume.bits, REAL_ONE_BITS);
    assert_eq!(snd.body.data, Some(vec![1, 2, 3, 4]));
    // backgrounds
    let bg = q.backgrounds.get(0).as_ref().unwrap();
    assert_eq!(bg.body.frame.data, vec![10, 20, 30, 255]);
    assert!(bg.body.is_tileset);
    // paths
    let pa = q.paths.get(0).as_ref().unwrap();
    assert_eq!(pa.body.points.len(), 1);
    assert_eq!(pa.body.points[0].x.bits, REAL_ONE_BITS);
    assert_eq!(pa.body.path_editor_room_background, 0);
    // scripts
    let sc = q.scripts.get(0).as_ref().unwrap();
    assert_eq!(sc.body.source, b"/// scr_step(a)\nreturn argument0;".to_vec());
    // fonts
    let f = q.fonts.get(0).as_ref().unwrap();
    assert_eq!(f.body.sys_name, b"Arial".to_vec());
    assert_eq!(f.body.size, 12);
    // objects and their actions
    let o = q.objects.get(0).as_ref().unwrap();
    assert_eq!(o.body.sprite_index, 0);
    assert_eq!(o.body.depth, -5);
    assert_eq!(o.body.events.len(), 1);
    let ev = &o.body.events[0];
    assert_eq!(ev.event_type, 3);
    assert_eq!(ev.actions.len(), 2);
    assert_eq!(ev.actions[0].id, 603);
    assert_eq!(ev.actions[0].param_strings[0], b"x += 1;\ny += 2;".to_vec());
    assert_eq!(ev.actions[1].id, 101);
    assert!(ev.actions[1].is_relative);
    assert_eq!(ev.actions[1].param_strings[0], b"5".to_vec());
    assert_eq!(ev.actions[1].param_strings[1], b"9".to_vec());
    // timelines
    let tl = q.timelines.get(0).as_ref().unwrap();
    assert_eq!(tl.body.moment_times, vec![30]);
    assert_eq!(tl.body.moment_events[0].actions[0].param_strings[0], b"speed = 0;".to_vec());
    // rooms
    let r = q.rooms.get(0).as_ref().unwrap();
    assert_eq!(r.body.caption, b"a room".to_vec());
    assert_eq!(r.body.instances.len(), 1);
    assert_eq!(r.body.instances[0].id, 100);
    assert_eq!(r.body.instances[0].x, 32);
    assert_eq!(r.body.tiles.len(), 1);
    assert_eq!(r.body.tiles[0].id, 200);
    assert_eq!(r.body.tiles[0].depth, 1000);
    // the overlay followed the ids, defaults omitted
    let e = extra2.get_instance(100).expect("overlay entry");
    assert_eq!(e.xscale.bits, 0x4000000000000000);
    assert_eq!(e.yscale.bits, REAL_ONE_BITS);
    assert_eq!(e.blend, NO_BLEND);
    // included files
    let inc = q.included_files.get(0).as_ref().unwrap();
    assert_eq!(inc.file_name, b"readme.dat".to_vec());
    assert_eq!(inc.data, Some(vec![9, 8, 7]));
    // extensions
    let ex = q.extensions.get(0).as_ref().unwrap();
    assert_eq!(ex.name, b"ext_tools".to_vec());
}

#[test]
fn name_validation_accepts_and_rejects() {
    assert!(validate_name(&b"Player".to_vec(), KIND_SPRITE).is_ok());
    assert!(validate_name(&b"spr player 2".to_vec(), KIND_SPRITE).is_ok());
    match validate_name(&b"a=b".to_vec(), KIND_SPRITE) {
        Err(Error::BadAssetName(n, c)) => {
            assert_eq!(n, b"a=b".to_vec());
            assert_eq!(c, b'=');
        },
        other => panic!("unexpected: {:?}", other),
    }
    match validate_name(&b"a/b".to_vec(), KIND_TRIGGER) {
        Err(Error::BadTriggerName(_, c)) => assert_eq!(c, b'/'),
        other => panic!("unexpected: {:?}", other),
    }
}

#[test]
fn name_validation_is_stable_across_runs() {
    let name = b"spr_player".to_vec();
    let first = validate_name(&name, KIND_SPRITE).is_ok();
    let second = validate_name(&name, KIND_SPRITE).is_ok();
    assert!(first);
    assert_eq!(first, second);
}

#[test]
fn duplicate_sprites_named_player_fail() {
    let mut p = Project::new();
    let body = || Sprite {
        origin_x: 0,
        origin_y: 0,
        collision_shape: 0,
        alpha_tolerance: 0,
        per_frame_colliders: false,
        bbox_type: 0,
        bbox_left: 0,
        bbox_bottom: 0,
        bbox_right: 0,
        bbox_top: 0,
        frames: Vec::new(),
    };
    p.sprites.push(Some(Asset { name: b"Player".to_vec(), body: body() }));
    p.sprites.push(Some(Asset { name: b"Player".to_vec(), body: body() }));
    let tree = save_project(&p, &ExtraData::new()).expect("save");
    match load_project(&tree, &catalog()) {
        Err(Error::DuplicateAsset(n)) => assert_eq!(n, b"Player".to_vec()),
        other => panic!("unexpected: {:?}", other.map(|_| ())),
    }
    // the check itself is case-insensitive
    let names = vec![b"Player".to_vec(), b"PLAYER".to_vec()];
    assert!(matches!(check_names_unique(&names, KIND_SPRITE), Err(Error::DuplicateAsset(_))));
}

#[test]
fn unknown_action_is_rejected_with_its_ids() {
    // a hand-edited block naming a library the catalog lacks
    let mut text = Vec::new();
    text.extend_from_slice(b"/*\"/*'/**//* YYD ACTION\n");
    text.extend_from_slice(b"l=999\n");
    text.extend_from_slice(b"a=1\n");
    text.extend_from_slice(b"*/\n");
    let path: Vec<Vec<u8>> = vec![b"objects".to_vec()];
    match gm82save::actions::decode_event_text(&catalog(), &text, &path) {
        Err(Error::UnknownAction(lib, act)) => {
            assert_eq!(lib, 999);
            assert_eq!(act, 1);
        },
        other => panic!("unexpected: {:?}", other.map(|_| ())),
    }
}

#[test]
fn bare_text_decodes_to_one_code_action() {
    let text = b"x = 5;\ny = 6;\n".to_vec();
    let path: Vec<Vec<u8>> = vec![b"objects".to_vec()];
    let (acts, _) = gm82save::actions::decode_event_text(&catalog(), &text, &path).expect("decode");
    assert_eq!(acts.len(), 1);
    assert_eq!(acts[0].lib_id, 1);
    assert_eq!(acts[0].id, 603);
    assert_eq!(acts[0].param_strings[0], b"x = 5;\ny = 6;".to_vec());
}

#[test]
fn overlay_defaults_produce_no_entry() {
    let mut p = Project::new();
    let mut room = empty_room();
    room.instances.push(instance(5, 0, 0));
    p.rooms.push(Some(Asset { name: b"rm_a".to_vec(), body: room }));
    let mut extra = ExtraData::new();
    extra.instances.push((
        5,
        InstanceExtra {
            name: 0,
            xscale: Real { bits: REAL_ONE_BITS },
            yscale: Real { bits: REAL_ONE_BITS },
            blend: NO_BLEND,
            angle: Real { bits: REAL_ZERO_BITS },
        },
    ));
    let tree = save_project(&p, &extra).expect("save");
    // no extras file exists anywhere in the tree
    for f in &tree.files {
        assert!(f.path.iter().all(|c| c.as_slice() != b"extras"));
    }
    // a single differing field produces an entry holding only that field
    let mut extra = ExtraData::new();
    extra.instances.push((
        5,
        InstanceExtra {
            name: 0,
            xscale: Real { bits: REAL_ONE_BITS },
            yscale: Real { bits: REAL_ONE_BITS },
            blend: 0x00FF00FF,
            angle: Real { bits: REAL_ZERO_BITS },
        },
    ));
    let tree = save_project(&p, &extra).expect("save");
    let extras: Vec<_> = tree.files.iter().filter(|f| f.path.iter().any(|c| c.as_slice() == b"extras")).collect();
    assert_eq!(extras.len(), 1);
    assert_eq!(extras[0].data, b"b=16711935\n".to_vec());
    let (_, extra2) = load_project(&tree, &catalog()).expect("load");
    let e = extra2.get_instance(5).expect("entry");
    assert_eq!(e.blend, 0x00FF00FF);
    assert_eq!(e.xscale.bits, REAL_ONE_BITS);
    assert_eq!(e.angle.bits, REAL_ZERO_BITS);
}

#[test]
fn newer_version_is_refused_before_any_asset() {
    let p = sample_project();
    let tree = save_project(&p, &ExtraData::new()).expect("save");
    // restamp the manifest with a version from the future
    let mut bad = ProjectTree { files: Vec::new() };
    for f in &tree.files {
        if f.path.len() == 1 && f.path[0] == b"manifest.txt".to_vec() {
            let text = String::from_utf8(f.data.clone()).unwrap();
            let bumped = text.replace(
                &format!("v={}", CURRENT_VERSION),
                &format!("v={}", CURRENT_VERSION + 1),
            );
            bad.files.push(gm82save::tree::TreeFile {
                path: f.path.clone(),
                data: bumped.into_bytes(),
            });
        } else {
            bad.files.push(gm82save::tree::TreeFile { path: f.path.clone(), data: f.data.clone() });
        }
    }
    match load_project(&bad, &catalog()) {
        Err(Error::OldGM82) => {},
        other => panic!("unexpected: {:?}", other.map(|_| ())),
    }
}

#[test]
fn colliding_instance_ids_are_repaired_and_overlay_follows() {
    let mut p = Project::new();
    let mut room_a = empty_room();
    room_a.instances.push(instance(5, 1, 1));
    let mut room_b = empty_room();
    room_b.instances.push(instance(5, 2, 2));
    p.rooms.push(Some(Asset { name: b"rm_a".to_vec(), body: room_a }));
    p.rooms.push(Some(Asset { name: b"rm_b".to_vec(), body: room_b }));
    let mut extra = ExtraData::new();
    extra.instances.push((
        5,
        InstanceExtra {
            name: 0,
            xscale: Real { bits: 0x4008000000000000 },  // 3.0
            yscale: Real { bits: REAL_ONE_BITS },
            blend: NO_BLEND,
            angle: Real { bits: REAL_ZERO_BITS },
        },
    ));
    let tree = save_project(&p, &extra).expect("save");
    let (q, extra2) = load_project(&tree, &catalog()).expect("load");
    let a = q.rooms.get(0).as_ref().unwrap();
    let b = q.rooms.get(1).as_ref().unwrap();
    let id_a = a.body.instances[0].id;
    let id_b = b.body.instances[0].id;
    assert_ne!(id_a, id_b, "ids must be unique across the project");
    // each room's file carried the entry for its own id 5; after the
    // repair each surviving id answers with the entry's fields intact
    let ea = extra2.get_instance(id_a).expect("entry for first room");
    let eb = extra2.get_instance(id_b).expect("entry for second room");
    assert_eq!(ea.xscale.bits, 0x4008000000000000);
    assert_eq!(eb.xscale.bits, 0x4008000000000000);
    assert!(q.last_instance_id >= id_a && q.last_instance_id >= id_b);
}

#[test]
fn compressed_streams_come_back_unchanged() {
    let src: Vec<u8> = (0..200u8).chain(0..200u8).collect();
    let framed = deflate(&src, 6).expect("deflate");
    assert!(framed.len() >= 4);
    let n = u32::from_le_bytes([framed[0], framed[1], framed[2], framed[3]]) as usize;
    assert_eq!(framed.len() - 4, n);
    let back = inflate(&framed).expect("inflate");
    assert_eq!(back, src);
    assert!(inflate(&b"abc".to_vec()).is_none());
}

#[test]
fn frame_images_survive_their_sidecar() {
    let f = Frame { width: 3, height: 2, data: (0..24u8).collect() };
    let path: Vec<Vec<u8>> = vec![b"sprites".to_vec()];
    let png = frame_to_png(&f, &path).expect("encode");
    let f2 = png_to_frame(&png, &path).expect("decode");
    assert_eq!(f2.width, 3);
    assert_eq!(f2.height, 2);
    assert_eq!(f2.data, f.data);
    // a frame whose bytes do not match its size is rejected
    let bad = Frame { width: 3, height: 2, data: vec![0u8; 5] };
    assert!(matches!(frame_to_png(&bad, &path), Err(Error::InvalidImage(_))));
}

#[test]
fn room_rename_rewrites_matching_references() {
    let code = b"target = old_room_0123ABCD; other = another_0123ABCD;".to_vec();
    let out = rename_room_refs(&code, &b"old_room".to_vec(), &b"new_room".to_vec());
    assert_eq!(out, b"target = new_room_0123ABCD; other = another_0123ABCD;".to_vec());
}

#[test]
fn three_newest_picks_the_last_present_slots() {
    let present = vec![true, false, true, true, false, true];
    let picks = three_newest_ids(&present);
    assert_eq!(picks, vec![2, 3, 5]);
    let sparse = vec![false, true, false];
    assert_eq!(three_newest_ids(&sparse), vec![1]);
    assert_eq!(three_newest_ids(&Vec::new()), Vec::<usize>::new());
}

#[test]
fn script_hints_come_from_the_marker_line() {
    let src = b"/// scr_add(a, b)\rreturn argument0 + argument1;".to_vec();
    assert_eq!(script_hint(&src), Some(b" scr_add(a, b)".to_vec()));
    assert_eq!(script_arg_hint(&src), Some(b"(a, b)".to_vec()));
    assert_eq!(script_hint(&b"x = 1;".to_vec()), None);
}

#[test]
fn zeroed_room_sizes_fall_back() {
    assert_eq!(fix_broken_room_size(0, 0, 0, 50), (800, 608, 50));
    assert_eq!(fix_broken_room_size(1024, 768, 60, 50), (1024, 768, 60));
}

#[test]
fn progress_scales_into_the_bar() {
    assert_eq!(progress_position(0, 10, 110, 4), 10);
    assert_eq!(progress_position(2, 10, 110, 4), 60);
    assert_eq!(progress_position(4, 10, 110, 4), 110);
}

#[test]
fn bar_runner_returns_the_step_result() {
    let r = run_while_updating_bar(0, 100, 1, |s: FakeSender| {
        s.send(());
        Ok(())
    });
    assert!(r.is_ok());
}

#[test]
fn lists_keep_their_slots() {
    let mut l: DelphiList<Option<u32>> = DelphiList::new();
    l.push(Some(7));
    l.push(None);
    l.push(Some(9));
    assert_eq!(l.len(), 3);
    assert_eq!(*l.get(0), Some(7));
    assert_eq!(*l.get(1), None);
    l.set(1, Some(8));
    assert_eq!(*l.get(1), Some(8));
}

#[test]
fn tile_extras_survive_too() {
    let mut p = Project::new();
    let mut room = empty_room();
    room.tiles.push(Tile {
        x: 0,
        y: 0,
        source_bg: -1,
        u: 0,
        v: 0,
        width: 16,
        height: 16,
        depth: 0,
        id: 77,
        locked: false,
    });
    p.rooms.push(Some(Asset { name: b"rm_t".to_vec(), body: room }));
    let mut extra = ExtraData::new();
    extra.tiles.push((
        77,
        TileExtra {
            xscale: Real { bits: REAL_ONE_BITS },
            yscale: Real { bits: 0x4000000000000000 },
            blend: NO_BLEND,
        },
    ));
    let tree = save_project(&p, &extra).expect("save");
    let (_, extra2) = load_project(&tree, &catalog()).expect("load");
    let e = extra2.get_tile(77).expect("tile entry");
    assert_eq!(e.yscale.bits, 0x4000000000000000);
    assert_eq!(e.xscale.bits, REAL_ONE_BITS);
}

#[test]
fn empty_names_are_rejected() {
    // an empty name cannot become a file name
    match validate_name(&Vec::new(), KIND_SPRITE) {
        Err(Error::BadAssetName(n, _)) => assert_eq!(n, Vec::<u8>::new()),
        other => panic!("unexpected: {:?}", other),
    }
    let mut p = Project::new();
    p.extensions.push(Some(gm82save::asset::Extension { name: Vec::new() }));
    assert!(matches!(
        save_project(&p, &ExtraData::new()),
        Err(Error::BadAssetName(_, _))
    ));
}

#[test]
fn errors_render_their_messages() {
    assert_eq!(
        Error::DuplicateAsset(b"Player".to_vec()).message(),
        b"multiple assets named Player".to_vec()
    );
    assert_eq!(
        Error::UnknownAction(999, 1).message(),
        b"unknown action 1 in lib with id 999".to_vec()
    );
    assert_eq!(
        Error::BadAssetName(b"a=b".to_vec(), b'=').message(),
        b"asset name a=b may not contain character =".to_vec()
    );
    assert_eq!(
        Error::SyntaxError(vec![b"rooms".to_vec(), b"rm_a".to_vec(), b"room.txt".to_vec()])
            .message(),
        b"syntax error in file rooms/rm_a/room.txt".to_vec()
    );
    assert_eq!(
        Error::OldGM82.message(),
        b"this project was made with a newer version of gm82save, please update".to_vec()
    );
}

#[test]
fn saved_trees_carry_the_current_stamp() {
    let tree = save_project(&sample_project(), &ExtraData::new()).expect("save");
    let manifest = tree
        .files
        .iter()
        .find(|f| f.path.len() == 1 && f.path[0].as_slice() == b"manifest.txt")
        .expect("manifest");
    let text = String::from_utf8(manifest.data.clone()).unwrap();
    assert!(text.starts_with(&format!("v={}\n", CURRENT_VERSION)));
}
