//! The in-memory project graph: one record type per asset kind, plus the
//! shared pieces (frames, actions, events, room parts).
//!
//! The codec never aliases host memory: the graph is an owned value, copied
//! in at the start of a call and out at its end. Real-number fields carry the
//! exact bit pattern of the host's eight-byte values, so storing and
//! reloading them is lossless; the host converts at the boundary.
//!
//! Each record type has a spec-level equality predicate (`..._eq`) that
//! compares records field by field; the round-trip laws are stated with it.

use vstd::prelude::*;

verus! {

/// Bit pattern of the host's real number 1.0.
pub const REAL_ONE_BITS: u64 = 0x3FF0_0000_0000_0000;

/// Bit pattern of the host's real number 0.0.
pub const REAL_ZERO_BITS: u64 = 0;

/// The blend value that means "no blend".
pub const NO_BLEND: u32 = 0xFFFF_FFFF;

/// A real number of the host, carried as its exact bit pattern.
#[derive(Clone, Copy, PartialEq, Eq, Structural, Debug)]
pub struct Real {
    pub bits: u64,
}

impl Real {
    /// The real number 1.0.
    pub fn one() -> (r: Real)
        ensures
            r.bits == REAL_ONE_BITS,
    {
        Real { bits: REAL_ONE_BITS }
    }

    /// The real number 0.0.
    pub fn zero() -> (r: Real)
        ensures
            r.bits == REAL_ZERO_BITS,
    {
        Real { bits: REAL_ZERO_BITS }
    }
}

/// A condition that fires an event; has a project-wide unique name.
#[derive(Clone)]
pub struct Trigger {
    pub name: Vec<u8>,
    pub condition: Vec<u8>,
    pub constant_name: Vec<u8>,
    pub kind: u32,
}

pub open spec fn trigger_eq(a: &Trigger, b: &Trigger) -> bool {
    &&& a.name@ == b.name@
    &&& a.condition@ == b.condition@
    &&& a.constant_name@ == b.constant_name@
    &&& a.kind == b.kind
}

/// One image of a sprite: width, height and raw RGBA bytes, row by row.
#[derive(Clone)]
pub struct Frame {
    pub width: u32,
    pub height: u32,
    pub data: Vec<u8>,
}

pub open spec fn frame_eq(a: &Frame, b: &Frame) -> bool {
    &&& a.width == b.width
    &&& a.height == b.height
    &&& a.data@ == b.data@
}

#[derive(Clone)]
pub struct Sprite {
    pub origin_x: i32,
    pub origin_y: i32,
    pub collision_shape: u32,
    pub alpha_tolerance: u32,
    pub per_frame_colliders: bool,
    pub bbox_type: u32,
    pub bbox_left: i32,
    pub bbox_bottom: i32,
    pub bbox_right: i32,
    pub bbox_top: i32,
    pub frames: Vec<Frame>,
}

pub open spec fn sprite_eq(a: &Sprite, b: &Sprite) -> bool {
    &&& a.origin_x == b.origin_x
    &&& a.origin_y == b.origin_y
    &&& a.collision_shape == b.collision_shape
    &&& a.alpha_tolerance == b.alpha_tolerance
    &&& a.per_frame_colliders == b.per_frame_colliders
    &&& a.bbox_type == b.bbox_type
    &&& a.bbox_left == b.bbox_left
    &&& a.bbox_bottom == b.bbox_bottom
    &&& a.bbox_right == b.bbox_right
    &&& a.bbox_top == b.bbox_top
    &&& a.frames@.len() == b.frames@.len()
    &&& forall|i: int|
        0 <= i < a.frames@.len() ==> frame_eq(&a.frames@[i], &#[trigger] b.frames@[i])
}

#[derive(Clone)]
pub struct Background {
    pub frame: Frame,
    pub is_tileset: bool,
    pub tile_width: u32,
    pub tile_height: u32,
    pub h_offset: u32,
    pub v_offset: u32,
    pub h_sep: u32,
    pub v_sep: u32,
}

pub open spec fn background_eq(a: &Background, b: &Background) -> bool {
    &&& frame_eq(&a.frame, &b.frame)
    &&& a.is_tileset == b.is_tileset
    &&& a.tile_width == b.tile_width
    &&& a.tile_height == b.tile_height
    &&& a.h_offset == b.h_offset
    &&& a.v_offset == b.v_offset
    &&& a.h_sep == b.h_sep
    &&& a.v_sep == b.v_sep
}

#[derive(Clone, Copy, PartialEq, Eq, Structural, Debug)]
pub struct PathPoint {
    pub x: Real,
    pub y: Real,
    pub speed: Real,
}

#[derive(Clone)]
pub struct Path {
    pub points: Vec<PathPoint>,
    pub connection: u32,
    pub closed: bool,
    pub precision: u32,
    /// Reference to the room shown behind the path editor; -1 for none.
    pub path_editor_room_background: i32,
    pub snap_x: u32,
    pub snap_y: u32,
}

pub open spec fn path_eq(a: &Path, b: &Path) -> bool {
    &&& a.points@ == b.points@
    &&& a.connection == b.connection
    &&& a.closed == b.closed
    &&& a.precision == b.precision
    &&& a.path_editor_room_background == b.path_editor_room_background
    &&& a.snap_x == b.snap_x
    &&& a.snap_y == b.snap_y
}

#[derive(Clone)]
pub struct Script {
    pub source: Vec<u8>,
}

pub open spec fn script_eq(a: &Script, b: &Script) -> bool {
    a.source@ == b.source@
}

#[derive(Clone)]
pub struct Sound {
    pub kind: u32,
    pub extension: Vec<u8>,
    pub effects: u32,
    pub volume: Real,
    pub pan: Real,
    pub preload: bool,
    pub data: Option<Vec<u8>>,
}

pub open spec fn sound_eq(a: &Sound, b: &Sound) -> bool {
    &&& a.kind == b.kind
    &&& a.extension@ == b.extension@
    &&& a.effects == b.effects
    &&& a.volume == b.volume
    &&& a.pan == b.pan
    &&& a.preload == b.preload
    &&& match (&a.data, &b.data) {
        (Some(x), Some(y)) => x@ == y@,
        (None, None) => true,
        _ => false,
    }
}

#[derive(Clone)]
pub struct Font {
    pub sys_name: Vec<u8>,
    pub size: u32,
    pub bold: bool,
    pub italic: bool,
    pub range_start: u32,
    pub range_end: u32,
    pub charset: u32,
    pub aa_level: u32,
}

pub open spec fn font_eq(a: &Font, b: &Font) -> bool {
    &&& a.sys_name@ == b.sys_name@
    &&& a.size == b.size
    &&& a.bold == b.bold
    &&& a.italic == b.italic
    &&& a.range_start == b.range_start
    &&& a.range_end == b.range_end
    &&& a.charset == b.charset
    &&& a.aa_level == b.aa_level
}

/// One invocation of an action-library entry.
#[derive(Clone)]
pub struct Action {
    pub lib_id: u32,
    pub id: u32,
    pub action_kind: u32,
    pub can_be_relative: bool,
    pub is_condition: bool,
    pub applies_to_something: bool,
    pub execution_type: u32,
    pub fn_name: Vec<u8>,
    pub fn_code: Vec<u8>,
    pub param_count: u32,
    /// Always eight entries; entries past `param_count` are unused.
    pub param_types: Vec<u32>,
    /// -1 for self, -2 for other, else an object id.
    pub applies_to: i32,
    pub is_relative: bool,
    /// Always eight entries; entries past `param_count` are empty.
    pub param_strings: Vec<Vec<u8>>,
    pub invert_condition: bool,
}

pub open spec fn action_eq(a: &Action, b: &Action) -> bool {
    &&& a.lib_id == b.lib_id
    &&& a.id == b.id
    &&& a.action_kind == b.action_kind
    &&& a.can_be_relative == b.can_be_relative
    &&& a.is_condition == b.is_condition
    &&& a.applies_to_something == b.applies_to_something
    &&& a.execution_type == b.execution_type
    &&& a.fn_name@ == b.fn_name@
    &&& a.fn_code@ == b.fn_code@
    &&& a.param_count == b.param_count
    &&& a.param_types@ == b.param_types@
    &&& a.applies_to == b.applies_to
    &&& a.is_relative == b.is_relative
    &&& a.param_strings@.len() == b.param_strings@.len()
    &&& (forall|i: int|
        0 <= i < a.param_strings@.len() ==> a.param_strings@[i]@ == (
        #[trigger] b.param_strings@[i])@)
    &&& a.invert_condition == b.invert_condition
}

/// An ordered list of actions, keyed by an event type and subtype.
#[derive(Clone)]
pub struct Event {
    pub event_type: u32,
    pub event_subtype: u32,
    pub actions: Vec<Action>,
}

pub open spec fn event_eq(a: &Event, b: &Event) -> bool {
    &&& a.event_type == b.event_type
    &&& a.event_subtype == b.event_subtype
    &&& a.actions@.len() == b.actions@.len()
    &&& forall|i: int|
        0 <= i < a.actions@.len() ==> action_eq(&a.actions@[i], &#[trigger] b.actions@[i])
}

#[derive(Clone)]
pub struct Timeline {
    /// Moment times, parallel to `moment_events`.
    pub moment_times: Vec<u32>,
    pub moment_events: Vec<Event>,
}

pub open spec fn timeline_eq(a: &Timeline, b: &Timeline) -> bool {
    &&& a.moment_times@ == b.moment_times@
    &&& a.moment_events@.len() == b.moment_events@.len()
    &&& forall|i: int|
        0 <= i < a.moment_events@.len() ==> event_eq(
            &a.moment_events@[i],
            &#[trigger] b.moment_events@[i],
        )
}

#[derive(Clone)]
pub struct Object {
    /// Sprite reference; -1 for none.
    pub sprite_index: i32,
    pub solid: bool,
    pub visible: bool,
    pub depth: i32,
    pub persistent: bool,
    /// Object reference; -1 for none.
    pub parent_index: i32,
    /// Sprite reference; -1 for none.
    pub mask_index: i32,
    pub events: Vec<Event>,
}

pub open spec fn object_eq(a: &Object, b: &Object) -> bool {
    &&& a.sprite_index == b.sprite_index
    &&& a.solid == b.solid
    &&& a.visible == b.visible
    &&& a.depth == b.depth
    &&& a.persistent == b.persistent
    &&& a.parent_index == b.parent_index
    &&& a.mask_index == b.mask_index
    &&& a.events@.len() == b.events@.len()
    &&& forall|i: int|
        0 <= i < a.events@.len() ==> event_eq(&a.events@[i], &#[trigger] b.events@[i])
}

/// One of the eight background layers of a room.
#[derive(Clone, Copy, PartialEq, Eq, Structural, Debug)]
pub struct RoomBackground {
    pub visible_on_start: bool,
    pub is_foreground: bool,
    /// Background reference; -1 for none.
    pub source_bg: i32,
    pub xoffset: i32,
    pub yoffset: i32,
    pub tile_horz: bool,
    pub tile_vert: bool,
    pub hspeed: i32,
    pub vspeed: i32,
    pub stretch: bool,
}

/// One of the eight views of a room.
#[derive(Clone, Copy, PartialEq, Eq, Structural, Debug)]
pub struct RoomView {
    pub visible: bool,
    pub source_x: i32,
    pub source_y: i32,
    pub source_w: u32,
    pub source_h: u32,
    pub port_x: u32,
    pub port_y: u32,
    pub port_w: u32,
    pub port_h: u32,
    pub following_hborder: u32,
    pub following_vborder: u32,
    pub following_hspeed: u32,
    pub following_vspeed: u32,
    /// Object reference; -1 for none.
    pub following_target: i32,
}

/// An object placed in a room, with its project-wide runtime id.
#[derive(Clone)]
pub struct Instance {
    pub x: i32,
    pub y: i32,
    /// Object reference; -1 for none.
    pub object: i32,
    pub id: u32,
    pub creation_code: Vec<u8>,
    pub locked: bool,
}

pub open spec fn instance_eq(a: &Instance, b: &Instance) -> bool {
    &&& a.x == b.x
    &&& a.y == b.y
    &&& a.object == b.object
    &&& a.id == b.id
    &&& a.creation_code@ == b.creation_code@
    &&& a.locked == b.locked
}

/// A background image placed in a room, with its project-wide runtime id.
#[derive(Clone, Copy, PartialEq, Eq, Structural, Debug)]
pub struct Tile {
    pub x: i32,
    pub y: i32,
    /// Background reference; -1 for none.
    pub source_bg: i32,
    pub u: u32,
    pub v: u32,
    pub width: u32,
    pub height: u32,
    pub depth: i32,
    pub id: u32,
    pub locked: bool,
}

#[derive(Clone)]
pub struct Room {
    pub caption: Vec<u8>,
    pub speed: u32,
    pub width: u32,
    pub height: u32,
    pub snap_x: u32,
    pub snap_y: u32,
    pub isometric: bool,
    pub persistent: bool,
    pub bg_colour: i32,
    pub clear_screen: bool,
    /// Always eight entries.
    pub backgrounds: Vec<RoomBackground>,
    pub views_enabled: bool,
    pub clear_view: bool,
    /// Always eight entries.
    pub views: Vec<RoomView>,
    pub creation_code: Vec<u8>,
    pub instances: Vec<Instance>,
    pub tiles: Vec<Tile>,
    pub remember_room_editor_info: bool,
    pub editor_width: u32,
    pub editor_height: u32,
    pub show_grid: bool,
    pub show_objects: bool,
    pub show_tiles: bool,
    pub show_backgrounds: bool,
    pub show_foregrounds: bool,
    pub show_views: bool,
    pub delete_underlying_objects: bool,
    pub delete_underlying_tiles: bool,
    pub tab: u32,
    pub x_position_scroll: u32,
    pub y_position_scroll: u32,
}

pub open spec fn room_eq(a: &Room, b: &Room) -> bool {
    &&& a.caption@ == b.caption@
    &&& a.speed == b.speed
    &&& a.width == b.width
    &&& a.height == b.height
    &&& a.snap_x == b.snap_x
    &&& a.snap_y == b.snap_y
    &&& a.isometric == b.isometric
    &&& a.persistent == b.persistent
    &&& a.bg_colour == b.bg_colour
    &&& a.clear_screen == b.clear_screen
    &&& a.backgrounds@ == b.backgrounds@
    &&& a.views_enabled == b.views_enabled
    &&& a.clear_view == b.clear_view
    &&& a.views@ == b.views@
    &&& a.creation_code@ == b.creation_code@
    &&& a.instances@.len() == b.instances@.len()
    &&& (forall|i: int|
        0 <= i < a.instances@.len() ==> instance_eq(&a.instances@[i], &#[trigger] b.instances@[i]))
    &&& a.tiles@ == b.tiles@
    &&& a.remember_room_editor_info == b.remember_room_editor_info
    &&& a.editor_width == b.editor_width
    &&& a.editor_height == b.editor_height
    &&& a.show_grid == b.show_grid
    &&& a.show_objects == b.show_objects
    &&& a.show_tiles == b.show_tiles
    &&& a.show_backgrounds == b.show_backgrounds
    &&& a.show_foregrounds == b.show_foregrounds
    &&& a.show_views == b.show_views
    &&& a.delete_underlying_objects == b.delete_underlying_objects
    &&& a.delete_underlying_tiles == b.delete_underlying_tiles
    &&& a.tab == b.tab
    &&& a.x_position_scroll == b.x_position_scroll
    &&& a.y_position_scroll == b.y_position_scroll
}

#[derive(Clone)]
pub struct IncludedFile {
    pub file_name: Vec<u8>,
    pub source_path: Vec<u8>,
    pub data_exists: bool,
    pub source_length: u32,
    pub stored_in_gmk: bool,
    pub data: Option<Vec<u8>>,
    pub export_setting: u32,
    pub export_custom_folder: Vec<u8>,
    pub overwrite_file: bool,
    pub free_memory: bool,
    pub remove_at_end: bool,
}

pub open spec fn included_file_eq(a: &IncludedFile, b: &IncludedFile) -> bool {
    &&& a.file_name@ == b.file_name@
    &&& a.source_path@ == b.source_path@
    &&& a.data_exists == b.data_exists
    &&& a.source_length == b.source_length
    &&& a.stored_in_gmk == b.stored_in_gmk
    &&& match (&a.data, &b.data) {
        (Some(x), Some(y)) => x@ == y@,
        (None, None) => true,
        _ => false,
    }
    &&& a.export_setting == b.export_setting
    &&& a.export_custom_folder@ == b.export_custom_folder@
    &&& a.overwrite_file == b.overwrite_file
    &&& a.free_memory == b.free_memory
    &&& a.remove_at_end == b.remove_at_end
}

/// Only an extension's name is stored in a project.
#[derive(Clone)]
pub struct Extension {
    pub name: Vec<u8>,
}

pub open spec fn extension_eq(a: &Extension, b: &Extension) -> bool {
    a.name@ == b.name@
}

/// One entry of an action library: what the editor knows about an action.
#[derive(Clone)]
pub struct ActionDefinition {
    pub name: Vec<u8>,
    pub id: u32,
    pub kind: u32,
    pub interface: u32,
    pub question: bool,
    pub apply_to: bool,
    pub relative: bool,
    pub arg_count: u32,
    /// Always eight entries.
    pub arg_types: Vec<u32>,
    pub execution_type: u32,
    pub function_name: Vec<u8>,
    pub code_string: Vec<u8>,
}

/// One action library of the host's fixed catalog.
#[derive(Clone)]
pub struct ActionLibrary {
    pub id: u32,
    pub version: u32,
    pub actions: Vec<ActionDefinition>,
}

} // verus!
