//! Id-uniqueness repair. Instance and tile ids must be unique across the
//! whole project whenever the extra-data overlay is in use, because the
//! overlay is keyed by the id alone. The legacy format does not guarantee
//! that, so the first load under the tree format checks every room and
//! renumbers the rooms whose ids collide, carrying each room's own overlay
//! entries along to the new ids.

use vstd::prelude::*;
use crate::asset::{Room, Instance, Tile};
use crate::overlay::{ExtraData, InstanceExtra, TileExtra, lookup_instance_extra,
    lookup_tile_extra};

verus! {

/// The instances keep everything but possibly their ids.
pub open spec fn instances_same_but_id(a: Seq<Instance>, b: Seq<Instance>) -> bool {
    &&& a.len() == b.len()
    &&& forall|i: int|
        0 <= i < a.len() ==> {
            &&& (#[trigger] b[i]).x == a[i].x
            &&& b[i].y == a[i].y
            &&& b[i].object == a[i].object
            &&& b[i].creation_code@ == a[i].creation_code@
            &&& b[i].locked == a[i].locked
        }
}

pub open spec fn tiles_same_but_id(a: Seq<Tile>, b: Seq<Tile>) -> bool {
    &&& a.len() == b.len()
    &&& forall|i: int|
        0 <= i < a.len() ==> {
            &&& (#[trigger] b[i]).x == a[i].x
            &&& b[i].y == a[i].y
            &&& b[i].source_bg == a[i].source_bg
            &&& b[i].u == a[i].u
            &&& b[i].v == a[i].v
            &&& b[i].width == a[i].width
            &&& b[i].height == a[i].height
            &&& b[i].depth == a[i].depth
            &&& b[i].locked == a[i].locked
        }
}

/// Gives every instance and tile of one room a fresh id, counting on from
/// the two counters, and rekeys the room's overlay entries to follow.
pub fn freshen_room_ids(
    room: &mut Room,
    extra: &mut ExtraData,
    next_instance: &mut u32,
    next_tile: &mut u32,
)
    requires
        old(room).instances@.len() + *old(next_instance) < u32::MAX as int,
        old(room).tiles@.len() + *old(next_tile) < u32::MAX as int,
        forall|j: int|
            0 <= j < old(extra).instances@.len() ==> (#[trigger] old(extra).instances@[j]).0
                <= *old(next_instance),
        forall|j: int|
            0 <= j < old(extra).tiles@.len() ==> (#[trigger] old(extra).tiles@[j]).0 <= *old(
                next_tile,
            ),
        forall|j: int|
            0 <= j < old(room).instances@.len() ==> (#[trigger] old(room).instances@[j]).id
                <= *old(next_instance),
        forall|j: int|
            0 <= j < old(room).tiles@.len() ==> (#[trigger] old(room).tiles@[j]).id <= *old(
                next_tile,
            ),
    ensures
        *final(next_instance) == *old(next_instance) + old(room).instances@.len(),
        *final(next_tile) == *old(next_tile) + old(room).tiles@.len(),
        instances_same_but_id(old(room).instances@, final(room).instances@),
        tiles_same_but_id(old(room).tiles@, final(room).tiles@),
        forall|i: int|
            0 <= i < final(room).instances@.len() ==> (#[trigger] final(room).instances@[i]).id
                == *old(next_instance) + 1 + i,
        forall|i: int|
            0 <= i < final(room).tiles@.len() ==> (#[trigger] final(room).tiles@[i]).id == *old(
                next_tile,
            ) + 1 + i,
        // every other field of the room is untouched
        room_same_but_lists(*old(room), *final(room)),
        // each new id answers with what its instance's old id answered with
        forall|i: int|
            0 <= i < final(room).instances@.len() ==> lookup_instance_extra(
                final(extra).instances@,
                (#[trigger] final(room).instances@[i]).id,
            ) == lookup_instance_extra(old(extra).instances@, old(room).instances@[i].id),
        forall|i: int|
            0 <= i < final(room).tiles@.len() ==> lookup_tile_extra(
                final(extra).tiles@,
                (#[trigger] final(room).tiles@[i]).id,
            ) == lookup_tile_extra(old(extra).tiles@, old(room).tiles@[i].id),
{
    let n = room.instances.len();
    let mut i: usize = 0;
    let base = *next_instance;
    let ghost old_instances = room.instances@;
    let ghost old_extra_i = extra.instances@;
    proof {
        assert(extra.instances@.take(old_extra_i.len() as int) =~= old_extra_i);
    }
    while i < n
        invariant
            n == room.instances@.len(),
            base == *old(next_instance),
            n + base < u32::MAX as int,
            0 <= i <= n,
            old_instances == old(room).instances@,
            old_extra_i == old(extra).instances@,
            old_instances.len() == n,
            instances_same_but_id(old_instances, room.instances@),
            forall|j: int|
                0 <= j < i ==> (#[trigger] room.instances@[j]).id == base + 1 + j,
            forall|j: int|
                i <= j < n ==> (#[trigger] room.instances@[j]).id == old_instances[j].id,
            forall|j: int|
                0 <= j < n ==> (#[trigger] old_instances[j]).id <= base,
            // entries appended so far: one per renumbered instance that had one
            extra.instances@.len() >= old_extra_i.len(),
            extra.instances@.take(old_extra_i.len() as int) == old_extra_i,
            forall|j: int|
                0 <= j < old_extra_i.len() ==> (#[trigger] old_extra_i[j]).0 <= base,
            forall|j: int|
                old_extra_i.len() <= j < extra.instances@.len() ==> base < (
                #[trigger] extra.instances@[j]).0 <= base + i,
            forall|j: int|
                0 <= j < i ==> lookup_instance_extra(extra.instances@, (base + 1 + j) as u32)
                    == lookup_instance_extra(old_extra_i, old_instances[j].id),
            extra.tiles@ == old(extra).tiles@,
            room.tiles@ == old(room).tiles@,
            room_same_but_lists(*old(room), *room),
        decreases n - i,
    {
        let old_id = room.instances[i].id;
        let new_id = base + 1 + i as u32;
        let ghost before = room.instances@;
        let inst = Instance {
            x: room.instances[i].x,
            y: room.instances[i].y,
            object: room.instances[i].object,
            id: new_id,
            creation_code: crate::bytes::bytes_to_vec(room.instances[i].creation_code.as_slice()),
            locked: room.instances[i].locked,
        };
        let ghost inst_g = inst;
        room.instances.set(i, inst);
        proof {
            assert(instances_same_but_id(old_instances, room.instances@)) by {
                assert(forall|j: int|
                    0 <= j < n && j != i ==> #[trigger] room.instances@[j] == before[j]);
                assert(room.instances@[i as int] == inst_g);
                assert(inst_g.x == old_instances[i as int].x);
                assert(inst_g.creation_code@ == old_instances[i as int].creation_code@);
            }
        }
        let ghost ex_before = extra.instances@;
        let looked = extra.get_instance(old_id);
        match looked {
            Some(e) => {
                extra.instances.push((new_id, e));
                proof {
                    lemma_lookup_instance_concat(ex_before, seq![(new_id, e)], new_id);
                    assert(extra.instances@ =~= ex_before + seq![(new_id, e)]);
                    assert(forall|j: int|
                        0 <= j < ex_before.len() ==> (#[trigger] ex_before[j]).0 != new_id || (
                        #[trigger] ex_before[j]).0 <= base + i < new_id) by {
                        assert(forall|j: int|
                            0 <= j < old_extra_i.len() ==> #[trigger] ex_before[j]
                                == old_extra_i[j]);
                    }
                    lemma_lookup_absent_instance(ex_before, new_id, base, i as int);
                    assert(seq![(new_id, e)][0].0 == new_id);
                    assert(lookup_instance_extra(extra.instances@, new_id) == Some(e));
                }
            },
            None => {
                proof {
                    assert(lookup_instance_extra(extra.instances@, new_id) is None) by {
                        assert(forall|j: int|
                            0 <= j < ex_before.len() ==> (#[trigger] ex_before[j]).0 != new_id || (
                            #[trigger] ex_before[j]).0 <= base + i < new_id) by {
                            assert(forall|j: int|
                                0 <= j < old_extra_i.len() ==> #[trigger] ex_before[j]
                                    == old_extra_i[j]);
                        }
                        lemma_lookup_absent_instance(ex_before, new_id, base, i as int);
                    }
                }
            },
        }
        proof {
            // earlier renumbered ids still answer the same: appending cannot
            // change a lookup that already had an answer, and absent ids stay
            // absent because every appended id is above base and at most base+i+1
            assert forall|j: int| 0 <= j < i + 1 implies lookup_instance_extra(
                extra.instances@,
                (base + 1 + j) as u32,
            ) == lookup_instance_extra(old_extra_i, old_instances[j].id) by {
                if j < i {
                    if looked is Some {
                        lemma_lookup_instance_concat(
                            ex_before,
                            seq![(new_id, looked->0)],
                            (base + 1 + j) as u32,
                        );
                        assert(extra.instances@ =~= ex_before + seq![(new_id, looked->0)]);
                        if lookup_instance_extra(ex_before, (base + 1 + j) as u32) is None {
                            assert(seq![(new_id, looked->0)][0].0 != (base + 1 + j) as u32);
                            assert(lookup_instance_extra(
                                seq![(new_id, looked->0)].drop_first(),
                                (base + 1 + j) as u32,
                            ) is None) by {
                                assert(seq![(new_id, looked->0)].drop_first() =~= Seq::<
                                    (u32, InstanceExtra),
                                >::empty());
                            }
                        }
                    }
                } else {
                    assert(lookup_instance_extra(extra.instances@, new_id) == lookup_instance_extra(
                        old_extra_i,
                        old_instances[j].id,
                    )) by {
                        assert(old_id <= base);
                        assert(forall|m: int|
                            old_extra_i.len() <= m < ex_before.len() ==> (
                            #[trigger] ex_before[m]).0 != old_id);
                        lemma_lookup_prefix_instance(old_extra_i, ex_before, old_id);
                    }
                }
            }
        }
        i = i + 1;
    }
    *next_instance = base + n as u32;
    // tiles, the same way
    let tn = room.tiles.len();
    let mut t: usize = 0;
    let tbase = *next_tile;
    let ghost old_tiles = room.tiles@;
    let ghost old_extra_t = extra.tiles@;
    proof {
        assert(extra.tiles@.take(old_extra_t.len() as int) =~= old_extra_t);
    }
    while t < tn
        invariant
            tn == room.tiles@.len(),
            tbase == *old(next_tile),
            tn + tbase < u32::MAX as int,
            0 <= t <= tn,
            old_tiles == old(room).tiles@,
            old_extra_t == old(extra).tiles@,
            old_tiles.len() == tn,
            tiles_same_but_id(old_tiles, room.tiles@),
            forall|j: int| 0 <= j < t ==> (#[trigger] room.tiles@[j]).id == tbase + 1 + j,
            forall|j: int| t <= j < tn ==> (#[trigger] room.tiles@[j]).id == old_tiles[j].id,
            forall|j: int| 0 <= j < tn ==> (#[trigger] old_tiles[j]).id <= tbase,
            extra.tiles@.len() >= old_extra_t.len(),
            extra.tiles@.take(old_extra_t.len() as int) == old_extra_t,
            forall|j: int|
                0 <= j < old_extra_t.len() ==> (#[trigger] old_extra_t[j]).0 <= tbase,
            forall|j: int|
                old_extra_t.len() <= j < extra.tiles@.len() ==> tbase < (
                #[trigger] extra.tiles@[j]).0 <= tbase + t,
            forall|j: int|
                0 <= j < t ==> lookup_tile_extra(extra.tiles@, (tbase + 1 + j) as u32)
                    == lookup_tile_extra(old_extra_t, old_tiles[j].id),
            // the instance half keeps what the first loop established
            *next_instance == *old(next_instance) + old(room).instances@.len(),
            instances_same_but_id(old(room).instances@, room.instances@),
            forall|j: int|
                0 <= j < room.instances@.len() ==> (#[trigger] room.instances@[j]).id == *old(
                    next_instance,
                ) + 1 + j,
            forall|j: int|
                0 <= j < room.instances@.len() ==> lookup_instance_extra(
                    extra.instances@,
                    (#[trigger] room.instances@[j]).id,
                ) == lookup_instance_extra(old(extra).instances@, old(room).instances@[j].id),
            room_same_but_lists(*old(room), *room),
        decreases tn - t,
    {
        let old_id = room.tiles[t].id;
        let new_id = tbase + 1 + t as u32;
        let mut tile = room.tiles[t];
        let ghost before = room.tiles@;
        tile.id = new_id;
        let ghost tile_g = tile;
        room.tiles.set(t, tile);
        proof {
            assert(tiles_same_but_id(old_tiles, room.tiles@)) by {
                assert(forall|j: int|
                    0 <= j < tn && j != t ==> #[trigger] room.tiles@[j] == before[j]);
                assert(room.tiles@[t as int] == tile_g);
            }
        }
        let ghost ex_before = extra.tiles@;
        let looked = extra.get_tile(old_id);
        match looked {
            Some(e) => {
                extra.tiles.push((new_id, e));
                proof {
                    lemma_lookup_tile_concat(ex_before, seq![(new_id, e)], new_id);
                    assert(extra.tiles@ =~= ex_before + seq![(new_id, e)]);
                    assert(forall|j: int|
                        0 <= j < ex_before.len() ==> (#[trigger] ex_before[j]).0 != new_id || (
                        #[trigger] ex_before[j]).0 <= tbase + t < new_id) by {
                        assert(forall|j: int|
                            0 <= j < old_extra_t.len() ==> #[trigger] ex_before[j]
                                == old_extra_t[j]);
                    }
                    lemma_lookup_absent_tile(ex_before, new_id, tbase, t as int);
                    assert(lookup_tile_extra(extra.tiles@, new_id) == Some(e));
                }
            },
            None => {
                proof {
                    assert(lookup_tile_extra(extra.tiles@, new_id) is None) by {
                        assert(forall|j: int|
                            0 <= j < ex_before.len() ==> (#[trigger] ex_before[j]).0 != new_id || (
                            #[trigger] ex_before[j]).0 <= tbase + t < new_id) by {
                            assert(forall|j: int|
                                0 <= j < old_extra_t.len() ==> #[trigger] ex_before[j]
                                    == old_extra_t[j]);
                        }
                        lemma_lookup_absent_tile(ex_before, new_id, tbase, t as int);
                    }
                }
            },
        }
        proof {
            assert forall|j: int| 0 <= j < t + 1 implies lookup_tile_extra(
                extra.tiles@,
                (tbase + 1 + j) as u32,
            ) == lookup_tile_extra(old_extra_t, old_tiles[j].id) by {
                if j < t {
                    if looked is Some {
                        lemma_lookup_tile_concat(
                            ex_before,
                            seq![(new_id, looked->0)],
                            (tbase + 1 + j) as u32,
                        );
                        assert(extra.tiles@ =~= ex_before + seq![(new_id, looked->0)]);
                        if lookup_tile_extra(ex_before, (tbase + 1 + j) as u32) is None {
                            assert(lookup_tile_extra(
                                seq![(new_id, looked->0)].drop_first(),
                                (tbase + 1 + j) as u32,
                            ) is None) by {
                                assert(seq![(new_id, looked->0)].drop_first() =~= Seq::<
                                    (u32, TileExtra),
                                >::empty());
                            }
                        }
                    }
                } else {
                    assert(lookup_tile_extra(extra.tiles@, new_id) == lookup_tile_extra(
                        old_extra_t,
                        old_tiles[j].id,
                    )) by {
                        assert(old_id <= tbase);
                        assert(forall|m: int|
                            old_extra_t.len() <= m < ex_before.len() ==> (
                            #[trigger] ex_before[m]).0 != old_id);
                        lemma_lookup_prefix_tile(old_extra_t, ex_before, old_id);
                    }
                }
            }
        }
        t = t + 1;
    }
    *next_tile = tbase + tn as u32;
}

/// Every room field outside the instance and tile lists is the same.
pub open spec fn room_same_but_lists(a: Room, b: Room) -> bool {
    &&& b.caption@ == a.caption@
    &&& b.speed == a.speed
    &&& b.width == a.width
    &&& b.height == a.height
    &&& b.snap_x == a.snap_x
    &&& b.snap_y == a.snap_y
    &&& b.isometric == a.isometric
    &&& b.persistent == a.persistent
    &&& b.bg_colour == a.bg_colour
    &&& b.clear_screen == a.clear_screen
    &&& b.backgrounds@ == a.backgrounds@
    &&& b.views_enabled == a.views_enabled
    &&& b.clear_view == a.clear_view
    &&& b.views@ == a.views@
    &&& b.creation_code@ == a.creation_code@
    &&& b.remember_room_editor_info == a.remember_room_editor_info
    &&& b.editor_width == a.editor_width
    &&& b.editor_height == a.editor_height
    &&& b.show_grid == a.show_grid
    &&& b.show_objects == a.show_objects
    &&& b.show_tiles == a.show_tiles
    &&& b.show_backgrounds == a.show_backgrounds
    &&& b.show_foregrounds == a.show_foregrounds
    &&& b.show_views == a.show_views
    &&& b.delete_underlying_objects == a.delete_underlying_objects
    &&& b.delete_underlying_tiles == a.delete_underlying_tiles
    &&& b.tab == a.tab
    &&& b.x_position_scroll == a.x_position_scroll
    &&& b.y_position_scroll == a.y_position_scroll
}

proof fn lemma_lookup_instance_concat(
    a: Seq<(u32, InstanceExtra)>,
    b: Seq<(u32, InstanceExtra)>,
    id: u32,
)
    ensures
        lookup_instance_extra(a + b, id) == if lookup_instance_extra(a, id) is Some {
            lookup_instance_extra(a, id)
        } else {
            lookup_instance_extra(b, id)
        },
    decreases a.len(),
{
    if a.len() == 0 {
        assert(a + b =~= b);
    } else {
        assert((a + b).drop_first() =~= a.drop_first() + b);
        assert((a + b)[0] == a[0]);
        lemma_lookup_instance_concat(a.drop_first(), b, id);
    }
}

proof fn lemma_lookup_tile_concat(a: Seq<(u32, TileExtra)>, b: Seq<(u32, TileExtra)>, id: u32)
    ensures
        lookup_tile_extra(a + b, id) == if lookup_tile_extra(a, id) is Some {
            lookup_tile_extra(a, id)
        } else {
            lookup_tile_extra(b, id)
        },
    decreases a.len(),
{
    if a.len() == 0 {
        assert(a + b =~= b);
    } else {
        assert((a + b).drop_first() =~= a.drop_first() + b);
        assert((a + b)[0] == a[0]);
        lemma_lookup_tile_concat(a.drop_first(), b, id);
    }
}

/// A list whose keys are all at most `base + i` has no entry for
/// `base + 1 + i`, given the shape the renumbering loop maintains.
proof fn lemma_lookup_absent_instance(s: Seq<(u32, InstanceExtra)>, id: u32, base: u32, i: int)
    requires
        forall|j: int| 0 <= j < s.len() ==> (#[trigger] s[j]).0 != id || (#[trigger] s[j]).0 <= base
            + i < id,
        id == base + 1 + i,
    ensures
        lookup_instance_extra(s, id) is None,
    decreases s.len(),
{
    if s.len() > 0 {
        assert(s[0].0 != id);
        assert(forall|j: int|
            0 <= j < s.drop_first().len() ==> #[trigger] s.drop_first()[j] == s[j + 1]);
        lemma_lookup_absent_instance(s.drop_first(), id, base, i);
    }
}

proof fn lemma_lookup_absent_tile(s: Seq<(u32, TileExtra)>, id: u32, base: u32, i: int)
    requires
        forall|j: int| 0 <= j < s.len() ==> (#[trigger] s[j]).0 != id || (#[trigger] s[j]).0 <= base
            + i < id,
        id == base + 1 + i,
    ensures
        lookup_tile_extra(s, id) is None,
    decreases s.len(),
{
    if s.len() > 0 {
        assert(s[0].0 != id);
        assert(forall|j: int|
            0 <= j < s.drop_first().len() ==> #[trigger] s.drop_first()[j] == s[j + 1]);
        lemma_lookup_absent_tile(s.drop_first(), id, base, i);
    }
}

/// A lookup that the appended tail cannot answer differently: if the first
/// list is a prefix of the second and the lookup hits in the prefix, both
/// agree; this loop only needs the hit case and the total-miss case.
proof fn lemma_lookup_prefix_instance(
    a: Seq<(u32, InstanceExtra)>,
    b: Seq<(u32, InstanceExtra)>,
    id: u32,
)
    requires
        b.take(a.len() as int) == a,
        b.len() >= a.len(),
        lookup_instance_extra(a, id) is Some || (forall|j: int|
            a.len() <= j < b.len() ==> (#[trigger] b[j]).0 != id),
    ensures
        lookup_instance_extra(b, id) == lookup_instance_extra(a, id),
    decreases b.len(),
{
    if a.len() == 0 {
        if b.len() > 0 {
            assert(b[0].0 != id);
            assert(b.drop_first().take(0) =~= Seq::<(u32, InstanceExtra)>::empty());
            assert(forall|j: int|
                0 <= j < b.drop_first().len() ==> #[trigger] b.drop_first()[j] == b[j + 1]);
            lemma_lookup_prefix_instance(Seq::empty(), b.drop_first(), id);
        }
    } else {
        assert(b[0] == a[0]) by {
            assert(b.take(a.len() as int)[0] == b[0]);
        }
        if a[0].0 != id {
            assert(b.drop_first().take(a.drop_first().len() as int) =~= a.drop_first()) by {
                assert(forall|j: int|
                    0 <= j < a.len() - 1 ==> #[trigger] b.drop_first()[j] == b[j + 1]);
                assert(forall|j: int|
                    0 <= j < a.len() ==> #[trigger] b.take(a.len() as int)[j] == b[j]);
            }
            assert(forall|j: int|
                0 <= j < b.drop_first().len() ==> #[trigger] b.drop_first()[j] == b[j + 1]);
            lemma_lookup_prefix_instance(a.drop_first(), b.drop_first(), id);
        }
    }
}

proof fn lemma_lookup_prefix_tile(a: Seq<(u32, TileExtra)>, b: Seq<(u32, TileExtra)>, id: u32)
    requires
        b.take(a.len() as int) == a,
        b.len() >= a.len(),
        lookup_tile_extra(a, id) is Some || (forall|j: int|
            a.len() <= j < b.len() ==> (#[trigger] b[j]).0 != id),
    ensures
        lookup_tile_extra(b, id) == lookup_tile_extra(a, id),
    decreases b.len(),
{
    if a.len() == 0 {
        if b.len() > 0 {
            assert(b[0].0 != id);
            assert(b.drop_first().take(0) =~= Seq::<(u32, TileExtra)>::empty());
            assert(forall|j: int|
                0 <= j < b.drop_first().len() ==> #[trigger] b.drop_first()[j] == b[j + 1]);
            lemma_lookup_prefix_tile(Seq::empty(), b.drop_first(), id);
        }
    } else {
        assert(b[0] == a[0]) by {
            assert(b.take(a.len() as int)[0] == b[0]);
        }
        if a[0].0 != id {
            assert(b.drop_first().take(a.drop_first().len() as int) =~= a.drop_first()) by {
                assert(forall|j: int|
                    0 <= j < a.len() - 1 ==> #[trigger] b.drop_first()[j] == b[j + 1]);
                assert(forall|j: int|
                    0 <= j < a.len() ==> #[trigger] b.take(a.len() as int)[j] == b[j]);
            }
            assert(forall|j: int|
                0 <= j < b.drop_first().len() ==> #[trigger] b.drop_first()[j] == b[j + 1]);
            lemma_lookup_prefix_tile(a.drop_first(), b.drop_first(), id);
        }
    }
}

} // verus!
