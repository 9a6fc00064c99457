//! The cross-reference resolver: one name-to-id table per asset kind,
//! built on load after all names are known and before any asset body is
//! decoded. The tree format references assets by name; the in-memory graph
//! references them by numeric id.
//!
//! Within one kind all present names are unique regardless of letter case;
//! a repeated name is an error, never a silent overwrite.

use vstd::prelude::*;
use crate::bytes::bytes_eq;
use crate::error::{Error, KIND_TRIGGER, KIND_INCLUDED_FILE};

verus! {

/// ASCII lowercase of one byte.
pub open spec fn lower_byte(b: u8) -> u8 {
    if 65 <= b <= 90 {
        (b + 32) as u8
    } else {
        b
    }
}

/// ASCII lowercase of a name.
pub open spec fn lower_seq(s: Seq<u8>) -> Seq<u8> {
    s.map_values(|b: u8| lower_byte(b))
}

/// Whether two names are the same up to letter case.
pub open spec fn same_name_ci(a: Seq<u8>, b: Seq<u8>) -> bool {
    lower_seq(a) == lower_seq(b)
}

/// True when the two names match up to ASCII letter case.
pub fn names_match_ci(a: &[u8], b: &[u8]) -> (r: bool)
    ensures
        r == same_name_ci(a@, b@),
{
    if a.len() != b.len() {
        assert(lower_seq(a@).len() != lower_seq(b@).len());
        return false;
    }
    let mut i: usize = 0;
    while i < a.len()
        invariant
            a@.len() == b@.len(),
            0 <= i <= a@.len(),
            forall|j: int| 0 <= j < i ==> lower_byte(a@[j]) == lower_byte(#[trigger] b@[j]),
        decreases a@.len() - i,
    {
        let mut x = a[i];
        let mut y = b[i];
        if 65 <= x && x <= 90 {
            x = x + 32;
        }
        if 65 <= y && y <= 90 {
            y = y + 32;
        }
        if x != y {
            proof {
                assert(lower_seq(a@)[i as int] == lower_byte(a@[i as int]));
                assert(lower_seq(b@)[i as int] == lower_byte(b@[i as int]));
            }
            return false;
        }
        i = i + 1;
    }
    proof {
        assert forall|j: int| 0 <= j < a@.len() implies #[trigger] lower_seq(a@)[j] == lower_seq(
            b@,
        )[j] by {
            assert(lower_seq(a@)[j] == lower_byte(a@[j]));
            assert(lower_seq(b@)[j] == lower_byte(b@[j]));
        }
        assert(lower_seq(a@) =~= lower_seq(b@));
    }
    true
}

/// All names pairwise distinct, regardless of letter case.
pub open spec fn names_unique_ci(s: Seq<Seq<u8>>) -> bool {
    forall|i: int, j: int| 0 <= i < j < s.len() ==> !same_name_ci(#[trigger] s[i], #[trigger] s[j])
}

pub open spec fn names_view(s: Seq<Vec<u8>>) -> Seq<Seq<u8>> {
    s.map_values(|v: Vec<u8>| v@)
}

/// The duplicate error the builder reports for a kind.
pub open spec fn is_duplicate_error(e: Error, kind: u32, names: Seq<Seq<u8>>) -> bool {
    match e {
        Error::DuplicateTrigger(n) => kind == KIND_TRIGGER && (exists|i: int, j: int|
            0 <= i < j < names.len() && same_name_ci(#[trigger] names[i], #[trigger] names[j])
                && n@ == names[j]),
        Error::DuplicateIncludedFile(n) => kind == KIND_INCLUDED_FILE && (exists|i: int, j: int|
            0 <= i < j < names.len() && same_name_ci(#[trigger] names[i], #[trigger] names[j])
                && n@ == names[j]),
        Error::DuplicateAsset(n) => kind != KIND_TRIGGER && kind != KIND_INCLUDED_FILE && (exists|
            i: int,
            j: int,
        |
            0 <= i < j < names.len() && same_name_ci(#[trigger] names[i], #[trigger] names[j])
                && n@ == names[j]),
        _ => false,
    }
}

/// Checks that no two names of one kind collide up to letter case. The
/// slot index of each name is its id, so the table needs no more than the
/// checked name list itself.
pub fn check_names_unique(names: &Vec<Vec<u8>>, kind: u32) -> (r: Result<(), Error>)
    ensures
        r is Ok <==> names_unique_ci(names_view(names@)),
        r is Err ==> is_duplicate_error(r->Err_0, kind, names_view(names@)),
{
    let mut j: usize = 1;
    while j < names.len() || (j == 1 && names.len() > 1)
        invariant
            1 <= j,
            j <= names@.len() || names@.len() <= 1,
            forall|x: int, y: int|
                0 <= x < y < j && y < names@.len() ==> !same_name_ci(
                    #[trigger] names_view(names@)[x],
                    #[trigger] names_view(names@)[y],
                ),
        decreases names@.len() - j,
    {
        let mut i: usize = 0;
        while i < j
            invariant
                0 <= i <= j,
                j < names@.len(),
                forall|x: int|
                    0 <= x < i ==> !same_name_ci(
                        #[trigger] names_view(names@)[x],
                        names_view(names@)[j as int],
                    ),
            decreases j - i,
        {
            if names_match_ci(names[i].as_slice(), names[j].as_slice()) {
                proof {
                    assert(names_view(names@)[i as int] == names@[i as int]@);
                    assert(names_view(names@)[j as int] == names@[j as int]@);
                }
                let n = crate::bytes::bytes_to_vec(names[j].as_slice());
                if kind == KIND_TRIGGER {
                    return Err(Error::DuplicateTrigger(n));
                } else if kind == KIND_INCLUDED_FILE {
                    return Err(Error::DuplicateIncludedFile(n));
                } else {
                    return Err(Error::DuplicateAsset(n));
                }
            }
            proof {
                assert(names_view(names@)[i as int] == names@[i as int]@);
                assert(names_view(names@)[j as int] == names@[j as int]@);
            }
            i = i + 1;
        }
        j = j + 1;
    }
    proof {
        assert(names_unique_ci(names_view(names@)));
    }
    Ok(())
}

/// First slot whose name is exactly this one, or -1.
pub open spec fn name_index(names: Seq<Seq<u8>>, name: Seq<u8>) -> int
    decreases names.len(),
{
    if names.len() == 0 {
        -1
    } else if names[0] == name {
        0
    } else {
        let r = name_index(names.drop_first(), name);
        if r < 0 {
            -1
        } else {
            r + 1
        }
    }
}

/// Resolves a textual reference to the id the graph uses: an empty name is
/// the explicit "none" and resolves to -1; a present name resolves to its
/// slot; an absent one is an error carrying the name, the expected kind and
/// the referencing context.
pub fn resolve_ref(names: &Vec<Vec<u8>>, name: &Vec<u8>, kind: u32, context: &Vec<u8>) -> (r:
    Result<i32, Error>)
    requires
        names@.len() <= i32::MAX as int,
    ensures
        name@.len() == 0 ==> r == Result::<i32, Error>::Ok(-1i32),
        name@.len() > 0 && name_index(names_view(names@), name@) >= 0 ==> r == Result::<
            i32,
            Error,
        >::Ok(name_index(names_view(names@), name@) as i32),
        name@.len() > 0 && name_index(names_view(names@), name@) < 0 ==> (r matches Result::Err(
            e,
        ) && (e matches Error::AssetNotFound(n, k, c) && n@ == name@ && k == kind && c@
            == context@)),
{
    if name.len() == 0 {
        return Ok(-1);
    }
    let mut i: usize = 0;
    proof {
        assert(names_view(names@).skip(0) =~= names_view(names@));
    }
    while i < names.len()
        invariant
            name@.len() > 0,
            0 <= i <= names@.len(),
            names@.len() <= i32::MAX as int,
            name_index(names_view(names@), name@) == if name_index(
                names_view(names@).skip(i as int),
                name@,
            ) < 0 {
                -1int
            } else {
                i + name_index(names_view(names@).skip(i as int), name@)
            },
        decreases names@.len() - i,
    {
        proof {
            assert(names_view(names@).skip(i as int)[0] == names_view(names@)[i as int]);
            assert(names_view(names@)[i as int] == names@[i as int]@);
            assert(names_view(names@).skip(i as int).drop_first() =~= names_view(names@).skip(
                i + 1,
            ));
        }
        if bytes_eq(names[i].as_slice(), name.as_slice()) {
            return Ok(i as i32);
        }
        i = i + 1;
    }
    proof {
        assert(names_view(names@).skip(i as int).len() == 0);
    }
    Err(Error::AssetNotFound(
        crate::bytes::bytes_to_vec(name.as_slice()),
        kind,
        crate::bytes::bytes_to_vec(context.as_slice()),
    ))
}

/// Projects an id back to the name it stands for: a valid slot gives its
/// name; anything else (none, or a deleted slot) gives the explicit empty
/// "none" reference, never a dangling number.
pub fn ref_to_name(names: &Vec<Vec<u8>>, present: &Vec<bool>, id: i32) -> (r: Vec<u8>)
    requires
        names@.len() == present@.len(),
    ensures
        (0 <= id < names@.len() && present@[id as int]) ==> r@ == names@[id as int]@,
        !(0 <= id < names@.len() && present@[id as int]) ==> r@.len() == 0,
{
    if id >= 0 && (id as usize) < names.len() && present[id as usize] {
        crate::bytes::bytes_to_vec(names[id as usize].as_slice())
    } else {
        Vec::new()
    }
}

} // verus!
