//! The name validator: asset, trigger and included-file names become file
//! names of the tree, so they may not hold the characters the format gives a
//! structural meaning — path separators, the key/value separator, and line
//! breaks.

use vstd::prelude::*;
use crate::bytes::{NL, CR, EQ, SLASH, BACKSLASH};
use crate::error::{Error, KIND_TRIGGER, KIND_INCLUDED_FILE};

verus! {

/// A character the tree format reserves.
pub open spec fn forbidden_char(b: u8) -> bool {
    b == SLASH || b == BACKSLASH || b == EQ || b == NL || b == CR
}

/// A name the tree format can carry.
pub open spec fn valid_name(s: Seq<u8>) -> bool {
    forall|i: int| 0 <= i < s.len() ==> !forbidden_char(#[trigger] s[i])
}

/// Index of the first reserved character of `s`, or -1 when there is none.
pub open spec fn first_forbidden(s: Seq<u8>) -> int
    decreases s.len(),
{
    if s.len() == 0 {
        -1
    } else if forbidden_char(s[0]) {
        0
    } else {
        let r = first_forbidden(s.drop_first());
        if r < 0 {
            -1
        } else {
            r + 1
        }
    }
}

pub proof fn lemma_first_forbidden(s: Seq<u8>)
    ensures
        first_forbidden(s) < 0 <==> valid_name(s),
        first_forbidden(s) >= 0 ==> first_forbidden(s) < s.len() && forbidden_char(
            s[first_forbidden(s)],
        ) && (forall|j: int| 0 <= j < first_forbidden(s) ==> !forbidden_char(#[trigger] s[j])),
    decreases s.len(),
{
    if s.len() > 0 && !forbidden_char(s[0]) {
        lemma_first_forbidden(s.drop_first());
        let r = first_forbidden(s.drop_first());
        if r < 0 {
            assert forall|i: int| 0 <= i < s.len() implies !forbidden_char(#[trigger] s[i]) by {
                if i > 0 {
                    assert(!forbidden_char(s.drop_first()[i - 1]));
                }
            }
        } else {
            assert(s[r + 1] == s.drop_first()[r]);
            assert forall|j: int| 0 <= j < r + 1 implies !forbidden_char(#[trigger] s[j]) by {
                if j > 0 {
                    assert(!forbidden_char(s.drop_first()[j - 1]));
                }
            }
        }
    }
}

/// The error `validate_name` reports for the given kind: trigger names and
/// included-file names have error variants of their own.
pub open spec fn is_bad_name_error(e: Error, kind: u32, name: Seq<u8>, c: u8) -> bool {
    match e {
        Error::BadTriggerName(n, ch) => kind == KIND_TRIGGER && n@ == name && ch == c,
        Error::BadIncludedFileName(n, ch) => kind == KIND_INCLUDED_FILE && n@ == name && ch == c,
        Error::BadAssetName(n, ch) => kind != KIND_TRIGGER && kind != KIND_INCLUDED_FILE && n@
            == name && ch == c,
        _ => false,
    }
}

/// Checks a name before it is used to build a file path. Accepts exactly
/// the nonempty names without a reserved character; a rejection names the
/// first reserved character found. The empty name is rejected too — it
/// cannot become a file name — and the key/value separator stands in as
/// the reported character.
///
/// The decision depends on nothing but the name and the fixed reserved set,
/// so re-running it on the same input always gives the same answer.
pub fn validate_name(name: &Vec<u8>, kind: u32) -> (r: Result<(), Error>)
    ensures
        r is Ok <==> valid_name(name@) && name@.len() > 0,
        r is Err && name@.len() == 0 ==> is_bad_name_error(r->Err_0, kind, name@, EQ),
        r is Err && name@.len() > 0 ==> is_bad_name_error(
            r->Err_0,
            kind,
            name@,
            name@[first_forbidden(name@)],
        ),
{
    if name.len() == 0 {
        let n: Vec<u8> = Vec::new();
        proof {
            assert(n@ =~= name@);
        }
        if kind == KIND_TRIGGER {
            return Err(Error::BadTriggerName(n, EQ));
        } else if kind == KIND_INCLUDED_FILE {
            return Err(Error::BadIncludedFileName(n, EQ));
        } else {
            return Err(Error::BadAssetName(n, EQ));
        }
    }
    let mut i: usize = 0;
    while i < name.len()
        invariant
            name@.len() > 0,
            0 <= i <= name@.len(),
            forall|j: int| 0 <= j < i ==> !forbidden_char(#[trigger] name@[j]),
        decreases name@.len() - i,
    {
        let b = name[i];
        if b == SLASH || b == BACKSLASH || b == EQ || b == NL || b == CR {
            proof {
                lemma_first_forbidden(name@);
                assert(forbidden_char(name@[i as int]));
                assert(first_forbidden(name@) == i) by {
                    if first_forbidden(name@) < i {
                        assert(!forbidden_char(name@[first_forbidden(name@)]));
                    }
                    if first_forbidden(name@) > i {
                        assert(!forbidden_char(name@[i as int]));
                    }
                }
            }
            let n = crate::bytes::bytes_to_vec(name.as_slice());
            if kind == KIND_TRIGGER {
                return Err(Error::BadTriggerName(n, b));
            } else if kind == KIND_INCLUDED_FILE {
                return Err(Error::BadIncludedFileName(n, b));
            } else {
                return Err(Error::BadAssetName(n, b));
            }
        }
        i = i + 1;
    }
    Ok(())
}

/// Name validation is a pure function of the name: equal inputs are accepted
/// or rejected alike, so a name once accepted is never later rejected.
pub proof fn lemma_validate_name_idempotent(a: Seq<u8>, b: Seq<u8>)
    requires
        a == b,
    ensures
        valid_name(a) == valid_name(b),
        first_forbidden(a) == first_forbidden(b),
{
}

} // verus!
