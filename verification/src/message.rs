//! Human-readable messages for the codec's errors. The error type itself
//! carries plain fields; this module renders each variant in the wording
//! the editor shows, with the error's own fields spliced in.

use vstd::prelude::*;
use crate::bytes::{SLASH, dec_of, dec_of_int, push_u64, push_bytes};
use crate::error::Error;

verus! {

/// A tree path joined with the path separator, component by component.
pub open spec fn spec_joined_path(p: Seq<Seq<u8>>) -> Seq<u8>
    decreases p.len(),
{
    if p.len() == 0 {
        Seq::empty()
    } else if p.len() == 1 {
        p[0]
    } else {
        spec_joined_path(p.drop_last()) + seq![SLASH] + p.last()
    }
}

/// Joins a tree path for display.
pub fn joined_path(p: &Vec<Vec<u8>>) -> (r: Vec<u8>)
    ensures
        r@ == spec_joined_path(crate::tree::path_view(p@)),
{
    let mut out: Vec<u8> = Vec::new();
    let mut i: usize = 0;
    while i < p.len()
        invariant
            0 <= i <= p@.len(),
            out@ == spec_joined_path(crate::tree::path_view(p@).take(i as int)),
        decreases p@.len() - i,
    {
        if i > 0 {
            out.push(SLASH);
        }
        push_bytes(&mut out, p[i].as_slice());
        proof {
            let pv = crate::tree::path_view(p@);
            assert(pv.take(i + 1).drop_last() =~= pv.take(i as int));
            assert(pv.take(i + 1).last() == pv[i as int]);
            assert(pv[i as int] == p@[i as int]@);
            if i == 0 {
                assert(out@ =~= spec_joined_path(pv.take(1)));
            } else {
                assert(out@ =~= spec_joined_path(pv.take(i + 1)));
            }
        }
        i = i + 1;
    }
    proof {
        assert(crate::tree::path_view(p@).take(i as int) =~= crate::tree::path_view(p@));
    }
    out
}

/// The message fragment `file not found:`.
pub open spec fn s_msg_file_missing() -> Seq<u8> {
    seq![102u8, 105u8, 108u8, 101u8, 32u8, 110u8, 111u8, 116u8, 32u8, 102u8, 111u8, 117u8, 110u8, 100u8, 58u8, 32u8]
}

fn msg_file_missing() -> (r: Vec<u8>)
    ensures
        r@ == s_msg_file_missing(),
{
    let r: Vec<u8> = vec![102u8, 105u8, 108u8, 101u8, 32u8, 110u8, 111u8, 116u8, 32u8, 102u8, 111u8, 117u8, 110u8, 100u8, 58u8, 32u8];
    proof { assert(r@ =~= s_msg_file_missing()); }
    r
}

/// The message fragment `couldn't find asset`.
pub open spec fn s_msg_asset_not_found_a() -> Seq<u8> {
    seq![99u8, 111u8, 117u8, 108u8, 100u8, 110u8, 39u8, 116u8, 32u8, 102u8, 105u8, 110u8, 100u8, 32u8, 97u8, 115u8, 115u8, 101u8, 116u8, 32u8]
}

fn msg_asset_not_found_a() -> (r: Vec<u8>)
    ensures
        r@ == s_msg_asset_not_found_a(),
{
    let r: Vec<u8> = vec![99u8, 111u8, 117u8, 108u8, 100u8, 110u8, 39u8, 116u8, 32u8, 102u8, 105u8, 110u8, 100u8, 32u8, 97u8, 115u8, 115u8, 101u8, 116u8, 32u8];
    proof { assert(r@ =~= s_msg_asset_not_found_a()); }
    r
}

/// The message fragment `of kind`.
pub open spec fn s_msg_asset_not_found_b() -> Seq<u8> {
    seq![32u8, 111u8, 102u8, 32u8, 107u8, 105u8, 110u8, 100u8, 32u8]
}

fn msg_asset_not_found_b() -> (r: Vec<u8>)
    ensures
        r@ == s_msg_asset_not_found_b(),
{
    let r: Vec<u8> = vec![32u8, 111u8, 102u8, 32u8, 107u8, 105u8, 110u8, 100u8, 32u8];
    proof { assert(r@ =~= s_msg_asset_not_found_b()); }
    r
}

/// The message fragment `(from`.
pub open spec fn s_msg_asset_not_found_c() -> Seq<u8> {
    seq![32u8, 40u8, 102u8, 114u8, 111u8, 109u8, 32u8]
}

fn msg_asset_not_found_c() -> (r: Vec<u8>)
    ensures
        r@ == s_msg_asset_not_found_c(),
{
    let r: Vec<u8> = vec![32u8, 40u8, 102u8, 114u8, 111u8, 109u8, 32u8];
    proof { assert(r@ =~= s_msg_asset_not_found_c()); }
    r
}

/// The message fragment `)`.
pub open spec fn s_msg_asset_not_found_d() -> Seq<u8> {
    seq![41u8]
}

fn msg_asset_not_found_d() -> (r: Vec<u8>)
    ensures
        r@ == s_msg_asset_not_found_d(),
{
    let r: Vec<u8> = vec![41u8];
    proof { assert(r@ =~= s_msg_asset_not_found_d()); }
    r
}

/// The message fragment `syntax error in file`.
pub open spec fn s_msg_syntax() -> Seq<u8> {
    seq![115u8, 121u8, 110u8, 116u8, 97u8, 120u8, 32u8, 101u8, 114u8, 114u8, 111u8, 114u8, 32u8, 105u8, 110u8, 32u8, 102u8, 105u8, 108u8, 101u8, 32u8]
}

fn msg_syntax() -> (r: Vec<u8>)
    ensures
        r@ == s_msg_syntax(),
{
    let r: Vec<u8> = vec![115u8, 121u8, 110u8, 116u8, 97u8, 120u8, 32u8, 101u8, 114u8, 114u8, 111u8, 114u8, 32u8, 105u8, 110u8, 32u8, 102u8, 105u8, 108u8, 101u8, 32u8];
    proof { assert(r@ =~= s_msg_syntax()); }
    r
}

/// The message fragment `unknown key in`.
pub open spec fn s_msg_unknown_key_a() -> Seq<u8> {
    seq![117u8, 110u8, 107u8, 110u8, 111u8, 119u8, 110u8, 32u8, 107u8, 101u8, 121u8, 32u8, 105u8, 110u8, 32u8]
}

fn msg_unknown_key_a() -> (r: Vec<u8>)
    ensures
        r@ == s_msg_unknown_key_a(),
{
    let r: Vec<u8> = vec![117u8, 110u8, 107u8, 110u8, 111u8, 119u8, 110u8, 32u8, 107u8, 101u8, 121u8, 32u8, 105u8, 110u8, 32u8];
    proof { assert(r@ =~= s_msg_unknown_key_a()); }
    r
}

/// The message fragment `:`.
pub open spec fn s_msg_unknown_key_b() -> Seq<u8> {
    seq![58u8, 32u8]
}

fn msg_unknown_key_b() -> (r: Vec<u8>)
    ensures
        r@ == s_msg_unknown_key_b(),
{
    let r: Vec<u8> = vec![58u8, 32u8];
    proof { assert(r@ =~= s_msg_unknown_key_b()); }
    r
}

/// The message fragment `bad value in`.
pub open spec fn s_msg_bad_value_a() -> Seq<u8> {
    seq![98u8, 97u8, 100u8, 32u8, 118u8, 97u8, 108u8, 117u8, 101u8, 32u8, 105u8, 110u8, 32u8]
}

fn msg_bad_value_a() -> (r: Vec<u8>)
    ensures
        r@ == s_msg_bad_value_a(),
{
    let r: Vec<u8> = vec![98u8, 97u8, 100u8, 32u8, 118u8, 97u8, 108u8, 117u8, 101u8, 32u8, 105u8, 110u8, 32u8];
    proof { assert(r@ =~= s_msg_bad_value_a()); }
    r
}

/// The message fragment `for key`.
pub open spec fn s_msg_bad_value_b() -> Seq<u8> {
    seq![32u8, 102u8, 111u8, 114u8, 32u8, 107u8, 101u8, 121u8, 32u8]
}

fn msg_bad_value_b() -> (r: Vec<u8>)
    ensures
        r@ == s_msg_bad_value_b(),
{
    let r: Vec<u8> = vec![32u8, 102u8, 111u8, 114u8, 32u8, 107u8, 101u8, 121u8, 32u8];
    proof { assert(r@ =~= s_msg_bad_value_b()); }
    r
}

/// The message fragment `unknown action`.
pub open spec fn s_msg_unknown_action_a() -> Seq<u8> {
    seq![117u8, 110u8, 107u8, 110u8, 111u8, 119u8, 110u8, 32u8, 97u8, 99u8, 116u8, 105u8, 111u8, 110u8, 32u8]
}

fn msg_unknown_action_a() -> (r: Vec<u8>)
    ensures
        r@ == s_msg_unknown_action_a(),
{
    let r: Vec<u8> = vec![117u8, 110u8, 107u8, 110u8, 111u8, 119u8, 110u8, 32u8, 97u8, 99u8, 116u8, 105u8, 111u8, 110u8, 32u8];
    proof { assert(r@ =~= s_msg_unknown_action_a()); }
    r
}

/// The message fragment `in lib with id`.
pub open spec fn s_msg_unknown_action_b() -> Seq<u8> {
    seq![32u8, 105u8, 110u8, 32u8, 108u8, 105u8, 98u8, 32u8, 119u8, 105u8, 116u8, 104u8, 32u8, 105u8, 100u8, 32u8]
}

fn msg_unknown_action_b() -> (r: Vec<u8>)
    ensures
        r@ == s_msg_unknown_action_b(),
{
    let r: Vec<u8> = vec![32u8, 105u8, 110u8, 32u8, 108u8, 105u8, 98u8, 32u8, 119u8, 105u8, 116u8, 104u8, 32u8, 105u8, 100u8, 32u8];
    proof { assert(r@ =~= s_msg_unknown_action_b()); }
    r
}

/// The message fragment `couldn't decode image`.
pub open spec fn s_msg_invalid_image() -> Seq<u8> {
    seq![99u8, 111u8, 117u8, 108u8, 100u8, 110u8, 39u8, 116u8, 32u8, 100u8, 101u8, 99u8, 111u8, 100u8, 101u8, 32u8, 105u8, 109u8, 97u8, 103u8, 101u8, 32u8]
}

fn msg_invalid_image() -> (r: Vec<u8>)
    ensures
        r@ == s_msg_invalid_image(),
{
    let r: Vec<u8> = vec![99u8, 111u8, 117u8, 108u8, 100u8, 110u8, 39u8, 116u8, 32u8, 100u8, 101u8, 99u8, 111u8, 100u8, 101u8, 32u8, 105u8, 109u8, 97u8, 103u8, 101u8, 32u8];
    proof { assert(r@ =~= s_msg_invalid_image()); }
    r
}

/// The message fragment `couldn't encode`.
pub open spec fn s_msg_unicode() -> Seq<u8> {
    seq![99u8, 111u8, 117u8, 108u8, 100u8, 110u8, 39u8, 116u8, 32u8, 101u8, 110u8, 99u8, 111u8, 100u8, 101u8, 32u8]
}

fn msg_unicode() -> (r: Vec<u8>)
    ensures
        r@ == s_msg_unicode(),
{
    let r: Vec<u8> = vec![99u8, 111u8, 117u8, 108u8, 100u8, 110u8, 39u8, 116u8, 32u8, 101u8, 110u8, 99u8, 111u8, 100u8, 101u8, 32u8];
    proof { assert(r@ =~= s_msg_unicode()); }
    r
}

/// The message fragment `invalid version`.
pub open spec fn s_msg_invalid_version() -> Seq<u8> {
    seq![105u8, 110u8, 118u8, 97u8, 108u8, 105u8, 100u8, 32u8, 118u8, 101u8, 114u8, 115u8, 105u8, 111u8, 110u8, 32u8]
}

fn msg_invalid_version() -> (r: Vec<u8>)
    ensures
        r@ == s_msg_invalid_version(),
{
    let r: Vec<u8> = vec![105u8, 110u8, 118u8, 97u8, 108u8, 105u8, 100u8, 32u8, 118u8, 101u8, 114u8, 115u8, 105u8, 111u8, 110u8, 32u8];
    proof { assert(r@ =~= s_msg_invalid_version()); }
    r
}

/// The message fragment `multiple assets named`.
pub open spec fn s_msg_dup_asset() -> Seq<u8> {
    seq![109u8, 117u8, 108u8, 116u8, 105u8, 112u8, 108u8, 101u8, 32u8, 97u8, 115u8, 115u8, 101u8, 116u8, 115u8, 32u8, 110u8, 97u8, 109u8, 101u8, 100u8, 32u8]
}

fn msg_dup_asset() -> (r: Vec<u8>)
    ensures
        r@ == s_msg_dup_asset(),
{
    let r: Vec<u8> = vec![109u8, 117u8, 108u8, 116u8, 105u8, 112u8, 108u8, 101u8, 32u8, 97u8, 115u8, 115u8, 101u8, 116u8, 115u8, 32u8, 110u8, 97u8, 109u8, 101u8, 100u8, 32u8];
    proof { assert(r@ =~= s_msg_dup_asset()); }
    r
}

/// The message fragment `multiple included files named`.
pub open spec fn s_msg_dup_included() -> Seq<u8> {
    seq![109u8, 117u8, 108u8, 116u8, 105u8, 112u8, 108u8, 101u8, 32u8, 105u8, 110u8, 99u8, 108u8, 117u8, 100u8, 101u8, 100u8, 32u8, 102u8, 105u8, 108u8, 101u8, 115u8, 32u8, 110u8, 97u8, 109u8, 101u8, 100u8, 32u8]
}

fn msg_dup_included() -> (r: Vec<u8>)
    ensures
        r@ == s_msg_dup_included(),
{
    let r: Vec<u8> = vec![109u8, 117u8, 108u8, 116u8, 105u8, 112u8, 108u8, 101u8, 32u8, 105u8, 110u8, 99u8, 108u8, 117u8, 100u8, 101u8, 100u8, 32u8, 102u8, 105u8, 108u8, 101u8, 115u8, 32u8, 110u8, 97u8, 109u8, 101u8, 100u8, 32u8];
    proof { assert(r@ =~= s_msg_dup_included()); }
    r
}

/// The message fragment `multiple triggers named`.
pub open spec fn s_msg_dup_trigger() -> Seq<u8> {
    seq![109u8, 117u8, 108u8, 116u8, 105u8, 112u8, 108u8, 101u8, 32u8, 116u8, 114u8, 105u8, 103u8, 103u8, 101u8, 114u8, 115u8, 32u8, 110u8, 97u8, 109u8, 101u8, 100u8, 32u8]
}

fn msg_dup_trigger() -> (r: Vec<u8>)
    ensures
        r@ == s_msg_dup_trigger(),
{
    let r: Vec<u8> = vec![109u8, 117u8, 108u8, 116u8, 105u8, 112u8, 108u8, 101u8, 32u8, 116u8, 114u8, 105u8, 103u8, 103u8, 101u8, 114u8, 115u8, 32u8, 110u8, 97u8, 109u8, 101u8, 100u8, 32u8];
    proof { assert(r@ =~= s_msg_dup_trigger()); }
    r
}

/// The message fragment `asset name`.
pub open spec fn s_msg_bad_asset_name_a() -> Seq<u8> {
    seq![97u8, 115u8, 115u8, 101u8, 116u8, 32u8, 110u8, 97u8, 109u8, 101u8, 32u8]
}

fn msg_bad_asset_name_a() -> (r: Vec<u8>)
    ensures
        r@ == s_msg_bad_asset_name_a(),
{
    let r: Vec<u8> = vec![97u8, 115u8, 115u8, 101u8, 116u8, 32u8, 110u8, 97u8, 109u8, 101u8, 32u8];
    proof { assert(r@ =~= s_msg_bad_asset_name_a()); }
    r
}

/// The message fragment `included file name`.
pub open spec fn s_msg_bad_included_name_a() -> Seq<u8> {
    seq![105u8, 110u8, 99u8, 108u8, 117u8, 100u8, 101u8, 100u8, 32u8, 102u8, 105u8, 108u8, 101u8, 32u8, 110u8, 97u8, 109u8, 101u8, 32u8]
}

fn msg_bad_included_name_a() -> (r: Vec<u8>)
    ensures
        r@ == s_msg_bad_included_name_a(),
{
    let r: Vec<u8> = vec![105u8, 110u8, 99u8, 108u8, 117u8, 100u8, 101u8, 100u8, 32u8, 102u8, 105u8, 108u8, 101u8, 32u8, 110u8, 97u8, 109u8, 101u8, 32u8];
    proof { assert(r@ =~= s_msg_bad_included_name_a()); }
    r
}

/// The message fragment `trigger file name`.
pub open spec fn s_msg_bad_trigger_name_a() -> Seq<u8> {
    seq![116u8, 114u8, 105u8, 103u8, 103u8, 101u8, 114u8, 32u8, 102u8, 105u8, 108u8, 101u8, 32u8, 110u8, 97u8, 109u8, 101u8, 32u8]
}

fn msg_bad_trigger_name_a() -> (r: Vec<u8>)
    ensures
        r@ == s_msg_bad_trigger_name_a(),
{
    let r: Vec<u8> = vec![116u8, 114u8, 105u8, 103u8, 103u8, 101u8, 114u8, 32u8, 102u8, 105u8, 108u8, 101u8, 32u8, 110u8, 97u8, 109u8, 101u8, 32u8];
    proof { assert(r@ =~= s_msg_bad_trigger_name_a()); }
    r
}

/// The message fragment `may not contain character`.
pub open spec fn s_msg_bad_name_b() -> Seq<u8> {
    seq![32u8, 109u8, 97u8, 121u8, 32u8, 110u8, 111u8, 116u8, 32u8, 99u8, 111u8, 110u8, 116u8, 97u8, 105u8, 110u8, 32u8, 99u8, 104u8, 97u8, 114u8, 97u8, 99u8, 116u8, 101u8, 114u8, 32u8]
}

fn msg_bad_name_b() -> (r: Vec<u8>)
    ensures
        r@ == s_msg_bad_name_b(),
{
    let r: Vec<u8> = vec![32u8, 109u8, 97u8, 121u8, 32u8, 110u8, 111u8, 116u8, 32u8, 99u8, 111u8, 110u8, 116u8, 97u8, 105u8, 110u8, 32u8, 99u8, 104u8, 97u8, 114u8, 97u8, 99u8, 116u8, 101u8, 114u8, 32u8];
    proof { assert(r@ =~= s_msg_bad_name_b()); }
    r
}

/// The message fragment `this project was made with a newer version of gm82save, please update`.
pub open spec fn s_msg_old_gm82() -> Seq<u8> {
    seq![116u8, 104u8, 105u8, 115u8, 32u8, 112u8, 114u8, 111u8, 106u8, 101u8, 99u8, 116u8, 32u8, 119u8, 97u8, 115u8, 32u8, 109u8, 97u8, 100u8, 101u8, 32u8, 119u8, 105u8, 116u8, 104u8, 32u8, 97u8, 32u8, 110u8, 101u8, 119u8, 101u8, 114u8, 32u8, 118u8, 101u8, 114u8, 115u8, 105u8, 111u8, 110u8, 32u8, 111u8, 102u8, 32u8, 103u8, 109u8, 56u8, 50u8, 115u8, 97u8, 118u8, 101u8, 44u8, 32u8, 112u8, 108u8, 101u8, 97u8, 115u8, 101u8, 32u8, 117u8, 112u8, 100u8, 97u8, 116u8, 101u8]
}

fn msg_old_gm82() -> (r: Vec<u8>)
    ensures
        r@ == s_msg_old_gm82(),
{
    let r: Vec<u8> = vec![116u8, 104u8, 105u8, 115u8, 32u8, 112u8, 114u8, 111u8, 106u8, 101u8, 99u8, 116u8, 32u8, 119u8, 97u8, 115u8, 32u8, 109u8, 97u8, 100u8, 101u8, 32u8, 119u8, 105u8, 116u8, 104u8, 32u8, 97u8, 32u8, 110u8, 101u8, 119u8, 101u8, 114u8, 32u8, 118u8, 101u8, 114u8, 115u8, 105u8, 111u8, 110u8, 32u8, 111u8, 102u8, 32u8, 103u8, 109u8, 56u8, 50u8, 115u8, 97u8, 118u8, 101u8, 44u8, 32u8, 112u8, 108u8, 101u8, 97u8, 115u8, 101u8, 32u8, 117u8, 112u8, 100u8, 97u8, 116u8, 101u8];
    proof { assert(r@ =~= s_msg_old_gm82()); }
    r
}

/// What each error renders as.
pub open spec fn spec_message(e: Error) -> Seq<u8> {
    match e {
        Error::FileMissing(p) => s_msg_file_missing() + spec_joined_path(
            crate::tree::path_view(p@),
        ),
        Error::AssetNotFound(n, k, c) => s_msg_asset_not_found_a() + n@
            + s_msg_asset_not_found_b() + dec_of(k as nat) + s_msg_asset_not_found_c() + c@
            + s_msg_asset_not_found_d(),
        Error::SyntaxError(p) => s_msg_syntax() + spec_joined_path(crate::tree::path_view(p@)),
        Error::UnknownKey(p, k) => s_msg_unknown_key_a() + spec_joined_path(
            crate::tree::path_view(p@),
        ) + s_msg_unknown_key_b() + seq![k],
        Error::BadValue(p, k) => s_msg_bad_value_a() + spec_joined_path(
            crate::tree::path_view(p@),
        ) + s_msg_bad_value_b() + seq![k],
        Error::UnknownAction(lib, act) => s_msg_unknown_action_a() + dec_of(act as nat)
            + s_msg_unknown_action_b() + dec_of(lib as nat),
        Error::InvalidImage(p) => s_msg_invalid_image() + spec_joined_path(
            crate::tree::path_view(p@),
        ),
        Error::UnicodeError(v) => s_msg_unicode() + v@,
        Error::InvalidVersion(v) => s_msg_invalid_version() + v@,
        Error::DuplicateAsset(n) => s_msg_dup_asset() + n@,
        Error::DuplicateIncludedFile(n) => s_msg_dup_included() + n@,
        Error::DuplicateTrigger(n) => s_msg_dup_trigger() + n@,
        Error::BadAssetName(n, c) => s_msg_bad_asset_name_a() + n@ + s_msg_bad_name_b() + seq![c],
        Error::BadIncludedFileName(n, c) => s_msg_bad_included_name_a() + n@ + s_msg_bad_name_b()
            + seq![c],
        Error::BadTriggerName(n, c) => s_msg_bad_trigger_name_a() + n@ + s_msg_bad_name_b()
            + seq![c],
        Error::OldGM82 => s_msg_old_gm82(),
    }
}

impl Error {
    /// Renders the error for display; the caller turns the bytes into its
    /// own string type.
    pub fn message(&self) -> (r: Vec<u8>)
        ensures
            r@ == spec_message(*self),
    {
        let mut out: Vec<u8> = Vec::new();
        match self {
            Error::FileMissing(p) => {
                push_bytes(&mut out, msg_file_missing().as_slice());
                let j = joined_path(p);
                push_bytes(&mut out, j.as_slice());
            },
            Error::AssetNotFound(n, k, c) => {
                push_bytes(&mut out, msg_asset_not_found_a().as_slice());
                push_bytes(&mut out, n.as_slice());
                push_bytes(&mut out, msg_asset_not_found_b().as_slice());
                push_u64(&mut out, *k as u64);
                push_bytes(&mut out, msg_asset_not_found_c().as_slice());
                push_bytes(&mut out, c.as_slice());
                push_bytes(&mut out, msg_asset_not_found_d().as_slice());
            },
            Error::SyntaxError(p) => {
                push_bytes(&mut out, msg_syntax().as_slice());
                let j = joined_path(p);
                push_bytes(&mut out, j.as_slice());
            },
            Error::UnknownKey(p, k) => {
                push_bytes(&mut out, msg_unknown_key_a().as_slice());
                let j = joined_path(p);
                push_bytes(&mut out, j.as_slice());
                push_bytes(&mut out, msg_unknown_key_b().as_slice());
                out.push(*k);
            },
            Error::BadValue(p, k) => {
                push_bytes(&mut out, msg_bad_value_a().as_slice());
                let j = joined_path(p);
                push_bytes(&mut out, j.as_slice());
                push_bytes(&mut out, msg_bad_value_b().as_slice());
                out.push(*k);
            },
            Error::UnknownAction(lib, act) => {
                push_bytes(&mut out, msg_unknown_action_a().as_slice());
                push_u64(&mut out, *act as u64);
                push_bytes(&mut out, msg_unknown_action_b().as_slice());
                push_u64(&mut out, *lib as u64);
            },
            Error::InvalidImage(p) => {
                push_bytes(&mut out, msg_invalid_image().as_slice());
                let j = joined_path(p);
                push_bytes(&mut out, j.as_slice());
            },
            Error::UnicodeError(v) => {
                push_bytes(&mut out, msg_unicode().as_slice());
                push_bytes(&mut out, v.as_slice());
            },
            Error::InvalidVersion(v) => {
                push_bytes(&mut out, msg_invalid_version().as_slice());
                push_bytes(&mut out, v.as_slice());
            },
            Error::DuplicateAsset(n) => {
                push_bytes(&mut out, msg_dup_asset().as_slice());
                push_bytes(&mut out, n.as_slice());
            },
            Error::DuplicateIncludedFile(n) => {
                push_bytes(&mut out, msg_dup_included().as_slice());
                push_bytes(&mut out, n.as_slice());
            },
            Error::DuplicateTrigger(n) => {
                push_bytes(&mut out, msg_dup_trigger().as_slice());
                push_bytes(&mut out, n.as_slice());
            },
            Error::BadAssetName(n, c) => {
                push_bytes(&mut out, msg_bad_asset_name_a().as_slice());
                push_bytes(&mut out, n.as_slice());
                push_bytes(&mut out, msg_bad_name_b().as_slice());
                out.push(*c);
            },
            Error::BadIncludedFileName(n, c) => {
                push_bytes(&mut out, msg_bad_included_name_a().as_slice());
                push_bytes(&mut out, n.as_slice());
                push_bytes(&mut out, msg_bad_name_b().as_slice());
                out.push(*c);
            },
            Error::BadTriggerName(n, c) => {
                push_bytes(&mut out, msg_bad_trigger_name_a().as_slice());
                push_bytes(&mut out, n.as_slice());
                push_bytes(&mut out, msg_bad_name_b().as_slice());
                out.push(*c);
            },
            Error::OldGM82 => {
                push_bytes(&mut out, msg_old_gm82().as_slice());
            },
        }
        proof {
            assert(out@ =~= spec_message(*self));
        }
        out
    }
}

} // verus!
