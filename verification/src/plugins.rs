//! Where plugins are found on a mounted file system, and how a mounted plugin is named.

use vstd::prelude::*;

use crate::fmt::push_str;
use crate::loader::{lossy_utf8, nul_prefix_len, slice_copy, until_nul, utf8_lossy};

verus! {

/// The directory of the file system mounted at `mount_point` that holds the plugins.
pub fn plugins_dir(mount_point: &str) -> (dir: String)
    ensures
        dir@ == mount_point@ + ":/skyline/plugins/"@,
{
    let mut dir = mount_point.to_owned();
    push_str(&mut dir, ":/skyline/plugins/");
    dir
}

/// Whether a file with extension `ext` is a plugin.
pub fn is_nro_extension(ext: &str) -> (is_nro: bool)
    ensures
        is_nro == (ext@ == "nro"@),
{
    let ext = ext.to_owned();
    let nro = "nro".to_owned();
    ext == nro
}

/// Whether `field` holds a NUL byte.
pub open spec fn has_nul(field: Seq<u8>) -> bool {
    exists|i: int| 0 <= i < field.len() && field[i] == 0
}

/// The name of a mounted module, read from its NUL-terminated name field; `None` when the
/// field has no terminator.
pub fn mounted_module_name(field: &[u8]) -> (name: Option<String>)
    ensures
        name is Some <==> has_nul(field@),
        name matches Some(n) ==> n@ == lossy_utf8(until_nul(field@)),
        vstd::utf8::valid_utf8(until_nul(field@)) ==> (name matches Some(n) ==> n@ == vstd::utf8::decode_utf8(
            until_nul(field@),
        )),
{
    let n = field.len();
    let k = nul_prefix_len(field, 0, n);
    assert(field@.subrange(0, n as int) == field@);
    if k == n {
        assert(!has_nul(field@));
        None
    } else {
        let bytes = slice_copy(field, 0, k);
        Some(utf8_lossy(bytes.as_slice()))
    }
}

} // verus!
