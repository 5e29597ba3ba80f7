//! Keeping Lycan's data private to its owner: directories get mode `0o700`, files
//! `0o600`, so other local accounts cannot read web profiles or `config.json`.

use vstd::prelude::*;

verus! {

/// The permission bits for a path that should be a directory: `0o700` when it is
/// one, and nothing to change when it is not.
pub fn dir_owner_only(is_dir: bool) -> (res: Option<u32>)
    ensures
        res == (if is_dir {
            Some(0o700u32)
        } else {
            None::<u32>
        }),
{
    if is_dir {
        Some(0o700)
    } else {
        None
    }
}

/// The permission bits for a path that should be a regular file: `0o600` when it is
/// one, and nothing to change when it is not.
pub fn file_owner_only(is_file: bool) -> (res: Option<u32>)
    ensures
        res == (if is_file {
            Some(0o600u32)
        } else {
            None::<u32>
        }),
{
    if is_file {
        Some(0o600)
    } else {
        None
    }
}

/// The modes these functions give grant nothing to group or others.
pub proof fn law_modes_are_owner_only()
    ensures
        0o700u32 & 0o077u32 == 0,
        0o600u32 & 0o077u32 == 0,
{
    assert(0o700u32 & 0o077u32 == 0) by (bit_vector);
    assert(0o600u32 & 0o077u32 == 0) by (bit_vector);
}

}
