//! Size and count formatting, and the checks made on a directory just before
//! it is removed.

use vstd::prelude::*;
use crate::error::join2;

verus! {

/// Text that `humansize::format_size` produces for `bytes` with the binary
/// (IEC) options.
pub uninterp spec fn humansize_binary(bytes: u64) -> Seq<char>;

/// Format a byte count as a human-readable binary string (e.g. `"1.50 GiB"`):
/// `humansize::format_size` with `humansize::BINARY`.
///
/// Trusted: the text is `humansize_binary(bytes)`; the function is
/// deterministic in its argument.
#[verifier::external_body]
pub fn format_size(bytes: u64) -> (s: String)
    ensures
        s@ == humansize_binary(bytes),
{
    humansize::format_size(bytes, humansize::BINARY)
}

/// Format an integer with thousands separators (e.g. `1234567` ->
/// `"1,234,567"`).
pub fn format_number(n: usize) -> (s: String)
    ensures
        s@ == crate::history::grouped(n as nat),
{
    crate::history::format_number(n)
}

/// Why a directory must not be removed, from what `symlink_metadata` reports
/// about it: a symbolic link, or not a directory.
pub open spec fn removal_refusal_text(is_symlink: bool, is_dir: bool, display: Seq<char>) -> Option<Seq<char>> {
    if is_symlink {
        Some("refusing to delete through a symlink: "@ + display)
    } else if !is_dir {
        Some("refusing to delete a non-directory: "@ + display)
    } else {
        None
    }
}

/// The refusal for a removal target, if any: a symbolic link is never
/// followed, and only directories are removed.
pub fn removal_refusal(is_symlink: bool, is_dir: bool, display: &str) -> (r: Option<String>)
    ensures
        match r {
            Some(m) => removal_refusal_text(is_symlink, is_dir, display@) == Some(m@),
            None => removal_refusal_text(is_symlink, is_dir, display@) is None,
        },
{
    if is_symlink {
        Some(join2("refusing to delete through a symlink: ", display))
    } else if !is_dir {
        Some(join2("refusing to delete a non-directory: ", display))
    } else {
        None
    }
}

/// The first ancestor (nearest first) that is now a symbolic link, given
/// for each ancestor `Some(is_symlink)` when it could be inspected and `None`
/// when it could not (which is not evidence of tampering).
pub fn first_symlinked_ancestor(ancestors: &Vec<Option<bool>>) -> (r: Option<usize>)
    ensures
        match r {
            Some(k) => k < ancestors@.len() && ancestors@[k as int] == Some(true)
                && forall|j: int| 0 <= j < k ==> ancestors@[j] != Some(true),
            None => forall|j: int| 0 <= j < ancestors@.len() ==> ancestors@[j] != Some(true),
        },
{
    let mut k: usize = 0;
    while k < ancestors.len()
        invariant
            k <= ancestors@.len(),
            forall|j: int| 0 <= j < k ==> ancestors@[j] != Some(true),
        decreases ancestors@.len() - k,
    {
        match ancestors[k] {
            Some(true) => return Some(k),
            _ => {},
        }
        k = k + 1;
    }
    None
}

/// The refusal for an ancestor that became a symbolic link.
pub fn ancestor_refusal(display: &str) -> (m: String)
    ensures
        m@ == "refusing to delete: ancestor path is now a symlink: "@ + display@,
{
    join2("refusing to delete: ancestor path is now a symlink: ", display)
}

/// Path `path` lies under `root`, compared component by component (each
/// component as its exact bytes): `root`'s components are the first ones of
/// `path`.
pub open spec fn within_root(root: Seq<Seq<u8>>, path: Seq<Seq<u8>>) -> bool {
    root.len() <= path.len() && forall|i: int| 0 <= i < root.len() ==> #[trigger] root[i] == path[i]
}

fn same_bytes(a: &Vec<u8>, b: &Vec<u8>) -> (r: bool)
    ensures
        r == (a@ == b@),
{
    if a.len() != b.len() {
        return false;
    }
    let mut i: usize = 0;
    while i < a.len()
        invariant
            a@.len() == b@.len(),
            i <= a@.len(),
            forall|j: int| 0 <= j < i ==> a@[j] == b@[j],
        decreases a@.len() - i,
    {
        if a[i] != b[i] {
            return false;
        }
        i = i + 1;
    }
    assert(a@ =~= b@);
    true
}

/// Whether a path (given by its components) lies under the scan root (given
/// by its components): the containment test made on canonical paths before
/// anything is removed.
pub fn path_within_root(root: &Vec<Vec<u8>>, path: &Vec<Vec<u8>>) -> (r: bool)
    ensures
        r == within_root(root@.map_values(|c: Vec<u8>| c@), path@.map_values(|c: Vec<u8>| c@)),
{
    let ghost rv = root@.map_values(|c: Vec<u8>| c@);
    let ghost pv = path@.map_values(|c: Vec<u8>| c@);
    if root.len() > path.len() {
        return false;
    }
    let mut i: usize = 0;
    while i < root.len()
        invariant
            root@.len() <= path@.len(),
            i <= root@.len(),
            rv == root@.map_values(|c: Vec<u8>| c@),
            pv == path@.map_values(|c: Vec<u8>| c@),
            forall|j: int| 0 <= j < i ==> #[trigger] rv[j] == pv[j],
        decreases root@.len() - i,
    {
        if !same_bytes(&root[i], &path[i]) {
            assert(rv[i as int] != pv[i as int]);
            return false;
        }
        i = i + 1;
    }
    true
}

/// The refusal for a path that left the scanned root.
pub fn outside_root_refusal(display: &str) -> (m: String)
    ensures
        m@ == "path is outside the scanned root: "@ + display@,
{
    join2("path is outside the scanned root: ", display)
}

} // verus!
