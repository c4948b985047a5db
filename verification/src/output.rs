//! The output writer's path mapping: where under the output root the bytes
//! of a virtual path are written.
//!
//! Virtual paths separate their directories with `'/'`, and so do the local
//! paths computed here. The mapping joins the two texts and does nothing
//! else: `..` segments are kept as they are, and a virtual path that starts
//! with `'/'` is taken as it stands, without the root in front of it.

use vstd::prelude::*;
use vstd::string::{StrSliceExecFns, StringExecFns};

verus! {

/// The local path of `virtual_path` under `root`.
///
/// A virtual path that starts with a separator replaces the root. Otherwise
/// it is appended to the root, after a separator unless the root is empty or
/// already ends with one.
pub open spec fn output_path_spec(root: Seq<char>, virtual_path: Seq<char>) -> Seq<char> {
    if virtual_path.len() > 0 && virtual_path.first() == '/' {
        virtual_path
    } else if root.len() == 0 || root.last() == '/' {
        root + virtual_path
    } else {
        root.push('/') + virtual_path
    }
}

/// Maps a virtual path to the local path that its bytes are written to.
pub fn output_path(root: &str, virtual_path: &str) -> (path: String)
    ensures
        path@ == output_path_spec(root@, virtual_path@),
{
    if !virtual_path.is_empty() && virtual_path.get_char(0) == '/' {
        return virtual_path.to_owned();
    }
    let mut path = root.to_owned();
    let len = root.unicode_len();
    if len > 0 && root.get_char(len - 1) != '/' {
        path.push('/');
    }
    path.append(virtual_path);
    path
}

/// The mapping is deterministic and keeps the virtual path intact: the local
/// path always ends with the virtual path, and whenever the virtual path does
/// not start with a separator the local path starts with the root.
pub proof fn lemma_output_path_shape(root: Seq<char>, virtual_path: Seq<char>)
    ensures
        virtual_path.is_suffix_of(output_path_spec(root, virtual_path)),
        !(virtual_path.len() > 0 && virtual_path.first() == '/') ==> root.is_prefix_of(
            output_path_spec(root, virtual_path),
        ),
{
    let path = output_path_spec(root, virtual_path);
    assert(path.subrange(path.len() - virtual_path.len(), path.len() as int) =~= virtual_path);
    if !(virtual_path.len() > 0 && virtual_path.first() == '/') {
        assert(path.subrange(0, root.len() as int) =~= root);
    }
}

} // verus!
