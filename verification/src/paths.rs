//! The components of a path, as Unix reads them.

use vstd::prelude::*;

use crate::text::chars_of;

verus! {

/// The segment that begins at a place is a single dot.
pub open spec fn is_dot(path: Seq<char>, i: int) -> bool {
    path[i] == '.' && (i + 1 == path.len() || path[i + 1] == '/')
}

/// The segment that begins at a place is two dots.
pub open spec fn is_dot_dot(path: Seq<char>, i: int) -> bool {
    i + 1 < path.len() && path[i] == '.' && path[i + 1] == '.' && (i + 2 == path.len() || path[i
        + 2] == '/')
}

/// A component begins at a place: at the start of the path, be it the root, the
/// current directory or a name; or behind a separator, unless what stands there
/// is another separator or a single dot.
pub open spec fn starts_component(path: Seq<char>, i: int) -> bool {
    0 <= i < path.len() && (i == 0 || (path[i - 1] == '/' && path[i] != '/' && !is_dot(path, i)))
}

/// How many components begin among the first `n` characters.
pub open spec fn components_among(path: Seq<char>, n: nat) -> nat
    decreases n,
{
    if n == 0 {
        0
    } else {
        components_among(path, (n - 1) as nat) + if starts_component(path, n - 1) {
            1nat
        } else {
            0nat
        }
    }
}

/// The path is one component.
pub open spec fn is_single(path: Seq<char>) -> bool {
    components_among(path, path.len()) == 1
}

/// The path is one component, and that is a name.
pub open spec fn is_filename(path: Seq<char>) -> bool {
    &&& is_single(path)
    &&& path[0] != '/'
    &&& !is_dot(path, 0)
    &&& !is_dot_dot(path, 0)
}

fn count_components(path: &Vec<char>) -> (count: usize)
    ensures
        count == components_among(path@, path@.len()),
{
    let mut count: usize = 0;
    let mut i: usize = 0;
    while i < path.len()
        invariant
            count <= i <= path@.len(),
            count == components_among(path@, i as nat),
        decreases path@.len() - i,
    {
        let starts = i == 0 || (path[i - 1] == '/' && path[i] != '/' && !(path[i] == '.' && (i + 1
            == path.len() || path[i + 1] == '/')));
        if starts {
            count += 1;
        }
        i += 1;
    }
    count
}

/// The path is one component.
pub fn is_single_component(path: &str) -> (yes: bool)
    ensures
        yes == is_single(path@),
{
    let chars = chars_of(path);
    count_components(&chars) == 1
}

/// The path is a file's name, and nothing more.
pub fn is_plain_filename(path: &str) -> (yes: bool)
    ensures
        yes == is_filename(path@),
{
    let chars = chars_of(path);
    if count_components(&chars) != 1 {
        return false;
    }
    let n: usize = chars.len();
    assert(n > 0);
    let dot = chars[0] == '.' && (n == 1 || chars[1] == '/');
    let dot_dot = n > 1 && chars[0] == '.' && chars[1] == '.' && (n == 2 || chars[2] == '/');
    chars[0] != '/' && !dot && !dot_dot
}

} // verus!
