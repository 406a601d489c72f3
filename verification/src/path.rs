//! Path arithmetic on byte strings: prefixes at segment boundaries, joining,
//! and the remapping of a path from one root to another. Nothing here
//! touches the file system.
use crate::text::{append, bytes_of, lemma_ascii_bytes, lit, starts_with, to_vec};
use vstd::prelude::*;
use vstd::slice::slice_subrange;

verus! {

/// The path separator, `/`.
pub open spec fn is_sep(b: u8) -> bool {
    b == 47
}

/// `path` begins with `base`, and `base` ends where a segment of `path`
/// ends: the two are equal, or `base` ends with a separator, or the next
/// byte of `path` is one. The empty base begins every path.
pub open spec fn path_starts_with(path: Seq<u8>, base: Seq<u8>) -> bool {
    base.is_prefix_of(path) && (base.len() == 0 || path.len() == base.len() || is_sep(
        base.last(),
    ) || is_sep(path[base.len() as int]))
}

/// `s` without its leading separators.
pub open spec fn strip_leading_seps(s: Seq<u8>) -> Seq<u8>
    decreases s.len(),
{
    if s.len() > 0 && is_sep(s[0]) {
        strip_leading_seps(s.skip(1))
    } else {
        s
    }
}

/// A path is absolute when it begins with a separator.
pub open spec fn is_absolute(path: Seq<u8>) -> bool {
    path.len() > 0 && is_sep(path[0])
}

/// `tail` appended to `base` as a further path: an absolute `tail` stands
/// alone; otherwise one separator is put between the two unless `base` is
/// empty or already ends with one.
pub open spec fn join(base: Seq<u8>, tail: Seq<u8>) -> Seq<u8> {
    if is_absolute(tail) {
        tail
    } else if base.len() == 0 || is_sep(base.last()) {
        base + tail
    } else {
        base + bytes_of("/") + tail
    }
}

/// The part of `path` that follows `base`, without leading separators.
pub open spec fn strip_base(path: Seq<u8>, base: Seq<u8>) -> Seq<u8> {
    strip_leading_seps(path.skip(base.len() as int))
}

/// `path`, which lies under `base_path`, moved under `mapping_base` and made
/// absolute. A path that does not lie under `base_path` is left as it is.
pub open spec fn remap_spec(path: Seq<u8>, base_path: Seq<u8>, mapping_base: Seq<u8>) -> Seq<u8> {
    if !path_starts_with(path, base_path) {
        path
    } else {
        join(bytes_of("/"), join(mapping_base, strip_base(path, base_path)))
    }
}

/// Index of the last separator of `path`, or -1 when it has none.
pub open spec fn last_sep(path: Seq<u8>) -> int
    decreases path.len(),
{
    if path.len() == 0 {
        -1
    } else if is_sep(path.last()) {
        path.len() - 1
    } else {
        last_sep(path.drop_last())
    }
}

/// The directory part of `path`: what stands before its last separator; the
/// root for a path directly under the root; empty for a path without
/// separator.
pub open spec fn parent_of(path: Seq<u8>) -> Seq<u8> {
    let i = last_sep(path);
    if i < 0 {
        Seq::empty()
    } else if i == 0 {
        bytes_of("/")
    } else {
        path.take(i)
    }
}

/// The last segment of `path`: what stands after its last separator.
pub open spec fn file_name_of(path: Seq<u8>) -> Seq<u8> {
    path.skip(last_sep(path) + 1)
}

/// `location` as an absolute path: itself if it is absolute, otherwise
/// joined to `current_dir`, a leading `./` left out.
pub open spec fn absolute_of(current_dir: Seq<u8>, location: Seq<u8>) -> Seq<u8> {
    if is_absolute(location) {
        location
    } else if bytes_of("./").is_prefix_of(location) {
        join(current_dir, location.skip(2))
    } else {
        join(current_dir, location)
    }
}

/// The separator texts, byte by byte.
pub proof fn lemma_sep_bytes()
    ensures
        bytes_of("/") =~= seq![47u8],
        bytes_of("./") =~= seq![46u8, 47u8],
{
    reveal_strlit("/");
    reveal_strlit("./");
    lemma_ascii_bytes("/");
    lemma_ascii_bytes("./");
}

/// The last separator lies within the path, is a separator, and none follows it.
pub proof fn lemma_last_sep(path: Seq<u8>)
    ensures
        -1 <= last_sep(path) < path.len(),
        last_sep(path) >= 0 ==> is_sep(path[last_sep(path)]),
        forall|j: int| last_sep(path) < j < path.len() ==> !is_sep(#[trigger] path[j]),
    decreases path.len(),
{
    if path.len() > 0 && !is_sep(path.last()) {
        let t = path.drop_last();
        lemma_last_sep(t);
        assert forall|j: int| last_sep(path) < j < path.len() implies !is_sep(#[trigger] path[j]) by {
            if j < t.len() {
                assert(path[j] == t[j]);
            }
        }
    }
}

/// The last separator is where a separator stands and none follows.
pub proof fn lemma_last_sep_is(path: Seq<u8>, i: int)
    requires
        -1 <= i < path.len(),
        i >= 0 ==> is_sep(path[i]),
        forall|j: int| i < j < path.len() ==> !is_sep(#[trigger] path[j]),
    ensures
        last_sep(path) == i,
{
    lemma_last_sep(path);
    let k = last_sep(path);
    if k < i {
        assert(!is_sep(path[i]));
    } else if k > i {
        assert(!is_sep(path[k]));
    }
}

/// Leading separators end at `a`.
pub proof fn lemma_strip_leading_seps_is(s: Seq<u8>, a: int)
    requires
        0 <= a <= s.len(),
        forall|j: int| 0 <= j < a ==> is_sep(#[trigger] s[j]),
        a == s.len() || !is_sep(s[a]),
    ensures
        strip_leading_seps(s) == s.skip(a),
    decreases a,
{
    if a == 0 {
        assert(s.skip(0) =~= s);
    } else {
        let t = s.skip(1);
        assert forall|j: int| 0 <= j < a - 1 implies is_sep(#[trigger] t[j]) by {
            assert(t[j] == s[j + 1]);
        }
        lemma_strip_leading_seps_is(t, a - 1);
        assert(t.skip(a - 1) =~= s.skip(a));
    }
}

/// Whether `path` lies under `base`.
pub fn starts_with_path(path: &[u8], base: &[u8]) -> (r: bool)
    ensures
        r == path_starts_with(path@, base@),
{
    if !starts_with(path, base) {
        return false;
    }
    base.len() == 0 || path.len() == base.len() || base[base.len() - 1] == 47 || path[base.len()]
        == 47
}

/// Joins `tail` to `base`.
pub fn join_paths(base: &[u8], tail: &[u8]) -> (r: Vec<u8>)
    ensures
        r@ == join(base@, tail@),
{
    if tail.len() > 0 && tail[0] == 47 {
        return to_vec(tail);
    }
    let mut out = to_vec(base);
    if base.len() > 0 && base[base.len() - 1] != 47 {
        append(&mut out, lit("/"));
    }
    append(&mut out, tail);
    out
}

/// Moves `path` from under `base_path` to under `mapping_base`.
pub fn remap(path: &[u8], base_path: &[u8], mapping_base: &[u8]) -> (r: Vec<u8>)
    ensures
        r@ == remap_spec(path@, base_path@, mapping_base@),
{
    if !starts_with_path(path, base_path) {
        return to_vec(path);
    }
    let mut a: usize = base_path.len();
    while a < path.len() && path[a] == 47
        invariant
            base_path.len() <= a <= path.len(),
            forall|j: int| base_path.len() <= j < a ==> is_sep(#[trigger] path@[j]),
        decreases path.len() - a,
    {
        a += 1;
    }
    let rest = slice_subrange(path, a, path.len());
    proof {
        let t = path@.skip(base_path.len() as int);
        assert forall|j: int| 0 <= j < a - base_path.len() implies is_sep(#[trigger] t[j]) by {
            assert(t[j] == path@[j + base_path.len()]);
        }
        lemma_strip_leading_seps_is(t, a - base_path.len());
        assert(t.skip(a - base_path.len()) =~= rest@);
    }
    let inner = join_paths(mapping_base, rest);
    join_paths(lit("/"), inner.as_slice())
}

/// Index of the last separator of `path`, if it has one.
pub fn last_separator(path: &[u8]) -> (r: Option<usize>)
    ensures
        match r {
            Some(i) => last_sep(path@) == i && i < path.len(),
            None => last_sep(path@) == -1,
        },
{
    let mut i: usize = path.len();
    while i > 0
        invariant
            i <= path.len(),
            forall|j: int| i <= j < path.len() ==> !is_sep(#[trigger] path@[j]),
        decreases i,
    {
        if path[i - 1] == 47 {
            proof {
                lemma_last_sep_is(path@, i - 1);
            }
            return Some(i - 1);
        }
        i -= 1;
    }
    proof {
        lemma_last_sep_is(path@, -1);
    }
    None
}

/// The directory part of `path`.
pub fn parent(path: &[u8]) -> (r: Vec<u8>)
    ensures
        r@ == parent_of(path@),
{
    match last_separator(path) {
        None => Vec::new(),
        Some(i) => {
            if i == 0 {
                to_vec(lit("/"))
            } else {
                to_vec(slice_subrange(path, 0, i))
            }
        },
    }
}

/// The last segment of `path`.
pub fn file_name(path: &[u8]) -> (r: &[u8])
    ensures
        r@ == file_name_of(path@),
{
    match last_separator(path) {
        None => {
            assert(path@.skip(0) =~= path@);
            path
        },
        Some(i) => slice_subrange(path, i + 1, path.len()),
    }
}

/// `location` as an absolute path under `current_dir`.
pub fn map_to_absolute(current_dir: &[u8], location: &[u8]) -> (r: Vec<u8>)
    ensures
        r@ == absolute_of(current_dir@, location@),
{
    if location.len() > 0 && location[0] == 47 {
        return to_vec(location);
    }
    if starts_with(location, lit("./")) {
        proof {
            lemma_sep_bytes();
        }
        join_paths(current_dir, slice_subrange(location, 2, location.len()))
    } else {
        join_paths(current_dir, location)
    }
}

} // verus!
