//! The names of the scratch files: where each transform stages its result, and which files
//! a cleanup sweeps away.

use vstd::prelude::*;

verus! {

/// The transforms, as far as the name of a scratch file depends on them.
#[derive(Clone, Copy, Debug, PartialEq, Eq, Structural)]
pub enum TransformKind {
    Gray,
    Threshold,
    Cleanup,
}

/// The suffix that marks the scratch file of a transform.
pub open spec fn suffix_of(kind: TransformKind) -> Seq<char> {
    match kind {
        TransformKind::Gray => ".gray.tmp.png"@,
        TransformKind::Threshold => ".threshold.tmp.png"@,
        TransformKind::Cleanup => ".cleanup.tmp.png"@,
    }
}

/// The scratch file of a transform: the path of the original followed by the suffix.
pub open spec fn temp_name(original: Seq<char>, kind: TransformKind) -> Seq<char> {
    original + suffix_of(kind)
}

/// The scratch files that the three transforms of an original write.
pub open spec fn temp_names(original: Seq<char>) -> Seq<Seq<char>> {
    seq![
        temp_name(original, TransformKind::Gray),
        temp_name(original, TransformKind::Threshold),
        temp_name(original, TransformKind::Cleanup),
    ]
}

/// Whether `p` is the scratch file of some transform of `original`.
pub open spec fn is_scratch_of(original: Seq<char>, p: Seq<char>) -> bool {
    ||| p == temp_name(original, TransformKind::Gray)
    ||| p == temp_name(original, TransformKind::Threshold)
    ||| p == temp_name(original, TransformKind::Cleanup)
}

/// A suffix starts with a `.`, holds a second `.` further on, and no `/`.
pub proof fn lemma_suffix_shape(kind: TransformKind) -> (k: int)
    ensures
        0 < k < suffix_of(kind).len(),
        suffix_of(kind)[0] == '.',
        suffix_of(kind)[k] == '.',
        forall|j: int| 0 <= j < suffix_of(kind).len() ==> suffix_of(kind)[j] != '/',
{
    reveal_strlit(".gray.tmp.png");
    reveal_strlit(".threshold.tmp.png");
    reveal_strlit(".cleanup.tmp.png");
    match kind {
        TransformKind::Gray => 5,
        TransformKind::Threshold => 10,
        TransformKind::Cleanup => 8,
    }
}

/// No scratch file of an original is the original itself.
pub proof fn lemma_scratch_is_not_original(original: Seq<char>, p: Seq<char>)
    requires
        is_scratch_of(original, p),
    ensures
        p != original,
        p.len() > original.len(),
{
    let _ = lemma_suffix_shape(TransformKind::Gray);
    let _ = lemma_suffix_shape(TransformKind::Threshold);
    let _ = lemma_suffix_shape(TransformKind::Cleanup);
}

/// Where the file name of a path ends: the length of the path without the separators at
/// its end.
pub open spec fn name_end(path: Seq<char>) -> int
    decreases path.len(),
{
    if path.len() > 0 && path.last() == '/' {
        name_end(path.drop_last())
    } else {
        path.len() as int
    }
}

/// Whether `e` is where the file name ends: only separators follow, and none stands just
/// before.
pub open spec fn is_name_end(path: Seq<char>, e: int) -> bool {
    &&& 0 <= e <= path.len()
    &&& forall|j: int| e <= j < path.len() ==> path[j] == '/'
    &&& e > 0 ==> path[e - 1] != '/'
}

/// `name_end` is where the file name ends.
pub proof fn lemma_name_end(path: Seq<char>)
    ensures
        is_name_end(path, name_end(path)),
    decreases path.len(),
{
    if path.len() > 0 && path.last() == '/' {
        let front = path.drop_last();
        lemma_name_end(front);
        let e = name_end(front);
        assert forall|j: int| e <= j < path.len() implies path[j] == '/' by {
            if j < front.len() {
                assert(front[j] == '/');
            }
        }
        if e > 0 {
            assert(front[e - 1] == path[e - 1]);
        }
    }
}

/// A file name ends in one place only.
pub proof fn lemma_name_end_unique(path: Seq<char>, e: int)
    requires
        is_name_end(path, e),
    ensures
        e == name_end(path),
{
    lemma_name_end(path);
    let f = name_end(path);
    if e < f {
        assert(path[f - 1] == '/');
    } else if f < e {
        assert(path[e - 1] == '/');
    }
}

/// Whether a path names a file: before the separators at its end stands a name other than
/// `.` and `..`.
pub open spec fn has_file_name(path: Seq<char>) -> bool {
    let e = name_end(path);
    &&& e > 0
    &&& !(path[e - 1] == '.' && (e == 1 || path[e - 2] == '/'))
    &&& !(e >= 2 && path[e - 1] == '.' && path[e - 2] == '.' && (e == 2 || path[e - 3] == '/'))
}

/// Whether the `.` at index `d` separates the stem of the file name from its extension: it
/// is the last `.` of the file name and not its first character.
pub open spec fn is_extension_dot(path: Seq<char>, d: int) -> bool {
    &&& 0 < d < name_end(path)
    &&& path[d] == '.'
    &&& path[d - 1] != '/'
    &&& forall|j: int| d < j < name_end(path) ==> path[j] != '.' && path[j] != '/'
}

/// Where the stem of the file name ends: at the `.` before the extension, or with the file
/// name if it has no extension. A path that names no file has no stem.
pub open spec fn stem_end(path: Seq<char>) -> Option<int> {
    if !has_file_name(path) {
        None
    } else if exists|d: int| is_extension_dot(path, d) {
        Some(choose|d: int| is_extension_dot(path, d))
    } else {
        Some(name_end(path))
    }
}

/// A file name has one extension at most.
pub proof fn lemma_extension_dot_unique(path: Seq<char>, d: int)
    requires
        has_file_name(path),
        is_extension_dot(path, d),
    ensures
        stem_end(path) == Some(d),
{
    let e = choose|e: int| is_extension_dot(path, e);
    if e < d {
        assert(path[d] == '.');
    } else if d < e {
        assert(path[e] == '.');
    }
}

/// The scratch name that directory and stem of the original give to a transform.
pub open spec fn stem_name(path: Seq<char>, kind: TransformKind) -> Seq<char> {
    path.subrange(0, stem_end(path).unwrap()) + suffix_of(kind)
}

/// The scratch names by directory and stem, in the order gray, threshold, cleanup. There
/// are none where the stem is the whole path, for they are the names that the transforms
/// write, and none for a path that names no file.
pub open spec fn stem_names(path: Seq<char>) -> Seq<Seq<char>> {
    if stem_end(path) is Some && stem_end(path).unwrap() < path.len() {
        seq![
            stem_name(path, TransformKind::Gray),
            stem_name(path, TransformKind::Threshold),
            stem_name(path, TransformKind::Cleanup),
        ]
    } else {
        Seq::empty()
    }
}

/// The names that a sweep for the scratch files of an original looks for: the files that
/// the three transforms write, then the names by directory and stem. Without an original
/// there is nothing to look for.
pub open spec fn sweep_names(path: Seq<char>) -> Seq<Seq<char>> {
    if path.len() == 0 {
        Seq::empty()
    } else {
        temp_names(path) + stem_names(path)
    }
}

/// A sweep looks for the scratch file of every transform, whatever the path of the
/// original looks like.
pub proof fn lemma_sweep_covers_transforms(path: Seq<char>, kind: TransformKind)
    requires
        path.len() > 0,
    ensures
        sweep_names(path).contains(temp_name(path, kind)),
{
    let names = sweep_names(path);
    assert(names[0] == temp_name(path, TransformKind::Gray));
    assert(names[1] == temp_name(path, TransformKind::Threshold));
    assert(names[2] == temp_name(path, TransformKind::Cleanup));
}

/// A sweep looks for the name by directory and stem of every transform, where the stem is
/// not the whole path.
pub proof fn lemma_sweep_covers_stems(path: Seq<char>, kind: TransformKind)
    requires
        stem_end(path) is Some,
        stem_end(path).unwrap() < path.len(),
    ensures
        sweep_names(path).contains(stem_name(path, kind)),
{
    let names = sweep_names(path);
    assert(names[3] == stem_name(path, TransformKind::Gray));
    assert(names[4] == stem_name(path, TransformKind::Threshold));
    assert(names[5] == stem_name(path, TransformKind::Cleanup));
}

/// A sweep never looks for the original itself.
pub proof fn lemma_sweep_spares_original(path: Seq<char>)
    ensures
        !sweep_names(path).contains(path),
{
    if path.len() > 0 {
        let names = sweep_names(path);
        assert forall|i: int| 0 <= i < names.len() implies names[i] != path by {
            if i < 3 {
                assert(is_scratch_of(path, names[i]));
                lemma_scratch_is_not_original(path, names[i]);
            } else {
                let kind = if i == 3 {
                    TransformKind::Gray
                } else if i == 4 {
                    TransformKind::Threshold
                } else {
                    TransformKind::Cleanup
                };
                assert(names[i] == stem_name(path, kind));
                lemma_stem_name_differs(path, kind);
            }
        }
    }
}

/// The name by directory and stem is not the original.
pub proof fn lemma_stem_name_differs(path: Seq<char>, kind: TransformKind)
    requires
        stem_end(path) is Some,
    ensures
        stem_name(path, kind) != path,
{
    let c = stem_end(path).unwrap();
    let e = name_end(path);
    let suffix = suffix_of(kind);
    let k = lemma_suffix_shape(kind);
    lemma_name_end(path);
    let name = stem_name(path, kind);
    if exists|d: int| is_extension_dot(path, d) {
        assert(is_extension_dot(path, c));
    } else {
        assert(c == e);
    }
    assert(0 <= c <= e);
    if name == path {
        // the second `.` of the suffix would stand behind the stem
        assert(name[c + k] == suffix[k]);
        assert(path[c + k] == '.');
        if c + k < e {
            assert(c < e);
        }
    }
}

/// The suffix of a transform's scratch file.
pub fn suffix(kind: TransformKind) -> (s: &'static str)
    ensures
        s@ == suffix_of(kind),
{
    match kind {
        TransformKind::Gray => ".gray.tmp.png",
        TransformKind::Threshold => ".threshold.tmp.png",
        TransformKind::Cleanup => ".cleanup.tmp.png",
    }
}

/// The path of the scratch file that a transform of `original` writes.
pub fn temp_path(original: &str, kind: TransformKind) -> (path: String)
    ensures
        path@ == temp_name(original@, kind),
{
    String::from_str(original).concat(suffix(kind))
}

/// Finds where the file name of a path of `n` characters ends.
fn find_name_end(path: &str, n: usize) -> (e: usize)
    requires
        n == path@.len(),
    ensures
        e == name_end(path@),
        e <= n,
{
    let mut e: usize = n;
    while e > 0
        invariant
            e <= n,
            n == path@.len(),
            forall|j: int| e <= j < n ==> path@[j] == '/',
        decreases e,
    {
        if path.get_char(e - 1) != '/' {
            proof {
                lemma_name_end_unique(path@, e as int);
            }
            return e;
        }
        e -= 1;
    }
    proof {
        lemma_name_end_unique(path@, 0);
    }
    0
}

/// Whether the name that ends at `e` is a file name.
fn names_a_file(path: &str, e: usize) -> (named: bool)
    requires
        e == name_end(path@),
        e <= path@.len(),
    ensures
        named == has_file_name(path@),
{
    if e == 0 {
        return false;
    }
    if path.get_char(e - 1) != '.' {
        return true;
    }
    if e == 1 {
        return false;
    }
    let before = path.get_char(e - 2);
    if before == '/' {
        return false;
    }
    if before != '.' {
        return true;
    }
    !(e == 2 || path.get_char(e - 3) == '/')
}

/// Finds where the stem of the file name ends.
pub fn find_stem_end(path: &str) -> (cut: Option<usize>)
    ensures
        cut matches Some(c) ==> stem_end(path@) == Some(c as int) && c <= path@.len(),
        cut is None ==> stem_end(path@) is None,
{
    let n = path.unicode_len();
    let e = find_name_end(path, n);
    if !names_a_file(path, e) {
        return None;
    }
    let mut i: usize = e;
    while i > 0
        invariant
            i <= e <= n,
            n == path@.len(),
            e == name_end(path@),
            has_file_name(path@),
            forall|j: int| i <= j < e ==> path@[j] != '.' && path@[j] != '/',
        decreases i,
    {
        let c = path.get_char(i - 1);
        if c == '/' {
            assert forall|d: int| !is_extension_dot(path@, d) by {
                if d < i - 1 {
                    assert(path@[i - 1] == '/');
                }
            }
            return Some(e);
        }
        if c == '.' {
            let d = i - 1;
            assert forall|x: int| x != d implies !is_extension_dot(path@, x) by {
                if x < d {
                    assert(path@[d as int] == '.');
                }
            }
            if d == 0 {
                return Some(e);
            }
            if path.get_char(d - 1) == '/' {
                return Some(e);
            }
            proof {
                lemma_extension_dot_unique(path@, d as int);
            }
            return Some(d);
        }
        i -= 1;
    }
    assert forall|d: int| !is_extension_dot(path@, d) by {}
    Some(e)
}

/// The three names that `stem` and the suffixes make.
fn suffixed(stem: &str) -> (names: Vec<String>)
    ensures
        names.deep_view() == seq![
            stem@ + suffix_of(TransformKind::Gray),
            stem@ + suffix_of(TransformKind::Threshold),
            stem@ + suffix_of(TransformKind::Cleanup),
        ],
{
    let mut names: Vec<String> = Vec::new();
    names.push(String::from_str(stem).concat(suffix(TransformKind::Gray)));
    names.push(String::from_str(stem).concat(suffix(TransformKind::Threshold)));
    names.push(String::from_str(stem).concat(suffix(TransformKind::Cleanup)));
    assert(names.deep_view() =~= seq![
        stem@ + suffix_of(TransformKind::Gray),
        stem@ + suffix_of(TransformKind::Threshold),
        stem@ + suffix_of(TransformKind::Cleanup),
    ]);
    names
}

/// The paths that a sweep for the scratch files of `original` looks for.
pub fn sweep_paths(original: &str) -> (paths: Vec<String>)
    ensures
        paths.deep_view() == sweep_names(original@),
{
    if original.is_empty() {
        let paths: Vec<String> = Vec::new();
        assert(paths.deep_view() =~= sweep_names(original@));
        return paths;
    }
    let mut paths = suffixed(original);
    let ghost written = paths.deep_view();
    assert(written =~= temp_names(original@));
    match find_stem_end(original) {
        Some(c) => {
            if c < original.unicode_len() {
                let mut by_stem = suffixed(original.substring_char(0, c));
                let ghost found = by_stem.deep_view();
                assert(found =~= stem_names(original@));
                paths.append(&mut by_stem);
                assert(paths.deep_view() =~= written + found);
            } else {
                assert(paths.deep_view() =~= written + stem_names(original@));
            }
        },
        None => {
            assert(paths.deep_view() =~= written + stem_names(original@));
        },
    }
    paths
}

} // verus!
