//! Exclusion policy on names and paths.
//!
//! A request path is split into `/`-separated segments; a path is ignored
//! when any segment is in the configured exclusion set or starts with a dot.

use vstd::prelude::*;

verus! {

/// A name is hidden when its first character is a dot.
pub open spec fn is_hidden_name(name: Seq<char>) -> bool {
    name.len() > 0 && name[0] == '.'
}

/// A name is excluded when it is configured in the exclusion set or hidden.
pub open spec fn name_excluded(name: Seq<char>, excluded: Seq<Seq<char>>) -> bool {
    excluded.contains(name) || is_hidden_name(name)
}

/// Whether the configured exclusion set or the hidden-name rule rejects
/// this single name.
pub fn is_file_name_ignored(file_name: &String, excluded_files: &Vec<String>) -> (r: bool)
    ensures
        r == name_excluded(file_name@, excluded_files.deep_view()),
{
    if !file_name.as_str().is_empty() && file_name.as_str().get_char(0) == '.' {
        return true;
    }
    let n = excluded_files.len();
    let mut i: usize = 0;
    while i < n
        invariant
            n == excluded_files.len(),
            i <= n,
            !is_hidden_name(file_name@),
            forall|k: int| 0 <= k < i ==> excluded_files.deep_view()[k] != file_name@,
        decreases n - i,
    {
        if *file_name == excluded_files[i] {
            assert(excluded_files.deep_view()[i as int] == file_name@);
            return true;
        }
        i = i + 1;
    }
    assert(forall|k: int|
        0 <= k < excluded_files.deep_view().len() ==> excluded_files.deep_view()[k] != file_name@);
    false
}

/// Scan state after reading a prefix of the path: the segments already closed
/// by a separator, and the partial segment still open at the scan position.
pub open spec fn scan_segments(s: Seq<char>) -> (Seq<Seq<char>>, Seq<char>)
    decreases s.len(),
{
    if s.len() == 0 {
        (Seq::empty(), Seq::empty())
    } else {
        let (done, cur) = scan_segments(s.drop_last());
        if s.last() == '/' {
            if cur.len() > 0 {
                (done.push(cur), Seq::empty())
            } else {
                (done, Seq::empty())
            }
        } else {
            (done, cur.push(s.last()))
        }
    }
}

/// The non-empty `/`-separated segments of a path, in order.
pub open spec fn segments_of(s: Seq<char>) -> Seq<Seq<char>> {
    let (done, cur) = scan_segments(s);
    if cur.len() > 0 {
        done.push(cur)
    } else {
        done
    }
}

/// Splits a path into its non-empty `/`-separated segments.
pub fn split_segments(path: &str) -> (segs: Vec<String>)
    ensures
        segs.deep_view() == segments_of(path@),
{
    let n = path.unicode_len();
    let mut done: Vec<String> = Vec::new();
    let mut seg_start: usize = 0;
    let mut i: usize = 0;
    while i < n
        invariant
            n == path@.len(),
            seg_start <= i <= n,
            done.deep_view() == scan_segments(path@.subrange(0, i as int)).0,
            scan_segments(path@.subrange(0, i as int)).1 == path@.subrange(
                seg_start as int,
                i as int,
            ),
        decreases n - i,
    {
        let c = path.get_char(i);
        proof {
            assert(path@.subrange(0, i + 1).drop_last() =~= path@.subrange(0, i as int));
            assert(path@.subrange(0, i + 1).last() == path@[i as int]);
        }
        if c == '/' {
            if seg_start < i {
                let seg = path.substring_char(seg_start, i);
                let owned = String::from_str(seg);
                done.push(owned);
                proof {
                    assert(done.deep_view() =~= scan_segments(path@.subrange(0, i + 1)).0);
                }
            }
            seg_start = i + 1;
            proof {
                assert(scan_segments(path@.subrange(0, i + 1)).1 =~= path@.subrange(
                    seg_start as int,
                    i + 1,
                ));
            }
        } else {
            proof {
                assert(path@.subrange(seg_start as int, i as int).push(path@[i as int])
                    =~= path@.subrange(seg_start as int, i + 1));
            }
        }
        i = i + 1;
    }
    proof {
        assert(path@.subrange(0, n as int) =~= path@);
    }
    if seg_start < n {
        let seg = path.substring_char(seg_start, n);
        let owned = String::from_str(seg);
        done.push(owned);
        proof {
            assert(done.deep_view() =~= segments_of(path@));
        }
    } else {
        proof {
            assert(scan_segments(path@).1 =~= Seq::<char>::empty());
            assert(done.deep_view() =~= segments_of(path@));
        }
    }
    done
}

/// A path is ignored when any of its segments is excluded or hidden.
pub open spec fn path_ignored(path: Seq<char>, excluded: Seq<Seq<char>>) -> bool {
    exists|k: int|
        0 <= k < segments_of(path).len() && name_excluded(#[trigger] segments_of(path)[k], excluded)
}

/// Whether any segment of the path is in the exclusion set or starts
/// with a dot; such a path never reaches the filesystem.
pub fn is_path_ignored(file_path: &str, excluded_files: &Vec<String>) -> (r: bool)
    ensures
        r == path_ignored(file_path@, excluded_files.deep_view()),
{
    let segs = split_segments(file_path);
    let n = segs.len();
    let mut j: usize = 0;
    while j < n
        invariant
            n == segs.len(),
            j <= n,
            segs.deep_view() == segments_of(file_path@),
            forall|k: int|
                0 <= k < j ==> !name_excluded(
                    #[trigger] segments_of(file_path@)[k],
                    excluded_files.deep_view(),
                ),
        decreases n - j,
    {
        if is_file_name_ignored(&segs[j], excluded_files) {
            assert(segs.deep_view()[j as int] == segs@[j as int]@);
            return true;
        }
        j = j + 1;
    }
    false
}

/// The path with every leading `/` removed.
pub open spec fn strip_leading_slashes(s: Seq<char>) -> Seq<char>
    decreases s.len(),
{
    if s.len() > 0 && s[0] == '/' {
        strip_leading_slashes(s.drop_first())
    } else {
        s
    }
}

/// The canonical form of a raw request path: all leading slashes stripped,
/// then exactly one `/` put in front.
pub open spec fn normalized_path(raw: Seq<char>) -> Seq<char> {
    seq!['/'] + strip_leading_slashes(raw)
}

/// Normalizes a raw request path to start with exactly one `/`.
pub fn normalize_request_path(raw: &str) -> (r: String)
    ensures
        r@ == normalized_path(raw@),
{
    let n = raw.unicode_len();
    let mut i: usize = 0;
    proof {
        assert(raw@.subrange(0, n as int) =~= raw@);
    }
    while i < n && raw.get_char(i) == '/'
        invariant
            n == raw@.len(),
            i <= n,
            strip_leading_slashes(raw@) == strip_leading_slashes(
                raw@.subrange(i as int, n as int),
            ),
        decreases n - i,
    {
        proof {
            assert(raw@.subrange(i as int, n as int).drop_first() =~= raw@.subrange(
                i + 1,
                n as int,
            ));
        }
        i = i + 1;
    }
    let rest = raw.substring_char(i, n);
    let mut r = String::from_str("/");
    r.append(rest);
    proof {
        reveal_strlit("/");
        assert(strip_leading_slashes(raw@.subrange(i as int, n as int)) == raw@.subrange(
            i as int,
            n as int,
        ));
        assert(r@ =~= normalized_path(raw@));
    }
    r
}

/// Concatenates the sandbox root and a normalized request path.
pub fn sandbox_join(root_dir: &str, normalized: &str) -> (r: String)
    ensures
        r@ == root_dir@ + normalized@,
{
    let mut r = String::from_str(root_dir);
    r.append(normalized);
    r
}

/// What a single existence probe of the filesystem reported for a path.
#[derive(Clone, Copy, PartialEq, Eq, Structural, Debug)]
pub enum PathKind {
    Missing,
    File,
    Directory,
}

/// The outcome of resolving a request path inside the sandbox.
#[derive(Clone, Copy, PartialEq, Eq, Structural, Debug)]
pub enum Resolution {
    Forbidden,
    NotFound,
    File,
    Directory,
}

/// How a normalized request path resolves: exclusion is decided first, on the
/// path text alone, so an excluded path answers the same way whether or not
/// anything exists there.
pub open spec fn resolve_spec(
    path: Seq<char>,
    excluded: Seq<Seq<char>>,
    probe: PathKind,
) -> Resolution {
    if path_ignored(path, excluded) {
        Resolution::Forbidden
    } else {
        match probe {
            PathKind::Missing => Resolution::NotFound,
            PathKind::File => Resolution::File,
            PathKind::Directory => Resolution::Directory,
        }
    }
}

/// Resolves a normalized request path given what the filesystem probe said.
pub fn resolve(
    normalized: &str,
    excluded_files: &Vec<String>,
    probe: PathKind,
) -> (r: Resolution)
    ensures
        r == resolve_spec(normalized@, excluded_files.deep_view(), probe),
{
    if is_path_ignored(normalized, excluded_files) {
        Resolution::Forbidden
    } else {
        match probe {
            PathKind::Missing => Resolution::NotFound,
            PathKind::File => Resolution::File,
            PathKind::Directory => Resolution::Directory,
        }
    }
}

/// Law: a path any of whose segments is in the exclusion set or starts
/// with a dot resolves to `Forbidden`, whatever the filesystem probe said.
pub proof fn lemma_excluded_segment_forbidden(
    path: Seq<char>,
    excluded: Seq<Seq<char>>,
    k: int,
    probe: PathKind,
)
    requires
        0 <= k < segments_of(path).len(),
        name_excluded(segments_of(path)[k], excluded),
    ensures
        resolve_spec(path, excluded, probe) == Resolution::Forbidden,
{
}

/// Law: an ignored path resolves to `Forbidden` no matter what the
/// filesystem probe reported, so the answer leaks nothing about existence.
pub proof fn lemma_forbidden_masks_existence(
    path: Seq<char>,
    excluded: Seq<Seq<char>>,
    p1: PathKind,
    p2: PathKind,
)
    requires
        path_ignored(path, excluded),
    ensures
        resolve_spec(path, excluded, p1) == Resolution::Forbidden,
        resolve_spec(path, excluded, p1) == resolve_spec(path, excluded, p2),
{
}

/// Law: when no segment is excluded, a missing object resolves to `NotFound`
/// and nothing else; resolution never produces a server error.
pub proof fn lemma_missing_is_not_found(path: Seq<char>, excluded: Seq<Seq<char>>, probe: PathKind)
    requires
        !path_ignored(path, excluded),
    ensures
        resolve_spec(path, excluded, probe) == Resolution::NotFound <==> probe
            == PathKind::Missing,
{
}

/// Law: a path with a parent-reference segment is forbidden before any
/// filesystem access, so no request can climb out of the sandbox root.
pub proof fn lemma_parent_reference_forbidden(
    path: Seq<char>,
    excluded: Seq<Seq<char>>,
    k: int,
    probe: PathKind,
)
    requires
        0 <= k < segments_of(path).len(),
        segments_of(path)[k] == seq!['.', '.'],
    ensures
        resolve_spec(path, excluded, probe) == Resolution::Forbidden,
{
    assert(is_hidden_name(segments_of(path)[k]));
}

} // verus!
