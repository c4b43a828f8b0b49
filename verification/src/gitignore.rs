//! `.gitignore` rule parsing and matching.
//!
//! Rules are parsed from the lines of a `.gitignore` file; matching works on
//! the UTF-8 bytes of archive paths, with `*` matching any run of bytes and
//! `?` exactly one byte inside a path segment, and a `**` segment matching any
//! number of whole segments.
use crate::text::{
    chars_end_with, chars_of, find_char, first_index_of, lemma_first_index_of, slice_chars, starts_with,
    string_from_chars, trim_end_char, trim_end_matching, trim_spec, trim_start_char, trim_start_matching,
    trim_start_whitespace, trim_start_ws, trim_whitespace,
};
use vstd::prelude::*;
use vstd::string::*;

verus! {

/// File type of a planned manifest entry, as far as rule matching needs it.
#[derive(Debug, Clone, Copy, PartialEq, Eq, Structural)]
pub enum ManifestFileType {
    File,
    Directory,
    Symlink,
}

#[derive(Debug, Clone, Copy, PartialEq, Eq, Structural)]
pub enum GitignorePolarity {
    Ignore,
    Include,
}

#[derive(Debug, Clone, Copy, PartialEq, Eq, Structural)]
pub enum GitignoreScope {
    Any,
    Directory,
}

#[derive(Debug, Clone, Copy, PartialEq, Eq, Structural)]
pub enum GitignoreAnchor {
    Anywhere,
    Anchored,
}

/// One parsed `.gitignore` rule, scoped to the archive directory that holds
/// the `.gitignore` file.
#[derive(Debug, Clone)]
pub struct GitignoreRule {
    pub base_archive_path: String,
    pub pattern: String,
    pub polarity: GitignorePolarity,
    pub scope: GitignoreScope,
    pub anchor: GitignoreAnchor,
}

pub open spec fn slash() -> u8 {
    0x2f
}

/// Glob match of one segment: `*` matches any run of bytes, `?` one byte.
pub open spec fn segment_matches(value: Seq<u8>, pattern: Seq<u8>) -> bool
    decreases pattern.len(), value.len(),
{
    if pattern.len() == 0 {
        value.len() == 0
    } else if pattern[0] == 0x2a {
        segment_matches(value, pattern.drop_first()) || (value.len() > 0 && segment_matches(value.drop_first(), pattern))
    } else if pattern[0] == 0x3f {
        value.len() > 0 && segment_matches(value.drop_first(), pattern.drop_first())
    } else {
        value.len() > 0 && value[0] == pattern[0] && segment_matches(value.drop_first(), pattern.drop_first())
    }
}

/// Index of the first `/` byte.
pub open spec fn first_slash(s: Seq<u8>) -> Option<int>
    decreases s.len(),
{
    if s.len() == 0 {
        None
    } else if s[0] == slash() {
        Some(0)
    } else {
        match first_slash(s.drop_first()) {
            Some(i) => Some(i + 1),
            None => None,
        }
    }
}

/// `str::split('/')`: every segment between separators, empty ones included.
pub open spec fn raw_segments(s: Seq<u8>) -> Seq<Seq<u8>>
    decreases s.len(),
{
    match first_slash(s) {
        None => seq![s],
        Some(i) => if 0 <= i < s.len() {
            seq![s.subrange(0, i)] + raw_segments(s.subrange(i + 1, s.len() as int))
        } else {
            seq![s]
        },
    }
}

/// Non-empty `/`-separated segments.
pub open spec fn path_segments(s: Seq<u8>) -> Seq<Seq<u8>> {
    raw_segments(s).filter(|seg: Seq<u8>| seg.len() > 0)
}

pub open spec fn double_star() -> Seq<u8> {
    seq![0x2au8, 0x2au8]
}

/// Segment-wise match of a path pattern; a `**` segment matches any number
/// of path segments.
pub open spec fn segments_match(pattern: Seq<Seq<u8>>, path: Seq<Seq<u8>>) -> bool
    decreases pattern.len(),
{
    if pattern.len() == 0 {
        path.len() == 0
    } else if pattern[0] == double_star() {
        exists|i: int| 0 <= i <= path.len() && segments_match(pattern.drop_first(), #[trigger] path.skip(i))
    } else {
        path.len() > 0 && segment_matches(path[0], pattern[0]) && segments_match(pattern.drop_first(), path.drop_first())
    }
}

/// Some `/`-separated segment of `path` (empty ones included) matches
/// `pattern`.
pub open spec fn any_segment_matches_spec(path: Seq<u8>, pattern: Seq<u8>) -> bool {
    raw_segments(path).any(|seg: Seq<u8>| segment_matches(seg, pattern))
}

pub open spec fn path_pattern_matches(path: Seq<u8>, pattern: Seq<u8>) -> bool {
    segments_match(path_segments(pattern), path_segments(path))
}

pub open spec fn bytes_starts_with(s: Seq<u8>, p: Seq<u8>) -> bool {
    p.len() <= s.len() && s.subrange(0, p.len() as int) == p
}

pub open spec fn matches_or_contains_descendant(path: Seq<u8>, pattern: Seq<u8>) -> bool {
    path_pattern_matches(path, pattern) || (bytes_starts_with(path, pattern) && path.len() > pattern.len()
        && path[pattern.len() as int] == slash())
}

/// The part of `archive_path` below `base`: empty for `base` itself, and
/// `None` when the path is not below `base`.
pub open spec fn relative_path(base: Seq<u8>, archive_path: Seq<u8>) -> Option<Seq<u8>> {
    if archive_path == base {
        Some(Seq::empty())
    } else if bytes_starts_with(archive_path, base) && archive_path.len() > base.len() && archive_path[base.len() as int]
        == slash() {
        Some(archive_path.subrange(base.len() as int + 1, archive_path.len() as int))
    } else {
        None
    }
}

impl GitignoreRule {
    pub open spec fn pattern_bytes(&self) -> Seq<u8> {
        vstd::utf8::encode_utf8(self.pattern@)
    }

    pub open spec fn anchored_or_path_spec(&self) -> bool {
        self.anchor == GitignoreAnchor::Anchored || self.pattern_bytes().contains(slash())
    }

    /// Whether the rule matches `archive_path` (UTF-8 bytes) of the given type.
    pub open spec fn matches_spec(&self, archive_path: Seq<u8>, file_type: ManifestFileType) -> bool {
        match relative_path(vstd::utf8::encode_utf8(self.base_archive_path@), archive_path) {
            None => false,
            Some(rel) => if rel.len() == 0 {
                false
            } else if self.scope == GitignoreScope::Directory {
                if self.anchored_or_path_spec() {
                    matches_or_contains_descendant(rel, self.pattern_bytes())
                } else {
                    any_segment_matches_spec(rel, self.pattern_bytes())
                }
            } else if self.anchored_or_path_spec() {
                matches_or_contains_descendant(rel, self.pattern_bytes())
            } else {
                any_segment_matches_spec(rel, self.pattern_bytes()) || (file_type
                    == ManifestFileType::Directory && segment_matches(rel, self.pattern_bytes()))
            },
        }
    }

    /// Whether an including rule might re-include something below
    /// `archive_path`.
    pub open spec fn could_include_below_spec(&self, archive_path: Seq<u8>) -> bool {
        if self.polarity != GitignorePolarity::Include {
            false
        } else {
            match relative_path(vstd::utf8::encode_utf8(self.base_archive_path@), archive_path) {
                None => false,
                Some(rel) => if rel.len() == 0 || !self.anchored_or_path_spec() {
                    true
                } else {
                    bytes_starts_with(self.pattern_bytes(), rel.push(slash()))
                },
            }
        }
    }

    fn is_anchored_or_path_pattern(&self) -> (r: bool)
        ensures
            r == self.anchored_or_path_spec(),
    {
        let bytes = self.pattern.as_str().as_bytes();
        self.anchor == GitignoreAnchor::Anchored || contains_byte(bytes, 0x2f)
    }

    /// Whether the rule matches `archive_path`.
    pub fn matches(&self, archive_path: &str, file_type: ManifestFileType) -> (r: bool)
        ensures
            r == self.matches_spec(archive_path.spec_bytes(), file_type),
    {
        let base = self.base_archive_path.as_str().as_bytes();
        let path = archive_path.as_bytes();
        let rel = match relative_bytes(base, path) {
            Some(rel) => rel,
            None => return false,
        };
        if rel.len() == 0 {
            return false;
        }
        let pattern = self.pattern.as_str().as_bytes();
        assert(rel@.subrange(0, rel@.len() as int) =~= rel@);
        assert(pattern@.subrange(0, pattern@.len() as int) =~= pattern@);
        if self.scope == GitignoreScope::Directory {
            return self.matches_directory(&rel);
        }
        if self.is_anchored_or_path_pattern() {
            matches_or_contains_descendant_bytes(&rel, pattern)
        } else {
            any_segment_matches(&rel, pattern) || (file_type == ManifestFileType::Directory && segment_pattern_matches_bytes(
                &rel,
                0,
                pattern,
                0,
            ))
        }
    }

    fn matches_directory(&self, relative: &[u8]) -> (r: bool)
        ensures
            r == (if self.anchored_or_path_spec() {
                matches_or_contains_descendant(relative@, self.pattern_bytes())
            } else {
                any_segment_matches_spec(relative@, self.pattern_bytes())
            }),
    {
        let pattern = self.pattern.as_str().as_bytes();
        if self.is_anchored_or_path_pattern() {
            return matches_or_contains_descendant_bytes(relative, pattern);
        }
        any_segment_matches(relative, pattern)
    }

    /// Whether an including rule might re-include something below
    /// `archive_path`.
    pub fn could_include_below(&self, archive_path: &str) -> (r: bool)
        ensures
            r == self.could_include_below_spec(archive_path.spec_bytes()),
    {
        if self.polarity != GitignorePolarity::Include {
            return false;
        }
        let base = self.base_archive_path.as_str().as_bytes();
        let rel = match relative_bytes(base, archive_path.as_bytes()) {
            Some(rel) => rel,
            None => return false,
        };
        if rel.len() == 0 || !self.is_anchored_or_path_pattern() {
            return true;
        }
        let mut prefix = rel;
        prefix.push(0x2f);
        bytes_start_with(self.pattern.as_str().as_bytes(), &prefix)
    }
}

fn contains_byte(s: &[u8], b: u8) -> (r: bool)
    ensures
        r == s@.contains(b),
{
    let mut i: usize = 0;
    while i < s.len()
        invariant
            i <= s.len(),
            forall|j: int| 0 <= j < i ==> s@[j] != b,
        decreases s.len() - i,
    {
        if s[i] == b {
            assert(s@[i as int] == b);
            return true;
        }
        i += 1;
    }
    false
}

fn copy_bytes(s: &[u8], start: usize, end: usize) -> (r: Vec<u8>)
    requires
        start <= end <= s.len(),
    ensures
        r@ == s@.subrange(start as int, end as int),
{
    let mut r: Vec<u8> = Vec::new();
    let mut i = start;
    while i < end
        invariant
            start <= i <= end <= s.len(),
            r@ == s@.subrange(start as int, i as int),
        decreases end - i,
    {
        r.push(s[i]);
        i += 1;
        assert(r@ =~= s@.subrange(start as int, i as int));
    }
    r
}

fn bytes_start_with(s: &[u8], p: &[u8]) -> (r: bool)
    ensures
        r == bytes_starts_with(s@, p@),
{
    if p.len() > s.len() {
        return false;
    }
    let mut i: usize = 0;
    while i < p.len()
        invariant
            i <= p.len() <= s.len(),
            forall|j: int| 0 <= j < i ==> s@[j] == p@[j],
        decreases p.len() - i,
    {
        if s[i] != p[i] {
            assert(s@.subrange(0, p.len() as int)[i as int] != p@[i as int]);
            return false;
        }
        i += 1;
    }
    assert(s@.subrange(0, p.len() as int) =~= p@);
    true
}

fn relative_bytes(base: &[u8], path: &[u8]) -> (r: Option<Vec<u8>>)
    ensures
        match r {
            Some(v) => relative_path(base@, path@) == Some(v@),
            None => relative_path(base@, path@) is None,
        },
{
    if bytes_start_with(path, base) && path.len() == base.len() {
        assert(path@ =~= base@) by {
            assert(path@.subrange(0, base.len() as int) =~= path@);
        }
        return Some(Vec::new());
    }
    assert(path@ != base@) by {
        if path@ == base@ {
            assert(path@.subrange(0, base.len() as int) =~= base@);
        }
    }
    if bytes_start_with(path, base) && path.len() > base.len() && path[base.len()] == 0x2f {
        return Some(copy_bytes(path, base.len() + 1, path.len()));
    }
    None
}

proof fn lemma_first_slash(s: Seq<u8>)
    ensures
        match first_slash(s) {
            Some(i) => 0 <= i < s.len() && s[i] == slash() && forall|j: int| 0 <= j < i ==> s[j] != slash(),
            None => forall|j: int| 0 <= j < s.len() ==> s[j] != slash(),
        },
    decreases s.len(),
{
    if s.len() > 0 && s[0] != slash() {
        lemma_first_slash(s.drop_first());
        assert forall|j: int| 1 <= j < s.len() implies s[j] == s.drop_first()[j - 1] by {}
    }
}

/// Position of the first `/` at or after `start`.
fn next_slash(s: &[u8], start: usize) -> (r: Option<usize>)
    requires
        start <= s.len(),
    ensures
        match r {
            Some(i) => first_slash(s@.subrange(start as int, s.len() as int)) == Some(i - start) && start <= i < s.len(),
            None => first_slash(s@.subrange(start as int, s.len() as int)) is None,
        },
{
    let ghost rest = s@.subrange(start as int, s.len() as int);
    proof {
        lemma_first_slash(rest);
    }
    let mut i = start;
    while i < s.len()
        invariant
            start <= i <= s.len(),
            rest == s@.subrange(start as int, s.len() as int),
            forall|j: int| start <= j < i ==> s@[j] != slash(),
        decreases s.len() - i,
    {
        if s[i] == 0x2f {
            proof {
                lemma_first_slash(rest);
                assert(rest[i - start] == slash());
                match first_slash(rest) {
                    Some(k) => {
                        if k < i - start {
                            assert(rest[k] == s@[start + k]);
                        } else if k > i - start {
                            assert(rest[i - start] != slash());
                        }
                    },
                    None => {
                        assert(rest[i - start] != slash());
                    },
                }
            }
            return Some(i);
        }
        i += 1;
    }
    proof {
        lemma_first_slash(rest);
        match first_slash(rest) {
            Some(k) => {
                assert(rest[k] == s@[start + k]);
            },
            None => {},
        }
    }
    None
}

/// Glob match of `value[vi..]` against `pattern[pi..]`.
pub fn segment_pattern_matches_bytes(value: &[u8], vi: usize, pattern: &[u8], pi: usize) -> (r: bool)
    requires
        vi <= value.len(),
        pi <= pattern.len(),
    ensures
        r == segment_matches(value@.subrange(vi as int, value.len() as int), pattern@.subrange(pi as int, pattern.len() as int)),
    decreases pattern.len() - pi, value.len() - vi,
{
    let ghost v = value@.subrange(vi as int, value.len() as int);
    let ghost p = pattern@.subrange(pi as int, pattern.len() as int);
    if pi == pattern.len() {
        return vi == value.len();
    }
    proof {
        assert(p.drop_first() =~= pattern@.subrange(pi + 1, pattern.len() as int));
        if vi < value.len() {
            assert(v.drop_first() =~= value@.subrange(vi + 1, value.len() as int));
        }
    }
    let head = pattern[pi];
    if head == 0x2a {
        segment_pattern_matches_bytes(value, vi, pattern, pi + 1) || (vi < value.len() && segment_pattern_matches_bytes(
            value,
            vi + 1,
            pattern,
            pi,
        ))
    } else if head == 0x3f {
        vi < value.len() && segment_pattern_matches_bytes(value, vi + 1, pattern, pi + 1)
    } else {
        vi < value.len() && value[vi] == head && segment_pattern_matches_bytes(value, vi + 1, pattern, pi + 1)
    }
}

/// Some `/`-separated segment of `path` (empty ones included) matches
/// `pattern`.
fn any_segment_matches(path: &[u8], pattern: &[u8]) -> (r: bool)
    ensures
        r == any_segment_matches_spec(path@, pattern@),
{
    let ghost pred = |seg: Seq<u8>| segment_matches(seg, pattern@);
    let mut start: usize = 0;
    assert(path@.subrange(0, path.len() as int) =~= path@);
    assert(pattern@.subrange(0, pattern.len() as int) =~= pattern@);
    loop
        invariant
            start <= path.len(),
            pattern@.subrange(0, pattern.len() as int) == pattern@,
            pred == (|seg: Seq<u8>| segment_matches(seg, pattern@)),
            raw_segments(path@).any(pred) == raw_segments(path@.subrange(start as int, path.len() as int)).any(pred),
        decreases path.len() - start,
    {
        let ghost rest = path@.subrange(start as int, path.len() as int);
        match next_slash(path, start) {
            None => {
                let seg = copy_bytes(path, start, path.len());
                let hit = segment_pattern_matches_bytes(&seg, 0, pattern, 0);
                proof {
                    assert(seg@.subrange(0, seg@.len() as int) =~= seg@);
                    assert(raw_segments(rest) == seq![rest]);
                    lemma_any_single(rest, pred);
                }
                return hit;
            },
            Some(i) => {
                let seg = copy_bytes(path, start, i);
                let hit = segment_pattern_matches_bytes(&seg, 0, pattern, 0);
                proof {
                    assert(seg@.subrange(0, seg@.len() as int) =~= seg@);
                    let tail = path@.subrange(i + 1, path.len() as int);
                    assert(rest.subrange(0, i - start) =~= seg@);
                    assert(rest.subrange(i - start + 1, rest.len() as int) =~= tail);
                    assert(raw_segments(rest) == seq![seg@] + raw_segments(tail));
                    lemma_any_cons(seg@, raw_segments(tail), pred);
                }
                if hit {
                    return true;
                }
                start = i + 1;
            },
        }
    }
}

proof fn lemma_any_single(s: Seq<u8>, pred: spec_fn(Seq<u8>) -> bool)
    ensures
        seq![s].any(pred) == pred(s),
{
    if pred(s) {
        assert(seq![s][0] == s);
    }
}

proof fn lemma_any_cons(s: Seq<u8>, rest: Seq<Seq<u8>>, pred: spec_fn(Seq<u8>) -> bool)
    ensures
        (seq![s] + rest).any(pred) == (pred(s) || rest.any(pred)),
{
    let all = seq![s] + rest;
    if pred(s) {
        assert(all[0] == s);
    }
    if rest.any(pred) {
        let i = choose|i: int| 0 <= i < rest.len() && pred(rest[i]);
        assert(all[i + 1] == rest[i]);
    }
    if all.any(pred) {
        let i = choose|i: int| 0 <= i < all.len() && pred(all[i]);
        if i > 0 {
            assert(all[i] == rest[i - 1]);
        }
    }
}

/// Non-empty segments of `path`.
fn split_path_segments(path: &[u8]) -> (r: Vec<Vec<u8>>)
    ensures
        r@.map_values(|v: Vec<u8>| v@) == path_segments(path@),
{
    let ghost keep = |seg: Seq<u8>| seg.len() > 0;
    let mut r: Vec<Vec<u8>> = Vec::new();
    let mut start: usize = 0;
    assert(path@.subrange(0, path.len() as int) =~= path@);
    loop
        invariant
            start <= path.len(),
            keep == (|seg: Seq<u8>| seg.len() > 0),
            path_segments(path@) == r@.map_values(|v: Vec<u8>| v@) + raw_segments(path@.subrange(start as int, path.len() as int)).filter(keep),
        decreases path.len() - start,
    {
        let ghost rest = path@.subrange(start as int, path.len() as int);
        let ghost before = r@.map_values(|v: Vec<u8>| v@);
        match next_slash(path, start) {
            None => {
                let seg = copy_bytes(path, start, path.len());
                proof {
                    assert(raw_segments(rest) == seq![rest]);
                    Seq::<Seq<u8>>::empty().lemma_filter_prepend(rest, keep);
                    assert(seq![rest] + Seq::<Seq<u8>>::empty() =~= seq![rest]);
                    assert(Seq::<Seq<u8>>::empty().filter(keep) =~= Seq::<Seq<u8>>::empty()) by {
                        reveal(Seq::filter);
                    }
                }
                if seg.len() > 0 {
                    r.push(seg);
                    proof {
                        assert(seq![rest].filter(keep) =~= seq![rest]);
                        assert(r@.map_values(|v: Vec<u8>| v@) =~= before + seq![rest]);
                    }
                } else {
                    proof {
                        assert(seq![rest].filter(keep) =~= Seq::<Seq<u8>>::empty());
                        assert(before + Seq::<Seq<u8>>::empty() =~= before);
                    }
                }
                return r;
            },
            Some(i) => {
                let seg = copy_bytes(path, start, i);
                let ghost tail = path@.subrange(i + 1, path.len() as int);
                proof {
                    assert(rest.subrange(0, i - start) =~= seg@);
                    assert(rest.subrange(i - start + 1, rest.len() as int) =~= tail);
                    assert(raw_segments(rest) == seq![seg@] + raw_segments(tail));
                    raw_segments(tail).lemma_filter_prepend(seg@, keep);
                }
                if seg.len() > 0 {
                    r.push(seg);
                    proof {
                        assert(r@.map_values(|v: Vec<u8>| v@) =~= before.push(seg@));
                        assert(before + (seq![seg@] + raw_segments(tail).filter(keep)) =~= before.push(seg@) + raw_segments(tail).filter(keep));
                    }
                }
                start = i + 1;
            },
        }
    }
}

/// Segment-wise path-pattern match of `path[pj..]` against `pattern[pi..]`.
fn path_segments_match(pattern: &Vec<Vec<u8>>, pi: usize, path: &Vec<Vec<u8>>, pj: usize) -> (r: bool)
    requires
        pi <= pattern.len(),
        pj <= path.len(),
    ensures
        r == segments_match(
            pattern@.map_values(|v: Vec<u8>| v@).skip(pi as int),
            path@.map_values(|v: Vec<u8>| v@).skip(pj as int),
        ),
    decreases pattern.len() - pi,
{
    let ghost pat = pattern@.map_values(|v: Vec<u8>| v@).skip(pi as int);
    let ghost pth = path@.map_values(|v: Vec<u8>| v@).skip(pj as int);
    if pi == pattern.len() {
        return pj == path.len();
    }
    assert(pat.drop_first() =~= pattern@.map_values(|v: Vec<u8>| v@).skip(pi + 1));
    assert(pat[0] == pattern@[pi as int]@);
    let head = &pattern[pi];
    if head.len() == 2 && head[0] == 0x2a && head[1] == 0x2a {
        assert(pat[0] =~= double_star());
        let mut k = pj;
        loop
            invariant
                pj <= k <= path.len(),
                pi < pattern.len(),
                pat[0] == double_star(),
                pat == pattern@.map_values(|v: Vec<u8>| v@).skip(pi as int),
                pth == path@.map_values(|v: Vec<u8>| v@).skip(pj as int),
                forall|i: int| 0 <= i < k - pj ==> !segments_match(pat.drop_first(), #[trigger] pth.skip(i)),
            decreases path.len() + 1 - k,
        {
            let hit = path_segments_match(pattern, pi + 1, path, k);
            assert(pth.skip(k - pj) =~= path@.map_values(|v: Vec<u8>| v@).skip(k as int));
            assert(pat.drop_first() =~= pattern@.map_values(|v: Vec<u8>| v@).skip(pi + 1));
            if hit {
                assert(segments_match(pat.drop_first(), pth.skip(k - pj)));
                assert(0 <= k - pj <= pth.len());
                return true;
            }
            if k == path.len() {
                assert(forall|i: int| 0 <= i <= pth.len() ==> !segments_match(pat.drop_first(), #[trigger] pth.skip(i)));
                return false;
            }
            k += 1;
        }
    }
    assert(pat[0] != double_star()) by {
        if pat[0] == double_star() {
            assert(head@.len() == 2 && head@[0] == 0x2a && head@[1] == 0x2a);
        }
    }
    if pj == path.len() {
        return false;
    }
    assert(pth.drop_first() =~= path@.map_values(|v: Vec<u8>| v@).skip(pj + 1));
    assert(pth[0] == path@[pj as int]@);
    let seg = &path[pj];
    assert(seg@.subrange(0, seg@.len() as int) =~= seg@);
    assert(head@.subrange(0, head@.len() as int) =~= head@);
    segment_pattern_matches_bytes(seg, 0, head, 0) && path_segments_match(pattern, pi + 1, path, pj + 1)
}

fn matches_or_contains_descendant_bytes(path: &[u8], pattern: &[u8]) -> (r: bool)
    ensures
        r == matches_or_contains_descendant(path@, pattern@),
{
    let path_segments = split_path_segments(path);
    let pattern_segments = split_path_segments(pattern);
    let m = path_segments_match(&pattern_segments, 0, &path_segments, 0);
    assert(pattern_segments@.map_values(|v: Vec<u8>| v@).skip(0) =~= pattern_segments@.map_values(|v: Vec<u8>| v@));
    assert(path_segments@.map_values(|v: Vec<u8>| v@).skip(0) =~= path_segments@.map_values(|v: Vec<u8>| v@));
    m || (bytes_start_with(path, pattern) && path.len() > pattern.len() && path[pattern.len()] == 0x2f)
}

/// The rule parsed from one `.gitignore` line, if the line holds one.
pub open spec fn parse_rule_spec(line: Seq<char>) -> Option<(Seq<char>, GitignorePolarity, GitignoreScope, GitignoreAnchor)> {
    let t = trim_spec(line);
    if t.len() == 0 || t[0] == '#' {
        None
    } else {
        let (p1, polarity) = if t[0] == '!' {
            (trim_start_ws(t.drop_first()), GitignorePolarity::Include)
        } else {
            (t, GitignorePolarity::Ignore)
        };
        if p1.len() == 0 {
            None
        } else {
            let scope = if p1.last() == '/' {
                GitignoreScope::Directory
            } else {
                GitignoreScope::Any
            };
            let p2 = trim_end_char(p1, '/');
            let anchor = if p2.len() > 0 && p2[0] == '/' {
                GitignoreAnchor::Anchored
            } else {
                GitignoreAnchor::Anywhere
            };
            let p3 = trim_start_char(p2, '/');
            if p3.len() == 0 {
                None
            } else {
                Some((p3, polarity, scope, anchor))
            }
        }
    }
}

/// Parses one `.gitignore` line into a rule scoped to `base_archive_path`.
pub fn parse_gitignore_rule(line: &str, base_archive_path: &str) -> (r: Option<GitignoreRule>)
    ensures
        match r {
            Some(rule) => parse_rule_spec(line@) == Some((rule.pattern@, rule.polarity, rule.scope, rule.anchor))
                && rule.base_archive_path@ == base_archive_path@,
            None => parse_rule_spec(line@) is None,
        },
{
    let chars = chars_of(line);
    let t = trim_whitespace(&chars);
    if t.len() == 0 || t[0] == '#' {
        return None;
    }
    let (p1, polarity) = if t[0] == '!' {
        let rest = slice_chars(&t, 1, t.len());
        assert(rest@ =~= t@.drop_first());
        (trim_start_whitespace(&rest), GitignorePolarity::Include)
    } else {
        (t, GitignorePolarity::Ignore)
    };
    if p1.len() == 0 {
        return None;
    }
    let scope = if p1[p1.len() - 1] == '/' {
        GitignoreScope::Directory
    } else {
        GitignoreScope::Any
    };
    let p2 = trim_end_matching(&p1, '/');
    let anchor = if p2.len() > 0 && p2[0] == '/' {
        GitignoreAnchor::Anchored
    } else {
        GitignoreAnchor::Anywhere
    };
    let p3 = trim_start_matching(&p2, '/');
    if p3.len() == 0 {
        return None;
    }
    Some(
        GitignoreRule {
            base_archive_path: crate::text::string_from_chars(&chars_of(base_archive_path)),
            pattern: string_from_chars(&p3),
            polarity,
            scope,
            anchor,
        },
    )
}

/// `str::lines` as far as rule parsing is concerned: the pieces between
/// `\n` separators, without a final empty piece after a trailing newline (a
/// `\r` before the `\n` stays, and is removed by the trim that parsing applies).
pub open spec fn newline_pieces(s: Seq<char>) -> Seq<Seq<char>>
    decreases s.len(),
{
    if s.len() == 0 {
        Seq::empty()
    } else {
        match first_index_of(s, '\n') {
            None => seq![s],
            Some(i) => if 0 <= i < s.len() {
                seq![s.subrange(0, i)] + newline_pieces(s.subrange(i + 1, s.len() as int))
            } else {
                seq![s]
            },
        }
    }
}

/// The rules of a `.gitignore` file's text, in file order.
pub open spec fn rules_of_text(pieces: Seq<Seq<char>>) -> Seq<Seq<char>>
    decreases pieces.len(),
{
    if pieces.len() == 0 {
        Seq::empty()
    } else {
        let rest = rules_of_text(pieces.drop_first());
        match parse_rule_spec(pieces[0]) {
            Some((p, _, _, _)) => seq![p] + rest,
            None => rest,
        }
    }
}

/// Parses the rules of a `.gitignore` file's contents, scoped to
/// `base_archive_path`.
pub fn parse_gitignore_rules(contents: &str, base_archive_path: &str) -> (r: Vec<GitignoreRule>)
    ensures
        r@.map_values(|rule: GitignoreRule| rule.pattern@) == rules_of_text(newline_pieces(contents@)),
        forall|i: int| 0 <= i < r@.len() ==> (#[trigger] r@[i]).base_archive_path@ == base_archive_path@,
{
    let chars = chars_of(contents);
    let mut rules: Vec<GitignoreRule> = Vec::new();
    let mut start: usize = 0;
    assert(chars@.subrange(0, chars@.len() as int) =~= chars@);
    while start < chars.len()
        invariant
            start <= chars@.len(),
            chars@ == contents@,
            rules_of_text(newline_pieces(contents@)) == rules@.map_values(|rule: GitignoreRule| rule.pattern@) + rules_of_text(
                newline_pieces(chars@.subrange(start as int, chars@.len() as int)),
            ),
            forall|i: int| 0 <= i < rules@.len() ==> (#[trigger] rules@[i]).base_archive_path@ == base_archive_path@,
        decreases chars@.len() - start,
    {
        let rest = slice_chars(&chars, start, chars.len());
        let ghost before = rules@.map_values(|rule: GitignoreRule| rule.pattern@);
        proof {
            lemma_first_index_of(rest@, '\n');
        }
        let (piece, next) = match find_char(&rest, '\n') {
            Some(i) => (slice_chars(&rest, 0, i), start + i + 1),
            None => (rest.clone(), chars.len()),
        };
        proof {
            match first_index_of(rest@, '\n') {
                Some(i) => {
                    assert(rest@.subrange(i + 1, rest@.len() as int) =~= chars@.subrange(next as int, chars@.len() as int));
                    assert(newline_pieces(rest@) == seq![piece@] + newline_pieces(chars@.subrange(next as int, chars@.len() as int)));
                },
                None => {
                    assert(chars@.subrange(next as int, chars@.len() as int) =~= Seq::<char>::empty());
                    assert(newline_pieces(rest@) == seq![piece@]);
                    assert(seq![piece@] =~= seq![piece@] + newline_pieces(Seq::<char>::empty()));
                },
            }
            let pieces = newline_pieces(rest@);
            assert(pieces[0] == piece@);
            assert(pieces.drop_first() =~= newline_pieces(chars@.subrange(next as int, chars@.len() as int)));
        }
        let piece_str = string_from_chars(&piece);
        match parse_gitignore_rule(piece_str.as_str(), base_archive_path) {
            Some(rule) => {
                rules.push(rule);
                proof {
                    let tail = rules_of_text(newline_pieces(chars@.subrange(next as int, chars@.len() as int)));
                    assert(rules@.map_values(|rule: GitignoreRule| rule.pattern@) =~= before.push(rule.pattern@));
                    assert(before + (seq![rule.pattern@] + tail) =~= before.push(rule.pattern@) + tail);
                }
            },
            None => {},
        }
        start = next;
    }
    proof {
        assert(chars@.subrange(start as int, chars@.len() as int) =~= Seq::<char>::empty());
        assert(rules@.map_values(|rule: GitignoreRule| rule.pattern@) + Seq::<Seq<char>>::empty() =~= rules@.map_values(
            |rule: GitignoreRule| rule.pattern@,
        ));
    }
    rules
}

/// The decision of the last rule matching `archive_path`: whether it
/// ignores, and its index.
pub open spec fn decision_spec(archive_path: Seq<u8>, file_type: ManifestFileType, rules: Seq<GitignoreRule>) -> Option<(bool, usize)>
    decreases rules.len(),
{
    if rules.len() == 0 {
        None
    } else if rules.last().matches_spec(archive_path, file_type) {
        Some((rules.last().polarity == GitignorePolarity::Ignore, (rules.len() - 1) as usize))
    } else {
        decision_spec(archive_path, file_type, rules.drop_last())
    }
}

/// The last rule that matches `archive_path` decides: `(ignored, rule index)`.
pub fn gitignore_decision(archive_path: &str, file_type: ManifestFileType, rules: &[GitignoreRule]) -> (r: Option<(bool, usize)>)
    ensures
        r == decision_spec(archive_path.spec_bytes(), file_type, rules@),
{
    let mut i = rules.len();
    assert(rules@.subrange(0, rules@.len() as int) =~= rules@);
    while i > 0
        invariant
            i <= rules@.len(),
            decision_spec(archive_path.spec_bytes(), file_type, rules@.subrange(0, i as int)) == decision_spec(
                archive_path.spec_bytes(),
                file_type,
                rules@,
            ),
        decreases i,
    {
        let ghost prefix = rules@.subrange(0, i as int);
        assert(prefix.last() == rules@[i - 1]);
        assert(prefix.drop_last() =~= rules@.subrange(0, i - 1));
        if rules[i - 1].matches(archive_path, file_type) {
            return Some((rules[i - 1].polarity == GitignorePolarity::Ignore, i - 1));
        }
        i -= 1;
    }
    None
}

/// Some rule after `rule_index` might re-include something below
/// `archive_path`.
pub fn gitignore_has_later_negated_descendant(archive_path: &str, rules: &[GitignoreRule], rule_index: usize) -> (r: bool)
    ensures
        r == exists|i: int|
            rule_index < i < rules@.len() && (#[trigger] rules@[i]).could_include_below_spec(archive_path.spec_bytes()),
{
    let start = if rule_index == usize::MAX {
        usize::MAX
    } else {
        rule_index + 1
    };
    let mut i = start;
    while i < rules.len()
        invariant
            start <= i,
            start == (if rule_index == usize::MAX { usize::MAX } else { (rule_index + 1) as usize }),
            forall|j: int| rule_index < j < i ==> !(#[trigger] rules@[j]).could_include_below_spec(archive_path.spec_bytes()),
        decreases rules@.len() - i,
    {
        if rules[i].could_include_below(archive_path) {
            return true;
        }
        i += 1;
    }
    false
}

/// The last matching rule decides: when rule `j` matches the path and no
/// later rule does, the decision is rule `j`'s polarity and index, whatever
/// earlier rules say; when no rule matches, there is no decision.
pub proof fn lemma_last_matching_rule_decides(
    archive_path: Seq<u8>,
    file_type: ManifestFileType,
    rules: Seq<GitignoreRule>,
    j: int,
)
    requires
        rules.len() <= usize::MAX,
        0 <= j < rules.len(),
        rules[j].matches_spec(archive_path, file_type),
        forall|k: int| j < k < rules.len() ==> !(#[trigger] rules[k]).matches_spec(archive_path, file_type),
    ensures
        decision_spec(archive_path, file_type, rules) == Some((rules[j].polarity == GitignorePolarity::Ignore, j as usize)),
    decreases rules.len(),
{
    if j < rules.len() - 1 {
        let rest = rules.drop_last();
        assert(!rules[rules.len() - 1].matches_spec(archive_path, file_type));
        assert forall|k: int| j < k < rest.len() implies !(#[trigger] rest[k]).matches_spec(archive_path, file_type) by {
            assert(rest[k] == rules[k]);
        }
        assert(rest[j] == rules[j]);
        lemma_last_matching_rule_decides(archive_path, file_type, rest, j);
    }
}

/// A path that no rule matches gets no decision.
pub proof fn lemma_unmatched_path_is_undecided(archive_path: Seq<u8>, file_type: ManifestFileType, rules: Seq<GitignoreRule>)
    requires
        forall|k: int| 0 <= k < rules.len() ==> !(#[trigger] rules[k]).matches_spec(archive_path, file_type),
    ensures
        decision_spec(archive_path, file_type, rules) is None,
    decreases rules.len(),
{
    if rules.len() > 0 {
        let rest = rules.drop_last();
        assert(!rules[rules.len() - 1].matches_spec(archive_path, file_type));
        assert forall|k: int| 0 <= k < rest.len() implies !(#[trigger] rest[k]).matches_spec(archive_path, file_type) by {
            assert(rest[k] == rules[k]);
        }
        lemma_unmatched_path_is_undecided(archive_path, file_type, rest);
    }
}

} // verus!
