//! Owned archive source descriptors, their metadata fingerprints and length
//! hints, and split-ZIP discovery.
//!
//! What the file system reports about each path (existence, identity,
//! length, modification time) is gathered by the caller, in the order given
//! by [`ArchiveSource::paths_with_additional`], and handed in as
//! [`PathStat`] values.
use crate::paths::{file_name_of, file_name_spec};
use crate::text::str_eq;
use vstd::prelude::*;

verus! {

/// Access capabilities supported by an archive source.
#[derive(Debug, Clone, Copy, PartialEq, Eq, Hash, Structural)]
pub enum SourceAccess {
    /// Source is seekable (supports random access and position rewind).
    Seekable,
    /// Source is sequential-only (stream cannot seek backwards).
    SequentialOnly,
    /// Source consists of an ordered set of volume files.
    MultiVolumeSet,
}

/// Provenance of an engine-owned archive source.
#[derive(Debug, Clone, Copy, PartialEq, Eq, Hash, Structural)]
pub enum SourceProvenance {
    /// A caller supplied one path and the engine owns its reopenable file source.
    Path,
    /// A caller supplied an ordered set of physical volume paths.
    ExplicitVolumeSet,
}

/// Owned archive source description.
#[derive(Debug, Clone)]
pub enum ArchiveSource {
    /// Single archive file path.
    Path(String),
    /// Explicit ordered multi-volume file set.
    VolumeSet(Vec<String>),
}

/// The paths a source owns, in order.
pub open spec fn source_paths(source: ArchiveSource) -> Seq<Seq<char>> {
    match source {
        ArchiveSource::Path(p) => seq![p@],
        ArchiveSource::VolumeSet(v) => v@.map_values(|s: String| s@),
    }
}

/// The primary path: the single path, or the last volume (empty for an
/// empty volume set).
pub open spec fn source_primary(source: ArchiveSource) -> Seq<char> {
    match source {
        ArchiveSource::Path(p) => p@,
        ArchiveSource::VolumeSet(v) => if v@.len() > 0 {
            v@.last()@
        } else {
            Seq::empty()
        },
    }
}

/// `base` followed by each path of `extra` not already present, in order.
pub open spec fn append_new(base: Seq<Seq<char>>, extra: Seq<Seq<char>>) -> Seq<Seq<char>>
    decreases extra.len(),
{
    if extra.len() == 0 {
        base
    } else {
        let prefix = append_new(base, extra.drop_last());
        if prefix.contains(extra.last()) {
            prefix
        } else {
            prefix.push(extra.last())
        }
    }
}

/// What the file system reported for one path.
#[derive(Debug, Clone)]
pub enum PathStat {
    /// The path exists.
    Present {
        /// Device and inode (or volume and file index) where the platform
        /// exposes them.
        identity: Option<(u64, u64)>,
        /// Length in bytes.
        length: u64,
        /// Modification time in nanoseconds since the Unix epoch, when known.
        modified: Option<i128>,
    },
    /// The path does not exist.
    Missing,
    /// Reading the metadata failed for another reason.
    Failed {
        /// The failure's description.
        message: String,
    },
}

/// A failure to gather what a fingerprint or length hint needs.
#[derive(Debug, Clone)]
pub enum SourceIoError {
    /// Reading the metadata of `path` failed.
    Failed { path: String, message: String },
    /// The lengths add up past the range of `u64`.
    LengthOverflow,
}

/// The metadata snapshot of one source path.
#[derive(Debug, Clone)]
pub struct SourceFileFingerprint {
    pub path: String,
    pub exists: bool,
    pub identity: Option<(u64, u64)>,
    pub length: Option<u64>,
    pub modified: Option<i128>,
}

/// A snapshot of the file metadata that backs an opened archive source.
///
/// The engine uses this value to reject stale entry identities before an
/// operation can be dispatched to an adapter.
#[derive(Debug, Clone)]
pub struct SourceFingerprint {
    pub files: Vec<SourceFileFingerprint>,
}

/// The fingerprint record of `path` given its metadata, if it could be read.
pub open spec fn file_fingerprint_ok(path: Seq<char>, stat: PathStat, f: SourceFileFingerprint) -> bool {
    &&& f.path@ == path
    &&& match stat {
        PathStat::Present { identity, length, modified } => f.exists && f.identity == identity && f.length == Some(
            length,
        ) && f.modified == modified,
        PathStat::Missing => !f.exists && f.identity is None && f.length is None && f.modified is None,
        PathStat::Failed { .. } => false,
    }
}

/// Position of the first path whose metadata could not be read.
pub open spec fn first_failure(stats: Seq<PathStat>) -> Option<int>
    decreases stats.len(),
{
    if stats.len() == 0 {
        None
    } else {
        match first_failure(stats.drop_last()) {
            Some(i) => Some(i),
            None => if stats.last() is Failed {
                Some(stats.len() - 1)
            } else {
                None
            },
        }
    }
}

/// The length-hint walk over `paths` from position `k` with `acc` bytes so
/// far: `None` at the first missing path (except a missing logical base of a
/// format-owned volume set), an error at the first unreadable path or on
/// overflow, and the total otherwise.
pub open spec fn length_walk(
    primary: Option<Seq<char>>,
    has_additional: bool,
    paths: Seq<Seq<char>>,
    stats: Seq<PathStat>,
    k: int,
    acc: int,
) -> Option<Option<int>>
    decreases paths.len() - k,
{
    if k < 0 || k >= paths.len() || k >= stats.len() {
        Some(Some(acc))
    } else {
        match stats[k] {
            PathStat::Missing => if primary == Some(paths[k]) && has_additional {
                length_walk(primary, has_additional, paths, stats, k + 1, acc)
            } else {
                Some(None)
            },
            PathStat::Failed { .. } => None,
            PathStat::Present { length, .. } => if acc + length > u64::MAX {
                None
            } else {
                length_walk(primary, has_additional, paths, stats, k + 1, acc + length)
            },
        }
    }
}

impl ArchiveSource {
    /// Returns the explicitly owned paths that make up this source.
    pub fn paths(&self) -> (r: Vec<String>)
        ensures
            r@.map_values(|s: String| s@) == source_paths(*self),
    {
        match self {
            ArchiveSource::Path(p) => {
                let mut v: Vec<String> = Vec::new();
                v.push(p.clone());
                assert(v@.map_values(|s: String| s@) =~= seq![p@]);
                v
            },
            ArchiveSource::VolumeSet(volumes) => {
                let mut v: Vec<String> = Vec::new();
                let mut i: usize = 0;
                while i < volumes.len()
                    invariant
                        i <= volumes@.len(),
                        v@.len() == i,
                        forall|j: int| 0 <= j < i ==> v@[j] == volumes@[j],
                    decreases volumes@.len() - i,
                {
                    v.push(volumes[i].clone());
                    i += 1;
                }
                assert(v@.map_values(|s: String| s@) =~= volumes@.map_values(|s: String| s@));
                v
            },
        }
    }

    /// The owned paths followed by each of `additional` not already among
    /// them: the paths a fingerprint or length hint covers.
    pub fn paths_with_additional(&self, additional: &[String]) -> (r: Vec<String>)
        ensures
            r@.map_values(|s: String| s@) == append_new(source_paths(*self), additional@.map_values(|s: String| s@)),
    {
        let mut paths = self.paths();
        let ghost base = source_paths(*self);
        let mut i: usize = 0;
        while i < additional.len()
            invariant
                i <= additional@.len(),
                paths@.map_values(|s: String| s@) == append_new(base, additional@.map_values(|s: String| s@).take(i as int)),
            decreases additional@.len() - i,
        {
            let ghost extra = additional@.map_values(|s: String| s@);
            assert(extra.take(i as int + 1).drop_last() =~= extra.take(i as int));
            let present = contains_path(&paths, additional[i].as_str());
            if !present {
                paths.push(additional[i].clone());
                assert(paths@.map_values(|s: String| s@) =~= append_new(base, extra.take(i as int)).push(extra[i as int]));
            }
            i += 1;
        }
        assert(additional@.map_values(|s: String| s@).take(i as int) =~= additional@.map_values(|s: String| s@));
        paths
    }

    /// Captures the metadata of every owned path; `stats[i]` is what the file
    /// system reported for the `i`-th path of [`ArchiveSource::paths`].
    pub fn fingerprint(&self, stats: &[PathStat]) -> (r: Result<SourceFingerprint, SourceIoError>)
        requires
            stats@.len() == source_paths(*self).len(),
        ensures
            match first_failure(stats@) {
                Some(i) => r matches Err(SourceIoError::Failed { path, .. }) && path@ == source_paths(*self)[i],
                None => r matches Ok(f) && f.files@.len() == stats@.len() && forall|i: int|
                    0 <= i < stats@.len() ==> file_fingerprint_ok(source_paths(*self)[i], stats@[i], #[trigger] f.files@[i]),
            },
    {
        let paths = self.paths();
        proof {
            assert forall|i: int| 0 <= i < paths@.len() implies paths@[i]@ == source_paths(*self)[i] by {
                assert(paths@.map_values(|s: String| s@)[i] == paths@[i]@);
            }
            lemma_first_failure_bound(stats@);
        }
        let r = fingerprint_of(&paths, stats);
        proof {
            if r is Ok {
                let f = r->Ok_0;
                assert forall|i: int| 0 <= i < stats@.len() implies file_fingerprint_ok(
                    source_paths(*self)[i],
                    stats@[i],
                    #[trigger] f.files@[i],
                ) by {
                    assert(paths@[i]@ == source_paths(*self)[i]);
                }
            }
        }
        r
    }

    /// Captures the metadata of the owned paths and of the format-owned
    /// `additional` paths, in the order of
    /// [`ArchiveSource::paths_with_additional`].
    pub fn fingerprint_with_additional_paths(&self, additional: &[String], stats: &[PathStat]) -> (r: Result<
        SourceFingerprint,
        SourceIoError,
    >)
        requires
            stats@.len() == append_new(source_paths(*self), additional@.map_values(|s: String| s@)).len(),
        ensures
            ({
                let paths = append_new(source_paths(*self), additional@.map_values(|s: String| s@));
                match first_failure(stats@) {
                    Some(i) => r matches Err(SourceIoError::Failed { path, .. }) && path@ == paths[i],
                    None => r matches Ok(f) && f.files@.len() == stats@.len() && forall|i: int|
                        0 <= i < stats@.len() ==> file_fingerprint_ok(paths[i], stats@[i], #[trigger] f.files@[i]),
                }
            }),
    {
        let paths = self.paths_with_additional(additional);
        let ghost all = append_new(source_paths(*self), additional@.map_values(|s: String| s@));
        proof {
            assert forall|i: int| 0 <= i < paths@.len() implies paths@[i]@ == all[i] by {
                assert(paths@.map_values(|s: String| s@)[i] == paths@[i]@);
            }
            lemma_first_failure_bound(stats@);
        }
        let r = fingerprint_of(&paths, stats);
        proof {
            if r is Ok {
                let f = r->Ok_0;
                assert forall|i: int| 0 <= i < stats@.len() implies file_fingerprint_ok(all[i], stats@[i], #[trigger] f.files@[i]) by {
                    assert(paths@[i]@ == all[i]);
                }
            }
        }
        r
    }

    /// Returns the primary path associated with this source.
    pub fn primary_path(&self) -> (r: &str)
        ensures
            r@ == source_primary(*self),
    {
        match self {
            ArchiveSource::Path(p) => p.as_str(),
            ArchiveSource::VolumeSet(v) => {
                if v.len() > 0 {
                    v[v.len() - 1].as_str()
                } else {
                    let empty = "";
                    proof {
                        reveal_strlit("");
                    }
                    empty
                }
            },
        }
    }

    /// An owned copy of the primary path.
    pub fn primary_path_string(&self) -> (r: String)
        ensures
            r@ == source_primary(*self),
    {
        match self {
            ArchiveSource::Path(p) => p.clone(),
            ArchiveSource::VolumeSet(v) => {
                if v.len() > 0 {
                    v[v.len() - 1].clone()
                } else {
                    String::new()
                }
            },
        }
    }

    /// Returns the source access capability.
    pub fn access_capability(&self) -> (r: SourceAccess)
        ensures
            r == (match *self {
                ArchiveSource::Path(_) => SourceAccess::Seekable,
                ArchiveSource::VolumeSet(_) => SourceAccess::MultiVolumeSet,
            }),
    {
        match self {
            ArchiveSource::Path(_) => SourceAccess::Seekable,
            ArchiveSource::VolumeSet(_) => SourceAccess::MultiVolumeSet,
        }
    }

    /// Returns how the caller supplied this source.
    pub fn provenance(&self) -> (r: SourceProvenance)
        ensures
            r == (match *self {
                ArchiveSource::Path(_) => SourceProvenance::Path,
                ArchiveSource::VolumeSet(_) => SourceProvenance::ExplicitVolumeSet,
            }),
    {
        match self {
            ArchiveSource::Path(_) => SourceProvenance::Path,
            ArchiveSource::VolumeSet(_) => SourceProvenance::ExplicitVolumeSet,
        }
    }

    /// Returns a display-name hint: the file name of the primary path.
    pub fn name_hint(&self) -> (r: Option<String>)
        ensures
            match r {
                Some(s) => file_name_spec(source_primary(*self)) == Some(s@),
                None => file_name_spec(source_primary(*self)) is None,
            },
    {
        file_name_of(self.primary_path())
    }

    /// Aggregate byte length of the owned paths when every one of them
    /// exists; `stats[i]` is what the file system reported for the `i`-th
    /// path of [`ArchiveSource::paths`].
    pub fn length_hint(&self, stats: &[PathStat]) -> (r: Result<Option<u64>, SourceIoError>)
        requires
            stats@.len() == source_paths(*self).len(),
        ensures
            length_hint_holds(*self, false, source_paths(*self), stats@, r),
    {
        let paths = self.paths();
        self.length_of(&paths, false, stats)
    }

    /// Aggregate byte length of the owned paths and the format-owned
    /// `additional` paths, in the order of
    /// [`ArchiveSource::paths_with_additional`]. A single-path source whose
    /// own path is missing still counts its discovered siblings.
    pub fn length_hint_with_additional_paths(&self, additional: &[String], stats: &[PathStat]) -> (r: Result<
        Option<u64>,
        SourceIoError,
    >)
        requires
            stats@.len() == append_new(source_paths(*self), additional@.map_values(|s: String| s@)).len(),
        ensures
            length_hint_holds(
                *self,
                additional@.len() > 0,
                append_new(source_paths(*self), additional@.map_values(|s: String| s@)),
                stats@,
                r,
            ),
    {
        let paths = self.paths_with_additional(additional);
        self.length_of(&paths, additional.len() > 0, stats)
    }

    fn length_of(&self, paths: &Vec<String>, has_additional: bool, stats: &[PathStat]) -> (r: Result<Option<u64>, SourceIoError>)
        requires
            stats@.len() == paths@.len(),
        ensures
            length_hint_holds(*self, has_additional, paths@.map_values(|s: String| s@), stats@, r),
    {
        let ghost ps = paths@.map_values(|s: String| s@);
        let ghost primary = source_single_path(*self);
        if paths.len() == 0 {
            return Ok(None);
        }
        let mut length: u64 = 0;
        let mut i: usize = 0;
        while i < paths.len()
            invariant
                i <= paths@.len(),
                stats@.len() == paths@.len(),
                ps == paths@.map_values(|s: String| s@),
                primary == source_single_path(*self),
                paths@.len() > 0,
                length_walk(primary, has_additional, ps, stats@, 0, 0) == length_walk(
                    primary,
                    has_additional,
                    ps,
                    stats@,
                    i as int,
                    length as int,
                ),
            decreases paths@.len() - i,
        {
            assert(ps[i as int] == paths@[i as int]@);
            match &stats[i] {
                PathStat::Missing => {
                    let logical_base = match self {
                        ArchiveSource::Path(p) => has_additional && str_eq(p.as_str(), paths[i].as_str()),
                        ArchiveSource::VolumeSet(_) => false,
                    };
                    if !logical_base {
                        return Ok(None);
                    }
                },
                PathStat::Failed { message } => {
                    return Err(SourceIoError::Failed { path: paths[i].clone(), message: message.clone() });
                },
                PathStat::Present { length: l, .. } => {
                    match length.checked_add(*l) {
                        Some(t) => {
                            length = t;
                        },
                        None => {
                            return Err(SourceIoError::LengthOverflow);
                        },
                    }
                },
            }
            i += 1;
        }
        Ok(Some(length))
    }

    /// Returns whether this source can create another independent cursor:
    /// every supported source form is path-backed and reopenable.
    pub fn is_reopenable(&self) -> (r: bool)
        ensures
            r,
    {
        true
    }
}

/// The path of a single-path source.
pub open spec fn source_single_path(source: ArchiveSource) -> Option<Seq<char>> {
    match source {
        ArchiveSource::Path(p) => Some(p@),
        ArchiveSource::VolumeSet(_) => None,
    }
}

/// `r` is the length hint of `source` over `paths` with the given metadata.
pub open spec fn length_hint_holds(
    source: ArchiveSource,
    has_additional: bool,
    paths: Seq<Seq<char>>,
    stats: Seq<PathStat>,
    r: Result<Option<u64>, SourceIoError>,
) -> bool {
    let primary = source_single_path(source);
    if paths.len() == 0 {
        r == Ok::<Option<u64>, SourceIoError>(None)
    } else {
        match length_walk(primary, has_additional, paths, stats, 0, 0) {
            Some(Some(total)) => r == Ok::<Option<u64>, SourceIoError>(Some(total as u64)),
            Some(None) => r == Ok::<Option<u64>, SourceIoError>(None),
            None => r is Err,
        }
    }
}

fn contains_path(paths: &Vec<String>, path: &str) -> (r: bool)
    ensures
        r == paths@.map_values(|s: String| s@).contains(path@),
{
    let ghost ps = paths@.map_values(|s: String| s@);
    let mut i: usize = 0;
    while i < paths.len()
        invariant
            i <= paths@.len(),
            ps == paths@.map_values(|s: String| s@),
            forall|j: int| 0 <= j < i ==> ps[j] != path@,
        decreases paths@.len() - i,
    {
        if str_eq(paths[i].as_str(), path) {
            assert(ps[i as int] == path@);
            return true;
        }
        i += 1;
    }
    false
}

fn fingerprint_of(paths: &Vec<String>, stats: &[PathStat]) -> (r: Result<SourceFingerprint, SourceIoError>)
    requires
        stats@.len() == paths@.len(),
    ensures
        match first_failure(stats@) {
            Some(i) => r matches Err(SourceIoError::Failed { path, .. }) && path@ == paths@[i]@,
            None => r matches Ok(f) && f.files@.len() == stats@.len() && forall|i: int|
                0 <= i < stats@.len() ==> file_fingerprint_ok(paths@[i]@, stats@[i], #[trigger] f.files@[i]),
        },
{
    let mut files: Vec<SourceFileFingerprint> = Vec::new();
    let mut i: usize = 0;
    while i < paths.len()
        invariant
            i <= paths@.len(),
            stats@.len() == paths@.len(),
            first_failure(stats@.take(i as int)) is None,
            files@.len() == i,
            forall|j: int| 0 <= j < i ==> file_fingerprint_ok(paths@[j]@, stats@[j], #[trigger] files@[j]),
        decreases paths@.len() - i,
    {
        assert(stats@.take(i as int + 1).drop_last() =~= stats@.take(i as int));
        match &stats[i] {
            PathStat::Present { identity, length, modified } => {
                files.push(
                    SourceFileFingerprint {
                        path: paths[i].clone(),
                        exists: true,
                        identity: *identity,
                        length: Some(*length),
                        modified: *modified,
                    },
                );
            },
            PathStat::Missing => {
                files.push(
                    SourceFileFingerprint { path: paths[i].clone(), exists: false, identity: None, length: None, modified: None },
                );
            },
            PathStat::Failed { message } => {
                proof {
                    lemma_first_failure_prefix(stats@, i as int + 1);
                }
                return Err(SourceIoError::Failed { path: paths[i].clone(), message: message.clone() });
            },
        }
        i += 1;
    }
    assert(stats@.take(i as int) =~= stats@);
    Ok(SourceFingerprint { files })
}

proof fn lemma_first_failure_bound(stats: Seq<PathStat>)
    ensures
        first_failure(stats) matches Some(i) ==> 0 <= i < stats.len() && stats[i] is Failed,
    decreases stats.len(),
{
    if stats.len() > 0 {
        lemma_first_failure_bound(stats.drop_last());
    }
}

proof fn lemma_first_failure_prefix(stats: Seq<PathStat>, k: int)
    requires
        0 <= k <= stats.len(),
        first_failure(stats.take(k)) is Some,
    ensures
        first_failure(stats) == first_failure(stats.take(k)),
    decreases stats.len() - k,
{
    if k < stats.len() {
        assert(stats.take(k + 1).drop_last() =~= stats.take(k));
        lemma_first_failure_prefix(stats, k + 1);
    } else {
        assert(stats.take(k) =~= stats);
    }
}

/// Whether two fingerprints record the same metadata.
pub open spec fn same_fingerprint(a: SourceFingerprint, b: SourceFingerprint) -> bool {
    &&& a.files@.len() == b.files@.len()
    &&& forall|i: int|
        0 <= i < a.files@.len() ==> {
            let x = #[trigger] a.files@[i];
            let y = b.files@[i];
            &&& x.path@ == y.path@
            &&& x.exists == y.exists
            &&& x.identity == y.identity
            &&& x.length == y.length
            &&& x.modified == y.modified
        }
}

impl SourceFingerprint {
    /// Whether `self` and `other` record the same metadata.
    pub fn same_as(&self, other: &SourceFingerprint) -> (r: bool)
        ensures
            r == same_fingerprint(*self, *other),
    {
        if self.files.len() != other.files.len() {
            return false;
        }
        let mut i: usize = 0;
        while i < self.files.len()
            invariant
                i <= self.files@.len(),
                self.files@.len() == other.files@.len(),
                forall|j: int|
                    0 <= j < i ==> {
                        let x = #[trigger] self.files@[j];
                        let y = other.files@[j];
                        &&& x.path@ == y.path@
                        &&& x.exists == y.exists
                        &&& x.identity == y.identity
                        &&& x.length == y.length
                        &&& x.modified == y.modified
                    },
            decreases self.files@.len() - i,
        {
            let x = &self.files[i];
            let y = &other.files[i];
            let same_identity = match (x.identity, y.identity) {
                (Some((a, b)), Some((c, d))) => a == c && b == d,
                (None, None) => true,
                _ => false,
            };
            let same_length = match (x.length, y.length) {
                (Some(a), Some(b)) => a == b,
                (None, None) => true,
                _ => false,
            };
            let same_modified = match (x.modified, y.modified) {
                (Some(a), Some(b)) => a == b,
                (None, None) => true,
                _ => false,
            };
            if !(str_eq(x.path.as_str(), y.path.as_str()) && x.exists == y.exists && same_identity && same_length
                && same_modified) {
                return false;
            }
            i += 1;
        }
        true
    }
}

/// `expected` records the paths of `source` with the metadata `stats`.
pub open spec fn fingerprint_matches(source: ArchiveSource, expected: SourceFingerprint, stats: Seq<PathStat>) -> bool {
    &&& expected.files@.len() == stats.len()
    &&& forall|i: int|
        0 <= i < stats.len() ==> {
            let y = #[trigger] expected.files@[i];
            &&& y.path@ == source_paths(source)[i]
            &&& match stats[i] {
                PathStat::Present { identity, length, modified } => y.exists && y.identity == identity && y.length == Some(
                    length,
                ) && y.modified == modified,
                _ => !y.exists && y.identity is None && y.length is None && y.modified is None,
            }
        }
}

/// Matching a fingerprint is fingerprinting again and comparing: a fresh
/// fingerprint of the source with the metadata `stats` records the same as
/// `expected` exactly when `expected` matches the source under `stats`.
pub proof fn lemma_matching_is_refingerprinting(
    source: ArchiveSource,
    expected: SourceFingerprint,
    stats: Seq<PathStat>,
    current: SourceFingerprint,
)
    requires
        current.files@.len() == stats.len(),
        forall|i: int| 0 <= i < stats.len() ==> file_fingerprint_ok(source_paths(source)[i], stats[i], #[trigger] current.files@[i]),
    ensures
        same_fingerprint(current, expected) <==> fingerprint_matches(source, expected, stats),
{
    if same_fingerprint(current, expected) {
        assert forall|i: int| 0 <= i < stats.len() implies {
            let y = #[trigger] expected.files@[i];
            &&& y.path@ == source_paths(source)[i]
            &&& match stats[i] {
                PathStat::Present { identity, length, modified } => y.exists && y.identity == identity && y.length == Some(
                    length,
                ) && y.modified == modified,
                _ => !y.exists && y.identity is None && y.length is None && y.modified is None,
            }
        } by {
            assert(file_fingerprint_ok(source_paths(source)[i], stats[i], current.files@[i]));
        }
    } else if expected.files@.len() == stats.len() {
        let i = choose|i: int| 0 <= i < current.files@.len() && !({
            let x = #[trigger] current.files@[i];
            let y = expected.files@[i];
            &&& x.path@ == y.path@
            &&& x.exists == y.exists
            &&& x.identity == y.identity
            &&& x.length == y.length
            &&& x.modified == y.modified
        });
        assert(file_fingerprint_ok(source_paths(source)[i], stats[i], current.files@[i]));
    }
}

impl ArchiveSource {
    /// Whether the owned paths still match a previously captured
    /// fingerprint, given their current metadata.
    pub fn matches_fingerprint(&self, expected: &SourceFingerprint, stats: &[PathStat]) -> (r: Result<bool, SourceIoError>)
        requires
            stats@.len() == source_paths(*self).len(),
        ensures
            match first_failure(stats@) {
                Some(_) => r is Err,
                None => r matches Ok(b) && (b <==> fingerprint_matches(*self, *expected, stats@)),
            },
            forall|f: SourceFingerprint|
                r is Ok && f.files@.len() == stats@.len() && (forall|i: int|
                    0 <= i < stats@.len() ==> file_fingerprint_ok(source_paths(*self)[i], stats@[i], #[trigger] f.files@[i]))
                    ==> (r == Ok::<bool, SourceIoError>(#[trigger] same_fingerprint(f, *expected))),
    {
        match self.fingerprint(stats) {
            Ok(current) => {
                let same = current.same_as(expected);
                proof {
                    lemma_matching_is_refingerprinting(*self, *expected, stats@, current);
                    assert forall|f: SourceFingerprint|
                        f.files@.len() == stats@.len() && (forall|i: int|
                            0 <= i < stats@.len() ==> file_fingerprint_ok(source_paths(*self)[i], stats@[i], #[trigger] f.files@[i]))
                            implies (same <==> #[trigger] same_fingerprint(f, *expected)) by {
                        lemma_matching_is_refingerprinting(*self, *expected, stats@, f);
                    }
                }
                Ok(same)
            },
            Err(e) => Err(e),
        }
    }
}

} // verus!
