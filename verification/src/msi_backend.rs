//! Windows Installer (`.msi`) manifest resolution.
//!
//! An MSI file is a Compound File Binary document holding a relational
//! database plus embedded binary streams. The `File` table declares every
//! file (key, display name, size, sequence); each file hangs off a
//! component, and the component's `Directory_` resolves where the file
//! belongs on the target; the `Media` table maps sequence ranges to embedded
//! cabinet streams. Files are stored in a cabinet under their File-table
//! key. This module resolves the table rows (read from the package by the
//! caller) into the package's file manifest and groups the files by the
//! cabinet that holds them.
use crate::text::{
    chars_of, concat_chars, find_char, first_index_of, last_index_of, lemma_first_index_of, lemma_last_index_of,
    rfind_char, slice_chars, str_eq, string_from_chars,
};
use vstd::prelude::*;

verus! {

/// Entry reported by [`list_msi`].
#[derive(Debug, Clone)]
pub struct MsiListEntry {
    /// Target-relative path inside the package.
    pub path: String,
    /// Declared uncompressed size from the `File` table.
    pub size: u64,
}

/// `.msi` extraction report.
#[derive(Debug, Clone)]
pub struct MsiExtractReport {
    /// Number of entries written.
    pub written_entries: usize,
    /// Number of entries skipped by policy.
    pub skipped_entries: usize,
    /// Number of file bytes extracted.
    pub written_bytes: u64,
    /// Non-fatal warnings.
    pub warnings: Vec<String>,
}

/// `.msi` backend error.
#[derive(Debug, Clone)]
pub enum MsiBackendError {
    /// Manifest planning failed.
    Plan(String),
    /// Filesystem I/O failed.
    Io { path: String, message: String },
    /// Extraction safety rejected an entry.
    Safety(String),
    /// The MSI database could not be parsed or queried.
    Msi(String),
    /// An embedded cabinet could not be decoded.
    Cab(String),
    /// Job was cancelled cooperatively.
    Cancelled,
}

/// The pieces of `s` between occurrences of `c` (`str::split`).
pub open spec fn split_on(s: Seq<char>, c: char) -> Seq<Seq<char>>
    decreases s.len(),
{
    match first_index_of(s, c) {
        None => seq![s],
        Some(i) => if 0 <= i < s.len() {
            seq![s.subrange(0, i)] + split_on(s.subrange(i + 1, s.len() as int), c)
        } else {
            seq![s]
        },
    }
}

pub open spec fn source_dir_word() -> Seq<char> {
    seq!['S', 'o', 'u', 'r', 'c', 'e', 'D', 'i', 'r']
}

/// The target half of a `DefaultDir` value: before the first `:`.
pub open spec fn target_half(default_dir: Seq<char>) -> Seq<char> {
    match first_index_of(default_dir, ':') {
        Some(i) => default_dir.subrange(0, i),
        None => default_dir,
    }
}

/// The long name of a `short|long` pair: after the last `|`.
pub open spec fn long_part(part: Seq<char>) -> Seq<char> {
    match last_index_of(part, '|') {
        Some(i) => part.subrange(i + 1, part.len() as int),
        None => part,
    }
}

/// Whether a name contributes a directory level.
pub open spec fn is_dir_component(part: Seq<char>) -> bool {
    part.len() > 0 && part != seq!['.'] && part != source_dir_word()
}

/// The directory names a list of `\`-separated parts contributes.
pub open spec fn dir_components_of(parts: Seq<Seq<char>>) -> Seq<Seq<char>>
    decreases parts.len(),
{
    if parts.len() == 0 {
        Seq::empty()
    } else {
        let rest = dir_components_of(parts.drop_last());
        let part = long_part(parts.last());
        if is_dir_component(part) {
            rest.push(part)
        } else {
            rest
        }
    }
}

/// The target-side names a `Directory.DefaultDir` contributes to a path:
/// the target half of `[target]:[source]`, split at `\` into nested names,
/// each `short|long` pair giving its long name; `.` (the directory lives in
/// its parent), `SourceDir` (the conventional root) and empty names
/// contribute nothing.
pub open spec fn target_dir_components_spec(default_dir: Seq<char>) -> Seq<Seq<char>> {
    dir_components_of(split_on(target_half(default_dir), '\\'))
}

/// The display leaf of a `File.FileName`: the long name after the first
/// `|`, or the short name before it when the long half is empty, or the
/// whole name without `|`; an empty leaf is none.
pub open spec fn target_file_leaf_spec(file_name: Seq<char>) -> Option<Seq<char>> {
    let leaf = match first_index_of(file_name, '|') {
        Some(i) => if file_name.subrange(i + 1, file_name.len() as int).len() > 0 {
            file_name.subrange(i + 1, file_name.len() as int)
        } else {
            file_name.subrange(0, i)
        },
        None => file_name,
    };
    if leaf.len() == 0 {
        None
    } else {
        Some(leaf)
    }
}

fn split_chars(s: &[char], c: char) -> (r: Vec<Vec<char>>)
    ensures
        r@.map_values(|v: Vec<char>| v@) == split_on(s@, c),
    decreases s@.len(),
{
    proof {
        lemma_first_index_of(s@, c);
    }
    match find_char(s, c) {
        None => {
            let mut r: Vec<Vec<char>> = Vec::new();
            r.push(slice_chars(s, 0, s.len()));
            assert(s@.subrange(0, s@.len() as int) =~= s@);
            assert(r@.map_values(|v: Vec<char>| v@) =~= seq![s@]);
            r
        },
        Some(i) => {
            let head = slice_chars(s, 0, i);
            let tail = slice_chars(s, i + 1, s.len());
            let rest = split_chars(&tail, c);
            let mut r: Vec<Vec<char>> = Vec::new();
            r.push(head);
            let mut k: usize = 0;
            while k < rest.len()
                invariant
                    k <= rest@.len(),
                    r@.len() == k + 1,
                    r@[0]@ == s@.subrange(0, i as int),
                    forall|j: int| 0 <= j < k ==> (#[trigger] r@[j + 1])@ == rest@[j]@,
                decreases rest@.len() - k,
            {
                r.push(slice_chars(&rest[k], 0, rest[k].len()));
                assert(rest@[k as int]@.subrange(0, rest@[k as int]@.len() as int) =~= rest@[k as int]@);
                k += 1;
            }
            proof {
                let rv = r@.map_values(|v: Vec<char>| v@);
                let target = seq![s@.subrange(0, i as int)] + rest@.map_values(|v: Vec<char>| v@);
                assert forall|j: int| 0 <= j < rv.len() implies #[trigger] rv[j] == target[j] by {
                    if j > 0 {
                        assert(r@[(j - 1) + 1]@ == rest@[j - 1]@);
                    }
                }
                assert(rv =~= target);
            }
            r
        },
    }
}

fn is_source_dir(part: &[char]) -> (r: bool)
    ensures
        r == (part@ == source_dir_word()),
{
    let word: Vec<char> = vec!['S', 'o', 'u', 'r', 'c', 'e', 'D', 'i', 'r'];
    assert(word@ =~= source_dir_word());
    crate::text::chars_eq(part, &word)
}

/// The target-side names a `Directory.DefaultDir` contributes to a path.
pub fn target_dir_components(default_dir: &str) -> (r: Vec<String>)
    ensures
        r@.map_values(|s: String| s@) == target_dir_components_spec(default_dir@),
{
    let chars = chars_of(default_dir);
    proof {
        lemma_first_index_of(chars@, ':');
    }
    let half = match find_char(&chars, ':') {
        Some(i) => slice_chars(&chars, 0, i),
        None => slice_chars(&chars, 0, chars.len()),
    };
    assert(chars@.subrange(0, chars@.len() as int) =~= chars@);
    let parts = split_chars(&half, '\\');
    let ghost pv = parts@.map_values(|v: Vec<char>| v@);
    let mut components: Vec<String> = Vec::new();
    let mut k: usize = 0;
    while k < parts.len()
        invariant
            k <= parts@.len(),
            pv == parts@.map_values(|v: Vec<char>| v@),
            components@.map_values(|s: String| s@) == dir_components_of(pv.take(k as int)),
        decreases parts@.len() - k,
    {
        let part = &parts[k];
        proof {
            lemma_last_index_of(part@, '|');
        }
        let long = match rfind_char(part, '|') {
            Some(i) => slice_chars(part, i + 1, part.len()),
            None => slice_chars(part, 0, part.len()),
        };
        assert(part@.subrange(0, part@.len() as int) =~= part@);
        assert(long@ == long_part(pv[k as int]));
        assert(pv.take(k as int + 1).drop_last() =~= pv.take(k as int));
        if long.len() > 0 && !(long.len() == 1 && long[0] == '.') && !is_source_dir(&long) {
            proof {
                assert(long@ != seq!['.']) by {
                    if long@ == seq!['.'] {
                        assert(long@.len() == 1 && long@[0] == '.');
                    }
                }
            }
            let ghost before = components@.map_values(|s: String| s@);
            components.push(string_from_chars(&long));
            assert(components@.map_values(|s: String| s@) =~= before.push(long@));
        } else {
            proof {
                if long@.len() == 1 && long@[0] == '.' {
                    assert(long@ =~= seq!['.']);
                }
            }
        }
        k += 1;
    }
    assert(pv.take(k as int) =~= pv);
    components
}

/// The display leaf of a `File.FileName`.
pub fn target_file_leaf(file_name: &str) -> (r: Option<String>)
    ensures
        match r {
            Some(s) => target_file_leaf_spec(file_name@) == Some(s@),
            None => target_file_leaf_spec(file_name@) is None,
        },
{
    let chars = chars_of(file_name);
    proof {
        lemma_first_index_of(chars@, '|');
    }
    let leaf = match find_char(&chars, '|') {
        Some(i) => {
            assert(i < chars@.len());
            let long = slice_chars(&chars, i + 1, chars.len());
            if long.len() > 0 {
                long
            } else {
                slice_chars(&chars, 0, i)
            }
        },
        None => slice_chars(&chars, 0, chars.len()),
    };
    assert(chars@.subrange(0, chars@.len() as int) =~= chars@);
    if leaf.len() == 0 {
        None
    } else {
        Some(string_from_chars(&leaf))
    }
}

} // verus!

verus! {

/// A `Directory` table row: id, parent id (none for a root), `DefaultDir`.
#[derive(Debug, Clone)]
pub struct DirectoryRow {
    pub id: String,
    pub parent: Option<String>,
    pub default_dir: String,
}

/// A `Component` table row: component id and its directory id.
#[derive(Debug, Clone)]
pub struct ComponentRow {
    pub component: String,
    pub directory: String,
}

/// A `Media` table row: disk id, last file sequence covered, cabinet name
/// (`#` prefixes an embedded stream).
#[derive(Debug, Clone)]
pub struct MediaRow {
    pub disk_id: i32,
    pub last_sequence: u32,
    pub cabinet: String,
}

/// A `File` table row: key (none when unreadable), component, file name,
/// declared size, sequence.
#[derive(Debug, Clone)]
pub struct FileRow {
    pub file_key: Option<String>,
    pub component: String,
    pub file_name: String,
    pub file_size: u64,
    pub sequence: u32,
}

/// Position of the first directory row with id `id`.
pub open spec fn find_dir(rows: Seq<DirectoryRow>, id: Seq<char>) -> Option<int>
    decreases rows.len(),
{
    if rows.len() == 0 {
        None
    } else {
        match find_dir(rows.drop_last(), id) {
            Some(i) => Some(i),
            None => if rows.last().id@ == id {
                Some(rows.len() - 1)
            } else {
                None
            },
        }
    }
}

/// The directory names on the target from the root down to directory `id`,
/// following parents at most `fuel` levels (a parent that is empty or the
/// directory itself ends the walk).
pub open spec fn dir_components_path(rows: Seq<DirectoryRow>, id: Seq<char>, fuel: nat) -> Seq<Seq<char>>
    decreases fuel,
{
    if fuel == 0 {
        Seq::empty()
    } else {
        match find_dir(rows, id) {
            None => Seq::empty(),
            Some(i) => {
                let own = target_dir_components_spec(rows[i].default_dir@);
                match rows[i].parent {
                    Some(p) => if p@.len() > 0 && p@ != id {
                        dir_components_path(rows, p@, (fuel - 1) as nat) + own
                    } else {
                        own
                    },
                    None => own,
                }
            },
        }
    }
}

/// Names joined with `/`.
pub open spec fn join_slash(parts: Seq<Seq<char>>) -> Seq<char>
    decreases parts.len(),
{
    if parts.len() == 0 {
        Seq::empty()
    } else if parts.len() == 1 {
        parts[0]
    } else {
        join_slash(parts.drop_last()) + seq!['/'] + parts.last()
    }
}

/// The target-relative path of directory `id` (the root resolves to the
/// empty path).
pub open spec fn resolve_directory_path_spec(id: Seq<char>, rows: Seq<DirectoryRow>) -> Seq<char> {
    join_slash(dir_components_path(rows, id, (rows.len() + 1) as nat))
}

/// The levels concatenated from the last to the first.
pub open spec fn concat_rev(levels: Seq<Seq<Seq<char>>>) -> Seq<Seq<char>>
    decreases levels.len(),
{
    if levels.len() == 0 {
        Seq::empty()
    } else {
        levels.last() + concat_rev(levels.drop_last())
    }
}

fn find_directory(rows: &[DirectoryRow], id: &str) -> (r: Option<usize>)
    ensures
        match find_dir(rows@, id@) {
            Some(i) => r matches Some(k) && k as int == i,
            None => r is None,
        },
        r matches Some(i) ==> i < rows@.len(),
{
    let mut i: usize = 0;
    while i < rows.len()
        invariant
            i <= rows@.len(),
            find_dir(rows@.take(i as int), id@) is None,
        decreases rows@.len() - i,
    {
        assert(rows@.take(i as int + 1).drop_last() =~= rows@.take(i as int));
        if str_eq(rows[i].id.as_str(), id) {
            proof {
                lemma_find_dir_prefix(rows@, id@, i as int + 1);
            }
            return Some(i);
        }
        i += 1;
    }
    assert(rows@.take(i as int) =~= rows@);
    None
}

proof fn lemma_find_dir_prefix(rows: Seq<DirectoryRow>, id: Seq<char>, k: int)
    requires
        0 <= k <= rows.len(),
        find_dir(rows.take(k), id) is Some,
    ensures
        find_dir(rows, id) == find_dir(rows.take(k), id),
    decreases rows.len() - k,
{
    if k < rows.len() {
        assert(rows.take(k + 1).drop_last() =~= rows.take(k));
        lemma_find_dir_prefix(rows, id, k + 1);
    } else {
        assert(rows.take(k) =~= rows);
    }
}

fn join_names(parts: &Vec<String>) -> (r: String)
    ensures
        r@ == join_slash(parts@.map_values(|s: String| s@)),
{
    let ghost pv = parts@.map_values(|s: String| s@);
    let mut out: Vec<char> = Vec::new();
    let mut i: usize = 0;
    while i < parts.len()
        invariant
            i <= parts@.len(),
            pv == parts@.map_values(|s: String| s@),
            out@ == join_slash(pv.take(i as int)),
        decreases parts@.len() - i,
    {
        let name = chars_of(parts[i].as_str());
        assert(pv.take(i as int + 1).drop_last() =~= pv.take(i as int));
        if i == 0 {
            out = name;
            assert(pv.take(1) =~= seq![pv[0]]);
        } else {
            let slash: Vec<char> = vec!['/'];
            let with_slash = concat_chars(&out, &slash);
            out = concat_chars(&with_slash, &name);
        }
        i += 1;
    }
    assert(pv.take(i as int) =~= pv);
    string_from_chars(&out)
}

/// Resolves a `Directory`-table row id to its target-relative path (the
/// root resolves to an empty path), walking up at most one level per row to
/// the row whose parent is absent, empty or itself.
#[verifier::spinoff_prover]
#[verifier::rlimit(40)]
pub fn resolve_directory_path(id: &str, rows: &[DirectoryRow]) -> (r: String)
    ensures
        r@ == resolve_directory_path_spec(id@, rows@),
{
    let mut levels: Vec<Vec<String>> = Vec::new();
    let mut current: String = id.to_string();
    let mut hops: u128 = 0;
    let ghost total = dir_components_path(rows@, id@, (rows@.len() + 1) as nat);
    let bound = rows.len() as u128;
    assert(levels@.map_values(|l: Vec<String>| l@.map_values(|s: String| s@)) =~= Seq::<Seq<Seq<char>>>::empty());
    assert(total =~= dir_components_path(rows@, current@, (bound + 1 - hops) as nat) + concat_rev(
        levels@.map_values(|l: Vec<String>| l@.map_values(|s: String| s@)),
    ));
    while hops <= bound
        invariant_except_break
            total == dir_components_path(rows@, current@, (bound + 1 - hops) as nat) + concat_rev(
                levels@.map_values(|l: Vec<String>| l@.map_values(|s: String| s@)),
            ),
        invariant
            bound == rows@.len(),
            bound <= 0xffff_ffff_ffff_ffff,
            hops <= bound + 1,
        ensures
            total == concat_rev(levels@.map_values(|l: Vec<String>| l@.map_values(|s: String| s@))),
        decreases bound + 1 - hops,
    {
        hops += 1;
        let ghost lv = levels@.map_values(|l: Vec<String>| l@.map_values(|s: String| s@));
        let found = find_directory(rows, current.as_str());
        let index = match found {
            Some(i) => i,
            None => {
                assert(dir_components_path(rows@, current@, (bound + 2 - hops) as nat) =~= Seq::<Seq<char>>::empty());
                assert(total =~= concat_rev(lv));
                break;
            },
        };
        let row = &rows[index];
        let own = target_dir_components(row.default_dir.as_str());
        let ghost ov = own@.map_values(|s: String| s@);
        levels.push(own);
        assert(levels@.map_values(|l: Vec<String>| l@.map_values(|s: String| s@)) =~= lv.push(ov));
        assert(concat_rev(lv.push(ov)) == ov + concat_rev(lv)) by {
            assert(lv.push(ov).drop_last() =~= lv);
        }
        let ghost fuel = (bound + 2 - hops) as nat;
        assert(fuel > 0);
        assert(find_dir(rows@, current@) == Some(index as int));
        assert(ov == target_dir_components_spec(rows@[index as int].default_dir@));
        assert(dir_components_path(rows@, current@, fuel) == match rows@[index as int].parent {
            Some(p) => if p@.len() > 0 && p@ != current@ {
                dir_components_path(rows@, p@, (fuel - 1) as nat) + ov
            } else {
                ov
            },
            None => ov,
        });
        let next = match &row.parent {
            Some(p) => if !p.as_str().is_empty() && !str_eq(p.as_str(), current.as_str()) {
                Some(p.clone())
            } else {
                None
            },
            None => None,
        };
        match next {
            Some(p) => {
                assert(total == dir_components_path(rows@, p@, (bound + 1 - hops) as nat) + concat_rev(
                    lv.push(ov),
                )) by {
                    assert(dir_components_path(rows@, p@, (bound + 1 - hops) as nat) + ov + concat_rev(lv) =~= dir_components_path(
                        rows@,
                        p@,
                        (bound + 1 - hops) as nat,
                    ) + (ov + concat_rev(lv)));
                }
                current = p;
            },
            None => {
                assert(total == concat_rev(lv.push(ov)));
                break;
            },
        }
    }
    proof {
        if hops > bound {
            assert(dir_components_path(rows@, current@, 0) =~= Seq::<Seq<char>>::empty());
        }
    }
    let ghost lv = levels@.map_values(|l: Vec<String>| l@.map_values(|s: String| s@));
    let mut all: Vec<String> = Vec::new();
    let mut k = levels.len();
    assert(lv.take(k as int) =~= lv);
    assert(all@.map_values(|s: String| s@) + concat_rev(lv.take(k as int)) =~= concat_rev(lv));
    while k > 0
        invariant
            k <= levels@.len(),
            lv == levels@.map_values(|l: Vec<String>| l@.map_values(|s: String| s@)),
            all@.map_values(|s: String| s@) + concat_rev(lv.take(k as int)) == concat_rev(lv),
        decreases k,
    {
        let level = &levels[k - 1];
        let ghost before = all@.map_values(|s: String| s@);
        let mut j: usize = 0;
        while j < level.len()
            invariant
                j <= level@.len(),
                all@.map_values(|s: String| s@) == before + level@.map_values(|s: String| s@).take(j as int),
            decreases level@.len() - j,
        {
            let ghost old_all = all@;
            all.push(level[j].clone());
            assert(all@ == old_all.push(level@[j as int]));
            assert(all@.map_values(|s: String| s@) =~= old_all.map_values(|s: String| s@).push(level@[j as int]@));
            assert(level@.map_values(|s: String| s@).take(j as int + 1) =~= level@.map_values(|s: String| s@).take(
                j as int,
            ).push(level@[j as int]@));
            j += 1;
            assert(all@.map_values(|s: String| s@) =~= before + level@.map_values(|s: String| s@).take(j as int));
        }
        assert(level@.map_values(|s: String| s@).take(j as int) =~= lv[k - 1]);
        assert(lv.take(k as int).drop_last() =~= lv.take(k - 1));
        assert(concat_rev(lv.take(k as int)) == lv[k - 1] + concat_rev(lv.take(k - 1)));
        assert(before + lv[k - 1] + concat_rev(lv.take(k - 1)) =~= before + (lv[k - 1] + concat_rev(lv.take(k - 1))));
        k -= 1;
    }
    assert(lv.take(0) =~= Seq::<Seq<Seq<char>>>::empty());
    assert(all@.map_values(|s: String| s@) =~= concat_rev(lv));
    join_names(&all)
}

} // verus!

verus! {

/// The directory of component `name`: the last `Component` row for it (as
/// a map built from the rows keeps), or empty.
pub open spec fn component_directory(components: Seq<ComponentRow>, name: Seq<char>) -> Seq<char>
    decreases components.len(),
{
    if components.len() == 0 {
        Seq::empty()
    } else if components.last().component@ == name {
        components.last().directory@
    } else {
        component_directory(components.drop_last(), name)
    }
}

/// Whether media row `a` sorts before `b` by `(DiskId, LastSequence)`.
pub open spec fn media_before(a: MediaRow, b: MediaRow) -> bool {
    a.disk_id < b.disk_id || (a.disk_id == b.disk_id && a.last_sequence < b.last_sequence)
}

/// The media row whose cabinet holds file sequence `sequence`: among the
/// rows covering it, the first by `(DiskId, LastSequence)`, the earlier row
/// on a tie.
pub open spec fn covering_media(media: Seq<MediaRow>, sequence: u32) -> Option<int>
    decreases media.len(),
{
    if media.len() == 0 {
        None
    } else {
        let prev = covering_media(media.drop_last(), sequence);
        let i = media.len() - 1;
        if media[i].last_sequence < sequence {
            prev
        } else {
            match prev {
                None => Some(i),
                Some(p) => if media_before(media[i], media[p]) {
                    Some(i)
                } else {
                    Some(p)
                },
            }
        }
    }
}

/// Where a file's payload lives.
#[derive(Debug, Clone)]
pub enum CabinetRef {
    /// `Media.Cabinet` began with `#`; the remainder names the embedded
    /// compound-document stream.
    Embedded(String),
    /// The file lives in an external cabinet file, which is not opened.
    External(String),
}

/// One `File`-table row resolved into an extractable entry.
#[derive(Debug, Clone)]
pub struct MsiFileEntry {
    /// Target-relative path with `/` separators.
    pub path: String,
    /// Declared size from `File.FileSize`.
    pub size: u64,
    /// `File.File` key; the name the file is stored under in the cabinet.
    pub file_key: String,
    /// The cabinet holding this file.
    pub cabinet: CabinetRef,
}

/// The resolved manifest: the entries, the number of rows skipped, and a
/// warning for each skipped row.
#[derive(Debug, Clone)]
pub struct MsiManifest {
    pub entries: Vec<MsiFileEntry>,
    pub skipped: usize,
    pub warnings: Vec<String>,
}

/// What a `File` row turns into.
pub enum RowOutcome {
    /// The row has no readable key and is passed over.
    Ignored,
    /// The row is skipped with this warning.
    Skipped(Seq<char>),
    /// The row is listed.
    Listed { path: Seq<char>, size: u64, key: Seq<char>, embedded: bool, cabinet: Seq<char> },
}

/// The path of a file with leaf `leaf` in the directory at `dir`.
pub open spec fn file_path(dir: Seq<char>, leaf: Seq<char>) -> Seq<char> {
    if dir.len() == 0 {
        leaf
    } else {
        dir + seq!['/'] + leaf
    }
}

/// What the manifest makes of one `File` row.
pub open spec fn row_outcome(
    dirs: Seq<DirectoryRow>,
    comps: Seq<ComponentRow>,
    media: Seq<MediaRow>,
    row: FileRow,
) -> RowOutcome {
    match row.file_key {
        None => RowOutcome::Ignored,
        Some(key) => match target_file_leaf_spec(row.file_name@) {
            None => RowOutcome::Skipped("skipped "@ + key@ + ": File table has no usable file name"@),
            Some(leaf) => {
                let dir = resolve_directory_path_spec(component_directory(comps, row.component@), dirs);
                let path = file_path(dir, leaf);
                let uncovered = "skipped "@ + path + ": no cabinet covers file sequence "@
                    + crate::text::decimal_string(row.sequence as nat);
                match covering_media(media, row.sequence) {
                    None => RowOutcome::Skipped(uncovered),
                    Some(m) => {
                        let cab = media[m].cabinet@;
                        if cab.len() > 0 && cab[0] == '#' {
                            RowOutcome::Listed { path, size: row.file_size, key: key@, embedded: true, cabinet: cab.drop_first() }
                        } else if cab.len() > 0 {
                            RowOutcome::Listed { path, size: row.file_size, key: key@, embedded: false, cabinet: cab }
                        } else {
                            RowOutcome::Skipped(uncovered)
                        }
                    },
                }
            },
        },
    }
}

/// `e` is the entry of a listed row outcome.
pub open spec fn entry_matches(e: MsiFileEntry, o: RowOutcome) -> bool {
    match o {
        RowOutcome::Listed { path, size, key, embedded, cabinet } => {
            &&& e.path@ == path
            &&& e.size == size
            &&& e.file_key@ == key
            &&& match e.cabinet {
                CabinetRef::Embedded(s) => embedded && s@ == cabinet,
                CabinetRef::External(s) => !embedded && s@ == cabinet,
            }
        },
        _ => false,
    }
}

/// The listed outcomes of the rows, in order.
pub open spec fn listed_outcomes(outcomes: Seq<RowOutcome>) -> Seq<RowOutcome>
    decreases outcomes.len(),
{
    if outcomes.len() == 0 {
        Seq::empty()
    } else {
        let rest = listed_outcomes(outcomes.drop_last());
        if outcomes.last() is Listed {
            rest.push(outcomes.last())
        } else {
            rest
        }
    }
}

/// The warnings of the skipped rows, in order.
pub open spec fn skip_warnings(outcomes: Seq<RowOutcome>) -> Seq<Seq<char>>
    decreases outcomes.len(),
{
    if outcomes.len() == 0 {
        Seq::empty()
    } else {
        let rest = skip_warnings(outcomes.drop_last());
        match outcomes.last() {
            RowOutcome::Skipped(w) => rest.push(w),
            _ => rest,
        }
    }
}

/// The outcomes of all `File` rows.
pub open spec fn row_outcomes(dirs: Seq<DirectoryRow>, comps: Seq<ComponentRow>, media: Seq<MediaRow>, files: Seq<FileRow>) -> Seq<
    RowOutcome,
> {
    files.map_values(|row: FileRow| row_outcome(dirs, comps, media, row))
}

fn component_dir(components: &[ComponentRow], name: &str) -> (r: String)
    ensures
        r@ == component_directory(components@, name@),
{
    let mut k = components.len();
    assert(components@.take(k as int) =~= components@);
    while k > 0
        invariant
            k <= components@.len(),
            component_directory(components@.take(k as int), name@) == component_directory(components@, name@),
        decreases k,
    {
        assert(components@.take(k as int).drop_last() =~= components@.take(k - 1));
        assert(components@.take(k as int).last() == components@[k - 1]);
        if str_eq(components[k - 1].component.as_str(), name) {
            return components[k - 1].directory.clone();
        }
        k -= 1;
    }
    assert(components@.take(0) =~= Seq::<ComponentRow>::empty());
    String::new()
}

fn covering_media_row(media: &[MediaRow], sequence: u32) -> (r: Option<usize>)
    ensures
        match covering_media(media@, sequence) {
            Some(m) => r matches Some(k) && k as int == m,
            None => r is None,
        },
        r matches Some(k) ==> k < media@.len(),
{
    let mut best: Option<usize> = None;
    let mut i: usize = 0;
    while i < media.len()
        invariant
            i <= media@.len(),
            match covering_media(media@.take(i as int), sequence) {
                Some(m) => best matches Some(k) && k as int == m && k < i,
                None => best is None,
            },
        decreases media@.len() - i,
    {
        assert(media@.take(i as int + 1).drop_last() =~= media@.take(i as int));
        assert(media@.take(i as int + 1)[i as int] == media@[i as int]);
        let row = &media[i];
        if row.last_sequence >= sequence {
            match best {
                None => {
                    best = Some(i);
                },
                Some(p) => {
                    assert(media@.take(i as int + 1)[p as int] == media@[p as int]);
                    let earlier = &media[p];
                    if row.disk_id < earlier.disk_id || (row.disk_id == earlier.disk_id && row.last_sequence
                        < earlier.last_sequence) {
                        best = Some(i);
                    }
                },
            }
        }
        i += 1;
    }
    assert(media@.take(i as int) =~= media@);
    best
}

/// Resolves one `File` row.
fn resolve_row(dirs: &[DirectoryRow], comps: &[ComponentRow], media: &[MediaRow], row: &FileRow) -> (r: (
    Option<MsiFileEntry>,
    Option<String>,
))
    ensures
        match row_outcome(dirs@, comps@, media@, *row) {
            RowOutcome::Ignored => r.0 is None && r.1 is None,
            RowOutcome::Skipped(w) => r.0 is None && (r.1 matches Some(s) && s@ == w),
            RowOutcome::Listed { .. } => r.1 is None && (r.0 matches Some(e) && entry_matches(
                e,
                row_outcome(dirs@, comps@, media@, *row),
            )),
        },
{
    let key = match &row.file_key {
        Some(k) => k,
        None => return (None, None),
    };
    let leaf = match target_file_leaf(row.file_name.as_str()) {
        Some(l) => l,
        None => {
            let w = join3("skipped ", key.as_str(), ": File table has no usable file name", "");
            proof {
                reveal_strlit("");
                assert(w@ =~= "skipped "@ + key@ + ": File table has no usable file name"@);
            }
            return (None, Some(w));
        },
    };
    let directory = component_dir(comps, row.component.as_str());
    let dir_path = resolve_directory_path(directory.as_str(), dirs);
    let path = if dir_path.as_str().is_empty() {
        leaf
    } else {
        join3(dir_path.as_str(), "/", leaf.as_str(), "")
    };
    proof {
        reveal_strlit("/");
        reveal_strlit("");
        assert(path@ =~= file_path(dir_path@, leaf@));
    }
    let digits = crate::text::decimal_text(row.sequence as u64);
    match covering_media_row(media, row.sequence) {
        None => {
            let w = join3("skipped ", path.as_str(), ": no cabinet covers file sequence ", digits.as_str());
            (None, Some(w))
        },
        Some(m) => {
            let cab = chars_of(media[m].cabinet.as_str());
            if cab.len() > 0 && cab[0] == '#' {
                let name = slice_chars(&cab, 1, cab.len());
                assert(name@ =~= cab@.drop_first());
                (
                    Some(
                        MsiFileEntry {
                            path,
                            size: row.file_size,
                            file_key: key.clone(),
                            cabinet: CabinetRef::Embedded(string_from_chars(&name)),
                        },
                    ),
                    None,
                )
            } else if cab.len() > 0 {
                (
                    Some(
                        MsiFileEntry {
                            path,
                            size: row.file_size,
                            file_key: key.clone(),
                            cabinet: CabinetRef::External(media[m].cabinet.clone()),
                        },
                    ),
                    None,
                )
            } else {
                let w = join3("skipped ", path.as_str(), ": no cabinet covers file sequence ", digits.as_str());
                (None, Some(w))
            }
        },
    }
}

fn join3(a: &str, b: &str, c: &str, d: &str) -> (r: String)
    ensures
        r@ == a@ + b@ + c@ + d@,
{
    let x = chars_of(a);
    let y = chars_of(b);
    let z = chars_of(c);
    let w = chars_of(d);
    let xy = concat_chars(&x, &y);
    let xyz = concat_chars(&xy, &z);
    let all = concat_chars(&xyz, &w);
    string_from_chars(&all)
}

/// Resolves every `File` row to a target-relative path and the cabinet
/// that holds it, in row order. Rows without a usable file name, and rows
/// whose sequence no cabinet covers, are skipped with a warning.
pub fn read_manifest(dirs: &[DirectoryRow], comps: &[ComponentRow], media: &[MediaRow], files: &[FileRow]) -> (r: MsiManifest)
    ensures
        ({
            let outcomes = row_outcomes(dirs@, comps@, media@, files@);
            let listed = listed_outcomes(outcomes);
            &&& r.entries@.len() == listed.len()
            &&& forall|i: int| 0 <= i < listed.len() ==> entry_matches(#[trigger] r.entries@[i], listed[i])
            &&& r.warnings@.map_values(|s: String| s@) == skip_warnings(outcomes)
            &&& r.skipped == r.warnings@.len()
        }),
{
    let ghost outcomes = row_outcomes(dirs@, comps@, media@, files@);
    let mut entries: Vec<MsiFileEntry> = Vec::new();
    let mut warnings: Vec<String> = Vec::new();
    let mut i: usize = 0;
    while i < files.len()
        invariant
            i <= files@.len(),
            outcomes == row_outcomes(dirs@, comps@, media@, files@),
            entries@.len() == listed_outcomes(outcomes.take(i as int)).len(),
            forall|j: int|
                0 <= j < entries@.len() ==> entry_matches(#[trigger] entries@[j], listed_outcomes(outcomes.take(i as int))[j]),
            warnings@.map_values(|s: String| s@) == skip_warnings(outcomes.take(i as int)),
            warnings@.len() <= i,
        decreases files@.len() - i,
    {
        let ghost pre = outcomes.take(i as int);
        let ghost post = outcomes.take(i as int + 1);
        assert(post.drop_last() =~= pre);
        assert(post.last() == row_outcome(dirs@, comps@, media@, files@[i as int]));
        let ghost old_entries = entries@;
        let ghost old_warnings = warnings@.map_values(|s: String| s@);
        let (entry, warning) = resolve_row(dirs, comps, media, &files[i]);
        match entry {
            Some(e) => {
                entries.push(e);
                assert forall|j: int| 0 <= j < entries@.len() implies entry_matches(
                    #[trigger] entries@[j],
                    listed_outcomes(post)[j],
                ) by {
                    if j < old_entries.len() {
                        assert(entries@[j] == old_entries[j]);
                    }
                }
            },
            None => {},
        }
        match warning {
            Some(w) => {
                warnings.push(w);
                assert(warnings@.map_values(|s: String| s@) =~= old_warnings.push(warnings@.last()@));
            },
            None => {},
        }
        i += 1;
    }
    assert(outcomes.take(i as int) =~= outcomes);
    let skipped = warnings.len();
    MsiManifest { entries, skipped, warnings }
}

/// `e` lists the manifest entry `m`.
pub open spec fn list_entry_of(e: MsiListEntry, m: RowOutcome) -> bool {
    match m {
        RowOutcome::Listed { path, size, .. } => e.path@ == path && e.size == size,
        _ => false,
    }
}

/// Lists the files of an `.msi` package, given its `Directory`,
/// `Component`, `Media` and `File` table rows, without extracting them.
pub fn list_msi(dirs: &[DirectoryRow], comps: &[ComponentRow], media: &[MediaRow], files: &[FileRow]) -> (r: Vec<MsiListEntry>)
    ensures
        ({
            let listed = listed_outcomes(row_outcomes(dirs@, comps@, media@, files@));
            &&& r@.len() == listed.len()
            &&& forall|i: int| 0 <= i < listed.len() ==> list_entry_of(#[trigger] r@[i], listed[i])
        }),
{
    let manifest = read_manifest(dirs, comps, media, files);
    let ghost listed = listed_outcomes(row_outcomes(dirs@, comps@, media@, files@));
    let mut out: Vec<MsiListEntry> = Vec::new();
    let mut i: usize = 0;
    while i < manifest.entries.len()
        invariant
            i <= manifest.entries@.len(),
            manifest.entries@.len() == listed.len(),
            forall|j: int| 0 <= j < listed.len() ==> entry_matches(#[trigger] manifest.entries@[j], listed[j]),
            out@.len() == i,
            forall|j: int| 0 <= j < i ==> list_entry_of(#[trigger] out@[j], listed[j]),
        decreases manifest.entries@.len() - i,
    {
        let e = &manifest.entries[i];
        assert(entry_matches(manifest.entries@[i as int], listed[i as int]));
        out.push(MsiListEntry { path: e.path.clone(), size: e.size });
        i += 1;
    }
    out
}


/// The embedded cabinet stream of an entry, if its cabinet is embedded.
pub open spec fn embedded_stream(e: MsiFileEntry) -> Option<Seq<char>> {
    match e.cabinet {
        CabinetRef::Embedded(name) => Some(name@),
        CabinetRef::External(_) => None,
    }
}

/// The distinct embedded cabinet streams of `entries`, in first-seen order.
pub open spec fn stream_order(entries: Seq<MsiFileEntry>) -> Seq<Seq<char>>
    decreases entries.len(),
{
    if entries.len() == 0 {
        Seq::empty()
    } else {
        let names = stream_order(entries.drop_last());
        match embedded_stream(entries.last()) {
            Some(n) => if names.contains(n) {
                names
            } else {
                names.push(n)
            },
            None => names,
        }
    }
}

/// The positions of the entries stored in embedded stream `name`, in order.
pub open spec fn entries_in_stream(entries: Seq<MsiFileEntry>, name: Seq<char>) -> Seq<usize>
    decreases entries.len(),
{
    if entries.len() == 0 {
        Seq::empty()
    } else {
        let rest = entries_in_stream(entries.drop_last(), name);
        if embedded_stream(entries.last()) == Some(name) {
            rest.push((entries.len() - 1) as usize)
        } else {
            rest
        }
    }
}

/// The warnings for entries whose cabinet is external, in order.
pub open spec fn external_cabinet_warnings(entries: Seq<MsiFileEntry>) -> Seq<Seq<char>>
    decreases entries.len(),
{
    if entries.len() == 0 {
        Seq::empty()
    } else {
        let rest = external_cabinet_warnings(entries.drop_last());
        match entries.last().cabinet {
            CabinetRef::External(name) => rest.push(
                "skipped "@ + entries.last().path@ + ": external cabinet "@ + name@ + " is not supported"@,
            ),
            CabinetRef::Embedded(_) => rest,
        }
    }
}

proof fn lemma_unseen_stream_has_no_entries(entries: Seq<MsiFileEntry>, name: Seq<char>)
    requires
        !stream_order(entries).contains(name),
    ensures
        entries_in_stream(entries, name).len() == 0,
    decreases entries.len(),
{
    if entries.len() > 0 {
        let names = stream_order(entries.drop_last());
        let full = stream_order(entries);
        assert(full.len() >= names.len());
        assert(forall|k: int| 0 <= k < names.len() ==> full[k] == names[k]);
        if names.contains(name) {
            let k = choose|k: int| 0 <= k < names.len() && names[k] == name;
            assert(full[k] == name);
        }
        if embedded_stream(entries.last()) == Some(name) {
            assert(full[full.len() - 1] == name);
        }
        lemma_unseen_stream_has_no_entries(entries.drop_last(), name);
    }
}

/// The entries that share one embedded cabinet stream.
#[derive(Debug, Clone)]
pub struct CabinetGroup {
    pub stream_name: String,
    /// Positions in the manifest's entry list.
    pub entries: Vec<usize>,
}

/// Groups the manifest's entries by embedded cabinet stream, in first-seen
/// order so that the manifest order is kept within and across groups.
/// Entries with an external cabinet get a warning each instead.
pub fn group_by_cabinet(entries: &[MsiFileEntry]) -> (r: (Vec<CabinetGroup>, Vec<String>))
    ensures
        r.0@.len() == stream_order(entries@).len(),
        forall|g: int|
            0 <= g < r.0@.len() ==> (#[trigger] r.0@[g]).stream_name@ == stream_order(entries@)[g]
                && r.0@[g].entries@ == entries_in_stream(entries@, stream_order(entries@)[g]),
        r.1@.map_values(|w: String| w@) == external_cabinet_warnings(entries@),
{
    let mut groups: Vec<CabinetGroup> = Vec::new();
    let mut warnings: Vec<String> = Vec::new();
    let mut i: usize = 0;
    while i < entries.len()
        invariant
            i <= entries@.len(),
            groups@.len() == stream_order(entries@.take(i as int)).len(),
            forall|g: int|
                0 <= g < groups@.len() ==> (#[trigger] groups@[g]).stream_name@ == stream_order(entries@.take(i as int))[g]
                    && groups@[g].entries@ == entries_in_stream(entries@.take(i as int), stream_order(entries@.take(i as int))[g]),
            forall|a: int, b: int|
                0 <= a < b < groups@.len() ==> (#[trigger] groups@[a]).stream_name@ != (#[trigger] groups@[b]).stream_name@,
            warnings@.map_values(|w: String| w@) == external_cabinet_warnings(entries@.take(i as int)),
        decreases entries@.len() - i,
    {
        let ghost pre = entries@.take(i as int);
        let ghost post = entries@.take(i as int + 1);
        assert(post.drop_last() =~= pre);
        assert(post.last() == entries@[i as int]);
        let ghost names = stream_order(pre);
        let ghost old_groups = groups@;
        let entry = &entries[i];
        match &entry.cabinet {
            CabinetRef::External(name) => {
                let w = join3("skipped ", entry.path.as_str(), ": external cabinet ", name.as_str());
                let w = join3(w.as_str(), " is not supported", "", "");
                proof {
                    reveal_strlit("");
                }
                let ghost old_w = warnings@.map_values(|x: String| x@);
                warnings.push(w);
                assert(warnings@.map_values(|x: String| x@) =~= old_w.push(warnings@.last()@));
                assert forall|g: int| 0 <= g < groups@.len() implies (#[trigger] groups@[g]).stream_name@ == stream_order(post)[g]
                    && groups@[g].entries@ == entries_in_stream(post, stream_order(post)[g]) by {}
            },
            CabinetRef::Embedded(name) => {
                let ghost n = name@;
                assert(embedded_stream(post.last()) == Some(n));
                let mut g: usize = 0;
                let mut found: Option<usize> = None;
                while g < groups.len()
                    invariant_except_break
                        g <= groups@.len(),
                        found is None,
                        forall|h: int| 0 <= h < g ==> (#[trigger] groups@[h]).stream_name@ != n,
                    invariant
                        groups@ == old_groups,
                        n == name@,
                    ensures
                        match found {
                            Some(k) => k < groups@.len() && groups@[k as int].stream_name@ == n,
                            None => forall|h: int| 0 <= h < groups@.len() ==> (#[trigger] groups@[h]).stream_name@ != n,
                        },
                    decreases groups@.len() - g,
                {
                    if str_eq(groups[g].stream_name.as_str(), name.as_str()) {
                        found = Some(g);
                        break;
                    }
                    assert(groups@[g as int].stream_name@ != n);
                    g += 1;
                }
                match found {
                    Some(k) => {
                        assert(names[k as int] == n);
                        assert(names.contains(n));
                        assert(stream_order(post) == names);
                        let mut members = groups[k].entries.clone();
                        assert(members@ =~= old_groups[k as int].entries@);
                        members.push(i);
                        assert(members@ =~= entries_in_stream(post, n));
                        let stream_name = groups[k].stream_name.clone();
                        groups.set(k, CabinetGroup { stream_name, entries: members });
                        assert forall|h: int| 0 <= h < groups@.len() implies (#[trigger] groups@[h]).stream_name@
                            == stream_order(post)[h] && groups@[h].entries@ == entries_in_stream(post, stream_order(post)[h]) by {
                            if h != k {
                                assert(groups@[h] == old_groups[h]);
                                assert(names[h] != n);
                            }
                        }
                    },
                    None => {
                        assert(!names.contains(n)) by {
                            if names.contains(n) {
                                let h = choose|h: int| 0 <= h < names.len() && names[h] == n;
                                assert(groups@[h].stream_name@ == n);
                            }
                        }
                        assert(stream_order(post) == names.push(n));
                        proof {
                            lemma_unseen_stream_has_no_entries(pre, n);
                        }
                        let mut members: Vec<usize> = Vec::new();
                        members.push(i);
                        assert(entries_in_stream(post, n) =~= members@);
                        groups.push(CabinetGroup { stream_name: name.clone(), entries: members });
                        assert forall|h: int| 0 <= h < groups@.len() implies (#[trigger] groups@[h]).stream_name@
                            == stream_order(post)[h] && groups@[h].entries@ == entries_in_stream(post, stream_order(post)[h]) by {
                            if h < old_groups.len() {
                                assert(groups@[h] == old_groups[h]);
                                assert(names[h] != n);
                            }
                        }
                    },
                }
            },
        }
        i += 1;
    }
    assert(entries@.take(i as int) =~= entries@);
    (groups, warnings)
}

/// The warning for an entry whose cabinet stream is missing.
pub open spec fn missing_stream_warning(path: Seq<char>, stream: Seq<char>) -> Seq<char> {
    "skipped "@ + path + ": cabinet stream "@ + stream + " is missing"@
}

/// The warning for an entry its cabinet does not hold.
pub open spec fn absent_key_warning(path: Seq<char>, stream: Seq<char>) -> Seq<char> {
    "skipped "@ + path + ": not present in cabinet "@ + stream
}

/// The warning for a written file whose size differs from the declared one.
pub open spec fn size_mismatch_warning(path: Seq<char>, written: u64, declared: u64) -> Seq<char> {
    path + ": extracted "@ + crate::text::decimal_string(written as nat) + " bytes, File table declares "@
        + crate::text::decimal_string(declared as nat)
}

/// The warnings for the entries at `positions`, all in missing stream `stream`.
pub open spec fn missing_stream_warnings(entries: Seq<MsiFileEntry>, positions: Seq<usize>, stream: Seq<char>) -> Seq<Seq<char>>
    decreases positions.len(),
{
    if positions.len() == 0 {
        Seq::empty()
    } else {
        missing_stream_warnings(entries, positions.drop_last(), stream).push(
            missing_stream_warning(entries[positions.last() as int].path@, stream),
        )
    }
}

impl MsiExtractReport {
    /// The report an extraction starts from: nothing written yet, and the
    /// rows that the manifest already skipped.
    pub fn from_manifest(manifest: &MsiManifest) -> (r: MsiExtractReport)
        ensures
            r.written_entries == 0,
            r.written_bytes == 0,
            r.skipped_entries == manifest.skipped,
            r.warnings@.map_values(|w: String| w@) == manifest.warnings@.map_values(|w: String| w@),
    {
        let mut warnings: Vec<String> = Vec::new();
        let mut i: usize = 0;
        while i < manifest.warnings.len()
            invariant
                i <= manifest.warnings@.len(),
                warnings@.map_values(|w: String| w@) == manifest.warnings@.map_values(|w: String| w@).take(i as int),
            decreases manifest.warnings@.len() - i,
        {
            let w = manifest.warnings[i].as_str().to_string();
            let ghost before = warnings@.map_values(|x: String| x@);
            warnings.push(w);
            assert(warnings@.map_values(|x: String| x@) =~= before.push(manifest.warnings@[i as int]@));
            assert(manifest.warnings@.map_values(|x: String| x@).take(i as int + 1) =~= manifest.warnings@.map_values(
                |x: String| x@,
            ).take(i as int).push(manifest.warnings@[i as int]@));
            i += 1;
        }
        assert(manifest.warnings@.map_values(|x: String| x@).take(i as int) =~= manifest.warnings@.map_values(|x: String| x@));
        MsiExtractReport { written_entries: 0, skipped_entries: manifest.skipped, written_bytes: 0, warnings }
    }

    /// Counts one skipped entry and keeps its warning.
    pub fn record_skip(&mut self, warning: String)
        requires
            old(self).skipped_entries < usize::MAX,
        ensures
            final(self).skipped_entries == old(self).skipped_entries + 1,
            final(self).warnings@ == old(self).warnings@.push(warning),
            final(self).written_entries == old(self).written_entries,
            final(self).written_bytes == old(self).written_bytes,
    {
        self.skipped_entries = self.skipped_entries + 1;
        self.warnings.push(warning);
    }

    /// Skips every entry of a group whose embedded cabinet stream is not in
    /// the package.
    pub fn record_missing_stream(&mut self, entries: &[MsiFileEntry], group: &CabinetGroup)
        requires
            forall|k: int| 0 <= k < group.entries@.len() ==> (#[trigger] group.entries@[k]) < entries@.len(),
            old(self).skipped_entries + group.entries@.len() <= usize::MAX,
        ensures
            final(self).skipped_entries == old(self).skipped_entries + group.entries@.len(),
            final(self).warnings@.map_values(|w: String| w@) == old(self).warnings@.map_values(|w: String| w@)
                + missing_stream_warnings(entries@, group.entries@, group.stream_name@),
            final(self).written_entries == old(self).written_entries,
            final(self).written_bytes == old(self).written_bytes,
    {
        let ghost start = self.warnings@.map_values(|w: String| w@);
        let ghost start_skipped = self.skipped_entries;
        let mut k: usize = 0;
        while k < group.entries.len()
            invariant
                k <= group.entries@.len(),
                forall|j: int| 0 <= j < group.entries@.len() ==> (#[trigger] group.entries@[j]) < entries@.len(),
                start_skipped + group.entries@.len() <= usize::MAX,
                self.skipped_entries == start_skipped + k,
                self.written_entries == old(self).written_entries,
                self.written_bytes == old(self).written_bytes,
                self.warnings@.map_values(|w: String| w@) == start + missing_stream_warnings(
                    entries@,
                    group.entries@.take(k as int),
                    group.stream_name@,
                ),
            decreases group.entries@.len() - k,
        {
            let position = group.entries[k];
            assert(group.entries@[k as int] < entries@.len());
            let w = join3("skipped ", entries[position].path.as_str(), ": cabinet stream ", group.stream_name.as_str());
            let w = join3(w.as_str(), " is missing", "", "");
            proof {
                reveal_strlit("");
                assert(w@ =~= missing_stream_warning(entries@[position as int].path@, group.stream_name@));
            }
            let ghost before = self.warnings@.map_values(|x: String| x@);
            self.skipped_entries = self.skipped_entries + 1;
            self.warnings.push(w);
            assert(self.warnings@.map_values(|x: String| x@) =~= before.push(w@));
            assert(group.entries@.take(k as int + 1).drop_last() =~= group.entries@.take(k as int));
            k += 1;
        }
        assert(group.entries@.take(k as int) =~= group.entries@);
    }

    /// Skips an entry that its cabinet does not hold.
    pub fn record_absent_key(&mut self, entry: &MsiFileEntry, stream_name: &str)
        requires
            old(self).skipped_entries < usize::MAX,
        ensures
            final(self).skipped_entries == old(self).skipped_entries + 1,
            final(self).warnings@.map_values(|w: String| w@) == old(self).warnings@.map_values(|w: String| w@).push(
                absent_key_warning(entry.path@, stream_name@),
            ),
            final(self).written_entries == old(self).written_entries,
            final(self).written_bytes == old(self).written_bytes,
    {
        let w = join3("skipped ", entry.path.as_str(), ": not present in cabinet ", stream_name);
        let ghost before = self.warnings@.map_values(|x: String| x@);
        self.record_skip(w);
        assert(self.warnings@.map_values(|x: String| x@) =~= before.push(absent_key_warning(entry.path@, stream_name@)));
    }

    /// Counts a written file; a file whose size differs from the one the
    /// `File` table declares is kept, with a warning.
    pub fn record_written(&mut self, entry: &MsiFileEntry, written: u64)
        requires
            old(self).written_entries < usize::MAX,
            old(self).written_bytes + written <= u64::MAX,
        ensures
            final(self).written_entries == old(self).written_entries + 1,
            final(self).written_bytes == old(self).written_bytes + written,
            final(self).skipped_entries == old(self).skipped_entries,
            final(self).warnings@.map_values(|w: String| w@) == if written == entry.size {
                old(self).warnings@.map_values(|w: String| w@)
            } else {
                old(self).warnings@.map_values(|w: String| w@).push(size_mismatch_warning(entry.path@, written, entry.size))
            },
    {
        self.written_entries = self.written_entries + 1;
        self.written_bytes = self.written_bytes + written;
        if written != entry.size {
            let a = crate::text::decimal_text(written);
            let b = crate::text::decimal_text(entry.size);
            let w = join3(entry.path.as_str(), ": extracted ", a.as_str(), " bytes, File table declares ");
            let w = join3(w.as_str(), b.as_str(), "", "");
            proof {
                reveal_strlit("");
                assert(w@ =~= size_mismatch_warning(entry.path@, written, entry.size));
            }
            let ghost before = self.warnings@.map_values(|x: String| x@);
            self.warnings.push(w);
            assert(self.warnings@.map_values(|x: String| x@) =~= before.push(w@));
        }
    }
}

} // verus!

verus! {

/// A cell of an MSI table row, as the `msi` crate reads it.
#[derive(Debug, Clone)]
pub enum MsiValue {
    Null,
    Int(i32),
    Str(String),
    Binary,
}

/// The value of an [`MsiValue`].
pub enum MsiCell {
    Null,
    Int(i32),
    Str(Seq<char>),
    Binary,
}

pub open spec fn cell_of(v: MsiValue) -> MsiCell {
    match v {
        MsiValue::Null => MsiCell::Null,
        MsiValue::Int(n) => MsiCell::Int(n),
        MsiValue::Str(s) => MsiCell::Str(s@),
        MsiValue::Binary => MsiCell::Binary,
    }
}

pub open spec fn cells_of(rows: Seq<Vec<MsiValue>>) -> Seq<Seq<MsiCell>> {
    rows.map_values(|row: Vec<MsiValue>| row@.map_values(|v: MsiValue| cell_of(v)))
}

/// The rows of `table`, restricted to `columns` in that order, that the
/// `msi` crate reads from the package `package`; `None` where opening the
/// package or the query fails.
pub uninterp spec fn msi_rows_of(package: Seq<u8>, table: Seq<char>, columns: Seq<Seq<char>>) -> Option<Seq<Seq<MsiCell>>>;

/// Calls `msi::Package::open` on the package's bytes and `select_rows` for
/// `columns` of `table`, each cell taken as it is. The contract says that
/// the rows are the named function of the package and the query; the
/// error's text is not stated.
#[verifier::external_body]
fn msi_select(package: &[u8], table: &str, columns: &[&str]) -> (r: Result<Vec<Vec<MsiValue>>, String>)
    ensures
        match r {
            Ok(rows) => msi_rows_of(package@, table@, columns@.map_values(|c: &str| c@)) == Some(cells_of(rows@)),
            Err(_) => msi_rows_of(package@, table@, columns@.map_values(|c: &str| c@)) is None,
        },
{
    let mut package = msi::Package::open(std::io::Cursor::new(package)).map_err(|error| error.to_string())?;
    let rows = package.select_rows(msi::Select::table(table).columns(columns)).map_err(|error| error.to_string())?;
    Ok(rows.map(|row| (0..row.len()).map(|i| match &row[i] {
        msi::Value::Null => MsiValue::Null,
        msi::Value::Int(n) => MsiValue::Int(*n),
        msi::Value::Str(s) => MsiValue::Str(s.clone()),
        msi::Value::Binary => MsiValue::Binary,
    }).collect()).collect())
}

/// The `i`-th cell of a row; a row too short reads as null there.
pub open spec fn cell_at(row: Seq<MsiCell>, i: int) -> MsiCell {
    if 0 <= i < row.len() {
        row[i]
    } else {
        MsiCell::Null
    }
}

/// A cell's text; what is not text reads as empty.
pub open spec fn cell_text(c: MsiCell) -> Seq<char> {
    match c {
        MsiCell::Str(s) => s,
        _ => Seq::empty(),
    }
}

/// A cell's text, if it holds text.
pub open spec fn cell_opt_text(c: MsiCell) -> Option<Seq<char>> {
    match c {
        MsiCell::Str(s) => Some(s),
        _ => None,
    }
}

/// A cell's integer, zero where it holds none.
pub open spec fn cell_int(c: MsiCell) -> int {
    match c {
        MsiCell::Int(n) => n as int,
        _ => 0,
    }
}

/// A cell's integer when it holds a non-negative one, else zero.
pub open spec fn cell_count(c: MsiCell) -> int {
    match c {
        MsiCell::Int(n) => if n >= 0 {
            n as int
        } else {
            0
        },
        _ => 0,
    }
}

pub open spec fn directory_row_of(d: DirectoryRow, row: Seq<MsiCell>) -> bool {
    &&& d.id@ == cell_text(cell_at(row, 0))
    &&& match (d.parent, cell_opt_text(cell_at(row, 1))) {
        (Some(p), Some(q)) => p@ == q,
        (None, None) => true,
        _ => false,
    }
    &&& d.default_dir@ == cell_text(cell_at(row, 2))
}

pub open spec fn component_row_of(c: ComponentRow, row: Seq<MsiCell>) -> bool {
    &&& c.component@ == cell_text(cell_at(row, 0))
    &&& c.directory@ == cell_text(cell_at(row, 1))
}

pub open spec fn media_row_of(m: MediaRow, row: Seq<MsiCell>) -> bool {
    &&& m.disk_id == cell_int(cell_at(row, 0))
    &&& m.last_sequence == cell_count(cell_at(row, 1))
    &&& m.cabinet@ == cell_text(cell_at(row, 2))
}

pub open spec fn file_row_of(f: FileRow, row: Seq<MsiCell>) -> bool {
    &&& match (f.file_key, cell_opt_text(cell_at(row, 0))) {
        (Some(k), Some(t)) => k@ == t,
        (None, None) => true,
        _ => false,
    }
    &&& f.component@ == cell_text(cell_at(row, 1))
    &&& f.file_name@ == cell_text(cell_at(row, 2))
    &&& f.file_size == cell_count(cell_at(row, 3))
    &&& f.sequence == cell_count(cell_at(row, 4))
}

pub open spec fn directory_columns() -> Seq<Seq<char>> {
    seq!["Directory"@, "Directory_Parent"@, "DefaultDir"@]
}

pub open spec fn component_columns() -> Seq<Seq<char>> {
    seq!["Component"@, "Directory_"@]
}

pub open spec fn media_columns() -> Seq<Seq<char>> {
    seq!["DiskId"@, "LastSequence"@, "Cabinet"@]
}

pub open spec fn file_columns() -> Seq<Seq<char>> {
    seq!["File"@, "Component_"@, "FileName"@, "FileSize"@, "Sequence"@]
}

/// The four tables a manifest is resolved from.
#[derive(Debug, Clone)]
pub struct MsiTables {
    pub directories: Vec<DirectoryRow>,
    pub components: Vec<ComponentRow>,
    pub media: Vec<MediaRow>,
    pub files: Vec<FileRow>,
}

/// `t` holds, row for row, the package's `Directory`, `Component`, `Media`
/// and `File` tables as the `msi` crate reads them.
pub open spec fn tables_read(package: Seq<u8>, t: MsiTables) -> bool {
    &&& msi_rows_of(package, "Directory"@, directory_columns()) matches Some(rows)
        && t.directories@.len() == rows.len()
        && forall|i: int| 0 <= i < rows.len() ==> directory_row_of(#[trigger] t.directories@[i], rows[i])
    &&& msi_rows_of(package, "Component"@, component_columns()) matches Some(rows)
        && t.components@.len() == rows.len()
        && forall|i: int| 0 <= i < rows.len() ==> component_row_of(#[trigger] t.components@[i], rows[i])
    &&& msi_rows_of(package, "Media"@, media_columns()) matches Some(rows)
        && t.media@.len() == rows.len()
        && forall|i: int| 0 <= i < rows.len() ==> media_row_of(#[trigger] t.media@[i], rows[i])
    &&& msi_rows_of(package, "File"@, file_columns()) matches Some(rows)
        && t.files@.len() == rows.len()
        && forall|i: int| 0 <= i < rows.len() ==> file_row_of(#[trigger] t.files@[i], rows[i])
}

/// Whether the package's four tables can all be read.
pub open spec fn tables_readable(package: Seq<u8>) -> bool {
    &&& msi_rows_of(package, "Directory"@, directory_columns()) is Some
    &&& msi_rows_of(package, "Component"@, component_columns()) is Some
    &&& msi_rows_of(package, "Media"@, media_columns()) is Some
    &&& msi_rows_of(package, "File"@, file_columns()) is Some
}

fn value_at(row: &Vec<MsiValue>, i: usize) -> (r: MsiValue)
    ensures
        cell_of(r) == cell_at(row@.map_values(|v: MsiValue| cell_of(v)), i as int),
{
    if i < row.len() {
        match &row[i] {
            MsiValue::Null => MsiValue::Null,
            MsiValue::Int(n) => MsiValue::Int(*n),
            MsiValue::Str(s) => MsiValue::Str(s.clone()),
            MsiValue::Binary => MsiValue::Binary,
        }
    } else {
        MsiValue::Null
    }
}

fn value_text(v: &MsiValue) -> (r: String)
    ensures
        r@ == cell_text(cell_of(*v)),
{
    match v {
        MsiValue::Str(s) => s.clone(),
        _ => String::new(),
    }
}

fn value_opt_text(v: &MsiValue) -> (r: Option<String>)
    ensures
        match (r, cell_opt_text(cell_of(*v))) {
            (Some(p), Some(q)) => p@ == q,
            (None, None) => true,
            _ => false,
        },
{
    match v {
        MsiValue::Str(s) => Some(s.clone()),
        _ => None,
    }
}

fn value_int(v: &MsiValue) -> (r: i32)
    ensures
        r == cell_int(cell_of(*v)),
{
    match v {
        MsiValue::Int(n) => *n,
        _ => 0,
    }
}

fn value_count(v: &MsiValue) -> (r: u32)
    ensures
        r == cell_count(cell_of(*v)),
{
    match v {
        MsiValue::Int(n) => if *n >= 0 {
            *n as u32
        } else {
            0
        },
        _ => 0,
    }
}

fn directory_rows(rows: &Vec<Vec<MsiValue>>) -> (r: Vec<DirectoryRow>)
    ensures
        r@.len() == rows@.len(),
        forall|i: int| 0 <= i < rows@.len() ==> directory_row_of(#[trigger] r@[i], cells_of(rows@)[i]),
{
    let mut out: Vec<DirectoryRow> = Vec::new();
    let mut i: usize = 0;
    while i < rows.len()
        invariant
            i <= rows@.len(),
            out@.len() == i,
            forall|j: int| 0 <= j < i ==> directory_row_of(#[trigger] out@[j], cells_of(rows@)[j]),
        decreases rows@.len() - i,
    {
        let row = &rows[i];
        assert(cells_of(rows@)[i as int] == row@.map_values(|v: MsiValue| cell_of(v)));
        out.push(
            DirectoryRow {
                id: value_text(&value_at(row, 0)),
                parent: value_opt_text(&value_at(row, 1)),
                default_dir: value_text(&value_at(row, 2)),
            },
        );
        i += 1;
    }
    out
}

fn component_rows(rows: &Vec<Vec<MsiValue>>) -> (r: Vec<ComponentRow>)
    ensures
        r@.len() == rows@.len(),
        forall|i: int| 0 <= i < rows@.len() ==> component_row_of(#[trigger] r@[i], cells_of(rows@)[i]),
{
    let mut out: Vec<ComponentRow> = Vec::new();
    let mut i: usize = 0;
    while i < rows.len()
        invariant
            i <= rows@.len(),
            out@.len() == i,
            forall|j: int| 0 <= j < i ==> component_row_of(#[trigger] out@[j], cells_of(rows@)[j]),
        decreases rows@.len() - i,
    {
        let row = &rows[i];
        assert(cells_of(rows@)[i as int] == row@.map_values(|v: MsiValue| cell_of(v)));
        out.push(ComponentRow { component: value_text(&value_at(row, 0)), directory: value_text(&value_at(row, 1)) });
        i += 1;
    }
    out
}

fn media_rows(rows: &Vec<Vec<MsiValue>>) -> (r: Vec<MediaRow>)
    ensures
        r@.len() == rows@.len(),
        forall|i: int| 0 <= i < rows@.len() ==> media_row_of(#[trigger] r@[i], cells_of(rows@)[i]),
{
    let mut out: Vec<MediaRow> = Vec::new();
    let mut i: usize = 0;
    while i < rows.len()
        invariant
            i <= rows@.len(),
            out@.len() == i,
            forall|j: int| 0 <= j < i ==> media_row_of(#[trigger] out@[j], cells_of(rows@)[j]),
        decreases rows@.len() - i,
    {
        let row = &rows[i];
        assert(cells_of(rows@)[i as int] == row@.map_values(|v: MsiValue| cell_of(v)));
        out.push(
            MediaRow {
                disk_id: value_int(&value_at(row, 0)),
                last_sequence: value_count(&value_at(row, 1)),
                cabinet: value_text(&value_at(row, 2)),
            },
        );
        i += 1;
    }
    out
}

fn file_rows(rows: &Vec<Vec<MsiValue>>) -> (r: Vec<FileRow>)
    ensures
        r@.len() == rows@.len(),
        forall|i: int| 0 <= i < rows@.len() ==> file_row_of(#[trigger] r@[i], cells_of(rows@)[i]),
{
    let mut out: Vec<FileRow> = Vec::new();
    let mut i: usize = 0;
    while i < rows.len()
        invariant
            i <= rows@.len(),
            out@.len() == i,
            forall|j: int| 0 <= j < i ==> file_row_of(#[trigger] out@[j], cells_of(rows@)[j]),
        decreases rows@.len() - i,
    {
        let row = &rows[i];
        assert(cells_of(rows@)[i as int] == row@.map_values(|v: MsiValue| cell_of(v)));
        out.push(
            FileRow {
                file_key: value_opt_text(&value_at(row, 0)),
                component: value_text(&value_at(row, 1)),
                file_name: value_text(&value_at(row, 2)),
                file_size: value_count(&value_at(row, 3)) as u64,
                sequence: value_count(&value_at(row, 4)),
            },
        );
        i += 1;
    }
    out
}

/// Reads the package's `Directory`, `Component`, `Media` and `File`
/// tables from its bytes, each cell as the `msi` crate reads it: text
/// cells as text (empty, or no key, where the cell holds no text), integer
/// cells as integers (zero where there is none, and for a count where it
/// is negative).
pub fn read_msi_tables(package: &[u8]) -> (r: Result<MsiTables, MsiBackendError>)
    ensures
        r is Ok <==> tables_readable(package@),
        r matches Ok(t) ==> tables_read(package@, t),
        r matches Err(e) ==> e is Msi,
{
    let directory_names = ["Directory", "Directory_Parent", "DefaultDir"];
    let component_names = ["Component", "Directory_"];
    let media_names = ["DiskId", "LastSequence", "Cabinet"];
    let file_names = ["File", "Component_", "FileName", "FileSize", "Sequence"];
    proof {
        assert(directory_names@.map_values(|c: &str| c@) =~= directory_columns());
        assert(component_names@.map_values(|c: &str| c@) =~= component_columns());
        assert(media_names@.map_values(|c: &str| c@) =~= media_columns());
        assert(file_names@.map_values(|c: &str| c@) =~= file_columns());
    }
    let directories = match msi_select(package, "Directory", &directory_names) {
        Ok(rows) => directory_rows(&rows),
        Err(reason) => return Err(MsiBackendError::Msi(reason)),
    };
    let components = match msi_select(package, "Component", &component_names) {
        Ok(rows) => component_rows(&rows),
        Err(reason) => return Err(MsiBackendError::Msi(reason)),
    };
    let media = match msi_select(package, "Media", &media_names) {
        Ok(rows) => media_rows(&rows),
        Err(reason) => return Err(MsiBackendError::Msi(reason)),
    };
    let files = match msi_select(package, "File", &file_names) {
        Ok(rows) => file_rows(&rows),
        Err(reason) => return Err(MsiBackendError::Msi(reason)),
    };
    Ok(MsiTables { directories, components, media, files })
}

/// Lists the files of an `.msi` package, given its bytes, without
/// extracting them.
pub fn list_msi_package(package: &[u8]) -> (r: Result<Vec<MsiListEntry>, MsiBackendError>)
    ensures
        r is Ok <==> tables_readable(package@),
        r matches Ok(v) ==> exists|t: MsiTables|
            #[trigger] tables_read(package@, t) && {
                let listed = listed_outcomes(row_outcomes(t.directories@, t.components@, t.media@, t.files@));
                &&& v@.len() == listed.len()
                &&& forall|i: int| 0 <= i < listed.len() ==> list_entry_of(#[trigger] v@[i], listed[i])
            },
        r matches Err(e) ==> e is Msi,
{
    let tables = read_msi_tables(package)?;
    let v = list_msi(&tables.directories, &tables.components, &tables.media, &tables.files);
    assert(tables_read(package@, tables));
    Ok(v)
}

/// Whether the package `package` has an embedded stream `name`; `None`
/// where opening the package fails.
pub uninterp spec fn msi_has_stream_of(package: Seq<u8>, name: Seq<char>) -> Option<bool>;

/// Calls `msi::Package::open` on the package's bytes, then `has_stream`.
/// The contract says that the answer is the named function of the package
/// and the name; the error's text is not stated.
#[verifier::external_body]
fn msi_has_stream(package: &[u8], name: &str) -> (r: Result<bool, String>)
    ensures
        match r {
            Ok(b) => msi_has_stream_of(package@, name@) == Some(b),
            Err(_) => msi_has_stream_of(package@, name@) is None,
        },
{
    let package = msi::Package::open(std::io::Cursor::new(package)).map_err(|error| error.to_string())?;
    Ok(package.has_stream(name))
}

/// The contents of the embedded stream `name` of the package `package`;
/// `None` where opening the package or reading the stream fails.
pub uninterp spec fn msi_stream_of(package: Seq<u8>, name: Seq<char>) -> Option<Seq<u8>>;

/// Calls `msi::Package::open` on the package's bytes, then `read_stream`,
/// read to its end. The contract says that the result is the named
/// function of the package and the name; the error's text is not stated.
#[verifier::external_body]
fn msi_read_stream(package: &[u8], name: &str) -> (r: Result<Vec<u8>, String>)
    ensures
        match r {
            Ok(bytes) => msi_stream_of(package@, name@) == Some(bytes@),
            Err(_) => msi_stream_of(package@, name@) is None,
        },
{
    let mut package = msi::Package::open(std::io::Cursor::new(package)).map_err(|error| error.to_string())?;
    let mut stream = package.read_stream(name).map_err(|error| error.to_string())?;
    let mut bytes = Vec::new();
    std::io::Read::read_to_end(&mut stream, &mut bytes).map_err(|error| error.to_string())?;
    Ok(bytes)
}

/// Whether `cab::Cabinet::new` reads the cabinet `cab`.
pub uninterp spec fn cabinet_opens_of(cab: Seq<u8>) -> bool;

/// Calls `cab::Cabinet::new` on the cabinet's bytes. The contract says
/// that the outcome is the named function of the bytes; the error's text
/// is not stated.
#[verifier::external_body]
fn cabinet_open(cab: &[u8]) -> (r: Result<(), String>)
    ensures
        r is Ok <==> cabinet_opens_of(cab@),
{
    cab::Cabinet::new(std::io::Cursor::new(cab)).map(|_| ()).map_err(|error| error.to_string())
}

/// Whether the cabinet `cab` holds a file under `key`; `None` where
/// reading the cabinet fails.
pub uninterp spec fn cabinet_has_file_of(cab: Seq<u8>, key: Seq<char>) -> Option<bool>;

/// Calls `cab::Cabinet::new` on the cabinet's bytes, then
/// `get_file_entry`, and tells whether it found an entry. The contract
/// says that the answer is the named function of the cabinet and the key;
/// the error's text is not stated.
#[verifier::external_body]
fn cabinet_has_file(cab: &[u8], key: &str) -> (r: Result<bool, String>)
    ensures
        match r {
            Ok(b) => cabinet_has_file_of(cab@, key@) == Some(b),
            Err(_) => cabinet_has_file_of(cab@, key@) is None,
        },
{
    let cabinet = cab::Cabinet::new(std::io::Cursor::new(cab)).map_err(|error| error.to_string())?;
    Ok(cabinet.get_file_entry(key).is_some())
}

/// The contents of the file stored under `key` in the cabinet `cab`;
/// `None` where reading fails.
pub uninterp spec fn cabinet_file_of(cab: Seq<u8>, key: Seq<char>) -> Option<Seq<u8>>;

/// Calls `cab::Cabinet::new` on the cabinet's bytes, then `read_file`,
/// read to its end. The contract says that the result is the named
/// function of the cabinet and the key; the error's text is not stated.
#[verifier::external_body]
fn cabinet_file(cab: &[u8], key: &str) -> (r: Result<Vec<u8>, String>)
    ensures
        match r {
            Ok(bytes) => cabinet_file_of(cab@, key@) == Some(bytes@),
            Err(_) => cabinet_file_of(cab@, key@) is None,
        },
{
    let mut cabinet = cab::Cabinet::new(std::io::Cursor::new(cab)).map_err(|error| error.to_string())?;
    let mut reader = cabinet.read_file(key).map_err(|error| error.to_string())?;
    let mut bytes = Vec::new();
    std::io::Read::read_to_end(&mut reader, &mut bytes).map_err(|error| error.to_string())?;
    Ok(bytes)
}

proof fn lemma_stream_positions(entries: Seq<MsiFileEntry>, name: Seq<char>)
    requires
        entries.len() <= usize::MAX,
    ensures
        forall|k: int|
            0 <= k < entries_in_stream(entries, name).len() ==> (#[trigger] entries_in_stream(entries, name)[k]) < entries.len()
                && embedded_stream(entries[entries_in_stream(entries, name)[k] as int]) == Some(name),
    decreases entries.len(),
{
    if entries.len() > 0 {
        lemma_stream_positions(entries.drop_last(), name);
        let rest = entries_in_stream(entries.drop_last(), name);
        let pos = entries_in_stream(entries, name);
        assert forall|k: int| 0 <= k < pos.len() implies (#[trigger] pos[k]) < entries.len() && embedded_stream(
            entries[pos[k] as int],
        ) == Some(name) by {
            if k < rest.len() {
                assert(pos[k] == rest[k]);
                assert(entries[rest[k] as int] == entries.drop_last()[rest[k] as int]);
            } else {
                assert(pos[k] == entries.len() - 1);
            }
        }
    }
}

/// What extracting a package comes to before any file is written: the
/// manifest, the files to write (target-relative path and contents) in
/// order, and the report once they are all written.
pub struct MsiExtractPlan {
    pub manifest: MsiManifest,
    pub writes: Vec<(String, Vec<u8>)>,
    pub report: MsiExtractReport,
}

/// `w` is the write of the manifest entry `e`: its path, and the contents
/// its embedded cabinet stream holds for its key.
pub open spec fn entry_write(package: Seq<u8>, e: MsiFileEntry, w: (String, Vec<u8>)) -> bool {
    &&& w.0@ == e.path@
    &&& embedded_stream(e) matches Some(name) && msi_stream_of(package, name) matches Some(cab)
        && cabinet_file_of(cab, e.file_key@) == Some(w.1@)
}

/// Each of `writes` is the write of one of `entries`: the `k`-th of the
/// entry at `sources[k]`.
pub open spec fn writes_from(
    package: Seq<u8>,
    entries: Seq<MsiFileEntry>,
    writes: Seq<(String, Vec<u8>)>,
    sources: Seq<int>,
) -> bool {
    &&& sources.len() == writes.len()
    &&& forall|k: int|
        0 <= k < writes.len() ==> 0 <= #[trigger] sources[k] < entries.len() && entry_write(package, entries[sources[k]], writes[k])
}

/// The plain value of a planned write: its path and its contents.
pub open spec fn write_view(w: (String, Vec<u8>)) -> (Seq<char>, Seq<u8>) {
    (w.0@, w.1@)
}

/// The writes of the entries at `positions`, all stored in the embedded
/// stream `name`: each entry that the stream's cabinet holds, with the
/// contents stored under its key, in order.
pub open spec fn group_writes(package: Seq<u8>, entries: Seq<MsiFileEntry>, name: Seq<char>, positions: Seq<usize>) -> Seq<
    (Seq<char>, Seq<u8>),
>
    decreases positions.len(),
{
    if positions.len() == 0 {
        Seq::empty()
    } else {
        let prev = group_writes(package, entries, name, positions.drop_last());
        let e = entries[positions.last() as int];
        match msi_stream_of(package, name) {
            Some(cab) => if cabinet_has_file_of(cab, e.file_key@) == Some(true) {
                match cabinet_file_of(cab, e.file_key@) {
                    Some(bytes) => prev.push((e.path@, bytes)),
                    None => prev,
                }
            } else {
                prev
            },
            None => prev,
        }
    }
}

/// The writes of the entries stored in the embedded streams `names`,
/// stream by stream: nothing for a stream the package does not have.
pub open spec fn stream_writes(package: Seq<u8>, entries: Seq<MsiFileEntry>, names: Seq<Seq<char>>) -> Seq<
    (Seq<char>, Seq<u8>),
>
    decreases names.len(),
{
    if names.len() == 0 {
        Seq::empty()
    } else {
        let prev = stream_writes(package, entries, names.drop_last());
        let n = names.last();
        if msi_has_stream_of(package, n) == Some(true) {
            prev + group_writes(package, entries, n, entries_in_stream(entries, n))
        } else {
            prev
        }
    }
}

/// The sum of the lengths of the contents written.
pub open spec fn written_total(writes: Seq<(String, Vec<u8>)>) -> int
    decreases writes.len(),
{
    if writes.len() == 0 {
        0
    } else {
        written_total(writes.drop_last()) + writes.last().1@.len()
    }
}

/// Plans the extraction of the package `package`: the manifest resolved
/// from its tables, then, cabinet stream by cabinet stream, each entry's
/// contents from its cabinet. An entry with an external cabinet, in a
/// stream the package does not have, or not held by its cabinet is
/// skipped with a warning; a request `cancelled` before a file is read
/// stops the plan.
pub fn plan_msi_extraction(package: &[u8], cancelled: bool) -> (r: Result<MsiExtractPlan, MsiBackendError>)
    ensures
        !tables_readable(package@) ==> r matches Err(MsiBackendError::Msi(_)),
        r matches Ok(plan) ==> {
            &&& tables_readable(package@)
            &&& exists|t: MsiTables|
                #[trigger] tables_read(package@, t) && {
                    let outcomes = row_outcomes(t.directories@, t.components@, t.media@, t.files@);
                    let listed = listed_outcomes(outcomes);
                    &&& plan.manifest.entries@.len() == listed.len()
                    &&& forall|i: int| 0 <= i < listed.len() ==> entry_matches(#[trigger] plan.manifest.entries@[i], listed[i])
                }
            &&& exists|sources: Seq<int>| #[trigger] writes_from(package@, plan.manifest.entries@, plan.writes@, sources)
            &&& cancelled ==> plan.writes@.len() == 0
            &&& !cancelled ==> plan.writes@.map_values(|w: (String, Vec<u8>)| write_view(w)) == stream_writes(
                package@,
                plan.manifest.entries@,
                stream_order(plan.manifest.entries@),
            )
            &&& plan.report.written_entries == plan.writes@.len()
            &&& plan.report.written_bytes == written_total(plan.writes@)
        },
        r matches Err(MsiBackendError::Cancelled) ==> cancelled,
{
    let tables = read_msi_tables(package)?;
    let manifest = read_manifest(&tables.directories, &tables.components, &tables.media, &tables.files);
    assert(tables_read(package@, tables));
    let mut report = MsiExtractReport::from_manifest(&manifest);
    let (groups, external_warnings) = group_by_cabinet(&manifest.entries);
    let mut writes: Vec<(String, Vec<u8>)> = Vec::new();
    let ghost mut sources: Seq<int> = Seq::empty();
    let mut w: usize = 0;
    while w < external_warnings.len()
        invariant
            w <= external_warnings@.len(),
            tables_readable(package@),
            report.written_entries == 0,
            report.written_bytes == 0,
            writes@.len() == 0,
            sources.len() == 0,
        decreases external_warnings@.len() - w,
    {
        if report.skipped_entries == usize::MAX {
            return Err(MsiBackendError::Plan("too many skipped entries".to_string()));
        }
        let warning = external_warnings[w].clone();
        report.record_skip(warning);
        w += 1;
    }
    let mut g: usize = 0;
    proof {
        assert(stream_order(manifest.entries@).take(0) =~= Seq::<Seq<char>>::empty());
        assert(writes@.map_values(|w: (String, Vec<u8>)| write_view(w)) =~= Seq::<(Seq<char>, Seq<u8>)>::empty());
    }
    while g < groups.len()
        invariant
            g <= groups@.len(),
            tables_readable(package@),
            groups@.len() == stream_order(manifest.entries@).len(),
            forall|h: int|
                0 <= h < groups@.len() ==> (#[trigger] groups@[h]).stream_name@ == stream_order(manifest.entries@)[h]
                    && groups@[h].entries@ == entries_in_stream(manifest.entries@, stream_order(manifest.entries@)[h]),
            writes_from(package@, manifest.entries@, writes@, sources),
            cancelled ==> writes@.len() == 0,
            !cancelled ==> writes@.map_values(|w: (String, Vec<u8>)| write_view(w)) == stream_writes(
                package@,
                manifest.entries@,
                stream_order(manifest.entries@).take(g as int),
            ),
            report.written_entries == writes@.len(),
            report.written_bytes == written_total(writes@),
        decreases groups@.len() - g,
    {
        let group = &groups[g];
        proof {
            assert(manifest.entries@.len() == manifest.entries.len());
            lemma_stream_positions(manifest.entries@, group.stream_name@);
        }
        let ghost names = stream_order(manifest.entries@);
        let ghost base = stream_writes(package@, manifest.entries@, names.take(g as int));
        proof {
            assert(names.take(g as int + 1).drop_last() =~= names.take(g as int));
            assert(names.take(g as int + 1).last() == group.stream_name@);
        }
        let has_stream = match msi_has_stream(package, group.stream_name.as_str()) {
            Ok(b) => b,
            Err(reason) => return Err(MsiBackendError::Msi(reason)),
        };
        if !has_stream {
            if group.entries.len() > usize::MAX - report.skipped_entries {
                return Err(MsiBackendError::Plan("too many skipped entries".to_string()));
            }
            report.record_missing_stream(&manifest.entries, group);
            proof {
                assert(stream_writes(package@, manifest.entries@, names.take(g as int + 1)) == base);
            }
        } else {
            {
                let cab = match msi_read_stream(package, group.stream_name.as_str()) {
                    Ok(c) => c,
                    Err(reason) => return Err(MsiBackendError::Msi(reason)),
                };
                if let Err(reason) = cabinet_open(&cab) {
                    return Err(MsiBackendError::Cab(reason));
                }
                let mut k: usize = 0;
                proof {
                    assert(group.entries@.take(0) =~= Seq::<usize>::empty());
                    assert(base + group_writes(package@, manifest.entries@, group.stream_name@, group.entries@.take(0)) =~= base);
                }
                while k < group.entries.len()
                    invariant
                        k <= group.entries@.len(),
                        msi_has_stream_of(package@, group.stream_name@) == Some(true),
                        !cancelled ==> writes@.map_values(|w: (String, Vec<u8>)| write_view(w)) == base + group_writes(
                            package@,
                            manifest.entries@,
                            group.stream_name@,
                            group.entries@.take(k as int),
                        ),
                        tables_readable(package@),
                        group.entries@ == entries_in_stream(manifest.entries@, group.stream_name@),
                        forall|j: int|
                            0 <= j < group.entries@.len() ==> (#[trigger] group.entries@[j]) < manifest.entries@.len()
                                && embedded_stream(manifest.entries@[group.entries@[j] as int]) == Some(group.stream_name@),
                        msi_stream_of(package@, group.stream_name@) == Some(cab@),
                        writes_from(package@, manifest.entries@, writes@, sources),
                        cancelled ==> writes@.len() == 0,
                        report.written_entries == writes@.len(),
                        report.written_bytes == written_total(writes@),
                    decreases group.entries@.len() - k,
                {
                    let index = group.entries[k];
                    let entry = &manifest.entries[index];
                    proof {
                        assert(group.entries@.take(k as int + 1).drop_last() =~= group.entries@.take(k as int));
                        assert(group.entries@.take(k as int + 1).last() == index);
                    }
                    let ghost gw = group_writes(package@, manifest.entries@, group.stream_name@, group.entries@.take(k as int));
                    let ghost gw1 = group_writes(package@, manifest.entries@, group.stream_name@, group.entries@.take(k as int + 1));
                    if cancelled {
                        return Err(MsiBackendError::Cancelled);
                    }
                    let held = match cabinet_has_file(&cab, entry.file_key.as_str()) {
                        Ok(b) => b,
                        Err(reason) => return Err(MsiBackendError::Cab(reason)),
                    };
                    let contents = if held {
                        match cabinet_file(&cab, entry.file_key.as_str()) {
                            Ok(bytes) => Some(bytes),
                            Err(reason) => return Err(MsiBackendError::Cab(reason)),
                        }
                    } else {
                        None
                    };
                    match contents {
                        None => {
                            if report.skipped_entries == usize::MAX {
                                return Err(MsiBackendError::Plan("too many skipped entries".to_string()));
                            }
                            report.record_absent_key(entry, group.stream_name.as_str());
                            proof {
                                assert(gw1 == gw);
                            }
                        },
                        Some(bytes) => {
                            let written = bytes.len() as u64;
                            if report.written_entries == usize::MAX || report.written_bytes > u64::MAX - written {
                                return Err(MsiBackendError::Plan("extraction totals overflow".to_string()));
                            }
                            report.record_written(entry, written);
                            let ghost before = writes@;
                            let path = entry.path.clone();
                            proof {
                                assert(entry_write(package@, manifest.entries@[index as int], (path, bytes)));
                            }
                            let ghost before = writes@;
                            let ghost before_sources = sources;
                            let ghost pv = path@;
                            let ghost bv = bytes@;
                            proof {
                                assert(gw1 == gw.push((pv, bv)));
                            }
                            writes.push((path, bytes));
                            proof {
                                assert(writes@.map_values(|w: (String, Vec<u8>)| write_view(w)) =~= before.map_values(
                                    |w: (String, Vec<u8>)| write_view(w),
                                ).push((pv, bv)));
                                assert((base + gw).push((pv, bv)) =~= base + gw.push((pv, bv)));
                                assert(writes@.drop_last() =~= before);
                                sources = sources.push(index as int);
                                assert forall|q: int| 0 <= q < writes@.len() implies 0 <= #[trigger] sources[q] < manifest.entries@.len()
                                    && entry_write(package@, manifest.entries@[sources[q]], writes@[q]) by {
                                    if q < before.len() {
                                        assert(writes@[q] == before[q]);
                                        assert(sources[q] == before_sources[q]);
                                    }
                                }
                            }
                        },
                    }
                    k += 1;
                }
                proof {
                    assert(group.entries@.take(group.entries@.len() as int) =~= group.entries@);
                    assert(stream_writes(package@, manifest.entries@, names.take(g as int + 1)) == base + group_writes(
                        package@,
                        manifest.entries@,
                        group.stream_name@,
                        group.entries@,
                    ));
                }
            }
        }
        g += 1;
    }
    proof {
        assert(stream_order(manifest.entries@).take(g as int) =~= stream_order(manifest.entries@));
    }
    let plan = MsiExtractPlan { manifest, writes, report };
    assert(writes_from(package@, plan.manifest.entries@, plan.writes@, sources));
    assert(tables_read(package@, tables));
    Ok(plan)
}

} // verus!
