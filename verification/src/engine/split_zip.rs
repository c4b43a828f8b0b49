//! Split-ZIP recognition and volume discovery for archive sources. A
//! directory's entries are handed in as the names of its regular files.
use crate::multi_volume::{
    discover_multi_volume_names, discovery_spec, is_split_zip_name, lemma_discovery_is_functional, split_zip_set_spec,
};
use crate::paths::{extension_chars, extension_of_name, file_name_of, file_name_spec};
use crate::text::{
    lemma_decimal_string_digits,
    trim_end_char, trim_end_matching, all_ascii_digits, ends_with, chars_end_with,
    ascii_lower, chars_contain, chars_eq, chars_of, concat_chars, contains_seq, decimal_chars, decimal_string,
    decimal_value, digit_char, is_ascii_digit, last_index_of, lemma_last_index_of, rfind_char, slice_chars,
    string_from_chars, to_ascii_lower,
};
use crate::engine::source::ArchiveSource;
use vstd::prelude::*;
use vstd::set_lib::{lemma_int_range, lemma_len_subset, set_int_range};

verus! {

/// A volume index with at least two digits (`format!("{:02}")`).
pub open spec fn two_digits(n: nat) -> Seq<char> {
    let d = decimal_string(n);
    if d.len() < 2 {
        seq!['0'] + d
    } else {
        d
    }
}

/// The name of split-ZIP sidecar volume `index` of the set with stem `stem`.
pub open spec fn sidecar_name(stem: Seq<char>, index: nat) -> Seq<char> {
    stem + seq!['.', 'z'] + two_digits(index)
}

/// The name of the final volume of the set with stem `stem`.
pub open spec fn final_zip_name(stem: Seq<char>) -> Seq<char> {
    stem + seq!['.', 'z', 'i', 'p']
}

/// `Path::file_stem` of a file name: the name without its extension.
pub open spec fn file_stem_of(name: Seq<char>) -> Seq<char> {
    match extension_of_name(name) {
        Some(ext) => name.subrange(0, name.len() - ext.len() - 1),
        None => name,
    }
}

proof fn lemma_two_digits_value(n: nat)
    ensures
        decimal_value(two_digits(n)) == n,
        two_digits(n).len() >= 2,
{
    lemma_decimal_string_digits(n);
    let d = decimal_string(n);
    if d.len() < 2 {
        let t = seq!['0'] + d;
        assert(d.len() == 1);
        assert(t.drop_last() =~= seq!['0']);
        assert(seq!['0'].drop_last() =~= Seq::<char>::empty());
        assert(d.drop_last() =~= Seq::<char>::empty());
        assert(t.last() == d.last());
        assert(decimal_value(Seq::<char>::empty()) == 0);
        assert(decimal_value(seq!['0']) == 0);
        assert(decimal_value(t) == decimal_value(d));
    }
}

proof fn lemma_sidecar_names_differ(stem: Seq<char>, a: nat, b: nat)
    requires
        a != b,
    ensures
        sidecar_name(stem, a) != sidecar_name(stem, b),
{
    lemma_two_digits_value(a);
    lemma_two_digits_value(b);
    let k = stem.len() + 2;
    let x = sidecar_name(stem, a);
    let y = sidecar_name(stem, b);
    assert(x.subrange(k as int, x.len() as int) =~= two_digits(a));
    assert(y.subrange(k as int, y.len() as int) =~= two_digits(b));
}

fn two_digit_chars(n: u64) -> (r: Vec<char>)
    ensures
        r@ == two_digits(n as nat),
{
    let d = decimal_chars(n);
    if d.len() < 2 {
        let zero: Vec<char> = vec!['0'];
        let r = concat_chars(&zero, &d);
        assert(r@ =~= seq!['0'] + d@);
        r
    } else {
        d
    }
}

fn sidecar_chars(stem: &[char], index: u64) -> (r: Vec<char>)
    ensures
        r@ == sidecar_name(stem@, index as nat),
{
    let dot_z: Vec<char> = vec!['.', 'z'];
    let a = concat_chars(stem, &dot_z);
    let digits = two_digit_chars(index);
    let r = concat_chars(&a, &digits);
    assert(r@ =~= stem@ + seq!['.', 'z'] + two_digits(index as nat));
    r
}

/// Position of a name in the listing.
fn listing_position(listing: &Vec<String>, name: &[char]) -> (r: Option<usize>)
    ensures
        match r {
            Some(p) => p < listing@.len() && listing@[p as int]@ == name@,
            None => forall|p: int| 0 <= p < listing@.len() ==> (#[trigger] listing@[p])@ != name@,
        },
{
    let mut p: usize = 0;
    while p < listing.len()
        invariant
            p <= listing@.len(),
            forall|q: int| 0 <= q < p ==> (#[trigger] listing@[q])@ != name@,
        decreases listing@.len() - p,
    {
        let candidate = chars_of(listing[p].as_str());
        if chars_eq(&candidate, name) {
            return Some(p);
        }
        p += 1;
    }
    None
}

proof fn lemma_distinct_positions_bounded(positions: Seq<int>, n: int)
    requires
        0 <= n,
        positions.no_duplicates(),
        forall|i: int| 0 <= i < positions.len() ==> 0 <= #[trigger] positions[i] < n,
    ensures
        positions.len() <= n,
{
    positions.unique_seq_to_set();
    lemma_int_range(0, n);
    assert(positions.to_set().subset_of(set_int_range(0, n)));
    lemma_len_subset(positions.to_set(), set_int_range(0, n));
}

/// Sidecars `1..=k` of the set are in the listing, and sidecar `k + 1` is
/// not.
pub open spec fn sidecar_run(stem: Seq<char>, listing: Seq<Seq<char>>, k: nat) -> bool {
    &&& forall|i: nat| 1 <= i <= k ==> listing.contains(#[trigger] sidecar_name(stem, i))
    &&& !listing.contains(sidecar_name(stem, k + 1))
}

/// Sidecars `1..=k` of the set, in order.
pub open spec fn sidecar_volumes(stem: Seq<char>, k: nat) -> Seq<Seq<char>> {
    Seq::new(k, |i: int| sidecar_name(stem, (i + 1) as nat))
}

/// What the sidecar scan finds: the unbroken run of sidecars from `.z01`
/// on, then the final `.zip`, when both the run and the final volume exist.
pub open spec fn sidecar_fallback(stem: Seq<char>, listing: Seq<Seq<char>>, r: Option<Seq<Seq<char>>>) -> bool {
    exists|k: nat|
        #[trigger] sidecar_run(stem, listing, k) && if k > 0 && listing.contains(final_zip_name(stem)) {
            r == Some(sidecar_volumes(stem, k).push(final_zip_name(stem)))
        } else {
            r is None
        }
}

/// Whether some name, lower-cased, contains `.zip`.
pub open spec fn any_names_contain_zip(names: Seq<Seq<char>>) -> bool {
    exists|i: int| 0 <= i < names.len() && contains_seq(ascii_lower(#[trigger] names[i]), seq!['.', 'z', 'i', 'p'])
}

/// The ordered volume names of the split-ZIP set that file `name` closes,
/// given the names of the regular files in its directory (`None` when the
/// directory could not be read): a multi-volume set of more than one
/// member with a `.zip` name in it, else the sidecar scan.
pub open spec fn split_zip_discovery(name: Seq<char>, listing: Option<Seq<Seq<char>>>, r: Option<Seq<Seq<char>>>) -> bool {
    match listing {
        None => r is None,
        Some(l) => exists|d: Option<Seq<Seq<char>>>|
            #[trigger] discovery_spec(name, Some(l), d) && if (d matches Some(v) && v.len() > 1 && any_names_contain_zip(v)) {
                r == d
            } else {
                sidecar_fallback(file_stem_of(name), l, r)
            },
    }
}

pub open spec fn names_view(v: Seq<String>) -> Seq<Seq<char>> {
    v.map_values(|s: String| s@)
}

pub open spec fn opt_names_view(v: Option<Vec<String>>) -> Option<Seq<Seq<char>>> {
    match v {
        Some(v) => Some(names_view(v@)),
        None => None,
    }
}

fn names_contain_zip(names: &Vec<String>) -> (r: bool)
    ensures
        r == any_names_contain_zip(names_view(names@)),
{
    let zip: Vec<char> = vec!['.', 'z', 'i', 'p'];
    let mut i: usize = 0;
    while i < names.len()
        invariant
            i <= names@.len(),
            zip@ == seq!['.', 'z', 'i', 'p'],
            forall|j: int| 0 <= j < i ==> !contains_seq(ascii_lower(#[trigger] names_view(names@)[j]), zip@),
        decreases names@.len() - i,
    {
        let lower = to_ascii_lower(&chars_of(names[i].as_str()));
        if chars_contain(&lower, &zip) {
            assert(names_view(names@)[i as int] == names@[i as int]@);
            return true;
        }
        i += 1;
    }
    false
}

fn file_stem_chars(name: &[char]) -> (r: Vec<char>)
    ensures
        r@ == file_stem_of(name@),
{
    match extension_chars(name) {
        Some(ext) => {
            proof {
                lemma_last_index_of(name@, '.');
            }
            slice_chars(name, 0, name.len() - ext.len() - 1)
        },
        None => {
            let whole = slice_chars(name, 0, name.len());
            assert(whole@ =~= name@);
            whole
        },
    }
}

/// Discovers the ordered volume names of a split-ZIP set; see
/// [`split_zip_discovery`].
pub fn discover_split_zip_volume_names(file_name: &str, listing: Option<&Vec<String>>) -> (r: Option<Vec<String>>)
    ensures
        split_zip_discovery(
            file_name@,
            match listing {
                Some(l) => Some(names_view(l@)),
                None => None,
            },
            opt_names_view(r),
        ),
{
    let discovered = discover_multi_volume_names(file_name, listing);
    let l = match listing {
        Some(l) => l,
        None => return None,
    };
    let ghost lv = names_view(l@);
    let ghost d = opt_names_view(discovered);
    assert(discovery_spec(file_name@, Some(lv), d));
    if let Some(v) = discovered {
        if v.len() > 1 && names_contain_zip(&v) {
            return Some(v);
        }
    }
    let name = chars_of(file_name);
    let stem = file_stem_chars(&name);
    let mut volumes: Vec<String> = Vec::new();
    let ghost mut positions: Seq<int> = Seq::empty();
    loop
        invariant
            lv == names_view(l@),
            volumes@.len() <= l@.len(),
            names_view(volumes@) == sidecar_volumes(stem@, volumes@.len() as nat),
            positions.len() == volumes@.len(),
            positions.no_duplicates(),
            forall|j: int|
                0 <= j < positions.len() ==> 0 <= #[trigger] positions[j] < lv.len() && lv[positions[j]]
                    == sidecar_name(stem@, (j + 1) as nat),
        ensures
            !lv.contains(sidecar_name(stem@, volumes@.len() as nat + 1)),
        decreases l@.len() - volumes@.len(),
    {
        if volumes.len() == l.len() {
            proof {
                let next = sidecar_name(stem@, volumes@.len() as nat + 1);
                if lv.contains(next) {
                    let q = choose|q: int| 0 <= q < lv.len() && lv[q] == next;
                    assert forall|j: int| 0 <= j < positions.len() implies positions[j] != q by {
                        lemma_sidecar_names_differ(stem@, (j + 1) as nat, volumes@.len() as nat + 1);
                    }
                    let more = positions.push(q);
                    assert forall|a: int, b: int| 0 <= a < b < more.len() implies more[a] != more[b] by {
                        if b == more.len() - 1 {
                        } else {
                            assert(more[a] == positions[a] && more[b] == positions[b]);
                        }
                    }
                    assert forall|i: int| 0 <= i < more.len() implies 0 <= #[trigger] more[i] < lv.len() by {
                        if i < positions.len() {
                            assert(more[i] == positions[i]);
                        }
                    }
                    lemma_distinct_positions_bounded(more, lv.len() as int);
                }
            }
            break;
        }
        let index = volumes.len() + 1;
        let candidate = sidecar_chars(&stem, index as u64);
        match listing_position(l, &candidate) {
            Some(p) => {
                proof {
                    assert(lv[p as int] == candidate@);
                    assert forall|j: int| 0 <= j < positions.len() implies positions[j] != p by {
                        lemma_sidecar_names_differ(stem@, (j + 1) as nat, index as nat);
                    }
                    let old_positions = positions;
                    positions = positions.push(p as int);
                    assert forall|a: int, b: int| 0 <= a < b < positions.len() implies positions[a] != positions[b] by {
                        if b == positions.len() - 1 {
                        } else {
                            assert(positions[a] == old_positions[a] && positions[b] == old_positions[b]);
                        }
                    }
                    assert forall|j: int| 0 <= j < positions.len() implies 0 <= #[trigger] positions[j] < lv.len() && lv[positions[j]]
                        == sidecar_name(stem@, (j + 1) as nat) by {
                        if j < old_positions.len() {
                            assert(positions[j] == old_positions[j]);
                        }
                    }
                    lemma_distinct_positions_bounded(positions, lv.len() as int);
                }
                let ghost before = names_view(volumes@);
                let entry = string_from_chars(&candidate);
                volumes.push(entry);
                assert(names_view(volumes@) =~= before.push(candidate@));
                assert(names_view(volumes@) =~= sidecar_volumes(stem@, volumes@.len() as nat));
            },
            None => {
                proof {
                    if lv.contains(candidate@) {
                        let q = choose|q: int| 0 <= q < lv.len() && lv[q] == candidate@;
                        assert(l@[q]@ == lv[q]);
                    }
                }
                break;
            },
        }
    }
    let ghost k = volumes@.len() as nat;
    assert(sidecar_run(stem@, lv, k)) by {
        assert forall|i: nat| 1 <= i <= k implies lv.contains(#[trigger] sidecar_name(stem@, i)) by {
            assert(lv[positions[i - 1]] == sidecar_name(stem@, i));
        }
    }
    if volumes.len() == 0 {
        return None;
    }
    let zip: Vec<char> = vec!['.', 'z', 'i', 'p'];
    let final_name = concat_chars(&stem, &zip);
    assert(final_name@ =~= final_zip_name(stem@));
    match listing_position(l, &final_name) {
        Some(p) => {
            assert(lv[p as int] == final_name@);
            let ghost before = names_view(volumes@);
            let entry = string_from_chars(&final_name);
            volumes.push(entry);
            assert(names_view(volumes@) =~= before.push(final_name@));
            assert(names_view(volumes@) =~= sidecar_volumes(stem@, k).push(final_zip_name(stem@)));
            Some(volumes)
        },
        None => {
            proof {
                if lv.contains(final_name@) {
                    let q = choose|q: int| 0 <= q < lv.len() && lv[q] == final_name@;
                    assert(l@[q]@ == lv[q]);
                }
            }
            None
        },
    }
}

/// Whether a (lower-cased) file name ends in a split-ZIP sidecar extension:
/// `z` and two digits after its last dot.
pub open spec fn sidecar_extension_spec(name: Seq<char>) -> bool {
    match last_index_of(name, '.') {
        Some(i) => {
            let ext = name.subrange(i + 1, name.len() as int);
            &&& ext.len() == 3
            &&& ext[0] == 'z' || ext[0] == 'Z'
            &&& is_ascii_digit(ext[1])
            &&& is_ascii_digit(ext[2])
        },
        None => false,
    }
}

/// Whether a file name is a numbered ZIP stream volume: three digits after
/// its last dot, and a stem ending in `.zip` (ignoring ASCII case).
pub open spec fn numbered_zip_volume_spec(name: Seq<char>) -> bool {
    match last_index_of(name, '.') {
        Some(i) => {
            let base = name.subrange(0, i);
            let suffix = name.subrange(i + 1, name.len() as int);
            &&& ends_with(ascii_lower(base), seq!['.', 'z', 'i', 'p'])
            &&& suffix.len() == 3
            &&& all_ascii_digits(suffix)
        },
        None => false,
    }
}

/// Whether a file name ends in a split-ZIP sidecar extension.
pub fn is_split_zip_sidecar_extension(filename: &str) -> (r: bool)
    ensures
        r == sidecar_extension_spec(filename@),
{
    let name = chars_of(filename);
    proof {
        lemma_last_index_of(name@, '.');
    }
    match rfind_char(&name, '.') {
        Some(dot) => {
            let n = name.len();
            assert(dot < n);
            let start = dot + 1;
            let ext = slice_chars(&name, start, name.len());
            ext.len() == 3 && (ext[0] == 'z' || ext[0] == 'Z') && '0' <= ext[1] && ext[1] <= '9' && '0' <= ext[2]
                && ext[2] <= '9'
        },
        None => false,
    }
}

/// Whether a file name is a numbered ZIP stream volume (`name.zip.001`).
pub fn is_numbered_zip_volume_name(filename: &str) -> (r: bool)
    ensures
        r == numbered_zip_volume_spec(filename@),
{
    let name = chars_of(filename);
    proof {
        lemma_last_index_of(name@, '.');
    }
    match rfind_char(&name, '.') {
        Some(dot) => {
            let base = slice_chars(&name, 0, dot);
            let suffix = slice_chars(&name, dot + 1, name.len());
            let lower = to_ascii_lower(&base);
            let zip: Vec<char> = vec!['.', 'z', 'i', 'p'];
            chars_end_with(&lower, &zip) && suffix.len() == 3 && crate::text::chars_all_digits(&suffix)
        },
        None => false,
    }
}

/// Whether the names in the listing include `name`.
pub open spec fn listed(listing: Option<Seq<Seq<char>>>, name: Seq<char>) -> bool {
    listing matches Some(l) && l.contains(name)
}

/// Whether the file at `path` is a split-ZIP volume or the final `.zip` of
/// a split set, given the names of the regular files in its directory.
/// Names are compared ignoring ASCII case.
pub open spec fn split_zip_archive_spec(path: Seq<char>, listing: Option<Seq<Seq<char>>>) -> bool {
    match file_name_spec(path) {
        None => false,
        Some(name) => {
            let lower = ascii_lower(name);
            ||| (listing matches Some(l) && split_zip_set_spec(lower, l) matches Some(v) && v.len() > 1)
            ||| sidecar_extension_spec(lower)
            ||| numbered_zip_volume_spec(lower)
            ||| (extension_of_name(name) matches Some(e) && ascii_lower(e) == seq!['z', 'i', 'p'] && listed(
                listing,
                file_stem_of(name) + seq!['.', 'z', '0', '1'],
            ))
        },
    }
}

/// Whether `path` points to a split-ZIP volume or to the final `.zip` of a
/// split set (a sibling `.z01` exists), given the names of the regular
/// files in its directory (`None` when it could not be read).
pub fn is_split_zip_archive_path(path: &str, listing: Option<&Vec<String>>) -> (r: bool)
    ensures
        r == split_zip_archive_spec(
            path@,
            match listing {
                Some(l) => Some(names_view(l@)),
                None => None,
            },
        ),
{
    let file_name = match file_name_of(path) {
        Some(n) => n,
        None => return false,
    };
    let name = chars_of(file_name.as_str());
    let lower_chars = to_ascii_lower(&name);
    let lower = string_from_chars(&lower_chars);
    if let Some(l) = listing {
        if is_split_zip_name(file_name.as_str(), l) {
            return true;
        }
    }
    if is_split_zip_sidecar_extension(lower.as_str()) {
        return true;
    }
    if is_numbered_zip_volume_name(lower.as_str()) {
        return true;
    }
    if let Some(ext) = extension_chars(&name) {
        let ext_lower = to_ascii_lower(&ext);
        let zip: Vec<char> = vec!['z', 'i', 'p'];
        if chars_eq(&ext_lower, &zip) {
            if let Some(l) = listing {
                let stem = file_stem_chars(&name);
                let z01: Vec<char> = vec!['.', 'z', '0', '1'];
                let sibling = concat_chars(&stem, &z01);
                match listing_position(l, &sibling) {
                    Some(p) => {
                        assert(names_view(l@)[p as int] == sibling@);
                        return true;
                    },
                    None => {
                        proof {
                            if names_view(l@).contains(sibling@) {
                                let q = choose|q: int| 0 <= q < names_view(l@).len() && names_view(l@)[q] == sibling@;
                                assert(l@[q]@ == names_view(l@)[q]);
                            }
                        }
                        return false;
                    },
                }
            }
        }
    }
    false
}

/// The directory part of a path, with its trailing separator
/// (`Path::parent`, ready for a file name to be appended).
pub open spec fn parent_prefix(path: Seq<char>) -> Seq<char> {
    match last_index_of(trim_end_char(path, '/'), '/') {
        Some(i) => path.subrange(0, i + 1),
        None => Seq::empty(),
    }
}

proof fn lemma_trim_end_is_prefix(s: Seq<char>, c: char)
    ensures
        trim_end_char(s, c).len() <= s.len(),
        trim_end_char(s, c) == s.subrange(0, trim_end_char(s, c).len() as int),
    decreases s.len(),
{
    if s.len() > 0 && s.last() == c {
        lemma_trim_end_is_prefix(s.drop_last(), c);
        assert(s.drop_last().subrange(0, trim_end_char(s, c).len() as int) =~= s.subrange(0, trim_end_char(s, c).len() as int));
    } else {
        assert(s.subrange(0, s.len() as int) =~= s);
    }
}

fn parent_prefix_chars(path: &[char]) -> (r: Vec<char>)
    ensures
        r@ == parent_prefix(path@),
{
    let trimmed = trim_end_matching(path, '/');
    proof {
        lemma_trim_end_is_prefix(path@, '/');
        lemma_last_index_of(trimmed@, '/');
    }
    match rfind_char(&trimmed, '/') {
        Some(i) => slice_chars(path, 0, i + 1),
        None => Vec::new(),
    }
}

/// The names in a directory listing, when there is one.
pub open spec fn listing_names(listing: Option<&Vec<String>>) -> Option<Seq<Seq<char>>> {
    match listing {
        Some(l) => Some(names_view(l@)),
        None => None,
    }
}

/// Each name with `prefix` in front.
pub open spec fn prefixed(prefix: Seq<char>, names: Seq<Seq<char>>) -> Seq<Seq<char>>
    decreases names.len(),
{
    if names.len() == 0 {
        Seq::empty()
    } else {
        prefixed(prefix, names.drop_last()).push(prefix + names.last())
    }
}

/// `r` holds the volume paths of the split-ZIP set that `path` belongs to:
/// the volume names of [`split_zip_discovery`], each in `path`'s directory.
pub open spec fn split_zip_volume_paths(path: Seq<char>, listing: Option<Seq<Seq<char>>>, r: Option<Seq<Seq<char>>>) -> bool {
    match file_name_spec(path) {
        None => r is None,
        Some(name) => exists|names: Option<Seq<Seq<char>>>|
            #[trigger] split_zip_discovery(name, listing, names) && match names {
                None => r is None,
                Some(v) => r == Some(prefixed(parent_prefix(path), v)),
            },
    }
}

proof fn lemma_volume_paths_witness(
    path: Seq<char>,
    listing: Option<Seq<Seq<char>>>,
    name: Seq<char>,
    names: Option<Seq<Seq<char>>>,
    r: Option<Seq<Seq<char>>>,
)
    requires
        file_name_spec(path) == Some(name),
        split_zip_discovery(name, listing, names),
        match names {
            None => r is None,
            Some(v) => r == Some(prefixed(parent_prefix(path), v)),
        },
    ensures
        split_zip_volume_paths(path, listing, r),
{
    let found = names;
    assert(split_zip_discovery(name, listing, found) && match found {
        None => r is None,
        Some(v) => r == Some(prefixed(parent_prefix(path), v)),
    });
    assert(file_name_spec(path)->0 == name);
}

/// Discovers the ordered volume paths of the split-ZIP set that `path`
/// belongs to, given the names of the regular files in its directory.
pub fn discover_split_zip_volumes(path: &str, listing: Option<&Vec<String>>) -> (r: Option<Vec<String>>)
    ensures
        split_zip_volume_paths(path@, listing_names(listing), opt_names_view(r)),
{
    let ghost lv = listing_names(listing);
    let file_name = match file_name_of(path) {
        Some(n) => n,
        None => return None,
    };
    let found = discover_split_zip_volume_names(file_name.as_str(), listing);
    let ghost names = opt_names_view(found);
    assert(split_zip_discovery(file_name@, lv, names));
    let names_found = match found {
        Some(v) => v,
        None => {
            assert(names is None);
            assert(file_name_spec(path@) == Some(file_name@));
            proof {
                lemma_volume_paths_witness(path@, lv, file_name@, names, None);
            }
            return None;
        },
    };
    let prefix = parent_prefix_chars(&chars_of(path));
    let mut paths: Vec<String> = Vec::new();
    let mut i: usize = 0;
    while i < names_found.len()
        invariant
            i <= names_found@.len(),
            prefix@ == parent_prefix(path@),
            names_view(paths@) == prefixed(parent_prefix(path@), names_view(names_found@).take(i as int)),
        decreases names_found@.len() - i,
    {
        let joined = concat_chars(&prefix, &chars_of(names_found[i].as_str()));
        let ghost before = names_view(paths@);
        let entry = string_from_chars(&joined);
        paths.push(entry);
        assert(names_view(paths@) =~= before.push(joined@));
        assert(names_view(names_found@).take(i as int + 1) =~= names_view(names_found@).take(i as int).push(
            names_found@[i as int]@,
        ));
        assert(names_view(names_found@).take(i as int + 1).drop_last() =~= names_view(names_found@).take(i as int));
        assert(names_view(paths@) =~= prefixed(parent_prefix(path@), names_view(names_found@).take(i as int + 1)));
        i += 1;
    }
    assert(names_view(names_found@).take(i as int) =~= names_view(names_found@));
    assert(names == Some(names_view(names_found@)));
    assert(file_name_spec(path@) == Some(file_name@));
    assert(opt_names_view(Some(paths)) == Some(prefixed(parent_prefix(path@), names_view(names_found@))));
    proof {
        lemma_volume_paths_witness(path@, lv, file_name@, names, opt_names_view(Some(paths)));
    }
    Some(paths)
}

impl ArchiveSource {
    /// The source for a path given by the user: the volume set when the
    /// path is part of a split-ZIP set whose volumes can all be found, else
    /// the path alone. `listing` holds the names of the regular files in the
    /// path's directory (`None` when it could not be read).
    pub fn from_path_autodetect(path: &str, listing: Option<&Vec<String>>) -> (r: ArchiveSource)
        ensures
            match r {
                ArchiveSource::VolumeSet(v) => split_zip_archive_spec(path@, listing_names(listing))
                    && split_zip_volume_paths(path@, listing_names(listing), Some(names_view(v@))),
                ArchiveSource::Path(p) => p@ == path@ && (!split_zip_archive_spec(path@, listing_names(listing))
                    || split_zip_volume_paths(path@, listing_names(listing), None)),
            },
            forall|volumes: Option<Seq<Seq<char>>>|
                #[trigger] split_zip_volume_paths(path@, listing_names(listing), volumes) ==> match r {
                    ArchiveSource::VolumeSet(v) => split_zip_archive_spec(path@, listing_names(listing)) && volumes == Some(
                        names_view(v@),
                    ),
                    ArchiveSource::Path(p) => p@ == path@ && !(split_zip_archive_spec(path@, listing_names(listing))
                        && volumes is Some),
                },
    {
        let r = if is_split_zip_archive_path(path, listing) {
            if let Some(volumes) = discover_split_zip_volumes(path, listing) {
                ArchiveSource::VolumeSet(volumes)
            } else {
                ArchiveSource::Path(path.to_string())
            }
        } else {
            ArchiveSource::Path(path.to_string())
        };
        proof {
            assert forall|volumes: Option<Seq<Seq<char>>>|
                #[trigger] split_zip_volume_paths(path@, listing_names(listing), volumes) implies match r {
                    ArchiveSource::VolumeSet(v) => split_zip_archive_spec(path@, listing_names(listing)) && volumes == Some(
                        names_view(v@),
                    ),
                    ArchiveSource::Path(p) => p@ == path@ && !(split_zip_archive_spec(path@, listing_names(listing))
                        && volumes is Some),
                } by {
                lemma_autodetect_agrees_with_split_zip(
                    path@,
                    listing_names(listing),
                    split_zip_archive_spec(path@, listing_names(listing)),
                    volumes,
                    r,
                );
            }
        }
        r
    }
}

/// The sidecar scan finds at most one set.
proof fn lemma_sidecar_fallback_is_functional(
    stem: Seq<char>,
    listing: Seq<Seq<char>>,
    r1: Option<Seq<Seq<char>>>,
    r2: Option<Seq<Seq<char>>>,
)
    requires
        sidecar_fallback(stem, listing, r1),
        sidecar_fallback(stem, listing, r2),
    ensures
        r1 == r2,
{
    let k1 = choose|k: nat|
        #[trigger] sidecar_run(stem, listing, k) && if k > 0 && listing.contains(final_zip_name(stem)) {
            r1 == Some(sidecar_volumes(stem, k).push(final_zip_name(stem)))
        } else {
            r1 is None
        };
    let k2 = choose|k: nat|
        #[trigger] sidecar_run(stem, listing, k) && if k > 0 && listing.contains(final_zip_name(stem)) {
            r2 == Some(sidecar_volumes(stem, k).push(final_zip_name(stem)))
        } else {
            r2 is None
        };
    if k1 < k2 {
        assert(listing.contains(sidecar_name(stem, (k1 + 1) as nat)));
    } else if k2 < k1 {
        assert(listing.contains(sidecar_name(stem, (k2 + 1) as nat)));
    }
}

/// Split-ZIP discovery finds at most one set.
pub proof fn lemma_split_zip_discovery_is_functional(
    name: Seq<char>,
    listing: Option<Seq<Seq<char>>>,
    r1: Option<Seq<Seq<char>>>,
    r2: Option<Seq<Seq<char>>>,
)
    requires
        split_zip_discovery(name, listing, r1),
        split_zip_discovery(name, listing, r2),
    ensures
        r1 == r2,
{
    if let Some(l) = listing {
        let d1 = choose|d: Option<Seq<Seq<char>>>|
            #[trigger] discovery_spec(name, Some(l), d) && if (d matches Some(v) && v.len() > 1 && any_names_contain_zip(v)) {
                r1 == d
            } else {
                sidecar_fallback(file_stem_of(name), l, r1)
            };
        let d2 = choose|d: Option<Seq<Seq<char>>>|
            #[trigger] discovery_spec(name, Some(l), d) && if (d matches Some(v) && v.len() > 1 && any_names_contain_zip(v)) {
                r2 == d
            } else {
                sidecar_fallback(file_stem_of(name), l, r2)
            };
        lemma_discovery_is_functional(name, Some(l), d1, d2);
        if !(d1 matches Some(v) && v.len() > 1 && any_names_contain_zip(v)) {
            lemma_sidecar_fallback_is_functional(file_stem_of(name), l, r1, r2);
        }
    }
}

/// The volume paths of a split-ZIP set are a function of the path and the
/// listing.
pub proof fn lemma_split_zip_volume_paths_are_functional(
    path: Seq<char>,
    listing: Option<Seq<Seq<char>>>,
    r1: Option<Seq<Seq<char>>>,
    r2: Option<Seq<Seq<char>>>,
)
    requires
        split_zip_volume_paths(path, listing, r1),
        split_zip_volume_paths(path, listing, r2),
    ensures
        r1 == r2,
{
    if let Some(name) = file_name_spec(path) {
        let n1 = choose|names: Option<Seq<Seq<char>>>|
            #[trigger] split_zip_discovery(name, listing, names) && match names {
                None => r1 is None,
                Some(v) => r1 == Some(prefixed(parent_prefix(path), v)),
            };
        let n2 = choose|names: Option<Seq<Seq<char>>>|
            #[trigger] split_zip_discovery(name, listing, names) && match names {
                None => r2 is None,
                Some(v) => r2 == Some(prefixed(parent_prefix(path), v)),
            };
        lemma_split_zip_discovery_is_functional(name, listing, n1, n2);
    }
}

/// Autodetection agrees with the split-ZIP test and volume discovery: for
/// what those two give on the same path and listing (`accepted` and
/// `volumes`), the source is the volume set exactly when the test accepts
/// the path and discovery finds its volumes, and is the path otherwise.
pub proof fn lemma_autodetect_agrees_with_split_zip(
    path: Seq<char>,
    listing: Option<Seq<Seq<char>>>,
    accepted: bool,
    volumes: Option<Seq<Seq<char>>>,
    source: ArchiveSource,
)
    requires
        accepted == split_zip_archive_spec(path, listing),
        split_zip_volume_paths(path, listing, volumes),
        match source {
            ArchiveSource::VolumeSet(v) => split_zip_archive_spec(path, listing) && split_zip_volume_paths(
                path,
                listing,
                Some(names_view(v@)),
            ),
            ArchiveSource::Path(p) => p@ == path && (!split_zip_archive_spec(path, listing) || split_zip_volume_paths(
                path,
                listing,
                None,
            )),
        },
    ensures
        match source {
            ArchiveSource::VolumeSet(v) => accepted && volumes == Some(names_view(v@)),
            ArchiveSource::Path(p) => p@ == path && !(accepted && volumes is Some),
        },
{
    match source {
        ArchiveSource::VolumeSet(v) => {
            lemma_split_zip_volume_paths_are_functional(path, listing, volumes, Some(names_view(v@)));
        },
        ArchiveSource::Path(p) => {
            if accepted {
                lemma_split_zip_volume_paths_are_functional(path, listing, volumes, None);
            }
        },
    }
}

} // verus!
