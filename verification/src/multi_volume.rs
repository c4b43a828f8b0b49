//! Multi-volume and split-archive discovery.
//!
//! Split and multi-part archive sets — standard split ZIP (`.z01`/.../`.zip`),
//! numbered 7z/zip stream volumes (`.7z.001`/...), and RAR parts (`.partNN`
//! and old-style `.rNN`) — are discovered and ordered from the names found in
//! the archive's directory. Reading the directory is the caller's part: it
//! hands the entry names in, and gets the ordered member names back.
use crate::paths::extension_of_name;
use crate::text::{
    all_ascii_digits, ascii_lower, chars_all_digits, chars_end_with, chars_eq, chars_of, ends_with,
    last_index_of, lemma_last_index_of, parse_u32_digits, parse_u32_spec, rfind_char, slice_chars,
    starts_with, string_from_chars, to_ascii_lower,
};
use vstd::prelude::*;

verus! {

/// One recognized member of a standard split ZIP set.
#[derive(Debug, Clone, Copy, PartialEq, Eq, Structural)]
pub enum SplitZipPart {
    /// A numbered `.zNN` sidecar volume.
    Sidecar(u32),
    /// The final `.zip` volume.
    Final,
}

/// `str::rsplit_once('.')`.
pub open spec fn rsplit_dot(s: Seq<char>) -> Option<(Seq<char>, Seq<char>)> {
    match last_index_of(s, '.') {
        Some(i) => Some((s.subrange(0, i), s.subrange(i + 1, s.len() as int))),
        None => None,
    }
}

pub open spec fn zip_word() -> Seq<char> {
    seq!['z', 'i', 'p']
}

/// Parse of a (lower-cased) split-ZIP volume name into its base and part.
pub open spec fn split_zip_volume_spec(name: Seq<char>) -> Option<(Seq<char>, SplitZipPart)> {
    match rsplit_dot(name) {
        None => None,
        Some((base, ext)) => if ext == zip_word() {
            Some((base, SplitZipPart::Final))
        } else if ext.len() > 0 && ext[0] == 'z' {
            let number = ext.drop_first();
            if number.len() < 2 || !all_ascii_digits(number) {
                None
            } else {
                match parse_u32_spec(number) {
                    Some(index) => if index > 0 {
                        Some((base, SplitZipPart::Sidecar(index)))
                    } else {
                        None
                    },
                    None => None,
                }
            }
        } else {
            None
        },
    }
}

/// Parse of a numbered stream-volume name (`<base>.7z.NNN`, `<base>.zip.NNN`).
pub open spec fn numbered_volume_spec(name: Seq<char>) -> Option<(Seq<char>, u32)> {
    match rsplit_dot(name) {
        None => None,
        Some((base, number)) => if !(ends_with(base, seq!['.', '7', 'z']) || ends_with(base, seq!['.', 'z', 'i', 'p']))
            || number.len() != 3 || !all_ascii_digits(number) {
            None
        } else {
            match parse_u32_spec(number) {
                Some(part) => if part > 0 {
                    Some((base, part))
                } else {
                    None
                },
                None => None,
            }
        },
    }
}

/// Index of the last occurrence of `needle` as a contiguous run of `hay`.
pub open spec fn rfind_seq(hay: Seq<char>, needle: Seq<char>) -> Option<int>
    decreases hay.len(),
{
    if needle.len() > hay.len() {
        None
    } else if ends_with(hay, needle) {
        Some(hay.len() - needle.len())
    } else if hay.len() == 0 {
        None
    } else {
        rfind_seq(hay.drop_last(), needle)
    }
}

pub open spec fn dot_part() -> Seq<char> {
    seq!['.', 'p', 'a', 'r', 't']
}

pub open spec fn dot_rar() -> Seq<char> {
    seq!['.', 'r', 'a', 'r']
}

/// Parse of a `<base>.partNN.rar` name.
pub open spec fn part_rar_spec(name: Seq<char>) -> Option<(Seq<char>, u32)> {
    if !ends_with(name, dot_rar()) {
        None
    } else {
        let stem = name.subrange(0, name.len() - 4);
        match rfind_seq(stem, dot_part()) {
            None => None,
            Some(marker) => {
                let base = stem.subrange(0, marker);
                let number = stem.subrange(marker + 5, stem.len() as int);
                if base.len() == 0 || number.len() == 0 || !all_ascii_digits(number) {
                    None
                } else {
                    match parse_u32_spec(number) {
                        Some(n) => Some((base, n)),
                        None => None,
                    }
                }
            },
        }
    }
}

/// Base of an old-style `<base>.rar` first volume.
pub open spec fn old_style_rar_base_spec(name: Seq<char>) -> Option<Seq<char>> {
    if ends_with(name, dot_rar()) && name.len() > 4 {
        Some(name.subrange(0, name.len() - 4))
    } else {
        None
    }
}

/// Part number of an old-style `<base>.rNN` continuation volume.
pub open spec fn old_rar_part_spec(name: Seq<char>, base: Seq<char>) -> Option<u32> {
    let rest = base + seq!['.', 'r'];
    if !starts_with(name, rest) {
        None
    } else {
        let suffix = name.subrange(rest.len() as int, name.len() as int);
        if suffix.len() != 2 || !all_ascii_digits(suffix) {
            None
        } else {
            parse_u32_spec(suffix)
        }
    }
}

/// Part map built from a directory listing: each listed name whose
/// lower-cased form `key` recognizes is recorded under that part; a later
/// name with the same part replaces an earlier one.
pub open spec fn part_map(listing: Seq<Seq<char>>, key: spec_fn(Seq<char>) -> Option<u32>) -> Map<u32, Seq<char>>
    decreases listing.len(),
{
    if listing.len() == 0 {
        Map::empty()
    } else {
        let m = part_map(listing.drop_last(), key);
        match key(ascii_lower(listing.last())) {
            Some(part) => m.insert(part, listing.last()),
            None => m,
        }
    }
}

/// `r` lists the values of `m` in increasing key order.
pub open spec fn values_in_key_order(m: Map<u32, Seq<char>>, r: Seq<Seq<char>>) -> bool {
    exists|keys: Seq<u32>|
        {
            &&& keys.len() == r.len()
            &&& forall|i: int, j: int| 0 <= i < j < keys.len() ==> keys[i] < keys[j]
            &&& forall|i: int| 0 <= i < keys.len() ==> #[trigger] m.contains_key(keys[i]) && r[i] == m[keys[i]]
            &&& forall|k: u32| m.contains_key(k) ==> keys.contains(k)
        }
}

pub open spec fn split_zip_sidecar_key(base: Seq<char>) -> spec_fn(Seq<char>) -> Option<u32> {
    |n: Seq<char>|
        match split_zip_volume_spec(n) {
            Some((b, SplitZipPart::Sidecar(i))) => if b == base {
                Some(i)
            } else {
                None
            },
            _ => None,
        }
}

pub open spec fn split_zip_final_key(base: Seq<char>) -> spec_fn(Seq<char>) -> Option<u32> {
    |n: Seq<char>|
        match split_zip_volume_spec(n) {
            Some((b, SplitZipPart::Final)) => if b == base {
                Some(0u32)
            } else {
                None
            },
            _ => None,
        }
}

pub open spec fn numbered_key(base: Seq<char>) -> spec_fn(Seq<char>) -> Option<u32> {
    |n: Seq<char>|
        match numbered_volume_spec(n) {
            Some((b, part)) => if b == base {
                Some(part)
            } else {
                None
            },
            None => None,
        }
}

pub open spec fn part_rar_key(base: Seq<char>) -> spec_fn(Seq<char>) -> Option<u32> {
    |n: Seq<char>|
        match part_rar_spec(n) {
            Some((b, part)) => if b == base {
                Some(part)
            } else {
                None
            },
            None => None,
        }
}

pub open spec fn old_rar_key(base: Seq<char>) -> spec_fn(Seq<char>) -> Option<u32> {
    |n: Seq<char>| old_rar_part_spec(n, base)
}

/// The members of a standard split ZIP set named by `lower_name`: the
/// sidecars `1..=max` in order, then the final `.zip`; `None` unless the set is
/// complete.
pub open spec fn split_zip_set_spec(lower_name: Seq<char>, listing: Seq<Seq<char>>) -> Option<Seq<Seq<char>>> {
    match split_zip_volume_spec(lower_name) {
        None => None,
        Some((base, _)) => {
            let sidecars = part_map(listing, split_zip_sidecar_key(base));
            let finals = part_map(listing, split_zip_final_key(base));
            if !finals.contains_key(0u32) || sidecars.dom().len() == 0 {
                None
            } else {
                let max = sidecars.dom().len();
                if forall|k: u32| 1 <= k <= max ==> #[trigger] sidecars.contains_key(k) {
                    Some(Seq::new(max, |i: int| sidecars[(i + 1) as u32]).push(finals[0u32]))
                } else {
                    None
                }
            }
        },
    }
}

/// Parses a lower-cased split-ZIP volume name.
pub fn parse_split_zip_volume_name(name: &[char]) -> (r: Option<(Vec<char>, SplitZipPart)>)
    ensures
        match r {
            Some((base, part)) => split_zip_volume_spec(name@) == Some((base@, part)),
            None => split_zip_volume_spec(name@) is None,
        },
{
    let dot = match rfind_char(name, '.') {
        Some(d) => d,
        None => return None,
    };
    proof {
        lemma_last_index_of(name@, '.');
    }
    assert(dot < name.len());
    let base = slice_chars(name, 0, dot);
    let ext = slice_chars(name, dot + 1, name.len());
    if ext.len() == 3 && ext[0] == 'z' && ext[1] == 'i' && ext[2] == 'p' {
        assert(ext@ =~= zip_word());
        return Some((base, SplitZipPart::Final));
    }
    assert(ext@ != zip_word()) by {
        if ext@ == zip_word() {
            assert(ext@[0] == 'z' && ext@[1] == 'i' && ext@[2] == 'p');
        }
    }
    if ext.len() == 0 || ext[0] != 'z' {
        return None;
    }
    let number = slice_chars(&ext, 1, ext.len());
    assert(number@ =~= ext@.drop_first());
    if number.len() < 2 || !chars_all_digits(&number) {
        return None;
    }
    match parse_u32_digits(&number) {
        Some(index) => if index > 0 {
            Some((base, SplitZipPart::Sidecar(index)))
        } else {
            None
        },
        None => None,
    }
}

/// Parses a lower-cased numbered stream-volume name (`<base>.7z.NNN` or
/// `<base>.zip.NNN`) into its base and part number.
pub fn parse_numbered_volume_chars(name: &[char]) -> (r: Option<(Vec<char>, u32)>)
    ensures
        match r {
            Some((base, part)) => numbered_volume_spec(name@) == Some((base@, part)),
            None => numbered_volume_spec(name@) is None,
        },
{
    let dot = match rfind_char(name, '.') {
        Some(d) => d,
        None => return None,
    };
    proof {
        lemma_last_index_of(name@, '.');
    }
    let base = slice_chars(name, 0, dot);
    let number = slice_chars(name, dot + 1, name.len());
    let seven = vec!['.', '7', 'z'];
    let zip = vec!['.', 'z', 'i', 'p'];
    assert(seven@ =~= seq!['.', '7', 'z']);
    assert(zip@ =~= seq!['.', 'z', 'i', 'p']);
    if !(chars_end_with(&base, &seven) || chars_end_with(&base, &zip)) || number.len() != 3 || !chars_all_digits(&number) {
        return None;
    }
    match parse_u32_digits(&number) {
        Some(part) => if part > 0 {
            Some((base, part))
        } else {
            None
        },
        None => None,
    }
}

/// Parses a numbered stream-volume name (`<base>.7z.NNN` or
/// `<base>.zip.NNN`).
pub fn parse_numbered_archive_volume_name(name: &str) -> (r: Option<(String, u32)>)
    ensures
        match r {
            Some((base, part)) => numbered_volume_spec(name@) == Some((base@, part)),
            None => numbered_volume_spec(name@) is None,
        },
{
    let chars = chars_of(name);
    match parse_numbered_volume_chars(&chars) {
        Some((base, part)) => Some((string_from_chars(&base), part)),
        None => None,
    }
}

/// `Path::extension` of `value` equals `7z` ignoring ASCII case.
pub open spec fn has_7z_extension_spec(value: Seq<char>) -> bool {
    match extension_of_name(value) {
        Some(e) => ascii_lower(e) == seq!['7', 'z'],
        None => false,
    }
}

/// Whether the single-component name `value` has the extension `7z`
/// (ignoring ASCII case).
pub fn has_7z_extension(value: &[char]) -> (r: bool)
    ensures
        r == has_7z_extension_spec(value@),
{
    match crate::paths::extension_chars(value) {
        Some(e) => {
            let lower = to_ascii_lower(&e);
            let seven = vec!['7', 'z'];
            assert(seven@ =~= seq!['7', 'z']);
            chars_eq(&lower, &seven)
        },
        None => false,
    }
}

/// Numbered volume name whose base is itself a `.7z` name.
pub open spec fn numbered_7z_volume_spec(name: Seq<char>) -> Option<(Seq<char>, u32)> {
    match numbered_volume_spec(name) {
        Some((base, part)) => if has_7z_extension_spec(base) {
            Some((base, part))
        } else {
            None
        },
        None => None,
    }
}

/// Parses a numbered 7z volume name (`<base>.7z.NNN`).
pub fn parse_numbered_7z_volume_name(name: &str) -> (r: Option<(String, u32)>)
    ensures
        match r {
            Some((base, part)) => numbered_7z_volume_spec(name@) == Some((base@, part)),
            None => numbered_7z_volume_spec(name@) is None,
        },
{
    let chars = chars_of(name);
    match parse_numbered_volume_chars(&chars) {
        Some((base, part)) => if has_7z_extension(&base) {
            Some((string_from_chars(&base), part))
        } else {
            None
        },
        None => None,
    }
}

/// Last position at which `needle` occurs in `hay`.
pub fn rfind_chars(hay: &[char], needle: &[char]) -> (r: Option<usize>)
    ensures
        match r {
            Some(i) => rfind_seq(hay@, needle@) == Some(i as int),
            None => rfind_seq(hay@, needle@) is None,
        },
{
    let mut end = hay.len();
    assert(hay@.subrange(0, hay.len() as int) =~= hay@);
    loop
        invariant
            end <= hay.len(),
            rfind_seq(hay@.subrange(0, end as int), needle@) == rfind_seq(hay@, needle@),
        decreases end,
    {
        let prefix = slice_chars(hay, 0, end);
        if needle.len() > end {
            return None;
        }
        if chars_end_with(&prefix, needle) {
            return Some(end - needle.len());
        }
        if end == 0 {
            return None;
        }
        assert(prefix@.drop_last() =~= hay@.subrange(0, end - 1));
        end -= 1;
    }
}

/// Parses a lower-cased `<base>.partNN.rar` name.
pub fn parse_part_rar_name(name: &[char]) -> (r: Option<(Vec<char>, u32)>)
    ensures
        match r {
            Some((base, part)) => part_rar_spec(name@) == Some((base@, part)),
            None => part_rar_spec(name@) is None,
        },
{
    let rar = vec!['.', 'r', 'a', 'r'];
    assert(rar@ =~= dot_rar());
    if !chars_end_with(name, &rar) {
        return None;
    }
    let stem = slice_chars(name, 0, name.len() - 4);
    let part = vec!['.', 'p', 'a', 'r', 't'];
    assert(part@ =~= dot_part());
    let marker = match rfind_chars(&stem, &part) {
        Some(m) => m,
        None => return None,
    };
    proof {
        lemma_rfind_seq(stem@, dot_part());
    }
    let base = slice_chars(&stem, 0, marker);
    let number = slice_chars(&stem, marker + 5, stem.len());
    if base.len() == 0 || number.len() == 0 || !chars_all_digits(&number) {
        return None;
    }
    match parse_u32_digits(&number) {
        Some(n) => Some((base, n)),
        None => None,
    }
}

pub proof fn lemma_rfind_seq(hay: Seq<char>, needle: Seq<char>)
    ensures
        rfind_seq(hay, needle) matches Some(i) ==> 0 <= i && i + needle.len() <= hay.len(),
    decreases hay.len(),
{
    if needle.len() <= hay.len() && !ends_with(hay, needle) && hay.len() > 0 {
        lemma_rfind_seq(hay.drop_last(), needle);
    }
}

/// Base of an old-style `<base>.rar` name.
pub fn old_style_rar_base(lower_name: &[char]) -> (r: Option<Vec<char>>)
    ensures
        match r {
            Some(base) => old_style_rar_base_spec(lower_name@) == Some(base@),
            None => old_style_rar_base_spec(lower_name@) is None,
        },
{
    let rar = vec!['.', 'r', 'a', 'r'];
    assert(rar@ =~= dot_rar());
    if chars_end_with(lower_name, &rar) && lower_name.len() > 4 {
        Some(slice_chars(lower_name, 0, lower_name.len() - 4))
    } else {
        None
    }
}

/// Part number of an old-style `<base>.rNN` continuation name.
pub fn parse_old_rar_part_name(name: &[char], base: &[char]) -> (r: Option<u32>)
    ensures
        r == old_rar_part_spec(name@, base@),
{
    let mut prefix = slice_chars(base, 0, base.len());
    assert(base@.subrange(0, base.len() as int) =~= base@);
    prefix.push('.');
    prefix.push('r');
    assert(prefix@ =~= base@ + seq!['.', 'r']);
    if !crate::text::chars_start_with(name, &prefix) {
        return None;
    }
    let suffix = slice_chars(name, prefix.len(), name.len());
    if suffix.len() != 2 || !chars_all_digits(&suffix) {
        return None;
    }
    parse_u32_digits(&suffix)
}

/// Parts recorded by part number, in a map ordered by part.
pub struct PartTable {
    parts: std::collections::BTreeMap<u32, String>,
}

/// Part numbers are ordered as integers: the map's key order is `<` on
/// `u32`, and a strictly increasing key sequence is increasing by `<`.
proof fn lemma_part_keys_ordered()
    ensures
        vstd::std_specs::btree::key_obeys_cmp_spec::<u32>(),
        vstd::laws_cmp::obeys_cmp::<u32>(),
        forall|s: Seq<u32>|
            vstd::std_specs::btree::increasing_seq(s) ==> forall|i: int, j: int| 0 <= i < j < s.len() ==> s[i] < s[j],
{
    broadcast use vstd::laws_cmp::group_laws_cmp;
    broadcast use vstd::std_specs::btree::axiom_key_obeys_cmp_spec_meaning;
    broadcast use vstd::std_specs::btree::axiom_increasing_seq_meaning;

    assert forall|s: Seq<u32>| vstd::std_specs::btree::increasing_seq(s) implies forall|i: int, j: int|
        0 <= i < j < s.len() ==> s[i] < s[j] by {
        assert forall|i: int, j: int| 0 <= i < j < s.len() implies s[i] < s[j] by {
            assert(vstd::std_specs::cmp::OrdSpec::cmp_spec(&s[i], &s[j]) is Less);
        }
    }
}

/// A strictly increasing sequence of positive part numbers has its `i`-th
/// number at least `i + 1`.
proof fn lemma_increasing_positive_keys(keys: Seq<u32>, i: int)
    requires
        0 <= i < keys.len(),
        forall|a: int, b: int| 0 <= a < b < keys.len() ==> keys[a] < keys[b],
        forall|c: int| 0 <= c < keys.len() ==> keys[c] >= 1,
    ensures
        keys[i] >= i + 1,
    decreases i,
{
    if i > 0 {
        lemma_increasing_positive_keys(keys, i - 1);
    }
}

impl PartTable {
    pub closed spec fn as_map(&self) -> Map<u32, Seq<char>> {
        self.parts@.map_values(|s: String| s@)
    }

    pub fn new() -> (r: Self)
        ensures
            r.as_map() == Map::<u32, Seq<char>>::empty(),
    {
        let r = PartTable { parts: std::collections::BTreeMap::new() };
        assert(r.as_map() =~= Map::<u32, Seq<char>>::empty());
        r
    }

    /// Records `name` under `part`, replacing an earlier name for that part.
    pub fn insert(&mut self, part: u32, name: String)
        ensures
            final(self).as_map() == old(self).as_map().insert(part, name@),
    {
        proof {
            lemma_part_keys_ordered();
        }
        let ghost before = self.parts@;
        self.parts.insert(part, name);
        assert(self.as_map() =~= before.map_values(|s: String| s@).insert(part, self.parts@[part]@));
    }

    /// The number of parts recorded.
    pub fn len(&self) -> (r: usize)
        ensures
            r == self.as_map().dom().len(),
    {
        proof {
            lemma_part_keys_ordered();
            assert(self.as_map().dom() =~= self.parts@.dom());
        }
        self.parts.len()
    }

    /// The name recorded under `part`.
    pub fn get(&self, part: u32) -> (r: Option<&String>)
        ensures
            match r {
                Some(s) => self.as_map().contains_key(part) && s@ == self.as_map()[part],
                None => !self.as_map().contains_key(part),
            },
    {
        proof {
            lemma_part_keys_ordered();
        }
        self.parts.get(&part)
    }

    /// The number of parts recorded, when every part number is positive.
    pub fn positive_part_count(&self) -> (r: usize)
        requires
            forall|k: u32| self.as_map().contains_key(k) ==> k >= 1,
        ensures
            r == self.as_map().dom().len(),
            r <= u32::MAX,
    {
        proof {
            lemma_part_keys_ordered();
        }
        let values = self.parts.values();
        let n = self.parts.len();
        proof {
            let m = self.parts@;
            let keys = choose|key_seq: Seq<u32>|
                {
                    &&& vstd::std_specs::btree::increasing_seq(key_seq)
                    &&& key_seq.to_set() == m.dom()
                    &&& key_seq.no_duplicates()
                    &&& vstd::std_specs::iter::IteratorSpec::remaining(&values) == key_seq.map(|i: int, k| &m[k])
                };
            assert(self.as_map().dom() =~= m.dom());
            keys.unique_seq_to_set();
            if n > 0 {
                assert forall|c: int| 0 <= c < keys.len() implies keys[c] >= 1 by {
                    assert(keys.to_set().contains(keys[c]));
                    assert(self.as_map().contains_key(keys[c]));
                }
                lemma_increasing_positive_keys(keys, keys.len() - 1);
            }
        }
        n
    }

    /// The recorded names in increasing part order.
    pub fn into_names(self) -> (r: Vec<String>)
        ensures
            values_in_key_order(self.as_map(), r@.map_values(|s: String| s@)),
    {
        proof {
            lemma_part_keys_ordered();
        }
        let m = &self.parts;
        let mut r: Vec<String> = Vec::new();
        let ghost vals = vstd::std_specs::iter::IteratorSpec::remaining(&vstd::std_specs::btree::spec_values_iter(m));
        for v in it: m.values()
            invariant
                it.seq() == vals,
                r@.len() == it.index(),
                it.index() <= vals.len(),
                forall|j: int| 0 <= j < it.index() ==> r@[j] == *vals[j],
        {
            r.push(v.clone());
        }
        proof {
            let key_seq = choose|key_seq: Seq<u32>|
                {
                    &&& vstd::std_specs::btree::increasing_seq(key_seq)
                    &&& key_seq.to_set() == m@.dom()
                    &&& key_seq.no_duplicates()
                    &&& vals == key_seq.map(|i: int, k| &m@[k])
                };
            let mm = m@.map_values(|s: String| s@);
            let rr = r@.map_values(|s: String| s@);
            assert forall|i: int| 0 <= i < key_seq.len() implies #[trigger] mm.contains_key(key_seq[i]) && rr[i] == mm[key_seq[i]] by {
                assert(key_seq.to_set().contains(key_seq[i]));
                assert(vals[i] == &m@[key_seq[i]]);
            }
            assert forall|k: u32| mm.contains_key(k) implies key_seq.contains(k) by {
                assert(key_seq.to_set().contains(k));
            }
        }
        r
    }
}

/// Which part map a listing scan fills.
#[derive(Debug, Clone, Copy, PartialEq, Eq, Structural)]
enum ScanKind {
    Numbered,
    PartRar,
    OldRar,
}

/// Fills a part table from the listing for the given kind of volume name.
fn scan_listing(listing: &[String], kind: ScanKind, base: &[char]) -> (r: PartTable)
    ensures
        r.as_map() == part_map(
            listing@.map_values(|s: String| s@),
            match kind {
                ScanKind::Numbered => numbered_key(base@),
                ScanKind::PartRar => part_rar_key(base@),
                ScanKind::OldRar => old_rar_key(base@),
            },
        ),
{
    let ghost key = match kind {
        ScanKind::Numbered => numbered_key(base@),
        ScanKind::PartRar => part_rar_key(base@),
        ScanKind::OldRar => old_rar_key(base@),
    };
    let ghost names = listing@.map_values(|s: String| s@);
    let mut table = PartTable::new();
    let mut i: usize = 0;
    while i < listing.len()
        invariant
            i <= listing@.len(),
            names == listing@.map_values(|s: String| s@),
            key == (match kind {
                ScanKind::Numbered => numbered_key(base@),
                ScanKind::PartRar => part_rar_key(base@),
                ScanKind::OldRar => old_rar_key(base@),
            }),
            table.as_map() == part_map(names.subrange(0, i as int), key),
        decreases listing@.len() - i,
    {
        let candidate = chars_of(listing[i].as_str());
        let lower = to_ascii_lower(&candidate);
        let found: Option<u32> = match kind {
            ScanKind::Numbered => match parse_numbered_volume_chars(&lower) {
                Some((b, part)) => if chars_eq(&b, base) {
                    Some(part)
                } else {
                    None
                },
                None => None,
            },
            ScanKind::PartRar => match parse_part_rar_name(&lower) {
                Some((b, part)) => if chars_eq(&b, base) {
                    Some(part)
                } else {
                    None
                },
                None => None,
            },
            ScanKind::OldRar => parse_old_rar_part_name(&lower, base),
        };
        proof {
            assert(names.subrange(0, i + 1).drop_last() =~= names.subrange(0, i as int));
            assert(names.subrange(0, i + 1).last() == candidate@);
            assert(found == key(ascii_lower(candidate@)));
        }
        match found {
            Some(part) => table.insert(part, listing[i].clone()),
            None => {},
        }
        i += 1;
    }
    assert(names.subrange(0, listing@.len() as int) =~= names);
    table
}

/// The complete split-ZIP set named by `lower_name` in `listing`, sidecars in
/// order followed by the final `.zip`.
#[verifier::loop_isolation(false)]
pub fn discover_split_zip_names(lower_name: &[char], listing: &[String]) -> (r: Option<Vec<String>>)
    ensures
        match r {
            Some(v) => split_zip_set_spec(lower_name@, listing@.map_values(|s: String| s@)) == Some(v@.map_values(|s: String| s@)),
            None => split_zip_set_spec(lower_name@, listing@.map_values(|s: String| s@)) is None,
        },
{
    let base = match parse_split_zip_volume_name(lower_name) {
        Some((b, _)) => b,
        None => return None,
    };
    let ghost names = listing@.map_values(|s: String| s@);
    let ghost skey = split_zip_sidecar_key(base@);
    let ghost fkey = split_zip_final_key(base@);
    let mut sidecars = PartTable::new();
    let mut final_zip: Option<String> = None;
    let mut i: usize = 0;
    while i < listing.len()
        invariant
            i <= listing@.len(),
            names == listing@.map_values(|s: String| s@),
            skey == split_zip_sidecar_key(base@),
            fkey == split_zip_final_key(base@),
            sidecars.as_map() == part_map(names.subrange(0, i as int), skey),
            match final_zip {
                Some(f) => part_map(names.subrange(0, i as int), fkey) == Map::<u32, Seq<char>>::empty().insert(0u32, f@),
                None => part_map(names.subrange(0, i as int), fkey) == Map::<u32, Seq<char>>::empty(),
            },
        decreases listing@.len() - i,
    {
        let candidate = chars_of(listing[i].as_str());
        let lower = to_ascii_lower(&candidate);
        let parsed = parse_split_zip_volume_name(&lower);
        proof {
            assert(names.subrange(0, i + 1).drop_last() =~= names.subrange(0, i as int));
            assert(names.subrange(0, i + 1).last() == candidate@);
        }
        match parsed {
            Some((b, part)) => {
                if chars_eq(&b, &base) {
                    match part {
                        SplitZipPart::Sidecar(index) => {
                            sidecars.insert(index, listing[i].clone());
                        },
                        SplitZipPart::Final => {
                            final_zip = Some(listing[i].clone());
                            proof {
                                let prev = part_map(names.subrange(0, i as int), fkey);
                                assert(prev.insert(0u32, candidate@) =~= Map::<u32, Seq<char>>::empty().insert(0u32, candidate@));
                            }
                        },
                    }
                }
            },
            None => {},
        }
        i += 1;
    }
    assert(names.subrange(0, listing@.len() as int) =~= names);
    let final_zip = match final_zip {
        Some(f) => f,
        None => return None,
    };
    proof {
        lemma_sidecar_keys_positive(names, base@);
    }
    let count = sidecars.positive_part_count();
    if count == 0 {
        return None;
    }
    let ghost m = sidecars.as_map();
    let mut parts: Vec<String> = Vec::new();
    let count = count as u64;
    let mut expected: u64 = 1;
    while expected <= count
        invariant
            1 <= expected <= count + 1,
            count == m.dom().len(),
            count <= u32::MAX,
            m == sidecars.as_map(),
            parts@.len() == expected - 1,
            forall|k: u32| 1 <= k < expected ==> #[trigger] m.contains_key(k),
            forall|j: int| 0 <= j < expected - 1 ==> parts@[j]@ == m[(j + 1) as u32],
        decreases count + 1 - expected,
    {
        match sidecars.get(expected as u32) {
            Some(name) => {
                parts.push(name.clone());
            },
            None => {
                proof {
                    assert(!m.contains_key(expected as u32));
                    assert(!(forall|k: u32| 1 <= k <= count ==> #[trigger] m.contains_key(k)));
                }
                return None;
            },
        }
        expected += 1;
    }
    parts.push(final_zip);
    proof {
        let spec_r = Seq::new(count as nat, |i: int| m[(i + 1) as u32]).push(part_map(names, fkey)[0u32]);
        assert(parts@.map_values(|s: String| s@) =~= spec_r);
    }
    Some(parts)
}

proof fn lemma_sidecar_keys_positive(listing: Seq<Seq<char>>, base: Seq<char>)
    ensures
        forall|k: u32| part_map(listing, split_zip_sidecar_key(base)).contains_key(k) ==> k > 0,
    decreases listing.len(),
{
    if listing.len() > 0 {
        lemma_sidecar_keys_positive(listing.drop_last(), base);
        let n = ascii_lower(listing.last());
        let key = split_zip_sidecar_key(base);
        let m = part_map(listing.drop_last(), key);
        assert(part_map(listing, key) == match key(n) {
            Some(part) => m.insert(part, listing.last()),
            None => m,
        });
        match key(n) {
            Some(p) => {
                match split_zip_volume_spec(n) {
                    Some((b, SplitZipPart::Sidecar(i))) => {
                        assert(i > 0);
                        assert(p == i);
                    },
                    _ => {},
                }
                assert(p > 0);
            },
            None => {},
        }
    }
}

/// Where a multi-volume set's members were found.
pub open spec fn discovery_spec(name: Seq<char>, listing: Option<Seq<Seq<char>>>, r: Option<Seq<Seq<char>>>) -> bool {
    let lower = ascii_lower(name);
    match listing {
        None => r is None,
        Some(l) => if split_zip_set_spec(lower, l) is Some {
            r == split_zip_set_spec(lower, l)
        } else if numbered_volume_spec(lower) is Some && part_map(l, numbered_key(numbered_volume_spec(lower).unwrap().0)).dom().len() > 1 {
            r matches Some(v) && values_in_key_order(part_map(l, numbered_key(numbered_volume_spec(lower).unwrap().0)), v)
        } else if part_rar_spec(lower) is Some && part_map(l, part_rar_key(part_rar_spec(lower).unwrap().0)).dom().len() > 1 {
            r matches Some(v) && values_in_key_order(part_map(l, part_rar_key(part_rar_spec(lower).unwrap().0)), v)
        } else if old_style_rar_base_spec(lower) is Some && part_map(l, old_rar_key(old_style_rar_base_spec(lower)->0)).dom().len() > 0 {
            r matches Some(v) && v.len() > 0 && v[0] == name && values_in_key_order(
                part_map(l, old_rar_key(old_style_rar_base_spec(lower)->0)),
                v.drop_first(),
            )
        } else {
            r is None
        },
    }
}

/// Discovers the ordered member names of the multi-volume set that the file
/// `file_name` belongs to, given the names in its directory (`None` when the
/// directory could not be read). `None` means the file stands alone.
pub fn discover_multi_volume_names(file_name: &str, listing: Option<&Vec<String>>) -> (r: Option<Vec<String>>)
    ensures
        discovery_spec(
            file_name@,
            match listing {
                Some(l) => Some(l@.map_values(|s: String| s@)),
                None => None,
            },
            match r {
                Some(v) => Some(v@.map_values(|s: String| s@)),
                None => None,
            },
        ),
{
    let listing = match listing {
        Some(l) => l,
        None => return None,
    };
    let name = chars_of(file_name);
    let lower = to_ascii_lower(&name);
    if let Some(parts) = discover_split_zip_names(&lower, listing.as_slice()) {
        return Some(parts);
    }
    if let Some((base, _)) = parse_numbered_volume_chars(&lower) {
        let table = scan_listing(listing.as_slice(), ScanKind::Numbered, &base);
        if table.len() > 1 {
            return Some(table.into_names());
        }
    }
    if let Some((base, _)) = parse_part_rar_name(&lower) {
        let table = scan_listing(listing.as_slice(), ScanKind::PartRar, &base);
        if table.len() > 1 {
            return Some(table.into_names());
        }
    }
    if let Some(base) = old_style_rar_base(&lower) {
        let table = scan_listing(listing.as_slice(), ScanKind::OldRar, &base);
        if table.len() > 0 {
            let rest = table.into_names();
            let mut parts: Vec<String> = Vec::new();
            parts.push(string_from_chars(&name));
            let mut i: usize = 0;
            while i < rest.len()
                invariant
                    i <= rest@.len(),
                    parts@.len() == i + 1,
                    parts@[0]@ == file_name@,
                    forall|j: int| 0 <= j < i ==> parts@[j + 1] == rest@[j],
                decreases rest@.len() - i,
            {
                parts.push(rest[i].clone());
                i += 1;
            }
            proof {
                assert(parts@.map_values(|s: String| s@).drop_first() =~= rest@.map_values(|s: String| s@));
            }
            return Some(parts);
        }
    }
    None
}

/// Whether `file_name` belongs to a standard split ZIP set of more than one
/// member in `listing`.
pub fn is_split_zip_name(file_name: &str, listing: &Vec<String>) -> (r: bool)
    ensures
        r == (split_zip_set_spec(ascii_lower(file_name@), listing@.map_values(|s: String| s@)) matches Some(v) && v.len() > 1),
{
    let name = chars_of(file_name);
    let lower = to_ascii_lower(&name);
    match discover_split_zip_names(&lower, listing.as_slice()) {
        Some(parts) => parts.len() > 1,
        None => false,
    }
}

/// Two strictly increasing key lists that hold the same keys are the same.
proof fn lemma_increasing_keys_unique(a: Seq<u32>, b: Seq<u32>)
    requires
        forall|i: int, j: int| 0 <= i < j < a.len() ==> a[i] < a[j],
        forall|i: int, j: int| 0 <= i < j < b.len() ==> b[i] < b[j],
        forall|k: u32| a.contains(k) <==> b.contains(k),
    ensures
        a == b,
    decreases a.len(),
{
    if a.len() == 0 {
        if b.len() > 0 {
            assert(b.contains(b[0]));
        }
        assert(b.len() == 0);
    } else if b.len() == 0 {
        assert(a.contains(a[0]));
    } else {
        assert(a.contains(a[0]));
        assert(b.contains(b[0]));
        let ia = choose|i: int| 0 <= i < a.len() && a[i] == b[0];
        let ib = choose|i: int| 0 <= i < b.len() && b[i] == a[0];
        if ia > 0 {
            assert(a[0] < a[ia]);
        }
        if ib > 0 {
            assert(b[0] < b[ib]);
        }
        assert(a[0] == b[0]);
        let a1 = a.drop_first();
        let b1 = b.drop_first();
        assert forall|k: u32| a1.contains(k) <==> b1.contains(k) by {
            if a1.contains(k) {
                let i = choose|i: int| 0 <= i < a1.len() && a1[i] == k;
                assert(a[i + 1] == k);
                assert(a.contains(k));
                let j = choose|j: int| 0 <= j < b.len() && b[j] == k;
                assert(a[0] < a[i + 1]);
                if j == 0 {
                    assert(false);
                }
                assert(b1[j - 1] == k);
            }
            if b1.contains(k) {
                let j = choose|j: int| 0 <= j < b1.len() && b1[j] == k;
                assert(b[j + 1] == k);
                assert(b.contains(k));
                let i = choose|i: int| 0 <= i < a.len() && a[i] == k;
                assert(b[0] < b[j + 1]);
                if i == 0 {
                    assert(false);
                }
                assert(a1[i - 1] == k);
            }
        }
        lemma_increasing_keys_unique(a1, b1);
        assert(a =~= seq![a[0]] + a1);
        assert(b =~= seq![b[0]] + b1);
    }
}

/// The values of a map listed in increasing key order are unique.
pub proof fn lemma_values_in_key_order_unique(m: Map<u32, Seq<char>>, r1: Seq<Seq<char>>, r2: Seq<Seq<char>>)
    requires
        values_in_key_order(m, r1),
        values_in_key_order(m, r2),
    ensures
        r1 == r2,
{
    let k1 = choose|keys: Seq<u32>|
        {
            &&& keys.len() == r1.len()
            &&& forall|i: int, j: int| 0 <= i < j < keys.len() ==> keys[i] < keys[j]
            &&& forall|i: int| 0 <= i < keys.len() ==> #[trigger] m.contains_key(keys[i]) && r1[i] == m[keys[i]]
            &&& forall|k: u32| m.contains_key(k) ==> keys.contains(k)
        };
    let k2 = choose|keys: Seq<u32>|
        {
            &&& keys.len() == r2.len()
            &&& forall|i: int, j: int| 0 <= i < j < keys.len() ==> keys[i] < keys[j]
            &&& forall|i: int| 0 <= i < keys.len() ==> #[trigger] m.contains_key(keys[i]) && r2[i] == m[keys[i]]
            &&& forall|k: u32| m.contains_key(k) ==> keys.contains(k)
        };
    assert forall|k: u32| k1.contains(k) <==> k2.contains(k) by {
        if k1.contains(k) {
            let i = choose|i: int| 0 <= i < k1.len() && k1[i] == k;
            assert(m.contains_key(k1[i]));
        }
        if k2.contains(k) {
            let i = choose|i: int| 0 <= i < k2.len() && k2[i] == k;
            assert(m.contains_key(k2[i]));
        }
    }
    lemma_increasing_keys_unique(k1, k2);
    assert forall|i: int| 0 <= i < r1.len() implies r1[i] == r2[i] by {
        assert(m.contains_key(k1[i]));
    }
    assert(r1 =~= r2);
}

/// Discovery names at most one set: its result is a function of the name
/// and the listing.
pub proof fn lemma_discovery_is_functional(
    name: Seq<char>,
    listing: Option<Seq<Seq<char>>>,
    r1: Option<Seq<Seq<char>>>,
    r2: Option<Seq<Seq<char>>>,
)
    requires
        discovery_spec(name, listing, r1),
        discovery_spec(name, listing, r2),
    ensures
        r1 == r2,
{
    let lower = ascii_lower(name);
    if let Some(l) = listing {
        if split_zip_set_spec(lower, l) is Some {
        } else if numbered_volume_spec(lower) is Some && part_map(l, numbered_key(numbered_volume_spec(lower).unwrap().0)).dom().len() > 1 {
            lemma_values_in_key_order_unique(part_map(l, numbered_key(numbered_volume_spec(lower).unwrap().0)), r1->0, r2->0);
        } else if part_rar_spec(lower) is Some && part_map(l, part_rar_key(part_rar_spec(lower).unwrap().0)).dom().len() > 1 {
            lemma_values_in_key_order_unique(part_map(l, part_rar_key(part_rar_spec(lower).unwrap().0)), r1->0, r2->0);
        } else if old_style_rar_base_spec(lower) is Some && part_map(l, old_rar_key(old_style_rar_base_spec(lower)->0)).dom().len() > 0 {
            let v1 = r1->0;
            let v2 = r2->0;
            lemma_values_in_key_order_unique(part_map(l, old_rar_key(old_style_rar_base_spec(lower)->0)), v1.drop_first(), v2.drop_first());
            assert(v1 =~= seq![v1[0]] + v1.drop_first());
            assert(v2 =~= seq![v2[0]] + v2.drop_first());
        }
    }
}

/// Every part in a part map is a name of the listing that the key function
/// maps to its part number.
proof fn lemma_part_map_values(listing: Seq<Seq<char>>, key: spec_fn(Seq<char>) -> Option<u32>, k: u32)
    requires
        part_map(listing, key).contains_key(k),
    ensures
        listing.contains(part_map(listing, key)[k]),
        key(ascii_lower(part_map(listing, key)[k])) == Some(k),
    decreases listing.len(),
{
    let rest = listing.drop_last();
    let m = part_map(rest, key);
    if key(ascii_lower(listing.last())) == Some(k) {
        assert(listing[listing.len() - 1] == listing.last());
    } else {
        assert(m.contains_key(k));
        lemma_part_map_values(rest, key, k);
        let j = choose|j: int| 0 <= j < rest.len() && rest[j] == m[k];
        assert(listing[j] == rest[j]);
    }
}

/// An old-style RAR set starts with the given `.rar` file, followed by its
/// `.rNN` continuation volumes from the listing in increasing `NN` order:
/// when no split-ZIP, numbered or `.partN.rar` set applies, every member
/// after the first is a listed `<base>.rNN` name, their numbers strictly
/// increase, and every listed continuation is among them.
pub proof fn lemma_old_rar_set_starts_with_first_volume(name: Seq<char>, listing: Seq<Seq<char>>, v: Seq<Seq<char>>)
    requires
        discovery_spec(name, Some(listing), Some(v)),
        split_zip_set_spec(ascii_lower(name), listing) is None,
        numbered_volume_spec(ascii_lower(name)) is None,
        part_rar_spec(ascii_lower(name)) is None,
        old_style_rar_base_spec(ascii_lower(name)) is Some,
    ensures
        v.len() > 0,
        v[0] == name,
        forall|i: int|
            1 <= i < v.len() ==> listing.contains(v[i]) && #[trigger] old_rar_part_spec(
                ascii_lower(v[i]),
                old_style_rar_base_spec(ascii_lower(name))->0,
            ) is Some,
        forall|i: int, j: int|
            1 <= i < j < v.len() ==> (#[trigger] old_rar_part_spec(ascii_lower(v[i]), old_style_rar_base_spec(ascii_lower(name))->0))->0
                < (#[trigger] old_rar_part_spec(ascii_lower(v[j]), old_style_rar_base_spec(ascii_lower(name))->0))->0,
        forall|n: Seq<char>|
            listing.contains(n) && #[trigger] old_rar_part_spec(ascii_lower(n), old_style_rar_base_spec(ascii_lower(name))->0)
                is Some ==> exists|i: int| 1 <= i < v.len() && v[i] == part_map(
                listing,
                old_rar_key(old_style_rar_base_spec(ascii_lower(name))->0),
            )[old_rar_part_spec(ascii_lower(n), old_style_rar_base_spec(ascii_lower(name))->0)->0],
{
    let base = old_style_rar_base_spec(ascii_lower(name))->0;
    let key = old_rar_key(base);
    let m = part_map(listing, key);
    let rest = v.drop_first();
    let keys = choose|keys: Seq<u32>|
        {
            &&& keys.len() == rest.len()
            &&& forall|i: int, j: int| 0 <= i < j < keys.len() ==> keys[i] < keys[j]
            &&& forall|i: int| 0 <= i < keys.len() ==> #[trigger] m.contains_key(keys[i]) && rest[i] == m[keys[i]]
            &&& forall|k: u32| m.contains_key(k) ==> keys.contains(k)
        };
    assert forall|i: int| 1 <= i < v.len() implies listing.contains(v[i]) && #[trigger] old_rar_part_spec(ascii_lower(v[i]), base)
        == Some(keys[i - 1]) by {
        assert(rest[i - 1] == v[i]);
        assert(m.contains_key(keys[i - 1]));
        lemma_part_map_values(listing, key, keys[i - 1]);
    }
    assert forall|n: Seq<char>| listing.contains(n) && #[trigger] old_rar_part_spec(ascii_lower(n), base) is Some implies exists|i: int|
        1 <= i < v.len() && v[i] == m[old_rar_part_spec(ascii_lower(n), base)->0] by {
        let k = old_rar_part_spec(ascii_lower(n), base)->0;
        assert(key(ascii_lower(n)) == old_rar_part_spec(ascii_lower(n), base));
        lemma_part_map_contains(listing, key, n);
        assert(m.contains_key(k));
        assert(keys.contains(k));
        let c = choose|c: int| 0 <= c < keys.len() && keys[c] == k;
        assert(0 <= c < rest.len());
        assert(v[c + 1] == rest[c]);
        assert(rest[c] == m[keys[c]]);
    }
}

/// Every listed name that the key function maps to a part number has that
/// part in the part map.
proof fn lemma_part_map_contains(listing: Seq<Seq<char>>, key: spec_fn(Seq<char>) -> Option<u32>, n: Seq<char>)
    requires
        listing.contains(n),
        key(ascii_lower(n)) is Some,
    ensures
        part_map(listing, key).contains_key(key(ascii_lower(n))->0),
    decreases listing.len(),
{
    let rest = listing.drop_last();
    if listing.last() != n {
        let j = choose|j: int| 0 <= j < listing.len() && listing[j] == n;
        assert(j < listing.len() - 1);
        assert(rest[j] == n);
        lemma_part_map_contains(rest, key, n);
    }
}

} // verus!
