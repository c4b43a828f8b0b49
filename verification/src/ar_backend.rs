//! Bounded native System V/GNU/BSD AR reader.
//!
//! An AR archive is the magic `!<arch>\n` followed by members, each a
//! 60-byte header (name, modification time, owner, group, octal mode,
//! decimal size, and the trailer `` `\n ``) and its payload, padded to an
//! even length. BSD long names (`#1/<length>`) prefix the payload; a GNU
//! string table member (`//`) holds long names; symbol tables (`/`,
//! `__.SYMDEF…`) are not members, while a GNU member named `/<offset>`
//! takes its name from the string table. The reader works on the archive's bytes.
use crate::text::{
    all_ascii_digits, chars_all_digits, chars_of, slice_chars, chars_start_with, decimal_value, parse_u64_chars, parse_u64_spec, parse_usize_chars,
    parse_usize_spec, starts_with, str_eq, string_from_chars, trim_end_char, trim_end_matching, trim_spec,
    trim_start_char, trim_start_matching, trim_whitespace, utf8_lossy, utf8_lossy_of,
};
use vstd::prelude::*;

verus! {

/// One native AR member.
#[derive(Debug, Clone)]
pub struct ArEntry {
    /// Archive-order index.
    pub index: usize,
    /// Resolved member name.
    pub path: String,
    /// Member payload size.
    pub size: u64,
    /// Payload offset in the archive file.
    pub data_offset: u64,
    /// Member modification time in seconds since the Unix epoch.
    pub modified: u64,
    /// Portable Unix mode bits from the AR header.
    pub mode: u32,
}

/// Normalized AR operation report.
#[derive(Debug, Clone)]
pub struct ArReport {
    /// Members written or verified.
    pub entries: usize,
    /// Members skipped by selection.
    pub skipped_entries: usize,
    /// Payload bytes written or verified.
    pub bytes: u64,
    /// Non-fatal diagnostics.
    pub warnings: Vec<String>,
}

/// Error returned by native AR operations.
#[derive(Debug, Clone)]
pub enum ArError {
    /// Reading failed.
    Io { path: String, message: String },
    /// The AR structure is malformed.
    Invalid { path: String, message: String },
    /// Extraction safety rejected a member; `resource_limit` when a size,
    /// ratio or count limit was exceeded.
    Safety { message: String, resource_limit: bool },
    /// The caller cancelled the operation.
    Cancelled,
}

/// The one-line rendering of an AR error.
pub open spec fn ar_error_text(e: ArError) -> Seq<char> {
    match e {
        ArError::Io { path, message } => "I/O failed for "@ + path@ + ": "@ + message@,
        ArError::Invalid { path, message } => "invalid AR archive "@ + path@ + ": "@ + message@,
        ArError::Safety { message, .. } => "extraction safety rejected member: "@ + message@,
        ArError::Cancelled => "job cancelled"@,
    }
}

impl ArError {
    /// The one-line rendering of this error.
    pub fn to_text(&self) -> (r: String)
        ensures
            r@ == ar_error_text(*self),
    {
        match self {
            ArError::Io { path, message } => {
                let r = join3("I/O failed for ", path.as_str(), ": ", message.as_str());
                r
            },
            ArError::Invalid { path, message } => join3("invalid AR archive ", path.as_str(), ": ", message.as_str()),
            ArError::Safety { message, .. } => {
                proof {
                    reveal_strlit("");
                }
                let r = join3("extraction safety rejected member: ", message.as_str(), "", "");
                assert(r@ =~= "extraction safety rejected member: "@ + message@);
                r
            },
            ArError::Cancelled => "job cancelled".to_string(),
        }
    }
}

fn join3(a: &str, b: &str, c: &str, d: &str) -> (r: String)
    ensures
        r@ == a@ + b@ + c@ + d@,
{
    let x = chars_of(a);
    let y = chars_of(b);
    let z = chars_of(c);
    let w = chars_of(d);
    let xy = crate::text::concat_chars(&x, &y);
    let xyz = crate::text::concat_chars(&xy, &z);
    let all = crate::text::concat_chars(&xyz, &w);
    string_from_chars(&all)
}

/// What went wrong while reading an archive.
pub enum ArFailure {
    /// A structural error, with its message.
    Invalid(Seq<char>),
    /// The archive ended inside a name or string table.
    Truncated,
    /// No member has the requested identity.
    NotFound(Seq<char>),
}

/// `e` reports failure `f` for the archive at `path`.
pub open spec fn reports(e: ArError, path: Seq<char>, f: ArFailure) -> bool {
    match f {
        ArFailure::Invalid(m) => e matches ArError::Invalid { path: p, message } && p@ == path && message@ == m,
        ArFailure::Truncated => e matches ArError::Io { path: p, message } && p@ == path && message@
            == "failed to fill whole buffer"@,
        ArFailure::NotFound(m) => e matches ArError::Io { path: p, message } && p@ == path && message@ == m,
    }
}

pub open spec fn ar_magic() -> Seq<u8> {
    seq![0x21u8, 0x3cu8, 0x61u8, 0x72u8, 0x63u8, 0x68u8, 0x3eu8, 0x0au8]
}

/// A header text field: the lossily decoded bytes, trimmed.
pub open spec fn field_spec(bytes: Seq<u8>) -> Seq<char> {
    trim_spec(utf8_lossy_of(bytes))
}

pub open spec fn is_octal_digit(c: char) -> bool {
    '0' <= c && c <= '7'
}

/// The value of a sequence of octal digits.
pub open spec fn octal_value(s: Seq<char>) -> nat
    decreases s.len(),
{
    if s.len() == 0 {
        0
    } else {
        octal_value(s.drop_last()) * 8 + ((s.last() as u32) - ('0' as u32)) as nat
    }
}

/// `u32::from_str_radix(_, 8)`: an optional leading `+`, then at least one
/// octal digit, with the value fitting in 32 bits.
pub open spec fn parse_octal_spec(s: Seq<char>) -> Option<u32> {
    let digits = unsigned_digits(s);
    if digits.len() > 0 && all_octal(digits) && octal_value(digits) <= u32::MAX {
        Some(octal_value(digits) as u32)
    } else {
        None
    }
}

/// The digits of an unsigned number: an optional leading `+` dropped.
pub open spec fn unsigned_digits(s: Seq<char>) -> Seq<char> {
    if s.len() > 0 && s[0] == '+' {
        s.drop_first()
    } else {
        s
    }
}

pub open spec fn all_octal(s: Seq<char>) -> bool {
    forall|i: int| 0 <= i < s.len() ==> is_octal_digit(#[trigger] s[i])
}

/// The mode field: leading zeros dropped (all zeros read as `0`), then
/// octal.
pub open spec fn mode_spec(field: Seq<char>) -> Option<u32> {
    let v = trim_start_char(field, '0');
    parse_octal_spec(if v.len() == 0 {
        seq!['0']
    } else {
        v
    })
}

pub open spec fn bsd_prefix() -> Seq<char> {
    seq!['#', '1', '/']
}

/// A member as the header walk records it, before names are resolved.
pub struct RawMember {
    pub token: Seq<char>,
    pub bsd_name: Option<Seq<char>>,
    pub size: u64,
    pub data_offset: u64,
    pub modified: u64,
    pub mode: u32,
}

/// Whether a header token is a GNU long-name reference: `/` followed by
/// the decimal offset of the name in the string table.
pub open spec fn is_gnu_long_ref(token: Seq<char>) -> bool {
    token.len() > 1 && token[0] == '/' && all_ascii_digits(token.drop_first())
}

/// Whether a header token names a listed member (not a string or symbol
/// table): a plain or BSD name, or a GNU long-name reference.
pub open spec fn is_member_token(token: Seq<char>) -> bool {
    token != seq!['/', '/'] && (!starts_with(token, seq!['/']) || is_gnu_long_ref(token)) && !starts_with(
        token,
        seq!['_', '_', '.', 'S', 'Y', 'M', 'D', 'E', 'F'],
    )
}

/// The member walk from the header at `pos`: the members recorded so far
/// and the latest GNU string table. The walk ends where a full header no
/// longer fits; each member advances it by its header, its size and the
/// padding to an even size.
pub open spec fn walk_members(s: Seq<u8>, pos: int, raws: Seq<RawMember>, table: Seq<u8>) -> Result<(Seq<RawMember>, Seq<u8>), ArFailure>
    decreases s.len() - pos,
{
    if pos < 0 || pos + 60 > s.len() {
        Ok((raws, table))
    } else if s[pos + 58] != 0x60u8 || s[pos + 59] != 0x0au8 {
        Err(ArFailure::Invalid("member header has invalid trailer"@))
    } else {
        let token = field_spec(s.subrange(pos, pos + 16));
        let numeric = "AR numeric header field is invalid"@;
        match parse_u64_spec(field_spec(s.subrange(pos + 16, pos + 28))) {
            None => Err(ArFailure::Invalid(numeric)),
            Some(modified) => match mode_spec(field_spec(s.subrange(pos + 40, pos + 48))) {
                None => Err(ArFailure::Invalid("AR octal header field is invalid"@)),
                Some(mode) => match parse_u64_spec(field_spec(s.subrange(pos + 48, pos + 58))) {
                    None => Err(ArFailure::Invalid(numeric)),
                    Some(size) => {
                        let data = pos + 60;
                        let next = data + size + size % 2;
                        let step: Result<(Option<Seq<char>>, u64, Seq<u8>), ArFailure> = if starts_with(token, bsd_prefix()) {
                            match parse_u64_spec(token.subrange(3, token.len() as int)) {
                                None => Err(ArFailure::Invalid("invalid BSD extended name length"@)),
                                Some(name_length) => if name_length > size {
                                    Err(ArFailure::Invalid("BSD extended name exceeds member size"@))
                                } else if name_length > usize::MAX {
                                    Err(ArFailure::Invalid("BSD name is too long"@))
                                } else if data + name_length > s.len() {
                                    Err(ArFailure::Truncated)
                                } else {
                                    Ok((
                                        Some(trim_end_char(utf8_lossy_of(s.subrange(data, data + name_length)), '\0')),
                                        (size - name_length) as u64,
                                        table,
                                    ))
                                },
                            }
                        } else if token == seq!['/', '/'] {
                            if size > usize::MAX {
                                Err(ArFailure::Invalid("AR string table is too large"@))
                            } else if data + size > s.len() {
                                Err(ArFailure::Truncated)
                            } else {
                                Ok((None, 0u64, s.subrange(data, data + size)))
                            }
                        } else {
                            Ok((None, size, table))
                        };
                        match step {
                            Err(e) => Err(e),
                            Ok((bsd_name, payload, new_table)) => {
                                let offset = if bsd_name is Some {
                                    data + size - payload
                                } else {
                                    data
                                };
                                let raws2 = if is_member_token(token) {
                                    raws.push(
                                        RawMember {
                                            token,
                                            bsd_name,
                                            size: payload,
                                            data_offset: offset as u64,
                                            modified,
                                            mode,
                                        },
                                    )
                                } else {
                                    raws
                                };
                                if next <= s.len() {
                                    walk_members(s, next, raws2, new_table)
                                } else {
                                    Ok((raws2, new_table))
                                }
                            },
                        }
                    },
                },
            },
        }
    }
}

/// The GNU long name a token refers to (`/<offset>` into the string table,
/// up to the next newline, trailing slashes dropped), or the token itself.
pub open spec fn gnu_name_spec(token: Seq<char>, table: Seq<u8>) -> Seq<char> {
    if starts_with(token, seq!['/']) {
        match parse_usize_spec(token.drop_first()) {
            Some(offset) => if offset <= table.len() {
                let rest = table.subrange(offset as int, table.len() as int);
                let end = match first_newline(rest) {
                    Some(e) => e,
                    None => rest.len() as int,
                };
                trim_end_char(utf8_lossy_of(rest.subrange(0, end)), '/')
            } else {
                token
            },
            None => token,
        }
    } else {
        token
    }
}

/// Position of the first newline byte.
pub open spec fn first_newline(s: Seq<u8>) -> Option<int>
    decreases s.len(),
{
    if s.len() == 0 {
        None
    } else if s[0] == 0x0au8 {
        Some(0)
    } else {
        match first_newline(s.drop_first()) {
            Some(i) => Some(i + 1),
            None => None,
        }
    }
}

/// The listed name of a recorded member.
pub open spec fn member_name(raw: RawMember, table: Seq<u8>) -> Seq<char> {
    trim_end_char(
        match raw.bsd_name {
            Some(n) => n,
            None => gnu_name_spec(raw.token, table),
        },
        '/',
    )
}

/// Position of the first recorded member whose name is empty.
pub open spec fn first_unnamed(raws: Seq<RawMember>, table: Seq<u8>) -> Option<int>
    decreases raws.len(),
{
    if raws.len() == 0 {
        None
    } else {
        match first_unnamed(raws.drop_last(), table) {
            Some(i) => Some(i),
            None => if member_name(raws.last(), table).len() == 0 {
                Some(raws.len() - 1)
            } else {
                None
            },
        }
    }
}

/// `e` is the listed entry of the `i`-th recorded member.
pub open spec fn entry_of(e: ArEntry, i: int, raw: RawMember, table: Seq<u8>) -> bool {
    &&& e.index == i
    &&& e.path@ == member_name(raw, table)
    &&& e.size == raw.size
    &&& e.data_offset == raw.data_offset
    &&& e.modified == raw.modified
    &&& e.mode == raw.mode
}

/// The members of the archive `s`, or why it cannot be read.
pub open spec fn parse_spec(s: Seq<u8>) -> Result<(Seq<RawMember>, Seq<u8>), ArFailure> {
    if s.len() < 8 {
        Err(ArFailure::Truncated)
    } else if s.subrange(0, 8) != ar_magic() {
        Err(ArFailure::Invalid("missing !<arch> header"@))
    } else {
        walk_members(s, 8, Seq::empty(), Seq::empty())
    }
}

/// `r` is what listing the archive `s` at `path` gives.
pub open spec fn listed(path: Seq<char>, s: Seq<u8>, r: Result<Vec<ArEntry>, ArError>) -> bool {
    match parse_spec(s) {
        Err(f) => r matches Err(e) && reports(e, path, f),
        Ok((raws, table)) => match r {
            Ok(v) => {
                &&& first_unnamed(raws, table) is None
                &&& v@.len() == raws.len()
                &&& forall|i: int| 0 <= i < raws.len() ==> entry_of(#[trigger] v@[i], i, raws[i], table)
            },
            Err(e) => first_unnamed(raws, table) is Some && reports(e, path, ArFailure::Invalid("AR member has an empty name"@)),
        },
    }
}

/// The walk only appends: the members recorded before `pos` stay first, in
/// order.
proof fn lemma_walk_keeps_prefix(s: Seq<u8>, pos: int, raws: Seq<RawMember>, table: Seq<u8>)
    ensures
        walk_members(s, pos, raws, table) matches Ok((out, _)) ==> out.len() >= raws.len() && forall|i: int|
            0 <= i < raws.len() ==> out[i] == raws[i],
    decreases s.len() - pos,
{
    if !(pos < 0 || pos + 60 > s.len()) && !(s[pos + 58] != 0x60u8 || s[pos + 59] != 0x0au8) {
        let token = field_spec(s.subrange(pos, pos + 16));
        if let Some(modified) = parse_u64_spec(field_spec(s.subrange(pos + 16, pos + 28))) {
            if let Some(mode) = mode_spec(field_spec(s.subrange(pos + 40, pos + 48))) {
                if let Some(size) = parse_u64_spec(field_spec(s.subrange(pos + 48, pos + 58))) {
                    let data = pos + 60;
                    let next = data + size + size % 2;
                    let step: Result<(Option<Seq<char>>, u64, Seq<u8>), ArFailure> = if starts_with(token, bsd_prefix()) {
                        match parse_u64_spec(token.subrange(3, token.len() as int)) {
                            None => Err(ArFailure::Invalid("invalid BSD extended name length"@)),
                            Some(name_length) => if name_length > size {
                                Err(ArFailure::Invalid("BSD extended name exceeds member size"@))
                            } else if name_length > usize::MAX {
                                Err(ArFailure::Invalid("BSD name is too long"@))
                            } else if data + name_length > s.len() {
                                Err(ArFailure::Truncated)
                            } else {
                                Ok((
                                    Some(trim_end_char(utf8_lossy_of(s.subrange(data, data + name_length)), '\0')),
                                    (size - name_length) as u64,
                                    table,
                                ))
                            },
                        }
                    } else if token == seq!['/', '/'] {
                        if size > usize::MAX {
                            Err(ArFailure::Invalid("AR string table is too large"@))
                        } else if data + size > s.len() {
                            Err(ArFailure::Truncated)
                        } else {
                            Ok((None, 0u64, s.subrange(data, data + size)))
                        }
                    } else {
                        Ok((None, size, table))
                    };
                    if let Ok((bsd_name, payload, new_table)) = step {
                        let offset = if bsd_name is Some {
                            data + size - payload
                        } else {
                            data
                        };
                        let raws2 = if is_member_token(token) {
                            raws.push(
                                RawMember { token, bsd_name, size: payload, data_offset: offset as u64, modified, mode },
                            )
                        } else {
                            raws
                        };
                        if next <= s.len() {
                            lemma_walk_keeps_prefix(s, next, raws2, new_table);
                        }
                        if is_member_token(token) {
                            assert forall|i: int| 0 <= i < raws.len() implies raws2[i] == raws[i] by {}
                        }
                    }
                }
            }
        }
    }
}

/// A BSD member's payload follows its embedded name: for a member whose
/// header at `pos` names `#1/N` with declared size `size`, the walk records
/// it with its data starting `N` bytes after the header and `size - N`
/// bytes long, so the payload never includes the name.
pub proof fn lemma_bsd_payload_follows_name(
    s: Seq<u8>,
    pos: int,
    raws: Seq<RawMember>,
    table: Seq<u8>,
    name_length: u64,
    size: u64,
)
    requires
        s.len() <= u64::MAX,
        0 <= pos,
        pos + 60 <= s.len(),
        starts_with(field_spec(s.subrange(pos, pos + 16)), bsd_prefix()),
        parse_u64_spec(field_spec(s.subrange(pos, pos + 16)).subrange(3, field_spec(s.subrange(pos, pos + 16)).len() as int))
            == Some(name_length),
        parse_u64_spec(field_spec(s.subrange(pos + 48, pos + 58))) == Some(size),
        walk_members(s, pos, raws, table) is Ok,
    ensures
        walk_members(s, pos, raws, table) matches Ok((out, _)) && out.len() > raws.len() && out[raws.len() as int].bsd_name is Some
            && name_length <= size && out[raws.len() as int].data_offset == pos + 60 + name_length
            && out[raws.len() as int].size == size - name_length,
{
    let token = field_spec(s.subrange(pos, pos + 16));
    assert(token[0] == '#') by {
        assert(token.subrange(0, 3)[0] == token[0]);
    }
    assert(token != seq!['/', '/']);
    assert(!starts_with(token, seq!['/'])) by {
        if starts_with(token, seq!['/']) {
            assert(token.subrange(0, 1)[0] == token[0]);
        }
    }
    assert(!starts_with(token, seq!['_', '_', '.', 'S', 'Y', 'M', 'D', 'E', 'F'])) by {
        if starts_with(token, seq!['_', '_', '.', 'S', 'Y', 'M', 'D', 'E', 'F']) {
            assert(token.subrange(0, 9)[0] == token[0]);
        }
    }
    assert(is_member_token(token));
    let data = pos + 60;
    let next = data + size + size % 2;
    let member = RawMember {
        token,
        bsd_name: Some(trim_end_char(utf8_lossy_of(s.subrange(data, data + name_length)), '\0')),
        size: (size - name_length) as u64,
        data_offset: (data + name_length) as u64,
        modified: parse_u64_spec(field_spec(s.subrange(pos + 16, pos + 28)))->0,
        mode: mode_spec(field_spec(s.subrange(pos + 40, pos + 48)))->0,
    };
    let raws2 = raws.push(member);
    if next <= s.len() {
        lemma_walk_keeps_prefix(s, next, raws2, table);
    }
    assert(raws2[raws.len() as int] == member);
}

/// A member with a plain name (no BSD or GNU long name, not a table) has
/// its data right after its header and its declared size.
pub proof fn lemma_plain_member_payload_follows_header(s: Seq<u8>, pos: int, raws: Seq<RawMember>, table: Seq<u8>, size: u64)
    requires
        s.len() <= u64::MAX,
        0 <= pos,
        pos + 60 <= s.len(),
        field_spec(s.subrange(pos, pos + 16)).len() > 0,
        field_spec(s.subrange(pos, pos + 16))[0] != '/',
        field_spec(s.subrange(pos, pos + 16))[0] != '#',
        field_spec(s.subrange(pos, pos + 16))[0] != '_',
        parse_u64_spec(field_spec(s.subrange(pos + 48, pos + 58))) == Some(size),
        walk_members(s, pos, raws, table) is Ok,
    ensures
        walk_members(s, pos, raws, table) matches Ok((out, _)) && out.len() > raws.len() && out[raws.len() as int].bsd_name is None
            && out[raws.len() as int].data_offset == pos + 60 && out[raws.len() as int].size == size
            && out[raws.len() as int].token == field_spec(s.subrange(pos, pos + 16)),
{
    let token = field_spec(s.subrange(pos, pos + 16));
    assert(!starts_with(token, bsd_prefix())) by {
        if starts_with(token, bsd_prefix()) {
            assert(token.subrange(0, 3)[0] == token[0]);
        }
    }
    assert(token != seq!['/', '/']);
    assert(!starts_with(token, seq!['/'])) by {
        if starts_with(token, seq!['/']) {
            assert(token.subrange(0, 1)[0] == token[0]);
        }
    }
    assert(!starts_with(token, seq!['_', '_', '.', 'S', 'Y', 'M', 'D', 'E', 'F'])) by {
        if starts_with(token, seq!['_', '_', '.', 'S', 'Y', 'M', 'D', 'E', 'F']) {
            assert(token.subrange(0, 9)[0] == token[0]);
        }
    }
    assert(is_member_token(token));
    let data = pos + 60;
    let next = data + size + size % 2;
    let member = RawMember {
        token,
        bsd_name: None,
        size,
        data_offset: data as u64,
        modified: parse_u64_spec(field_spec(s.subrange(pos + 16, pos + 28)))->0,
        mode: mode_spec(field_spec(s.subrange(pos + 40, pos + 48)))->0,
    };
    let raws2 = raws.push(member);
    if next <= s.len() {
        lemma_walk_keeps_prefix(s, next, raws2, table);
    }
    assert(raws2[raws.len() as int] == member);
}

} // verus!

verus! {

/// A recorded member, before its name is resolved.
struct RawEntry {
    token: Vec<char>,
    bsd_name: Option<Vec<char>>,
    size: u64,
    data_offset: u64,
    modified: u64,
    mode: u32,
}

impl View for RawEntry {
    type V = RawMember;

    closed spec fn view(&self) -> RawMember {
        RawMember {
            token: self.token@,
            bsd_name: match self.bsd_name {
                Some(n) => Some(n@),
                None => None,
            },
            size: self.size,
            data_offset: self.data_offset,
            modified: self.modified,
            mode: self.mode,
        }
    }
}

fn field(bytes: &[u8]) -> (r: Vec<char>)
    ensures
        r@ == field_spec(bytes@),
{
    let text = utf8_lossy(bytes);
    let chars = chars_of(text.as_str());
    trim_whitespace(&chars)
}

fn invalid(path: &str, message: &str) -> (r: ArError)
    ensures
        r matches ArError::Invalid { path: p, message: m } && p@ == path@ && m@ == message@,
{
    ArError::Invalid { path: path.to_string(), message: message.to_string() }
}

fn truncated(path: &str) -> (r: ArError)
    ensures
        reports(r, path@, ArFailure::Truncated),
{
    ArError::Io { path: path.to_string(), message: "failed to fill whole buffer".to_string() }
}

fn parse_octal_chars(s: &[char]) -> (r: Option<u32>)
    ensures
        r == parse_octal_spec(s@),
{
    let start: usize = if s.len() > 0 && s[0] == '+' {
        1
    } else {
        0
    };
    let ghost digits = unsigned_digits(s@);
    assert(digits =~= s@.subrange(start as int, s@.len() as int));
    if start >= s.len() {
        return None;
    }
    let mut value: u64 = 0;
    let mut i = start;
    while i < s.len()
        invariant
            start <= i <= s@.len(),
            digits == s@.subrange(start as int, s@.len() as int),
            digits == unsigned_digits(s@),
            forall|j: int| start <= j < i ==> is_octal_digit(#[trigger] s@[j]),
            value == octal_value(s@.subrange(start as int, i as int)),
            value <= u32::MAX,
        decreases s@.len() - i,
    {
        let c = s[i];
        assert(s@.subrange(start as int, i + 1).drop_last() =~= s@.subrange(start as int, i as int));
        if !('0' <= c && c <= '7') {
            assert(digits[i - start] == c);
            assert(!is_octal_digit(digits[i - start]));
            assert(!all_octal(digits));
            return None;
        }
        let next = value * 8 + ((c as u32) - ('0' as u32)) as u64;
        assert(next == octal_value(s@.subrange(start as int, i + 1)));
        if next > u32::MAX as u64 {
            proof {
                if all_octal(digits) {
                    lemma_octal_prefix_bound(digits, (i - start + 1) as int);
                    assert(digits.subrange(0, (i - start + 1) as int) =~= s@.subrange(start as int, i + 1));
                }
            }
            return None;
        }
        value = next;
        i += 1;
    }
    assert(s@.subrange(start as int, i as int) =~= digits);
    Some(value as u32)
}

proof fn lemma_octal_prefix_bound(s: Seq<char>, k: int)
    requires
        0 <= k <= s.len(),
        forall|i: int| 0 <= i < s.len() ==> is_octal_digit(#[trigger] s[i]),
    ensures
        octal_value(s.subrange(0, k)) <= octal_value(s),
    decreases s.len() - k,
{
    if k < s.len() {
        lemma_octal_prefix_bound(s, k + 1);
        assert(s.subrange(0, k + 1).drop_last() =~= s.subrange(0, k));
    } else {
        assert(s.subrange(0, k) =~= s);
    }
}

fn mode_of(field: &[char]) -> (r: Option<u32>)
    ensures
        r == mode_spec(field@),
{
    let v = trim_start_matching(field, '0');
    if v.len() == 0 {
        let zero: Vec<char> = vec!['0'];
        assert(zero@ =~= seq!['0']);
        parse_octal_chars(&zero)
    } else {
        parse_octal_chars(&v)
    }
}

fn is_symdef(token: &[char]) -> (r: bool)
    ensures
        r == starts_with(token@, seq!['_', '_', '.', 'S', 'Y', 'M', 'D', 'E', 'F']),
{
    let p: Vec<char> = vec!['_', '_', '.', 'S', 'Y', 'M', 'D', 'E', 'F'];
    assert(p@ =~= seq!['_', '_', '.', 'S', 'Y', 'M', 'D', 'E', 'F']);
    chars_start_with(token, &p)
}

fn is_string_table(token: &[char]) -> (r: bool)
    ensures
        r == (token@ == seq!['/', '/']),
{
    if token.len() == 2 && token[0] == '/' && token[1] == '/' {
        assert(token@ =~= seq!['/', '/']);
        true
    } else {
        false
    }
}

fn copy_range(s: &[u8], start: usize, end: usize) -> (r: Vec<u8>)
    requires
        start <= end <= s@.len(),
    ensures
        r@ == s@.subrange(start as int, end as int),
{
    let mut out: Vec<u8> = Vec::new();
    let mut i = start;
    while i < end
        invariant
            start <= i <= end,
            end <= s@.len(),
            out@ == s@.subrange(start as int, i as int),
        decreases end - i,
    {
        out.push(s[i]);
        i += 1;
        assert(out@ =~= s@.subrange(start as int, i as int));
    }
    out
}

fn parse_number(path: &str, bytes: &[u8]) -> (r: Result<u64, ArError>)
    ensures
        match parse_u64_spec(field_spec(bytes@)) {
            Some(v) => r == Ok::<u64, ArError>(v),
            None => r matches Err(e) && reports(e, path@, ArFailure::Invalid("AR numeric header field is invalid"@)),
        },
{
    let f = field(bytes);
    match parse_u64_chars(&f) {
        Some(v) => Ok(v),
        None => Err(invalid(path, "AR numeric header field is invalid")),
    }
}

/// Walks the member headers.
fn walk(path: &str, s: &[u8]) -> (r: Result<(Vec<RawEntry>, Vec<u8>), ArError>)
    requires
        s@.len() >= 8,
    ensures
        match walk_members(s@, 8, Seq::empty(), Seq::empty()) {
            Ok((raws, table)) => r matches Ok((v, t)) && v@.map_values(|e: RawEntry| e@) == raws && t@ == table,
            Err(f) => r matches Err(e) && reports(e, path@, f),
        },
{
    let len = s.len();
    let mut pos: u128 = 8;
    let mut raws: Vec<RawEntry> = Vec::new();
    let mut table: Vec<u8> = Vec::new();
    assert(raws@.map_values(|e: RawEntry| e@) =~= Seq::<RawMember>::empty());
    while pos + 60 <= len as u128
        invariant
            len == s@.len(),
            pos <= s@.len() + 0x1_0000_0000_0000_0000,
            walk_members(s@, pos as int, raws@.map_values(|e: RawEntry| e@), table@) == walk_members(
                s@,
                8,
                Seq::empty(),
                Seq::empty(),
            ),
        decreases if pos <= s@.len() {
            s@.len() - pos + 1
        } else {
            0
        },
    {
        let p = pos as usize;
        let ghost raws_v = raws@.map_values(|e: RawEntry| e@);
        if s[p + 58] != 0x60u8 || s[p + 59] != 0x0au8 {
            return Err(invalid(path, "member header has invalid trailer"));
        }
        let token = field(&s[p..p + 16]);
        let modified = match parse_number(path, &s[p + 16..p + 28]) {
            Ok(v) => v,
            Err(e) => return Err(e),
        };
        let mode_field = field(&s[p + 40..p + 48]);
        let mode = match mode_of(&mode_field) {
            Some(m) => m,
            None => return Err(invalid(path, "AR octal header field is invalid")),
        };
        let size = match parse_number(path, &s[p + 48..p + 58]) {
            Ok(v) => v,
            Err(e) => return Err(e),
        };
        let data: u128 = pos + 60;
        let next: u128 = data + size as u128 + (size % 2) as u128;
        let prefix: Vec<char> = vec!['#', '1', '/'];
        assert(prefix@ =~= bsd_prefix());
        let mut bsd_name: Option<Vec<char>> = None;
        let payload: u64;
        if chars_start_with(&token, &prefix) {
            let rest = crate::text::slice_chars(&token, 3, token.len());
            let name_length = match parse_u64_chars(&rest) {
                Some(n) => n,
                None => return Err(invalid(path, "invalid BSD extended name length")),
            };
            if name_length > size {
                return Err(invalid(path, "BSD extended name exceeds member size"));
            }
            if name_length as u128 > usize::MAX as u128 {
                return Err(invalid(path, "BSD name is too long"));
            }
            if data + name_length as u128 > len as u128 {
                return Err(truncated(path));
            }
            let d = data as usize;
            let name_bytes = &s[d..d + name_length as usize];
            let decoded = utf8_lossy(name_bytes);
            let name_chars = chars_of(decoded.as_str());
            bsd_name = Some(trim_end_matching(&name_chars, '\0'));
            payload = size - name_length;
        } else if is_string_table(&token) {
            if size as u128 > usize::MAX as u128 {
                return Err(invalid(path, "AR string table is too large"));
            }
            if data + size as u128 > len as u128 {
                return Err(truncated(path));
            }
            let d = data as usize;
            table = copy_range(s, d, d + size as usize);
            payload = 0;
        } else {
            payload = size;
        }
        let offset: u128 = if bsd_name.is_some() {
            data + size as u128 - payload as u128
        } else {
            data
        };
        let slash = token.len() > 0 && token[0] == '/';
        let long_ref = token.len() > 1 && token[0] == '/' && chars_all_digits(&slice_chars(&token, 1, token.len()));
        proof {
            assert(token@.subrange(1, token@.len() as int) =~= token@.drop_first());
        }
        let member = !is_string_table(&token) && (!slash || long_ref) && !is_symdef(&token);
        proof {
            assert(starts_with(token@, seq!['/']) == (token@.len() > 0 && token@[0] == '/')) by {
                if token@.len() > 0 {
                    let t0 = token@.subrange(0, 1);
                    assert(t0.len() == 1 && t0[0] == token@[0]);
                    if token@[0] == '/' {
                        assert(t0 =~= seq!['/']);
                    } else {
                        assert(t0[0] != seq!['/'][0]);
                    }
                }
            }
        }
        if member {
            raws.push(RawEntry { token, bsd_name, size: payload, data_offset: offset as u64, modified, mode });
        }
        proof {
            if member {
                assert(raws@.map_values(|e: RawEntry| e@) =~= raws_v.push(raws@.last()@));
            } else {
                assert(raws@.map_values(|e: RawEntry| e@) =~= raws_v);
            }
        }
        pos = next;
    }
    Ok((raws, table))
}

fn first_newline_at(rest: &[u8]) -> (r: usize)
    ensures
        r == (match first_newline(rest@) {
            Some(e) => e,
            None => rest@.len() as int,
        }),
        r <= rest@.len(),
{
    let mut i: usize = 0;
    while i < rest.len()
        invariant
            i <= rest@.len(),
            forall|j: int| 0 <= j < i ==> rest@[j] != 0x0au8,
        decreases rest@.len() - i,
    {
        if rest[i] == 0x0au8 {
            proof {
                lemma_first_newline(rest@, i as int);
            }
            return i;
        }
        i += 1;
    }
    proof {
        lemma_first_newline_none(rest@);
    }
    i
}

proof fn lemma_first_newline(s: Seq<u8>, i: int)
    requires
        0 <= i < s.len(),
        s[i] == 0x0au8,
        forall|j: int| 0 <= j < i ==> s[j] != 0x0au8,
    ensures
        first_newline(s) == Some(i),
    decreases i,
{
    if i > 0 {
        lemma_first_newline(s.drop_first(), i - 1);
    }
}

proof fn lemma_first_newline_none(s: Seq<u8>)
    requires
        forall|j: int| 0 <= j < s.len() ==> s[j] != 0x0au8,
    ensures
        first_newline(s) is None,
    decreases s.len(),
{
    if s.len() > 0 {
        lemma_first_newline_none(s.drop_first());
    }
}

/// Resolves a GNU long-name token against the string table.
fn resolve_gnu_name(token: &[char], table: &[u8]) -> (r: Vec<char>)
    ensures
        r@ == gnu_name_spec(token@, table@),
{
    let same = crate::text::slice_chars(token, 0, token.len());
    assert(token@.subrange(0, token@.len() as int) =~= token@);
    if !(token.len() > 0 && token[0] == '/') {
        proof {
            if token@.len() > 0 {
                assert(token@.subrange(0, 1) =~= seq![token@[0]]);
            }
        }
        return same;
    }
    assert(token@.subrange(0, 1) =~= seq!['/']);
    let digits = crate::text::slice_chars(token, 1, token.len());
    assert(digits@ =~= token@.drop_first());
    let offset = match parse_usize_chars(&digits) {
        Some(o) => o,
        None => return same,
    };
    if offset > table.len() {
        return same;
    }
    let rest = &table[offset..table.len()];
    let end = first_newline_at(rest);
    let name = utf8_lossy(&rest[0..end]);
    let chars = chars_of(name.as_str());
    trim_end_matching(&chars, '/')
}

/// Lists the regular members of the AR archive `data` read from `path`,
/// excluding symbol and string-table metadata members.
pub fn list(path: &str, data: &[u8]) -> (r: Result<Vec<ArEntry>, ArError>)
    ensures
        listed(path@, data@, r),
{
    if data.len() < 8 {
        return Err(truncated(path));
    }
    let magic: [u8; 8] = [0x21u8, 0x3cu8, 0x61u8, 0x72u8, 0x63u8, 0x68u8, 0x3eu8, 0x0au8];
    let mut k: usize = 0;
    while k < 8
        invariant
            k <= 8,
            data@.len() >= 8,
            magic@ == ar_magic(),
            forall|j: int| 0 <= j < k ==> data@[j] == ar_magic()[j],
        decreases 8 - k,
    {
        if data[k] != magic[k] {
            assert(data@.subrange(0, 8)[k as int] != ar_magic()[k as int]);
            return Err(invalid(path, "missing !<arch> header"));
        }
        k += 1;
    }
    assert(data@.subrange(0, 8) =~= ar_magic());
    let (raws, table) = match walk(path, data) {
        Ok(w) => w,
        Err(e) => return Err(e),
    };
    let ghost rv = raws@.map_values(|e: RawEntry| e@);
    assert(parse_spec(data@) == Ok::<(Seq<RawMember>, Seq<u8>), ArFailure>((rv, table@)));
    let mut entries: Vec<ArEntry> = Vec::new();
    let mut i: usize = 0;
    while i < raws.len()
        invariant
            i <= raws@.len(),
            rv == raws@.map_values(|e: RawEntry| e@),
            parse_spec(data@) == Ok::<(Seq<RawMember>, Seq<u8>), ArFailure>((rv, table@)),
            first_unnamed(rv.take(i as int), table@) is None,
            entries@.len() == i,
            forall|j: int| 0 <= j < i ==> entry_of(#[trigger] entries@[j], j, rv[j], table@),
        decreases raws@.len() - i,
    {
        let raw = &raws[i];
        let resolved = match &raw.bsd_name {
            Some(n) => {
                let copy = crate::text::slice_chars(n, 0, n.len());
                assert(n@.subrange(0, n@.len() as int) =~= n@);
                copy
            },
            None => resolve_gnu_name(&raw.token, &table),
        };
        let name = trim_end_matching(&resolved, '/');
        assert(name@ == member_name(rv[i as int], table@));
        assert(rv.take(i as int + 1).drop_last() =~= rv.take(i as int));
        assert(rv.take(i as int + 1).last() == rv[i as int]);
        if name.len() == 0 {
            proof {
                assert(member_name(rv.take(i as int + 1).last(), table@).len() == 0);
                assert(first_unnamed(rv.take(i as int + 1), table@) is Some);
                lemma_first_unnamed_prefix(rv, table@, i as int + 1);
                assert(parse_spec(data@) == Ok::<(Seq<RawMember>, Seq<u8>), ArFailure>((rv, table@)));
            }
            let e = invalid(path, "AR member has an empty name");
            assert(reports(e, path@, ArFailure::Invalid("AR member has an empty name"@)));
            return Err(e);
        }
        entries.push(
            ArEntry {
                index: i,
                path: string_from_chars(&name),
                size: raw.size,
                data_offset: raw.data_offset,
                modified: raw.modified,
                mode: raw.mode,
            },
        );
        i += 1;
    }
    assert(rv.take(i as int) =~= rv);
    Ok(entries)
}

proof fn lemma_first_unnamed_prefix(raws: Seq<RawMember>, table: Seq<u8>, k: int)
    requires
        0 <= k <= raws.len(),
        first_unnamed(raws.take(k), table) is Some,
    ensures
        first_unnamed(raws, table) is Some,
    decreases raws.len() - k,
{
    if k < raws.len() {
        assert(raws.take(k + 1).drop_last() =~= raws.take(k));
        lemma_first_unnamed_prefix(raws, table, k + 1);
    } else {
        assert(raws.take(k) =~= raws);
    }
}

} // verus!

verus! {

/// Position of the `n`-th (from 0) path equal to `name`.
pub open spec fn nth_match(paths: Seq<Seq<char>>, name: Seq<char>, n: nat) -> Option<int>
    decreases paths.len(),
{
    if paths.len() == 0 {
        None
    } else if paths[0] == name {
        if n == 0 {
            Some(0)
        } else {
            match nth_match(paths.drop_first(), name, (n - 1) as nat) {
                Some(k) => Some(k + 1),
                None => None,
            }
        }
    } else {
        match nth_match(paths.drop_first(), name, n) {
            Some(k) => Some(k + 1),
            None => None,
        }
    }
}

/// The listed names of recorded members, in order.
pub open spec fn names_of(raws: Seq<RawMember>, table: Seq<u8>) -> Seq<Seq<char>>
    decreases raws.len(),
{
    if raws.len() == 0 {
        Seq::empty()
    } else {
        names_of(raws.drop_last(), table).push(member_name(raws.last(), table))
    }
}

proof fn lemma_names_of(raws: Seq<RawMember>, table: Seq<u8>)
    ensures
        names_of(raws, table).len() == raws.len(),
        forall|i: int| 0 <= i < raws.len() ==> #[trigger] names_of(raws, table)[i] == member_name(raws[i], table),
    decreases raws.len(),
{
    if raws.len() > 0 {
        lemma_names_of(raws.drop_last(), table);
        assert forall|i: int| 0 <= i < raws.len() implies #[trigger] names_of(raws, table)[i] == member_name(raws[i], table) by {
            if i < raws.len() - 1 {
                assert(raws.drop_last()[i] == raws[i]);
            }
        }
    }
}

/// The listed paths of the archive, when it can be listed.
pub open spec fn listed_paths(s: Seq<u8>) -> Option<Seq<Seq<char>>> {
    match parse_spec(s) {
        Ok((raws, table)) => if first_unnamed(raws, table) is None {
            Some(names_of(raws, table))
        } else {
            None
        },
        Err(_) => None,
    }
}

/// The payload bytes of a member: from its offset up to its size, cut at
/// the end of the archive.
pub open spec fn payload_of(s: Seq<u8>, offset: int, size: int) -> Seq<u8> {
    if offset >= s.len() {
        Seq::empty()
    } else if offset + size > s.len() {
        s.subrange(offset, s.len() as int)
    } else {
        s.subrange(offset, offset + size)
    }
}

proof fn lemma_nth_match_bound(paths: Seq<Seq<char>>, name: Seq<char>, n: nat)
    ensures
        nth_match(paths, name, n) matches Some(k) ==> 0 <= k < paths.len() && paths[k] == name,
    decreases paths.len(),
{
    if paths.len() > 0 {
        if paths[0] == name && n > 0 {
            lemma_nth_match_bound(paths.drop_first(), name, (n - 1) as nat);
        } else if paths[0] != name {
            lemma_nth_match_bound(paths.drop_first(), name, n);
        }
    }
}

/// Position of the `occurrence`-th member named `selected_path`, from the
/// listing `entries`.
pub fn occurrence_index(entries: &Vec<ArEntry>, selected_path: &str, occurrence: usize) -> (r: Option<usize>)
    ensures
        match nth_match(entries@.map_values(|e: ArEntry| e.path@), selected_path@, occurrence as nat) {
            Some(k) => r matches Some(i) && i as int == k,
            None => r is None,
        },
        r matches Some(k) ==> k < entries@.len(),
{
    let ghost paths = entries@.map_values(|e: ArEntry| e.path@);
    proof {
        lemma_nth_match_bound(paths, selected_path@, occurrence as nat);
        assert(paths.subrange(0, paths.len() as int) =~= paths);
    }
    let mut seen: usize = 0;
    let mut i: usize = 0;
    while i < entries.len()
        invariant
            i <= entries@.len(),
            seen <= occurrence,
            paths == entries@.map_values(|e: ArEntry| e.path@),
            nth_match(paths, selected_path@, occurrence as nat) == (match nth_match(
                paths.subrange(i as int, paths.len() as int),
                selected_path@,
                (occurrence - seen) as nat,
            ) {
                Some(k) => Some(k + i),
                None => None::<int>,
            }),
            nth_match(paths, selected_path@, occurrence as nat) matches Some(k) ==> 0 <= k < paths.len(),
        decreases entries@.len() - i,
    {
        let ghost rest = paths.subrange(i as int, paths.len() as int);
        assert(rest[0] == entries@[i as int].path@);
        assert(rest.drop_first() =~= paths.subrange(i + 1, paths.len() as int));
        if str_eq(entries[i].path.as_str(), selected_path) {
            if seen == occurrence {
                return Some(i);
            }
            seen += 1;
        }
        i += 1;
    }
    assert(paths.subrange(i as int, paths.len() as int) =~= Seq::<Seq<char>>::empty());
    None
}

/// Index of the `selected_occurrence`-th (from 0) member named
/// `selected_path` in the AR archive `data` read from `path`.
pub fn find_path_occurrence(path: &str, data: &[u8], selected_path: &str, selected_occurrence: usize) -> (r: Result<usize, ArError>)
    ensures
        match parse_spec(data@) {
            Err(f) => r matches Err(e) && reports(e, path@, f),
            Ok(_) => match listed_paths(data@) {
                None => r matches Err(e) && reports(e, path@, ArFailure::Invalid("AR member has an empty name"@)),
                Some(paths) => match nth_match(paths, selected_path@, selected_occurrence as nat) {
                    Some(k) => r matches Ok(i) && i as int == k,
                    None => r matches Err(e) && reports(e, path@, ArFailure::NotFound("retained AR entry is not present"@)),
                },
            },
        },
{
    let entries = match list(path, data) {
        Ok(v) => v,
        Err(e) => return Err(e),
    };
    proof {
        let (raws, table) = parse_spec(data@)->Ok_0;
        lemma_names_of(raws, table);
        assert(entries@.map_values(|e: ArEntry| e.path@) =~= names_of(raws, table));
        assert(first_unnamed(raws, table) is None);
        assert(listed_paths(data@) == Some(entries@.map_values(|e: ArEntry| e.path@)));
    }
    match occurrence_index(&entries, selected_path, selected_occurrence) {
        Some(k) => {
            proof {
                let (raws, table) = parse_spec(data@)->Ok_0;
                assert(entry_of(entries@[k as int], k as int, raws[k as int], table));
            }
            Ok(entries[k].index)
        },
        None => {
            let e = ArError::Io { path: path.to_string(), message: "retained AR entry is not present".to_string() };
            assert(reports(e, path@, ArFailure::NotFound("retained AR entry is not present"@)));
            Err(e)
        },
    }
}

fn payload_bytes(data: &[u8], offset: u64, size: u64) -> (r: Vec<u8>)
    ensures
        r@ == payload_of(data@, offset as int, size as int),
{
    if offset as u128 >= data.len() as u128 {
        return Vec::new();
    }
    let start = offset as usize;
    let end: usize = if offset as u128 + size as u128 > data.len() as u128 {
        data.len()
    } else {
        (offset + size) as usize
    };
    copy_range(data, start, end)
}

/// The payload of the member with index `entry_index` of the AR archive
/// `data` read from `path`: up to its size, cut at the end of the archive.
pub fn copy(path: &str, data: &[u8], entry_index: usize) -> (r: Result<Vec<u8>, ArError>)
    ensures
        match parse_spec(data@) {
            Err(f) => r matches Err(e) && reports(e, path@, f),
            Ok((raws, table)) => if first_unnamed(raws, table) is Some {
                r matches Err(e) && reports(e, path@, ArFailure::Invalid("AR member has an empty name"@))
            } else if entry_index < raws.len() {
                r matches Ok(bytes) && bytes@ == payload_of(
                    data@,
                    raws[entry_index as int].data_offset as int,
                    raws[entry_index as int].size as int,
                )
            } else {
                r matches Err(e) && reports(e, path@, ArFailure::NotFound("retained AR entry ID is not present"@))
            },
        },
{
    let entries = match list(path, data) {
        Ok(v) => v,
        Err(e) => return Err(e),
    };
    if entry_index >= entries.len() {
        return Err(ArError::Io { path: path.to_string(), message: "retained AR entry ID is not present".to_string() });
    }
    let entry = &entries[entry_index];
    Ok(payload_bytes(data, entry.data_offset, entry.size))
}

/// The payload of the `selected_occurrence`-th member named
/// `selected_path` of the AR archive `data` read from `path`.
pub fn copy_by_path_occurrence(path: &str, data: &[u8], selected_path: &str, selected_occurrence: usize) -> (r: Result<
    Vec<u8>,
    ArError,
>)
    ensures
        match parse_spec(data@) {
            Err(f) => r matches Err(e) && reports(e, path@, f),
            Ok((raws, table)) => match listed_paths(data@) {
                None => r matches Err(e) && reports(e, path@, ArFailure::Invalid("AR member has an empty name"@)),
                Some(paths) => match nth_match(paths, selected_path@, selected_occurrence as nat) {
                    Some(k) => r matches Ok(bytes) && bytes@ == payload_of(
                        data@,
                        raws[k].data_offset as int,
                        raws[k].size as int,
                    ),
                    None => r matches Err(e) && reports(e, path@, ArFailure::NotFound("retained AR entry is not present"@)),
                },
            },
        },
{
    let index = match find_path_occurrence(path, data, selected_path, selected_occurrence) {
        Ok(i) => i,
        Err(e) => return Err(e),
    };
    proof {
        let (raws, table) = parse_spec(data@)->Ok_0;
        let paths = names_of(raws, table);
        lemma_names_of(raws, table);
        lemma_nth_match_bound(paths, selected_path@, selected_occurrence as nat);
        assert(first_unnamed(raws, table) is None);
        assert(listed_paths(data@) == Some(paths));
        assert(nth_match(paths, selected_path@, selected_occurrence as nat) == Some(index as int));
        assert(index < raws.len());
    }
    copy(path, data, index)
}

} // verus!
