//! Canonical archive-format detection by file name.
//!
//! Every consumer dispatches on [`ArchiveFormatKind`]; the extension lists
//! below are the single source of the name-based rules.
use crate::engine::split_zip::{is_split_zip_archive_path, names_view, split_zip_archive_spec};
use crate::multi_volume::{numbered_7z_volume_spec, parse_numbered_7z_volume_name};
use crate::paths::{file_name_of, file_name_spec};
use crate::text::{ascii_lower, chars_end_with, chars_of, ends_with, to_ascii_lower};
use vstd::prelude::*;

verus! {

pub const ZIP_FAMILY_EXTENSIONS: [&'static str; 10] = [".zip", ".zipx", ".jar", ".war", ".ipa", ".apk", ".appx", ".xpi", ".cbz", ".epub"];
pub const SEVEN_Z_EXTENSIONS: [&'static str; 2] = [".7z", ".cb7"];
pub const RAR_EXTENSIONS: [&'static str; 2] = [".rar", ".cbr"];
pub const TAR_EXTENSIONS: [&'static str; 2] = [".tar", ".cbt"];
pub const TAR_BZ2_EXTENSIONS: [&'static str; 3] = [".tar.bz2", ".tbz2", ".tbz"];
pub const TAR_XZ_EXTENSIONS: [&'static str; 2] = [".tar.xz", ".txz"];
pub const TAR_LZMA_EXTENSIONS: [&'static str; 2] = [".tar.lzma", ".tlzma"];
pub const ISO_EXTENSIONS: [&'static str; 1] = [".iso"];
pub const CAB_EXTENSIONS: [&'static str; 1] = [".cab"];
pub const CPIO_EXTENSIONS: [&'static str; 1] = [".cpio"];
pub const RPM_EXTENSIONS: [&'static str; 1] = [".rpm"];
pub const XAR_EXTENSIONS: [&'static str; 1] = [".xar"];
pub const PKG_EXTENSIONS: [&'static str; 1] = [".pkg"];
pub const DMG_EXTENSIONS: [&'static str; 1] = [".dmg"];
pub const LHA_EXTENSIONS: [&'static str; 2] = [".lha", ".lzh"];
pub const AR_EXTENSIONS: [&'static str; 3] = [".a", ".ar", ".lib"];
pub const WARC_EXTENSIONS: [&'static str; 1] = [".warc"];
pub const MTREE_EXTENSIONS: [&'static str; 1] = [".mtree"];
pub const TAR_ZST_EXTENSIONS: [&'static str; 2] = [".tar.zst", ".tzst"];
pub const TGZ_EXTENSIONS: [&'static str; 2] = [".tgz", ".tar.gz"];
pub const TZAP_EXTENSIONS: [&'static str; 1] = [".tzap"];
pub const APPLE_ARCHIVE_EXTENSIONS: [&'static str; 2] = [".aar", ".aea"];
pub const DEB_EXTENSIONS: [&'static str; 1] = [".deb"];

/// Archive format kind detected from a path.
#[derive(Debug, Clone, Copy, PartialEq, Eq, Structural)]
pub enum ArchiveFormatKind {
    /// Single-file ZIP family (zip/zipx/jar/…).
    Zip,
    /// Split ZIP volume set (`.z01`, `.z02`, …, `.zip`).
    SplitZip,
    /// 7z, including numbered `.7z.001` volumes.
    SevenZ,
    /// `.tar.zst` / `.tzst`.
    TarZst,
    /// `.tgz` / `.tar.gz`.
    TarGz,
    /// Uncompressed `.tar`.
    Tar,
    /// `.tar.bz2` / `.tbz2` / `.tbz`.
    TarBz2,
    /// `.tar.xz` / `.txz`.
    TarXz,
    /// `.tar.lzma` / `.tlzma`.
    TarLzma,
    /// `.tar.lz`.
    TarLz,
    /// `.tar.lzo`.
    TarLzo,
    /// `.tar.Z`.
    TarCompress,
    /// `.tar.lz4`.
    TarLz4,
    /// uuencoded tar.
    TarUu,
    /// ISO disk image (`.iso`).
    Iso,
    /// Windows Cabinet (`.cab`).
    Cab,
    /// CPIO archive (`.cpio`).
    Cpio,
    /// RPM package (`.rpm`).
    Rpm,
    /// XAR archive (`.xar`).
    Xar,
    /// Apple Installer Package (`.pkg`).
    Pkg,
    /// Apple Disk Image (`.dmg`).
    Dmg,
    /// LHA/LZH archive.
    Lha,
    /// AR archive (`.a`, `.ar`, `.lib`).
    Ar,
    /// WARC archive (`.warc`).
    Warc,
    /// Mtree hierarchy (`.mtree`).
    Mtree,
    /// TZAP, including numbered volumes.
    Tzap,
    /// RAR (`.rar`, `.cbr`).
    Rar,
    /// Apple Archive (`.aar`, `.aea`).
    AppleArchive,
    /// `.deb` package.
    Deb,
    /// Windows Installer package.
    Msi,
    /// VHD disk image.
    Vhd,
    /// VMDK disk image.
    Vmdk,
    /// UDF image.
    Udf,
    /// SquashFS image.
    Squashfs,
    /// AppImage bundle.
    AppImage,
    /// WIM image.
    Wim,
    /// VDI disk image.
    Vdi,
    /// Nero image.
    Nrg,
    /// Alcohol image.
    Mdf,
    /// DiscJuggler image.
    Cdi,
    /// Compressed ISO.
    Isz,
    /// CloneCD image.
    Ccd,
    /// Cue sheet.
    Cue,
    /// Raw single-file compression stream.
    RawStream,
    /// Not recognized as any archive format.
    Unknown,
}

/// Facts about a path that come from outside the name rules below: the
/// raw-stream detector's answer, whether the path is part of a split ZIP set
/// on disk, whether it names a numbered 7z volume, whether it names a
/// TZAP archive or volume, and whether the platform reads Apple Archive
/// (macOS and iOS do).
#[derive(Debug, Clone, Copy, PartialEq, Eq, Structural)]
pub struct FormatDetectionFacts {
    pub raw_stream: bool,
    pub split_zip: bool,
    pub sevenz_volume: bool,
    pub tzap: bool,
    pub apple_archive: bool,
}

/// The detection facts of the path `path` that its text and the names in
/// its directory (`listing`, where the directory could be read) give: it
/// is part of a split ZIP set, its file name is that of a numbered 7z
/// volume, or its file name ends with a TZAP extension. The raw-stream
/// detector's answer and the platform's Apple Archive support are handed
/// through.
pub fn path_detection_facts(path: &str, listing: Option<&Vec<String>>, raw_stream: bool, apple_archive: bool) -> (r: FormatDetectionFacts)
    ensures
        r.raw_stream == raw_stream,
        r.apple_archive == apple_archive,
        r.split_zip == split_zip_archive_spec(
            path@,
            match listing {
                Some(l) => Some(names_view(l@)),
                None => None,
            },
        ),
        r.sevenz_volume == (file_name_spec(path@) matches Some(n) && numbered_7z_volume_spec(n) is Some),
        r.tzap == ends_with_any_spec(file_name_spec(path@), TZAP_EXTENSIONS@),
{
    let split_zip = is_split_zip_archive_path(path, listing);
    let name = file_name_of(path);
    let (sevenz_volume, tzap) = match &name {
        Some(n) => (parse_numbered_7z_volume_name(n.as_str()).is_some(), ends_with_any(Some(n.as_str()), &TZAP_EXTENSIONS)),
        None => (false, ends_with_any(None, &TZAP_EXTENSIONS)),
    };
    FormatDetectionFacts { raw_stream, split_zip, sevenz_volume, tzap, apple_archive }
}

/// The file name ends with one of `suffixes`, ignoring ASCII case.
pub open spec fn ends_with_any_spec(name: Option<Seq<char>>, suffixes: Seq<&'static str>) -> bool {
    match name {
        None => false,
        Some(n) => exists|i: int| 0 <= i < suffixes.len() && ends_with(ascii_lower(n), ascii_lower(#[trigger] suffixes[i]@)),
    }
}

/// The format detected from a file name and the facts about its path.
pub open spec fn detect_spec(name: Option<Seq<char>>, facts: FormatDetectionFacts) -> ArchiveFormatKind {
    if facts.raw_stream {
        ArchiveFormatKind::RawStream
    } else if ends_with_any_spec(name, ZIP_FAMILY_EXTENSIONS@) {
        if facts.split_zip {
            ArchiveFormatKind::SplitZip
        } else {
            ArchiveFormatKind::Zip
        }
    } else if ends_with_any_spec(name, SEVEN_Z_EXTENSIONS@) || facts.sevenz_volume {
        ArchiveFormatKind::SevenZ
    } else if ends_with_any_spec(name, RAR_EXTENSIONS@) {
        ArchiveFormatKind::Rar
    } else if ends_with_any_spec(name, TAR_ZST_EXTENSIONS@) {
        ArchiveFormatKind::TarZst
    } else if ends_with_any_spec(name, TGZ_EXTENSIONS@) {
        ArchiveFormatKind::TarGz
    } else if ends_with_any_spec(name, TAR_EXTENSIONS@) {
        ArchiveFormatKind::Tar
    } else if ends_with_any_spec(name, TAR_BZ2_EXTENSIONS@) {
        ArchiveFormatKind::TarBz2
    } else if ends_with_any_spec(name, TAR_XZ_EXTENSIONS@) {
        ArchiveFormatKind::TarXz
    } else if ends_with_any_spec(name, TAR_LZMA_EXTENSIONS@) {
        ArchiveFormatKind::TarLzma
    } else if ends_with_any_spec(name, ISO_EXTENSIONS@) {
        ArchiveFormatKind::Iso
    } else if ends_with_any_spec(name, CAB_EXTENSIONS@) {
        ArchiveFormatKind::Cab
    } else if ends_with_any_spec(name, CPIO_EXTENSIONS@) {
        ArchiveFormatKind::Cpio
    } else if ends_with_any_spec(name, RPM_EXTENSIONS@) {
        ArchiveFormatKind::Rpm
    } else if ends_with_any_spec(name, XAR_EXTENSIONS@) {
        ArchiveFormatKind::Xar
    } else if ends_with_any_spec(name, PKG_EXTENSIONS@) {
        ArchiveFormatKind::Pkg
    } else if ends_with_any_spec(name, DMG_EXTENSIONS@) {
        ArchiveFormatKind::Dmg
    } else if ends_with_any_spec(name, LHA_EXTENSIONS@) {
        ArchiveFormatKind::Lha
    } else if ends_with_any_spec(name, AR_EXTENSIONS@) {
        ArchiveFormatKind::Ar
    } else if ends_with_any_spec(name, WARC_EXTENSIONS@) {
        ArchiveFormatKind::Warc
    } else if ends_with_any_spec(name, MTREE_EXTENSIONS@) {
        ArchiveFormatKind::Mtree
    } else if facts.tzap {
        ArchiveFormatKind::Tzap
    } else if facts.apple_archive && ends_with_any_spec(name, APPLE_ARCHIVE_EXTENSIONS@) {
        ArchiveFormatKind::AppleArchive
    } else if ends_with_any_spec(name, DEB_EXTENSIONS@) {
        ArchiveFormatKind::Deb
    } else {
        ArchiveFormatKind::Unknown
    }
}

/// Whether `name` ends with one of `suffixes`, ignoring ASCII case.
pub fn ends_with_any(name: Option<&str>, suffixes: &[&'static str]) -> (r: bool)
    ensures
        r == ends_with_any_spec(
            match name {
                Some(n) => Some(n@),
                None => None,
            },
            suffixes@,
        ),
{
    let n = match name {
        Some(n) => n,
        None => return false,
    };
    let lower = to_ascii_lower(&chars_of(n));
    let mut i: usize = 0;
    while i < suffixes.len()
        invariant
            i <= suffixes@.len(),
            lower@ == ascii_lower(n@),
            name == Some(n),
            forall|j: int| 0 <= j < i ==> !ends_with(lower@, ascii_lower(#[trigger] suffixes@[j]@)),
        decreases suffixes@.len() - i,
    {
        let suffix = to_ascii_lower(&chars_of(suffixes[i]));
        if chars_end_with(&lower, &suffix) {
            assert(ends_with(lower@, ascii_lower(suffixes@[i as int]@)));
            assert(ends_with_any_spec(Some(n@), suffixes@));
            return true;
        }
        i += 1;
    }
    false
}

/// Detects the archive format from a path's file name (`None` when the path
/// has no UTF-8 file name) and the facts about the path that name rules
/// alone cannot settle.
///
/// Raw-stream detection runs first because it deliberately excludes container
/// spellings such as `.tar.gz`; the remaining extension sets are disjoint.
pub fn detect_archive_format(file_name: Option<&str>, facts: FormatDetectionFacts) -> (r: ArchiveFormatKind)
    ensures
        r == detect_spec(
            match file_name {
                Some(n) => Some(n@),
                None => None,
            },
            facts,
        ),
{
    if facts.raw_stream {
        return ArchiveFormatKind::RawStream;
    }
    if ends_with_any(file_name, &ZIP_FAMILY_EXTENSIONS) {
        return if facts.split_zip {
            ArchiveFormatKind::SplitZip
        } else {
            ArchiveFormatKind::Zip
        };
    }
    if ends_with_any(file_name, &SEVEN_Z_EXTENSIONS) || facts.sevenz_volume {
        return ArchiveFormatKind::SevenZ;
    }
    if ends_with_any(file_name, &RAR_EXTENSIONS) {
        return ArchiveFormatKind::Rar;
    }
    if ends_with_any(file_name, &TAR_ZST_EXTENSIONS) {
        return ArchiveFormatKind::TarZst;
    }
    if ends_with_any(file_name, &TGZ_EXTENSIONS) {
        return ArchiveFormatKind::TarGz;
    }
    if ends_with_any(file_name, &TAR_EXTENSIONS) {
        return ArchiveFormatKind::Tar;
    }
    if ends_with_any(file_name, &TAR_BZ2_EXTENSIONS) {
        return ArchiveFormatKind::TarBz2;
    }
    if ends_with_any(file_name, &TAR_XZ_EXTENSIONS) {
        return ArchiveFormatKind::TarXz;
    }
    if ends_with_any(file_name, &TAR_LZMA_EXTENSIONS) {
        return ArchiveFormatKind::TarLzma;
    }
    if ends_with_any(file_name, &ISO_EXTENSIONS) {
        return ArchiveFormatKind::Iso;
    }
    if ends_with_any(file_name, &CAB_EXTENSIONS) {
        return ArchiveFormatKind::Cab;
    }
    if ends_with_any(file_name, &CPIO_EXTENSIONS) {
        return ArchiveFormatKind::Cpio;
    }
    if ends_with_any(file_name, &RPM_EXTENSIONS) {
        return ArchiveFormatKind::Rpm;
    }
    if ends_with_any(file_name, &XAR_EXTENSIONS) {
        return ArchiveFormatKind::Xar;
    }
    if ends_with_any(file_name, &PKG_EXTENSIONS) {
        return ArchiveFormatKind::Pkg;
    }
    if ends_with_any(file_name, &DMG_EXTENSIONS) {
        return ArchiveFormatKind::Dmg;
    }
    if ends_with_any(file_name, &LHA_EXTENSIONS) {
        return ArchiveFormatKind::Lha;
    }
    if ends_with_any(file_name, &AR_EXTENSIONS) {
        return ArchiveFormatKind::Ar;
    }
    if ends_with_any(file_name, &WARC_EXTENSIONS) {
        return ArchiveFormatKind::Warc;
    }
    if ends_with_any(file_name, &MTREE_EXTENSIONS) {
        return ArchiveFormatKind::Mtree;
    }
    if facts.tzap {
        return ArchiveFormatKind::Tzap;
    }
    if facts.apple_archive && ends_with_any(file_name, &APPLE_ARCHIVE_EXTENSIONS) {
        return ArchiveFormatKind::AppleArchive;
    }
    if ends_with_any(file_name, &DEB_EXTENSIONS) {
        return ArchiveFormatKind::Deb;
    }
    ArchiveFormatKind::Unknown
}

/// A name that ends with `p` ends with `p`'s last two characters.
proof fn lemma_suffix_last_two(s: Seq<char>, p: Seq<char>)
    requires
        ends_with(s, p),
        p.len() >= 2,
    ensures
        s[s.len() - 1] == p[p.len() - 1],
        s[s.len() - 2] == p[p.len() - 2],
{
    let t = s.subrange(s.len() - p.len(), s.len() as int);
    assert(t[p.len() - 1] == s[s.len() - 1]);
    assert(t[p.len() - 2] == s[s.len() - 2]);
}

/// No suffix in `suffixes` lower-cases to one ending in "gz", so a
/// lower-cased name ending in "gz" ends with none of them.
proof fn lemma_gz_name_ends_with_none(n: Seq<char>, suffixes: Seq<&'static str>)
    requires
        ascii_lower(n).len() >= 2,
        ascii_lower(n)[ascii_lower(n).len() - 1] == 'z',
        ascii_lower(n)[ascii_lower(n).len() - 2] == 'g',
        forall|i: int|
            0 <= i < suffixes.len() ==> (#[trigger] suffixes[i])@.len() >= 2 && !(ascii_lower(suffixes[i]@)[suffixes[i]@.len() - 1]
                == 'z' && ascii_lower(suffixes[i]@)[suffixes[i]@.len() - 2] == 'g'),
    ensures
        !ends_with_any_spec(Some(n), suffixes),
{
    if ends_with_any_spec(Some(n), suffixes) {
        let i = choose|i: int| 0 <= i < suffixes.len() && ends_with(ascii_lower(n), ascii_lower(#[trigger] suffixes[i]@));
        lemma_suffix_last_two(ascii_lower(n), ascii_lower(suffixes[i]@));
    }
}

/// A name ending, in any ASCII case, with ".tgz" or ".tar.gz" is a gzip
/// compressed tar archive, unless the raw-stream detector claimed the file
/// or the path is a numbered 7z volume.
pub proof fn lemma_tgz_names_are_tar_gz(name: Seq<char>, facts: FormatDetectionFacts)
    requires
        ends_with_any_spec(Some(name), TGZ_EXTENSIONS@),
        !facts.raw_stream,
        !facts.sevenz_volume,
    ensures
        detect_spec(Some(name), facts) == ArchiveFormatKind::TarGz,
{
    reveal_strlit(".tgz");
    reveal_strlit(".tar.gz");
    reveal_strlit(".zip");
    reveal_strlit(".zipx");
    reveal_strlit(".jar");
    reveal_strlit(".war");
    reveal_strlit(".ipa");
    reveal_strlit(".apk");
    reveal_strlit(".appx");
    reveal_strlit(".xpi");
    reveal_strlit(".cbz");
    reveal_strlit(".epub");
    reveal_strlit(".7z");
    reveal_strlit(".cb7");
    reveal_strlit(".rar");
    reveal_strlit(".cbr");
    reveal_strlit(".tar.zst");
    reveal_strlit(".tzst");
    let l = ascii_lower(name);
    let i = choose|i: int| 0 <= i < TGZ_EXTENSIONS@.len() && ends_with(l, ascii_lower(#[trigger] TGZ_EXTENSIONS@[i]@));
    assert(TGZ_EXTENSIONS@[0]@ == ".tgz"@);
    assert(TGZ_EXTENSIONS@[1]@ == ".tar.gz"@);
    lemma_suffix_last_two(l, ascii_lower(TGZ_EXTENSIONS@[i]@));
    lemma_gz_name_ends_with_none(name, ZIP_FAMILY_EXTENSIONS@);
    lemma_gz_name_ends_with_none(name, SEVEN_Z_EXTENSIONS@);
    lemma_gz_name_ends_with_none(name, RAR_EXTENSIONS@);
    lemma_gz_name_ends_with_none(name, TAR_ZST_EXTENSIONS@);
}

} // verus!
