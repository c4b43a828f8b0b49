//! Format identity for the archive engine seam.
use crate::archive_format::ArchiveFormatKind;
use crate::jobs::JobKind;
use crate::text::str_eq;
use vstd::prelude::*;

verus! {

pub const ZIP: &'static str = "zip";
pub const SPLIT_ZIP: &'static str = "split_zip";
pub const SEVEN_Z: &'static str = "7z";
pub const TAR_ZST: &'static str = "tar.zst";
pub const TAR_GZ: &'static str = "tar.gz";
pub const TAR: &'static str = "tar";
pub const TAR_BZ2: &'static str = "tar.bz2";
pub const TAR_XZ: &'static str = "tar.xz";
pub const TAR_LZMA: &'static str = "tar.lzma";
pub const TAR_LZ: &'static str = "tar.lz";
pub const TAR_LZO: &'static str = "tar.lzo";
pub const TAR_COMPRESS: &'static str = "tar.compress";
pub const TAR_LZ4: &'static str = "tar.lz4";
pub const TAR_UU: &'static str = "tar.uu";
pub const ISO: &'static str = "iso";
pub const CAB: &'static str = "cab";
pub const CPIO: &'static str = "cpio";
pub const RPM: &'static str = "rpm";
pub const XAR: &'static str = "xar";
pub const PKG: &'static str = "pkg";
pub const DMG: &'static str = "dmg";
pub const LHA: &'static str = "lha";
pub const AR: &'static str = "ar";
pub const WARC: &'static str = "warc";
pub const MTREE: &'static str = "mtree";
pub const TZAP: &'static str = "tzap";
pub const RAR: &'static str = "rar";
pub const APPLE_ARCHIVE: &'static str = "apple_archive";
pub const DEB: &'static str = "deb";
pub const MSI: &'static str = "msi";
pub const VHD: &'static str = "vhd";
pub const VMDK: &'static str = "vmdk";
pub const UDF: &'static str = "udf";
pub const SQUASHFS: &'static str = "squashfs";
pub const APPIMAGE: &'static str = "appimage";
pub const WIM: &'static str = "wim";
pub const VDI: &'static str = "vdi";
pub const NRG: &'static str = "nrg";
pub const MDF: &'static str = "mdf";
pub const CDI: &'static str = "cdi";
pub const ISZ: &'static str = "isz";
pub const CCD: &'static str = "ccd";
pub const CUE: &'static str = "cue";
pub const RAW_STREAM: &'static str = "raw_stream";

/// Stable identifier for an archive format (e.g. `FormatId(ZIP)`).
///
/// `FormatId` decouples format identity from implementation availability;
/// two identifiers are the same format when their names are equal.
#[derive(Debug, Clone, Copy)]
pub struct FormatId(pub &'static str);

impl FormatId {
    /// Whether `self` and `other` name the same format.
    pub fn same_as(self, other: FormatId) -> (r: bool)
        ensures
            r == (self.0@ == other.0@),
    {
        str_eq(self.0, other.0)
    }

    /// Whether `self` is the format named `name`.
    pub fn is(self, name: &'static str) -> (r: bool)
        ensures
            r == (self.0@ == name@),
    {
        str_eq(self.0, name)
    }

    /// Returns the underlying name.
    pub fn as_str(self) -> (r: &'static str)
        ensures
            r == self.0,
    {
        self.0
    }

    /// The default format identity (ZIP).
    pub fn default_format() -> (r: FormatId)
        ensures
            r.0 == ZIP,
    {
        FormatId(ZIP)
    }

    /// Converts a canonical archive-format kind into its engine identity.
    pub fn from_archive_format_kind(kind: ArchiveFormatKind) -> (r: Option<FormatId>)
        ensures
            r is None <==> kind == ArchiveFormatKind::Unknown,
            r matches Some(f) ==> f.0 == format_name_of(kind),
    {
        let name = match kind {
            ArchiveFormatKind::Unknown => return None,
            ArchiveFormatKind::Zip => ZIP,
            ArchiveFormatKind::SplitZip => SPLIT_ZIP,
            ArchiveFormatKind::SevenZ => SEVEN_Z,
            ArchiveFormatKind::TarZst => TAR_ZST,
            ArchiveFormatKind::TarGz => TAR_GZ,
            ArchiveFormatKind::Tar => TAR,
            ArchiveFormatKind::TarBz2 => TAR_BZ2,
            ArchiveFormatKind::TarXz => TAR_XZ,
            ArchiveFormatKind::TarLzma => TAR_LZMA,
            ArchiveFormatKind::TarLz => TAR_LZ,
            ArchiveFormatKind::TarLzo => TAR_LZO,
            ArchiveFormatKind::TarCompress => TAR_COMPRESS,
            ArchiveFormatKind::TarLz4 => TAR_LZ4,
            ArchiveFormatKind::TarUu => TAR_UU,
            ArchiveFormatKind::Iso => ISO,
            ArchiveFormatKind::Cab => CAB,
            ArchiveFormatKind::Cpio => CPIO,
            ArchiveFormatKind::Rpm => RPM,
            ArchiveFormatKind::Xar => XAR,
            ArchiveFormatKind::Pkg => PKG,
            ArchiveFormatKind::Dmg => DMG,
            ArchiveFormatKind::Lha => LHA,
            ArchiveFormatKind::Ar => AR,
            ArchiveFormatKind::Warc => WARC,
            ArchiveFormatKind::Mtree => MTREE,
            ArchiveFormatKind::Tzap => TZAP,
            ArchiveFormatKind::Rar => RAR,
            ArchiveFormatKind::AppleArchive => APPLE_ARCHIVE,
            ArchiveFormatKind::Deb => DEB,
            ArchiveFormatKind::Msi => MSI,
            ArchiveFormatKind::Vhd => VHD,
            ArchiveFormatKind::Vmdk => VMDK,
            ArchiveFormatKind::Udf => UDF,
            ArchiveFormatKind::Squashfs => SQUASHFS,
            ArchiveFormatKind::AppImage => APPIMAGE,
            ArchiveFormatKind::Wim => WIM,
            ArchiveFormatKind::Vdi => VDI,
            ArchiveFormatKind::Nrg => NRG,
            ArchiveFormatKind::Mdf => MDF,
            ArchiveFormatKind::Cdi => CDI,
            ArchiveFormatKind::Isz => ISZ,
            ArchiveFormatKind::Ccd => CCD,
            ArchiveFormatKind::Cue => CUE,
            ArchiveFormatKind::RawStream => RAW_STREAM,
        };
        Some(FormatId(name))
    }

    /// Maps this format to the extraction job-kind label used by product
    /// progress surfaces.
    pub fn extract_job_kind(self) -> (r: JobKind)
        ensures
            r == extract_job_kind_spec(self.0@),
    {
        if self.is(ZIP) || self.is(SPLIT_ZIP) {
            JobKind::ZipExtract
        } else if self.is(SEVEN_Z) {
            JobKind::SevenZExtract
        } else if self.is(TAR_ZST) {
            JobKind::TarZstdExtract
        } else if self.is(TZAP) {
            JobKind::TzapExtract
        } else if self.is(RAR) {
            JobKind::RarExtract
        } else if self.is(APPLE_ARCHIVE) {
            JobKind::AppleArchiveExtract
        } else if self.is(RAW_STREAM) {
            JobKind::RawStreamExtract
        } else {
            JobKind::ArchiveExtract
        }
    }
}

/// The extraction job kind for the format named `name`.
pub open spec fn extract_job_kind_spec(name: Seq<char>) -> JobKind {
    if name == ZIP@ || name == SPLIT_ZIP@ {
        JobKind::ZipExtract
    } else if name == SEVEN_Z@ {
        JobKind::SevenZExtract
    } else if name == TAR_ZST@ {
        JobKind::TarZstdExtract
    } else if name == TZAP@ {
        JobKind::TzapExtract
    } else if name == RAR@ {
        JobKind::RarExtract
    } else if name == APPLE_ARCHIVE@ {
        JobKind::AppleArchiveExtract
    } else if name == RAW_STREAM@ {
        JobKind::RawStreamExtract
    } else {
        JobKind::ArchiveExtract
    }
}

/// The engine format name of a known archive-format kind.
pub open spec fn format_name_of(kind: ArchiveFormatKind) -> &'static str {
    match kind {
        ArchiveFormatKind::Unknown => RAW_STREAM,
        ArchiveFormatKind::Zip => ZIP,
        ArchiveFormatKind::SplitZip => SPLIT_ZIP,
        ArchiveFormatKind::SevenZ => SEVEN_Z,
        ArchiveFormatKind::TarZst => TAR_ZST,
        ArchiveFormatKind::TarGz => TAR_GZ,
        ArchiveFormatKind::Tar => TAR,
        ArchiveFormatKind::TarBz2 => TAR_BZ2,
        ArchiveFormatKind::TarXz => TAR_XZ,
        ArchiveFormatKind::TarLzma => TAR_LZMA,
        ArchiveFormatKind::TarLz => TAR_LZ,
        ArchiveFormatKind::TarLzo => TAR_LZO,
        ArchiveFormatKind::TarCompress => TAR_COMPRESS,
        ArchiveFormatKind::TarLz4 => TAR_LZ4,
        ArchiveFormatKind::TarUu => TAR_UU,
        ArchiveFormatKind::Iso => ISO,
        ArchiveFormatKind::Cab => CAB,
        ArchiveFormatKind::Cpio => CPIO,
        ArchiveFormatKind::Rpm => RPM,
        ArchiveFormatKind::Xar => XAR,
        ArchiveFormatKind::Pkg => PKG,
        ArchiveFormatKind::Dmg => DMG,
        ArchiveFormatKind::Lha => LHA,
        ArchiveFormatKind::Ar => AR,
        ArchiveFormatKind::Warc => WARC,
        ArchiveFormatKind::Mtree => MTREE,
        ArchiveFormatKind::Tzap => TZAP,
        ArchiveFormatKind::Rar => RAR,
        ArchiveFormatKind::AppleArchive => APPLE_ARCHIVE,
        ArchiveFormatKind::Deb => DEB,
        ArchiveFormatKind::Msi => MSI,
        ArchiveFormatKind::Vhd => VHD,
        ArchiveFormatKind::Vmdk => VMDK,
        ArchiveFormatKind::Udf => UDF,
        ArchiveFormatKind::Squashfs => SQUASHFS,
        ArchiveFormatKind::AppImage => APPIMAGE,
        ArchiveFormatKind::Wim => WIM,
        ArchiveFormatKind::Vdi => VDI,
        ArchiveFormatKind::Nrg => NRG,
        ArchiveFormatKind::Mdf => MDF,
        ArchiveFormatKind::Cdi => CDI,
        ArchiveFormatKind::Isz => ISZ,
        ArchiveFormatKind::Ccd => CCD,
        ArchiveFormatKind::Cue => CUE,
        ArchiveFormatKind::RawStream => RAW_STREAM,
    }
}

/// The format kind a format name names, for the names of known formats.
pub open spec fn kind_named(name: Seq<char>) -> ArchiveFormatKind {
    if name == ZIP@ {
        ArchiveFormatKind::Zip
    } else if name == SPLIT_ZIP@ {
        ArchiveFormatKind::SplitZip
    } else if name == SEVEN_Z@ {
        ArchiveFormatKind::SevenZ
    } else if name == TAR_ZST@ {
        ArchiveFormatKind::TarZst
    } else if name == TAR_GZ@ {
        ArchiveFormatKind::TarGz
    } else if name == TAR@ {
        ArchiveFormatKind::Tar
    } else if name == TAR_BZ2@ {
        ArchiveFormatKind::TarBz2
    } else if name == TAR_XZ@ {
        ArchiveFormatKind::TarXz
    } else if name == TAR_LZMA@ {
        ArchiveFormatKind::TarLzma
    } else if name == TAR_LZ@ {
        ArchiveFormatKind::TarLz
    } else if name == TAR_LZO@ {
        ArchiveFormatKind::TarLzo
    } else if name == TAR_COMPRESS@ {
        ArchiveFormatKind::TarCompress
    } else if name == TAR_LZ4@ {
        ArchiveFormatKind::TarLz4
    } else if name == TAR_UU@ {
        ArchiveFormatKind::TarUu
    } else if name == ISO@ {
        ArchiveFormatKind::Iso
    } else if name == CAB@ {
        ArchiveFormatKind::Cab
    } else if name == CPIO@ {
        ArchiveFormatKind::Cpio
    } else if name == RPM@ {
        ArchiveFormatKind::Rpm
    } else if name == XAR@ {
        ArchiveFormatKind::Xar
    } else if name == PKG@ {
        ArchiveFormatKind::Pkg
    } else if name == DMG@ {
        ArchiveFormatKind::Dmg
    } else if name == LHA@ {
        ArchiveFormatKind::Lha
    } else if name == AR@ {
        ArchiveFormatKind::Ar
    } else if name == WARC@ {
        ArchiveFormatKind::Warc
    } else if name == MTREE@ {
        ArchiveFormatKind::Mtree
    } else if name == TZAP@ {
        ArchiveFormatKind::Tzap
    } else if name == RAR@ {
        ArchiveFormatKind::Rar
    } else if name == APPLE_ARCHIVE@ {
        ArchiveFormatKind::AppleArchive
    } else if name == DEB@ {
        ArchiveFormatKind::Deb
    } else if name == MSI@ {
        ArchiveFormatKind::Msi
    } else if name == VHD@ {
        ArchiveFormatKind::Vhd
    } else if name == VMDK@ {
        ArchiveFormatKind::Vmdk
    } else if name == UDF@ {
        ArchiveFormatKind::Udf
    } else if name == SQUASHFS@ {
        ArchiveFormatKind::Squashfs
    } else if name == APPIMAGE@ {
        ArchiveFormatKind::AppImage
    } else if name == WIM@ {
        ArchiveFormatKind::Wim
    } else if name == VDI@ {
        ArchiveFormatKind::Vdi
    } else if name == NRG@ {
        ArchiveFormatKind::Nrg
    } else if name == MDF@ {
        ArchiveFormatKind::Mdf
    } else if name == CDI@ {
        ArchiveFormatKind::Cdi
    } else if name == ISZ@ {
        ArchiveFormatKind::Isz
    } else if name == CCD@ {
        ArchiveFormatKind::Ccd
    } else if name == CUE@ {
        ArchiveFormatKind::Cue
    } else if name == RAW_STREAM@ {
        ArchiveFormatKind::RawStream
    } else {
        ArchiveFormatKind::Unknown
    }
}

/// Format identifiers name their kinds one to one: the identifier of a
/// known kind names that kind back, so two known kinds with the same
/// identifier are the same kind.
pub proof fn lemma_format_names_are_distinct(k1: ArchiveFormatKind, k2: ArchiveFormatKind)
    requires
        k1 != ArchiveFormatKind::Unknown,
        k2 != ArchiveFormatKind::Unknown,
    ensures
        kind_named(format_name_of(k1)@) == k1,
        format_name_of(k1)@ == format_name_of(k2)@ ==> k1 == k2,
{
    lemma_kind_named_inverts(k1);
    lemma_kind_named_inverts(k2);
}

#[verifier::rlimit(100)]
proof fn lemma_kind_named_inverts(k: ArchiveFormatKind)
    requires
        k != ArchiveFormatKind::Unknown,
    ensures
        kind_named(format_name_of(k)@) == k,
{
    reveal_strlit("zip");
    reveal_strlit("split_zip");
    reveal_strlit("7z");
    reveal_strlit("tar.zst");
    reveal_strlit("tar.gz");
    reveal_strlit("tar");
    reveal_strlit("tar.bz2");
    reveal_strlit("tar.xz");
    reveal_strlit("tar.lzma");
    reveal_strlit("tar.lz");
    reveal_strlit("tar.lzo");
    reveal_strlit("tar.compress");
    reveal_strlit("tar.lz4");
    reveal_strlit("tar.uu");
    reveal_strlit("iso");
    reveal_strlit("cab");
    reveal_strlit("cpio");
    reveal_strlit("rpm");
    reveal_strlit("xar");
    reveal_strlit("pkg");
    reveal_strlit("dmg");
    reveal_strlit("lha");
    reveal_strlit("ar");
    reveal_strlit("warc");
    reveal_strlit("mtree");
    reveal_strlit("tzap");
    reveal_strlit("rar");
    reveal_strlit("apple_archive");
    reveal_strlit("deb");
    reveal_strlit("msi");
    reveal_strlit("vhd");
    reveal_strlit("vmdk");
    reveal_strlit("udf");
    reveal_strlit("squashfs");
    reveal_strlit("appimage");
    reveal_strlit("wim");
    reveal_strlit("vdi");
    reveal_strlit("nrg");
    reveal_strlit("mdf");
    reveal_strlit("cdi");
    reveal_strlit("isz");
    reveal_strlit("ccd");
    reveal_strlit("cue");
    reveal_strlit("raw_stream");
    assert(ZIP@.len() == 3 && ZIP@[0] == 'z' && ZIP@[2] == 'p');
    assert(SPLIT_ZIP@.len() == 9 && SPLIT_ZIP@[0] == 's' && SPLIT_ZIP@[8] == 'p' && SPLIT_ZIP@[4] == 't');
    assert(SEVEN_Z@.len() == 2 && SEVEN_Z@[0] == '7' && SEVEN_Z@[1] == 'z');
    assert(TAR_ZST@.len() == 7 && TAR_ZST@[0] == 't' && TAR_ZST@[6] == 't' && TAR_ZST@[4] == 'z');
    assert(TAR_GZ@.len() == 6 && TAR_GZ@[0] == 't' && TAR_GZ@[5] == 'z' && TAR_GZ@[4] == 'g');
    assert(TAR@.len() == 3 && TAR@[0] == 't' && TAR@[2] == 'r');
    assert(TAR_BZ2@.len() == 7 && TAR_BZ2@[0] == 't' && TAR_BZ2@[6] == '2' && TAR_BZ2@[4] == 'b');
    assert(TAR_XZ@.len() == 6 && TAR_XZ@[0] == 't' && TAR_XZ@[5] == 'z' && TAR_XZ@[4] == 'x');
    assert(TAR_LZMA@.len() == 8 && TAR_LZMA@[0] == 't' && TAR_LZMA@[7] == 'a' && TAR_LZMA@[4] == 'l');
    assert(TAR_LZ@.len() == 6 && TAR_LZ@[0] == 't' && TAR_LZ@[5] == 'z' && TAR_LZ@[4] == 'l');
    assert(TAR_LZO@.len() == 7 && TAR_LZO@[0] == 't' && TAR_LZO@[6] == 'o' && TAR_LZO@[4] == 'l');
    assert(TAR_COMPRESS@.len() == 12 && TAR_COMPRESS@[0] == 't' && TAR_COMPRESS@[11] == 's' && TAR_COMPRESS@[4] == 'c');
    assert(TAR_LZ4@.len() == 7 && TAR_LZ4@[0] == 't' && TAR_LZ4@[6] == '4' && TAR_LZ4@[4] == 'l');
    assert(TAR_UU@.len() == 6 && TAR_UU@[0] == 't' && TAR_UU@[5] == 'u' && TAR_UU@[4] == 'u');
    assert(ISO@.len() == 3 && ISO@[0] == 'i' && ISO@[2] == 'o');
    assert(CAB@.len() == 3 && CAB@[0] == 'c' && CAB@[2] == 'b');
    assert(CPIO@.len() == 4 && CPIO@[0] == 'c' && CPIO@[3] == 'o');
    assert(RPM@.len() == 3 && RPM@[0] == 'r' && RPM@[2] == 'm');
    assert(XAR@.len() == 3 && XAR@[0] == 'x' && XAR@[2] == 'r');
    assert(PKG@.len() == 3 && PKG@[0] == 'p' && PKG@[2] == 'g');
    assert(DMG@.len() == 3 && DMG@[0] == 'd' && DMG@[2] == 'g');
    assert(LHA@.len() == 3 && LHA@[0] == 'l' && LHA@[2] == 'a');
    assert(AR@.len() == 2 && AR@[0] == 'a' && AR@[1] == 'r');
    assert(WARC@.len() == 4 && WARC@[0] == 'w' && WARC@[3] == 'c');
    assert(MTREE@.len() == 5 && MTREE@[0] == 'm' && MTREE@[4] == 'e');
    assert(TZAP@.len() == 4 && TZAP@[0] == 't' && TZAP@[3] == 'p');
    assert(RAR@.len() == 3 && RAR@[0] == 'r' && RAR@[2] == 'r');
    assert(APPLE_ARCHIVE@.len() == 13 && APPLE_ARCHIVE@[0] == 'a' && APPLE_ARCHIVE@[12] == 'e' && APPLE_ARCHIVE@[4] == 'e');
    assert(DEB@.len() == 3 && DEB@[0] == 'd' && DEB@[2] == 'b');
    assert(MSI@.len() == 3 && MSI@[0] == 'm' && MSI@[2] == 'i');
    assert(VHD@.len() == 3 && VHD@[0] == 'v' && VHD@[2] == 'd');
    assert(VMDK@.len() == 4 && VMDK@[0] == 'v' && VMDK@[3] == 'k');
    assert(UDF@.len() == 3 && UDF@[0] == 'u' && UDF@[2] == 'f');
    assert(SQUASHFS@.len() == 8 && SQUASHFS@[0] == 's' && SQUASHFS@[7] == 's' && SQUASHFS@[4] == 's');
    assert(APPIMAGE@.len() == 8 && APPIMAGE@[0] == 'a' && APPIMAGE@[7] == 'e' && APPIMAGE@[4] == 'm');
    assert(WIM@.len() == 3 && WIM@[0] == 'w' && WIM@[2] == 'm');
    assert(VDI@.len() == 3 && VDI@[0] == 'v' && VDI@[2] == 'i');
    assert(NRG@.len() == 3 && NRG@[0] == 'n' && NRG@[2] == 'g');
    assert(MDF@.len() == 3 && MDF@[0] == 'm' && MDF@[2] == 'f');
    assert(CDI@.len() == 3 && CDI@[0] == 'c' && CDI@[2] == 'i');
    assert(ISZ@.len() == 3 && ISZ@[0] == 'i' && ISZ@[2] == 'z');
    assert(CCD@.len() == 3 && CCD@[0] == 'c' && CCD@[2] == 'd');
    assert(CUE@.len() == 3 && CUE@[0] == 'c' && CUE@[2] == 'e');
    assert(RAW_STREAM@.len() == 10 && RAW_STREAM@[0] == 'r' && RAW_STREAM@[9] == 'm' && RAW_STREAM@[4] == 's');
    match k {
        ArchiveFormatKind::Zip => {
            assert(kind_named(format_name_of(k)@) == k);
        },
        ArchiveFormatKind::SplitZip => {
            assert(kind_named(format_name_of(k)@) == k);
        },
        ArchiveFormatKind::SevenZ => {
            assert(kind_named(format_name_of(k)@) == k);
        },
        ArchiveFormatKind::TarZst => {
            assert(kind_named(format_name_of(k)@) == k);
        },
        ArchiveFormatKind::TarGz => {
            assert(kind_named(format_name_of(k)@) == k);
        },
        ArchiveFormatKind::Tar => {
            assert(kind_named(format_name_of(k)@) == k);
        },
        ArchiveFormatKind::TarBz2 => {
            assert(kind_named(format_name_of(k)@) == k);
        },
        ArchiveFormatKind::TarXz => {
            assert(kind_named(format_name_of(k)@) == k);
        },
        ArchiveFormatKind::TarLzma => {
            assert(kind_named(format_name_of(k)@) == k);
        },
        ArchiveFormatKind::TarLz => {
            assert(kind_named(format_name_of(k)@) == k);
        },
        ArchiveFormatKind::TarLzo => {
            assert(kind_named(format_name_of(k)@) == k);
        },
        ArchiveFormatKind::TarCompress => {
            assert(kind_named(format_name_of(k)@) == k);
        },
        ArchiveFormatKind::TarLz4 => {
            assert(kind_named(format_name_of(k)@) == k);
        },
        ArchiveFormatKind::TarUu => {
            assert(kind_named(format_name_of(k)@) == k);
        },
        ArchiveFormatKind::Iso => {
            assert(kind_named(format_name_of(k)@) == k);
        },
        ArchiveFormatKind::Cab => {
            assert(kind_named(format_name_of(k)@) == k);
        },
        ArchiveFormatKind::Cpio => {
            assert(kind_named(format_name_of(k)@) == k);
        },
        ArchiveFormatKind::Rpm => {
            assert(kind_named(format_name_of(k)@) == k);
        },
        ArchiveFormatKind::Xar => {
            assert(kind_named(format_name_of(k)@) == k);
        },
        ArchiveFormatKind::Pkg => {
            assert(kind_named(format_name_of(k)@) == k);
        },
        ArchiveFormatKind::Dmg => {
            assert(kind_named(format_name_of(k)@) == k);
        },
        ArchiveFormatKind::Lha => {
            assert(kind_named(format_name_of(k)@) == k);
        },
        ArchiveFormatKind::Ar => {
            assert(kind_named(format_name_of(k)@) == k);
        },
        ArchiveFormatKind::Warc => {
            assert(kind_named(format_name_of(k)@) == k);
        },
        ArchiveFormatKind::Mtree => {
            assert(kind_named(format_name_of(k)@) == k);
        },
        ArchiveFormatKind::Tzap => {
            assert(kind_named(format_name_of(k)@) == k);
        },
        ArchiveFormatKind::Rar => {
            assert(kind_named(format_name_of(k)@) == k);
        },
        ArchiveFormatKind::AppleArchive => {
            assert(kind_named(format_name_of(k)@) == k);
        },
        ArchiveFormatKind::Deb => {
            assert(kind_named(format_name_of(k)@) == k);
        },
        ArchiveFormatKind::Msi => {
            assert(kind_named(format_name_of(k)@) == k);
        },
        ArchiveFormatKind::Vhd => {
            assert(kind_named(format_name_of(k)@) == k);
        },
        ArchiveFormatKind::Vmdk => {
            assert(kind_named(format_name_of(k)@) == k);
        },
        ArchiveFormatKind::Udf => {
            assert(kind_named(format_name_of(k)@) == k);
        },
        ArchiveFormatKind::Squashfs => {
            assert(kind_named(format_name_of(k)@) == k);
        },
        ArchiveFormatKind::AppImage => {
            assert(kind_named(format_name_of(k)@) == k);
        },
        ArchiveFormatKind::Wim => {
            assert(kind_named(format_name_of(k)@) == k);
        },
        ArchiveFormatKind::Vdi => {
            assert(kind_named(format_name_of(k)@) == k);
        },
        ArchiveFormatKind::Nrg => {
            assert(kind_named(format_name_of(k)@) == k);
        },
        ArchiveFormatKind::Mdf => {
            assert(kind_named(format_name_of(k)@) == k);
        },
        ArchiveFormatKind::Cdi => {
            assert(kind_named(format_name_of(k)@) == k);
        },
        ArchiveFormatKind::Isz => {
            assert(kind_named(format_name_of(k)@) == k);
        },
        ArchiveFormatKind::Ccd => {
            assert(kind_named(format_name_of(k)@) == k);
        },
        ArchiveFormatKind::Cue => {
            assert(kind_named(format_name_of(k)@) == k);
        },
        ArchiveFormatKind::RawStream => {
            assert(kind_named(format_name_of(k)@) == k);
        },
        ArchiveFormatKind::Unknown => {},
    }
}

} // verus!
