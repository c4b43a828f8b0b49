//! Adapter descriptors of the native read and create adapters, the error
//! and report helpers they share, and the default plugin that registers
//! them.
//!
//! The adapters' listing, verification, extraction and creation work reads
//! and writes files through the format backends; it is done by the
//! embedding program, which pairs each registered descriptor with its
//! implementation of [`ReadAdapterFactory`](crate::engine::handle::ReadAdapterFactory).
use crate::engine::format::{
    FormatId, AR, APPLE_ARCHIVE, CAB, CPIO, DEB, DMG, ISO, LHA, MSI, MTREE, PKG, RAR, RAW_STREAM, RPM, SEVEN_Z,
    SPLIT_ZIP, TAR, TAR_BZ2, TAR_COMPRESS, TAR_GZ, TAR_LZ, TAR_LZ4, TAR_LZMA, TAR_LZO, TAR_XZ, TAR_ZST, TZAP, UDF, VHD,
    VMDK, WARC, XAR, ZIP,
};
use crate::ar_backend::{ar_error_text, ArEntry, ArError};
use crate::archive_browser::BrowserEntryKind;
use crate::engine::registry::AdapterDescriptor;
use crate::engine::types::{ArchiveListing, EngineEntry, EntryId, SessionDisposition};
use crate::text::{ascii_lower, chars_contain, chars_of, contains_seq, to_ascii_lower};
use crate::engine::source::SourceAccess;
use crate::engine::types::{ArchiveError, ArchiveOperation, ErrorKind};
use vstd::prelude::*;

use crate::msi_backend::MsiListEntry;

verus! {

/// `d` is the descriptor with these fields.
pub open spec fn descriptor_is(
    d: AdapterDescriptor,
    name: Seq<char>,
    format: Seq<char>,
    operations: Seq<ArchiveOperation>,
    access: SourceAccess,
    encryption: bool,
) -> bool {
    &&& d.name@ == name
    &&& d.format.0@ == format
    &&& d.operations@ == operations
    &&& d.required_source_access == access
    &&& d.supports_encryption == encryption
}

/// The operations of the full native read adapters.
pub open spec fn full_read_ops() -> Seq<ArchiveOperation> {
    seq![ArchiveOperation::List, ArchiveOperation::Test, ArchiveOperation::Extract, ArchiveOperation::SelectedExtract, ArchiveOperation::CopyToWriter]
}

/// Native TAR.GZ listing and extraction adapter.
#[derive(Debug, Clone, Copy)]
pub struct TarGzListAdapter;

impl TarGzListAdapter {
    /// Static metadata describing the adapter.
    pub fn descriptor(&self) -> (r: AdapterDescriptor)
        ensures
            descriptor_is(r, "native_tar_gz_adapter"@, TAR_GZ@, seq![ArchiveOperation::List, ArchiveOperation::Test, ArchiveOperation::Extract, ArchiveOperation::SelectedExtract, ArchiveOperation::CopyToWriter], SourceAccess::Seekable, false),
    {
        AdapterDescriptor {
            name: "native_tar_gz_adapter",
            format: FormatId(TAR_GZ),
            operations: &[ArchiveOperation::List, ArchiveOperation::Test, ArchiveOperation::Extract, ArchiveOperation::SelectedExtract, ArchiveOperation::CopyToWriter],
            required_source_access: SourceAccess::Seekable,
            supports_encryption: false,
        }
    }
}

/// Native plain TAR adapter.
#[derive(Debug, Clone, Copy)]
pub struct TarListAdapter;

impl TarListAdapter {
    /// Static metadata describing the adapter.
    pub fn descriptor(&self) -> (r: AdapterDescriptor)
        ensures
            descriptor_is(r, "native_tar_adapter"@, TAR@, seq![ArchiveOperation::List, ArchiveOperation::Test, ArchiveOperation::Extract, ArchiveOperation::SelectedExtract, ArchiveOperation::CopyToWriter], SourceAccess::Seekable, false),
    {
        AdapterDescriptor {
            name: "native_tar_adapter",
            format: FormatId(TAR),
            operations: &[ArchiveOperation::List, ArchiveOperation::Test, ArchiveOperation::Extract, ArchiveOperation::SelectedExtract, ArchiveOperation::CopyToWriter],
            required_source_access: SourceAccess::Seekable,
            supports_encryption: false,
        }
    }
}

/// Native Debian package adapter.
#[derive(Debug, Clone, Copy)]
pub struct DebListAdapter;

impl DebListAdapter {
    /// Static metadata describing the adapter.
    pub fn descriptor(&self) -> (r: AdapterDescriptor)
        ensures
            descriptor_is(r, "native_deb_adapter"@, DEB@, seq![ArchiveOperation::List, ArchiveOperation::Test, ArchiveOperation::Extract, ArchiveOperation::CopyToWriter], SourceAccess::Seekable, false),
    {
        AdapterDescriptor {
            name: "native_deb_adapter",
            format: FormatId(DEB),
            operations: &[ArchiveOperation::List, ArchiveOperation::Test, ArchiveOperation::Extract, ArchiveOperation::CopyToWriter],
            required_source_access: SourceAccess::Seekable,
            supports_encryption: false,
        }
    }
}

/// Native RPM package adapter.
#[derive(Debug, Clone, Copy)]
pub struct RpmListAdapter;

impl RpmListAdapter {
    /// Static metadata describing the adapter.
    pub fn descriptor(&self) -> (r: AdapterDescriptor)
        ensures
            descriptor_is(r, "native_rpm_adapter"@, RPM@, seq![ArchiveOperation::List, ArchiveOperation::Test, ArchiveOperation::Extract, ArchiveOperation::CopyToWriter], SourceAccess::Seekable, false),
    {
        AdapterDescriptor {
            name: "native_rpm_adapter",
            format: FormatId(RPM),
            operations: &[ArchiveOperation::List, ArchiveOperation::Test, ArchiveOperation::Extract, ArchiveOperation::CopyToWriter],
            required_source_access: SourceAccess::Seekable,
            supports_encryption: false,
        }
    }
}

/// Native Microsoft Cabinet adapter.
#[derive(Debug, Clone, Copy)]
pub struct CabListAdapter;

impl CabListAdapter {
    /// Static metadata describing the adapter.
    pub fn descriptor(&self) -> (r: AdapterDescriptor)
        ensures
            descriptor_is(r, "native_cab_adapter"@, CAB@, seq![ArchiveOperation::List, ArchiveOperation::Test, ArchiveOperation::Extract, ArchiveOperation::CopyToWriter], SourceAccess::Seekable, false),
    {
        AdapterDescriptor {
            name: "native_cab_adapter",
            format: FormatId(CAB),
            operations: &[ArchiveOperation::List, ArchiveOperation::Test, ArchiveOperation::Extract, ArchiveOperation::CopyToWriter],
            required_source_access: SourceAccess::Seekable,
            supports_encryption: false,
        }
    }
}

/// Native CPIO adapter.
#[derive(Debug, Clone, Copy)]
pub struct CpioListAdapter;

impl CpioListAdapter {
    /// Static metadata describing the adapter.
    pub fn descriptor(&self) -> (r: AdapterDescriptor)
        ensures
            descriptor_is(r, "native_cpio_adapter"@, CPIO@, seq![ArchiveOperation::List, ArchiveOperation::Test, ArchiveOperation::Extract, ArchiveOperation::SelectedExtract, ArchiveOperation::CopyToWriter], SourceAccess::Seekable, false),
    {
        AdapterDescriptor {
            name: "native_cpio_adapter",
            format: FormatId(CPIO),
            operations: &[ArchiveOperation::List, ArchiveOperation::Test, ArchiveOperation::Extract, ArchiveOperation::SelectedExtract, ArchiveOperation::CopyToWriter],
            required_source_access: SourceAccess::Seekable,
            supports_encryption: false,
        }
    }
}

/// Native Unix ar adapter.
#[derive(Debug, Clone, Copy)]
pub struct ArListAdapter;

impl ArListAdapter {
    /// Static metadata describing the adapter.
    pub fn descriptor(&self) -> (r: AdapterDescriptor)
        ensures
            descriptor_is(r, "native_ar_adapter"@, AR@, seq![ArchiveOperation::List, ArchiveOperation::Test, ArchiveOperation::Extract, ArchiveOperation::SelectedExtract, ArchiveOperation::CopyToWriter], SourceAccess::Seekable, false),
    {
        AdapterDescriptor {
            name: "native_ar_adapter",
            format: FormatId(AR),
            operations: &[ArchiveOperation::List, ArchiveOperation::Test, ArchiveOperation::Extract, ArchiveOperation::SelectedExtract, ArchiveOperation::CopyToWriter],
            required_source_access: SourceAccess::Seekable,
            supports_encryption: false,
        }
    }
}

/// Native 7z adapter.
#[derive(Debug, Clone, Copy)]
pub struct SevenZListAdapter;

impl SevenZListAdapter {
    /// Static metadata describing the adapter.
    pub fn descriptor(&self) -> (r: AdapterDescriptor)
        ensures
            descriptor_is(r, "native_7z_lister"@, SEVEN_Z@, seq![ArchiveOperation::List, ArchiveOperation::Test, ArchiveOperation::Extract, ArchiveOperation::SelectedExtract, ArchiveOperation::CopyToWriter], SourceAccess::Seekable, true),
    {
        AdapterDescriptor {
            name: "native_7z_lister",
            format: FormatId(SEVEN_Z),
            operations: &[ArchiveOperation::List, ArchiveOperation::Test, ArchiveOperation::Extract, ArchiveOperation::SelectedExtract, ArchiveOperation::CopyToWriter],
            required_source_access: SourceAccess::Seekable,
            supports_encryption: true,
        }
    }
}

/// Native TAR.ZST adapter.
#[derive(Debug, Clone, Copy)]
pub struct TarZstListAdapter;

impl TarZstListAdapter {
    /// Static metadata describing the adapter.
    pub fn descriptor(&self) -> (r: AdapterDescriptor)
        ensures
            descriptor_is(r, "native_tar_zst_lister"@, TAR_ZST@, seq![ArchiveOperation::List, ArchiveOperation::Test, ArchiveOperation::Extract, ArchiveOperation::SelectedExtract, ArchiveOperation::CopyToWriter], SourceAccess::Seekable, false),
    {
        AdapterDescriptor {
            name: "native_tar_zst_lister",
            format: FormatId(TAR_ZST),
            operations: &[ArchiveOperation::List, ArchiveOperation::Test, ArchiveOperation::Extract, ArchiveOperation::SelectedExtract, ArchiveOperation::CopyToWriter],
            required_source_access: SourceAccess::Seekable,
            supports_encryption: false,
        }
    }
}

/// Native TZAP adapter.
#[derive(Debug, Clone, Copy)]
pub struct TzapListAdapter;

impl TzapListAdapter {
    /// Static metadata describing the adapter.
    pub fn descriptor(&self) -> (r: AdapterDescriptor)
        ensures
            descriptor_is(r, "native_tzap_lister"@, TZAP@, seq![ArchiveOperation::List, ArchiveOperation::Test, ArchiveOperation::Extract, ArchiveOperation::SelectedExtract, ArchiveOperation::CopyToWriter], SourceAccess::Seekable, true),
    {
        AdapterDescriptor {
            name: "native_tzap_lister",
            format: FormatId(TZAP),
            operations: &[ArchiveOperation::List, ArchiveOperation::Test, ArchiveOperation::Extract, ArchiveOperation::SelectedExtract, ArchiveOperation::CopyToWriter],
            required_source_access: SourceAccess::Seekable,
            supports_encryption: true,
        }
    }
}

/// Native RAR adapter.
#[derive(Debug, Clone, Copy)]
pub struct RarListAdapter;

impl RarListAdapter {
    /// Static metadata describing the adapter.
    pub fn descriptor(&self) -> (r: AdapterDescriptor)
        ensures
            descriptor_is(r, "native_rar_lister"@, RAR@, seq![ArchiveOperation::List, ArchiveOperation::Test, ArchiveOperation::Extract, ArchiveOperation::SelectedExtract, ArchiveOperation::CopyToWriter], SourceAccess::Seekable, true),
    {
        AdapterDescriptor {
            name: "native_rar_lister",
            format: FormatId(RAR),
            operations: &[ArchiveOperation::List, ArchiveOperation::Test, ArchiveOperation::Extract, ArchiveOperation::SelectedExtract, ArchiveOperation::CopyToWriter],
            required_source_access: SourceAccess::Seekable,
            supports_encryption: true,
        }
    }
}

/// Native raw single-file stream adapter.
#[derive(Debug, Clone, Copy)]
pub struct RawStreamListAdapter;

impl RawStreamListAdapter {
    /// Static metadata describing the adapter.
    pub fn descriptor(&self) -> (r: AdapterDescriptor)
        ensures
            descriptor_is(r, "native_raw_stream_lister"@, RAW_STREAM@, seq![ArchiveOperation::List, ArchiveOperation::Test, ArchiveOperation::Extract, ArchiveOperation::SelectedExtract, ArchiveOperation::CopyToWriter], SourceAccess::Seekable, false),
    {
        AdapterDescriptor {
            name: "native_raw_stream_lister",
            format: FormatId(RAW_STREAM),
            operations: &[ArchiveOperation::List, ArchiveOperation::Test, ArchiveOperation::Extract, ArchiveOperation::SelectedExtract, ArchiveOperation::CopyToWriter],
            required_source_access: SourceAccess::Seekable,
            supports_encryption: false,
        }
    }
}

/// Native Apple Archive adapter.
#[derive(Debug, Clone, Copy)]
pub struct AppleArchiveListAdapter;

impl AppleArchiveListAdapter {
    /// Static metadata describing the adapter.
    pub fn descriptor(&self) -> (r: AdapterDescriptor)
        ensures
            descriptor_is(r, "native_apple_archive_lister"@, APPLE_ARCHIVE@, seq![ArchiveOperation::List, ArchiveOperation::Test, ArchiveOperation::Extract, ArchiveOperation::SelectedExtract, ArchiveOperation::CopyToWriter], SourceAccess::Seekable, true),
    {
        AdapterDescriptor {
            name: "native_apple_archive_lister",
            format: FormatId(APPLE_ARCHIVE),
            operations: &[ArchiveOperation::List, ArchiveOperation::Test, ArchiveOperation::Extract, ArchiveOperation::SelectedExtract, ArchiveOperation::CopyToWriter],
            required_source_access: SourceAccess::Seekable,
            supports_encryption: true,
        }
    }
}

/// Native DMG adapter.
#[derive(Debug, Clone, Copy)]
pub struct DmgListAdapter;

impl DmgListAdapter {
    /// Static metadata describing the adapter.
    pub fn descriptor(&self) -> (r: AdapterDescriptor)
        ensures
            descriptor_is(r, "native_dmg_lister"@, DMG@, seq![ArchiveOperation::List, ArchiveOperation::Extract], SourceAccess::Seekable, false),
    {
        AdapterDescriptor {
            name: "native_dmg_lister",
            format: FormatId(DMG),
            operations: &[ArchiveOperation::List, ArchiveOperation::Extract],
            required_source_access: SourceAccess::Seekable,
            supports_encryption: false,
        }
    }
}

/// Native macOS flat package adapter.
#[derive(Debug, Clone, Copy)]
pub struct PkgListAdapter;

impl PkgListAdapter {
    /// Static metadata describing the adapter.
    pub fn descriptor(&self) -> (r: AdapterDescriptor)
        ensures
            descriptor_is(r, "native_pkg_lister"@, PKG@, seq![ArchiveOperation::List, ArchiveOperation::Extract], SourceAccess::Seekable, false),
    {
        AdapterDescriptor {
            name: "native_pkg_lister",
            format: FormatId(PKG),
            operations: &[ArchiveOperation::List, ArchiveOperation::Extract],
            required_source_access: SourceAccess::Seekable,
            supports_encryption: false,
        }
    }
}

/// Native MSI adapter.
#[derive(Debug, Clone, Copy)]
pub struct MsiListAdapter;

impl MsiListAdapter {
    /// Static metadata describing the adapter.
    pub fn descriptor(&self) -> (r: AdapterDescriptor)
        ensures
            descriptor_is(r, "native_msi_lister"@, MSI@, seq![ArchiveOperation::List, ArchiveOperation::Extract], SourceAccess::Seekable, false),
    {
        AdapterDescriptor {
            name: "native_msi_lister",
            format: FormatId(MSI),
            operations: &[ArchiveOperation::List, ArchiveOperation::Extract],
            required_source_access: SourceAccess::Seekable,
            supports_encryption: false,
        }
    }
}

/// Native ZIP writer.
#[derive(Debug, Clone, Copy)]
pub struct ZipCreateAdapter;

impl ZipCreateAdapter {
    /// Static metadata describing the adapter.
    pub fn descriptor(&self) -> (r: AdapterDescriptor)
        ensures
            descriptor_is(r, "native_zip_creator"@, ZIP@, seq![ArchiveOperation::Create], SourceAccess::Seekable, true),
    {
        let r = AdapterDescriptor {
            name: "native_zip_creator",
            format: FormatId(ZIP),
            operations: &[ArchiveOperation::Create],
            required_source_access: SourceAccess::Seekable,
            supports_encryption: true,
        };
        assert(r.operations@ =~= seq![ArchiveOperation::Create]);
        r
    }
}

/// Native standard split-ZIP writer.
#[derive(Debug, Clone, Copy)]
pub struct SplitZipCreateAdapter;

impl SplitZipCreateAdapter {
    /// Static metadata describing the adapter.
    pub fn descriptor(&self) -> (r: AdapterDescriptor)
        ensures
            descriptor_is(r, "native_split_zip_creator"@, SPLIT_ZIP@, seq![ArchiveOperation::Create], SourceAccess::Seekable, true),
    {
        let r = AdapterDescriptor {
            name: "native_split_zip_creator",
            format: FormatId(SPLIT_ZIP),
            operations: &[ArchiveOperation::Create],
            required_source_access: SourceAccess::Seekable,
            supports_encryption: true,
        };
        assert(r.operations@ =~= seq![ArchiveOperation::Create]);
        r
    }
}

/// Native 7z writer.
#[derive(Debug, Clone, Copy)]
pub struct SevenZCreateAdapter;

impl SevenZCreateAdapter {
    /// Static metadata describing the adapter.
    pub fn descriptor(&self) -> (r: AdapterDescriptor)
        ensures
            descriptor_is(r, "native_7z_creator"@, SEVEN_Z@, seq![ArchiveOperation::Create], SourceAccess::Seekable, true),
    {
        let r = AdapterDescriptor {
            name: "native_7z_creator",
            format: FormatId(SEVEN_Z),
            operations: &[ArchiveOperation::Create],
            required_source_access: SourceAccess::Seekable,
            supports_encryption: true,
        };
        assert(r.operations@ =~= seq![ArchiveOperation::Create]);
        r
    }
}

/// Native TAR.ZST writer.
#[derive(Debug, Clone, Copy)]
pub struct TarZstdCreateAdapter;

impl TarZstdCreateAdapter {
    /// Static metadata describing the adapter.
    pub fn descriptor(&self) -> (r: AdapterDescriptor)
        ensures
            descriptor_is(r, "native_tar_zstd_creator"@, TAR_ZST@, seq![ArchiveOperation::Create], SourceAccess::Seekable, false),
    {
        let r = AdapterDescriptor {
            name: "native_tar_zstd_creator",
            format: FormatId(TAR_ZST),
            operations: &[ArchiveOperation::Create],
            required_source_access: SourceAccess::Seekable,
            supports_encryption: false,
        };
        assert(r.operations@ =~= seq![ArchiveOperation::Create]);
        r
    }
}

/// Native TAR.GZ writer.
#[derive(Debug, Clone, Copy)]
pub struct TarGzCreateAdapter;

impl TarGzCreateAdapter {
    /// Static metadata describing the adapter.
    pub fn descriptor(&self) -> (r: AdapterDescriptor)
        ensures
            descriptor_is(r, "native_tar_gz_creator"@, TAR_GZ@, seq![ArchiveOperation::Create], SourceAccess::Seekable, false),
    {
        let r = AdapterDescriptor {
            name: "native_tar_gz_creator",
            format: FormatId(TAR_GZ),
            operations: &[ArchiveOperation::Create],
            required_source_access: SourceAccess::Seekable,
            supports_encryption: false,
        };
        assert(r.operations@ =~= seq![ArchiveOperation::Create]);
        r
    }
}

/// Native TZAP writer.
#[derive(Debug, Clone, Copy)]
pub struct TzapCreateAdapter;

impl TzapCreateAdapter {
    /// Static metadata describing the adapter.
    pub fn descriptor(&self) -> (r: AdapterDescriptor)
        ensures
            descriptor_is(r, "native_tzap_creator"@, TZAP@, seq![ArchiveOperation::Create], SourceAccess::Seekable, true),
    {
        let r = AdapterDescriptor {
            name: "native_tzap_creator",
            format: FormatId(TZAP),
            operations: &[ArchiveOperation::Create],
            required_source_access: SourceAccess::Seekable,
            supports_encryption: true,
        };
        assert(r.operations@ =~= seq![ArchiveOperation::Create]);
        r
    }
}

/// Native Apple Archive writer.
#[derive(Debug, Clone, Copy)]
pub struct AppleArchiveCreateAdapter;

impl AppleArchiveCreateAdapter {
    /// Static metadata describing the adapter.
    pub fn descriptor(&self) -> (r: AdapterDescriptor)
        ensures
            descriptor_is(r, "native_apple_archive_creator"@, APPLE_ARCHIVE@, seq![ArchiveOperation::Create], SourceAccess::Seekable, true),
    {
        let r = AdapterDescriptor {
            name: "native_apple_archive_creator",
            format: FormatId(APPLE_ARCHIVE),
            operations: &[ArchiveOperation::Create],
            required_source_access: SourceAccess::Seekable,
            supports_encryption: true,
        };
        assert(r.operations@ =~= seq![ArchiveOperation::Create]);
        r
    }
}

/// The native ZIP adapter, for a single archive or a split set.
#[derive(Debug, Clone, Copy)]
pub struct ZipListAdapter {
    format: FormatId,
}

impl ZipListAdapter {
    pub closed spec fn format_name(&self) -> Seq<char> {
        self.format.0@
    }

    /// The adapter for single-volume ZIP archives.
    pub fn single_volume() -> (r: Self)
        ensures
            r.format_name() == ZIP@,
    {
        ZipListAdapter { format: FormatId(ZIP) }
    }

    /// The adapter for split ZIP volume sets.
    pub fn split_volume() -> (r: Self)
        ensures
            r.format_name() == SPLIT_ZIP@,
    {
        ZipListAdapter { format: FormatId(SPLIT_ZIP) }
    }

    /// Static metadata describing the adapter.
    pub fn descriptor(&self) -> (r: AdapterDescriptor)
        ensures
            if self.format_name() == SPLIT_ZIP@ {
                descriptor_is(
                    r,
                    "native_split_zip_lister"@,
                    SPLIT_ZIP@,
                    seq![ArchiveOperation::List, ArchiveOperation::Test, ArchiveOperation::Extract],
                    SourceAccess::MultiVolumeSet,
                    true,
                )
            } else {
                descriptor_is(
                    r,
                    "native_zip_lister"@,
                    ZIP@,
                    seq![ArchiveOperation::List, ArchiveOperation::Test, ArchiveOperation::Extract],
                    SourceAccess::Seekable,
                    true,
                )
            },
    {
        if self.format.is(SPLIT_ZIP) {
            AdapterDescriptor {
                name: "native_split_zip_lister",
                format: FormatId(SPLIT_ZIP),
                operations: &[ArchiveOperation::List, ArchiveOperation::Test, ArchiveOperation::Extract],
                required_source_access: SourceAccess::MultiVolumeSet,
                supports_encryption: true,
            }
        } else {
            AdapterDescriptor {
                name: "native_zip_lister",
                format: FormatId(ZIP),
                operations: &[ArchiveOperation::List, ArchiveOperation::Test, ArchiveOperation::Extract],
                required_source_access: SourceAccess::Seekable,
                supports_encryption: true,
            }
        }
    }
}

/// Decoder applied in front of a filtered TAR stream.
#[derive(Debug, Clone, Copy, PartialEq, Eq, Structural)]
pub enum RawStreamFormat {
    /// bzip2.
    Bzip2,
    /// xz.
    Xz,
    /// LZMA (legacy `.lzma`).
    Lzma,
}

/// Native TAR adapter behind a single-stream decoder (TAR.BZ2, TAR.XZ or
/// TAR.LZMA).
#[derive(Debug, Clone, Copy)]
pub struct FilteredTarAdapter {
    format: FormatId,
    decoder: RawStreamFormat,
    method: &'static str,
}

/// Whether `format` names a filtered TAR format.
pub open spec fn is_filtered_tar(format: Seq<char>) -> bool {
    format == TAR_BZ2@ || format == TAR_XZ@ || format == TAR_LZMA@
}

impl FilteredTarAdapter {
    pub closed spec fn format_name(&self) -> Seq<char> {
        self.format.0@
    }

    pub closed spec fn decoder_spec(&self) -> RawStreamFormat {
        self.decoder
    }

    pub closed spec fn method_spec(&self) -> Seq<char> {
        self.method@
    }

    /// Creates a filtered TAR adapter for one canonical format.
    pub fn new(format: FormatId, decoder: RawStreamFormat, method: &'static str) -> (r: Self)
        ensures
            r.format_name() == format.0@,
            r.decoder_spec() == decoder,
            r.method_spec() == method@,
    {
        FilteredTarAdapter { format, decoder, method }
    }

    /// Static metadata describing the adapter.
    pub fn descriptor(&self) -> (r: AdapterDescriptor)
        requires
            is_filtered_tar(self.format_name()),
        ensures
            self.format_name() == TAR_BZ2@ ==> descriptor_is(
                r,
                "native_tar_bz2_adapter"@,
                TAR_BZ2@,
                full_read_ops(),
                SourceAccess::Seekable,
                false,
            ),
            self.format_name() == TAR_XZ@ ==> descriptor_is(
                r,
                "native_tar_xz_adapter"@,
                TAR_XZ@,
                full_read_ops(),
                SourceAccess::Seekable,
                false,
            ),
            self.format_name() == TAR_LZMA@ ==> descriptor_is(
                r,
                "native_tar_lzma_adapter"@,
                TAR_LZMA@,
                full_read_ops(),
                SourceAccess::Seekable,
                false,
            ),
    {
        let ops: &'static [ArchiveOperation] = &[
            ArchiveOperation::List,
            ArchiveOperation::Test,
            ArchiveOperation::Extract,
            ArchiveOperation::SelectedExtract,
            ArchiveOperation::CopyToWriter,
        ];
        proof {
            reveal_strlit("tar.bz2");
            reveal_strlit("tar.xz");
            reveal_strlit("tar.lzma");
            assert(TAR_BZ2@ == "tar.bz2"@ && TAR_BZ2@.len() == 7);
            assert(TAR_XZ@ == "tar.xz"@ && TAR_XZ@.len() == 6);
            assert(TAR_LZMA@ == "tar.lzma"@ && TAR_LZMA@.len() == 8);
        }
        if self.format.is(TAR_BZ2) {
            AdapterDescriptor {
                name: "native_tar_bz2_adapter",
                format: FormatId(TAR_BZ2),
                operations: ops,
                required_source_access: SourceAccess::Seekable,
                supports_encryption: false,
            }
        } else if self.format.is(TAR_XZ) {
            AdapterDescriptor {
                name: "native_tar_xz_adapter",
                format: FormatId(TAR_XZ),
                operations: ops,
                required_source_access: SourceAccess::Seekable,
                supports_encryption: false,
            }
        } else {
            AdapterDescriptor {
                name: "native_tar_lzma_adapter",
                format: FormatId(TAR_LZMA),
                operations: ops,
                required_source_access: SourceAccess::Seekable,
                supports_encryption: false,
            }
        }
    }

    /// The decoder in front of the TAR stream.
    pub fn decoder(&self) -> (r: RawStreamFormat)
        ensures
            r == self.decoder_spec(),
    {
        self.decoder
    }

    /// The compression method name reported for the entries.
    pub fn method(&self) -> (r: &'static str)
        ensures
            r@ == self.method_spec(),
    {
        self.method
    }
}

/// Native virtual disk image adapter (VHD, VMDK or UDF).
#[derive(Debug, Clone, Copy)]
pub struct VirtualDiskListAdapter {
    format: FormatId,
}

impl VirtualDiskListAdapter {
    pub closed spec fn format_name(&self) -> Seq<char> {
        self.format.0@
    }

    /// Creates a virtual disk listing adapter for VHD, VMDK, or UDF.
    pub fn new(format: FormatId) -> (r: Self)
        ensures
            r.format_name() == format.0@,
    {
        VirtualDiskListAdapter { format }
    }

    /// Static metadata describing the adapter.
    pub fn descriptor(&self) -> (r: AdapterDescriptor)
        ensures
            descriptor_is(
                r,
                "native_virtual_disk_lister"@,
                self.format_name(),
                seq![ArchiveOperation::List, ArchiveOperation::Extract],
                SourceAccess::Seekable,
                false,
            ),
    {
        AdapterDescriptor {
            name: "native_virtual_disk_lister",
            format: self.format,
            operations: &[ArchiveOperation::List, ArchiveOperation::Extract],
            required_source_access: SourceAccess::Seekable,
            supports_encryption: false,
        }
    }
}

/// Formats accepted by the libarchive compatibility adapter.
pub const LIBARCHIVE_ALLOW_LIST: [&'static str; 18] = [
    TAR,
    TAR_BZ2,
    TAR_XZ,
    TAR_LZMA,
    TAR_LZ,
    TAR_LZO,
    TAR_COMPRESS,
    TAR_LZ4,
    ISO,
    CAB,
    CPIO,
    RPM,
    XAR,
    LHA,
    AR,
    WARC,
    MTREE,
    DEB,
];

/// Whether `format` is on the libarchive compatibility allow-list.
pub open spec fn libarchive_allowed(format: Seq<char>) -> bool {
    exists|i: int| 0 <= i < LIBARCHIVE_ALLOW_LIST@.len() && (#[trigger] LIBARCHIVE_ALLOW_LIST@[i])@ == format
}

/// The message of a format refused by the libarchive adapter.
pub open spec fn not_allowed_message(format: Seq<char>) -> Seq<char> {
    "Format '"@ + format + "' is not on the libarchive compatibility allow-list"@
}

/// Libarchive listing compatibility adapter.
#[derive(Debug, Clone, Copy)]
pub struct LibarchiveListAdapter {
    format: FormatId,
}

impl LibarchiveListAdapter {
    pub closed spec fn format_name(&self) -> Seq<char> {
        self.format.0@
    }

    /// Creates the adapter for an allow-listed format; fails with an
    /// invalid-format error for any other.
    pub fn new(format: FormatId) -> (r: Result<Self, ArchiveError>)
        ensures
            match r {
                Ok(a) => libarchive_allowed(format.0@) && a.format_name() == format.0@,
                Err(e) => !libarchive_allowed(format.0@) && e.kind == ErrorKind::InvalidFormat && e.disposition
                    == SessionDisposition::Usable && e.message@ == not_allowed_message(format.0@),
            },
    {
        let list = LIBARCHIVE_ALLOW_LIST;
        let mut i: usize = 0;
        while i < 18
            invariant
                i <= 18,
                list@ == LIBARCHIVE_ALLOW_LIST@,
                forall|j: int| 0 <= j < i ==> (#[trigger] list@[j])@ != format.0@,
            decreases 18 - i,
        {
            if format.is(list[i]) {
                assert(list@[i as int]@ == format.0@);
                return Ok(LibarchiveListAdapter { format });
            }
            i += 1;
        }
        let a = crate::text::chars_of("Format '");
        let b = crate::text::chars_of(format.0);
        let c = crate::text::chars_of("' is not on the libarchive compatibility allow-list");
        let ab = crate::text::concat_chars(&a, &b);
        let abc = crate::text::concat_chars(&ab, &c);
        Err(ArchiveError::usable(ErrorKind::InvalidFormat, crate::text::string_from_chars(&abc)))
    }

    /// Returns the target format for this adapter instance.
    pub fn format(&self) -> (r: FormatId)
        ensures
            r.0@ == self.format_name(),
    {
        self.format
    }

    /// Static metadata describing the adapter.
    pub fn descriptor(&self) -> (r: AdapterDescriptor)
        ensures
            descriptor_is(
                r,
                "libarchive_compatibility_lister"@,
                self.format_name(),
                seq![ArchiveOperation::List, ArchiveOperation::Test, ArchiveOperation::Extract],
                SourceAccess::Seekable,
                true,
            ),
    {
        AdapterDescriptor {
            name: "libarchive_compatibility_lister",
            format: self.format,
            operations: &[ArchiveOperation::List, ArchiveOperation::Test, ArchiveOperation::Extract],
            required_source_access: SourceAccess::Seekable,
            supports_encryption: true,
        }
    }
}

/// A count as `u64`, saturating.
pub open spec fn count_u64(n: usize) -> u64 {
    if n <= u64::MAX {
        n as u64
    } else {
        u64::MAX
    }
}

/// The normalized report of an extraction.
pub fn extract_report(written_entries: usize, skipped_entries: usize, written_bytes: u64, warnings: Vec<String>) -> (r: crate::engine::handle::ExtractReport)
    ensures
        r.written_entries == count_u64(written_entries),
        r.skipped_entries == count_u64(skipped_entries),
        r.written_bytes == written_bytes,
        r.warnings == warnings,
{
    crate::engine::handle::ExtractReport {
        written_entries: written_entries as u64,
        skipped_entries: skipped_entries as u64,
        written_bytes,
        warnings,
    }
}

/// The kind an extraction failure is reported as, from its message:
/// resource limits, safety violations, unsupported operations, and I/O
/// otherwise (the patterns are matched ignoring ASCII case).
pub open spec fn extract_error_kind(message: Seq<char>) -> ErrorKind {
    let lower = ascii_lower(message);
    if contains_seq(lower, "resource"@) || contains_seq(lower, "limit"@) {
        ErrorKind::ResourceLimitExceeded
    } else if contains_seq(lower, "safety"@) || contains_seq(lower, "unsafe"@) {
        ErrorKind::SafetyViolation
    } else if contains_seq(lower, "unsupported"@) {
        ErrorKind::UnsupportedOperation
    } else {
        ErrorKind::Io
    }
}

fn mentions(lower: &[char], pattern: &str) -> (r: bool)
    ensures
        r == contains_seq(lower@, pattern@),
{
    let p = chars_of(pattern);
    chars_contain(lower, &p)
}

/// The engine error of an extraction failure with `message` on `path`; a
/// safety violation leaves the session unusable.
pub fn extract_error(path: &str, message: String) -> (r: ArchiveError)
    ensures
        r.kind == extract_error_kind(message@),
        r.message == message,
        r.disposition == (if r.kind == ErrorKind::SafetyViolation {
            SessionDisposition::Unusable
        } else {
            SessionDisposition::Usable
        }),
        r.path matches Some(p) && p@ == path@,
{
    let chars = chars_of(message.as_str());
    let lower = to_ascii_lower(&chars);
    let kind = if mentions(&lower, "resource") || mentions(&lower, "limit") {
        ErrorKind::ResourceLimitExceeded
    } else if mentions(&lower, "safety") || mentions(&lower, "unsafe") {
        ErrorKind::SafetyViolation
    } else if mentions(&lower, "unsupported") {
        ErrorKind::UnsupportedOperation
    } else {
        ErrorKind::Io
    };
    let disposition = if kind == ErrorKind::SafetyViolation {
        SessionDisposition::Unusable
    } else {
        SessionDisposition::Usable
    };
    ArchiveError { kind, message, disposition, path: Some(path.to_string()) }
}

/// The kind a creation failure is reported as, from its message:
/// cancellation, unsupported operations, I/O (permissions and I/O
/// failures), and invalid format otherwise.
pub open spec fn creation_error_kind(message: Seq<char>) -> ErrorKind {
    let lower = ascii_lower(message);
    if contains_seq(lower, "cancel"@) {
        ErrorKind::Cancelled
    } else if contains_seq(lower, "unsupported"@) {
        ErrorKind::UnsupportedOperation
    } else if contains_seq(lower, "permission"@) || contains_seq(lower, "i/o"@) || contains_seq(lower, "io failed"@) {
        ErrorKind::Io
    } else {
        ErrorKind::InvalidFormat
    }
}

/// The engine error of a creation failure with `message` on `path`.
pub fn creation_error(path: &str, message: String) -> (r: ArchiveError)
    ensures
        r.kind == creation_error_kind(message@),
        r.message == message,
        r.disposition == SessionDisposition::Usable,
        r.path matches Some(p) && p@ == path@,
{
    let chars = chars_of(message.as_str());
    let lower = to_ascii_lower(&chars);
    let kind = if mentions(&lower, "cancel") {
        ErrorKind::Cancelled
    } else if mentions(&lower, "unsupported") {
        ErrorKind::UnsupportedOperation
    } else if mentions(&lower, "permission") || mentions(&lower, "i/o") || mentions(&lower, "io failed") {
        ErrorKind::Io
    } else {
        ErrorKind::InvalidFormat
    };
    ArchiveError::usable(kind, message).with_path(path.to_string())
}

/// `e` is the engine entry of the AR member `a`.
pub open spec fn ar_engine_entry(e: EngineEntry, a: ArEntry) -> bool {
    &&& e.id == EntryId(a.index as u64)
    &&& e.path == a.path
    &&& e.kind == BrowserEntryKind::File
    &&& e.size == Some(a.size)
    &&& e.compressed_size == Some(a.size)
    &&& e.modified is None
    &&& e.mode is None
    &&& e.encrypted is None
    &&& e.method matches Some(m) && m@ == "ar"@
    &&& e.crc is None
    &&& e.comment is None
    &&& e.link_target is None
}

/// The engine entries of AR members, in order.
pub fn map_ar_entries(entries: Vec<ArEntry>) -> (r: Vec<EngineEntry>)
    ensures
        r@.len() == entries@.len(),
        forall|i: int| 0 <= i < entries@.len() ==> ar_engine_entry(#[trigger] r@[i], entries@[i]),
{
    let mut out: Vec<EngineEntry> = Vec::new();
    let mut i: usize = 0;
    while i < entries.len()
        invariant
            i <= entries@.len(),
            out@.len() == i,
            forall|j: int| 0 <= j < i ==> ar_engine_entry(#[trigger] out@[j], entries@[j]),
        decreases entries@.len() - i,
    {
        let a = &entries[i];
        out.push(
            EngineEntry {
                id: EntryId(a.index as u64),
                path: a.path.clone(),
                kind: BrowserEntryKind::File,
                size: Some(a.size),
                compressed_size: Some(a.size),
                modified: None,
                mode: None,
                encrypted: None,
                method: Some("ar".to_string()),
                crc: None,
                comment: None,
                link_target: None,
            },
        );
        i += 1;
    }
    out
}

/// The engine kind of an AR failure.
pub open spec fn ar_error_kind(e: ArError) -> ErrorKind {
    match e {
        ArError::Safety { resource_limit, .. } => if resource_limit {
            ErrorKind::ResourceLimitExceeded
        } else {
            ErrorKind::SafetyViolation
        },
        ArError::Cancelled => ErrorKind::Cancelled,
        ArError::Io { .. } => ErrorKind::Io,
        ArError::Invalid { .. } => ErrorKind::CorruptData,
    }
}

/// The engine error of an AR failure on `path`: corrupt data leaves the
/// session unusable.
pub fn ar_error(path: &str, error: &ArError) -> (r: ArchiveError)
    ensures
        r.kind == ar_error_kind(*error),
        r.message@ == ar_error_text(*error),
        r.disposition == (if r.kind == ErrorKind::CorruptData {
            SessionDisposition::Unusable
        } else {
            SessionDisposition::Usable
        }),
        r.path matches Some(p) && p@ == path@,
{
    let kind = match error {
        ArError::Safety { resource_limit, .. } => if *resource_limit {
            ErrorKind::ResourceLimitExceeded
        } else {
            ErrorKind::SafetyViolation
        },
        ArError::Cancelled => ErrorKind::Cancelled,
        ArError::Io { .. } => ErrorKind::Io,
        ArError::Invalid { .. } => ErrorKind::CorruptData,
    };
    let disposition = if kind == ErrorKind::CorruptData {
        SessionDisposition::Unusable
    } else {
        SessionDisposition::Usable
    };
    ArchiveError { kind, message: error.to_text(), disposition, path: Some(path.to_string()) }
}

/// `e` is the engine entry of the `.msi` file `m` listed at `index`.
pub open spec fn msi_engine_entry(e: EngineEntry, m: MsiListEntry, index: int) -> bool {
    &&& e.id == EntryId(index as u64)
    &&& e.path == m.path
    &&& e.kind == BrowserEntryKind::File
    &&& e.size == Some(m.size)
    &&& e.compressed_size is None
    &&& e.modified is None
    &&& e.mode is None
    &&& e.encrypted == Some(false)
    &&& e.method is None
    &&& e.crc is None
    &&& e.comment is None
    &&& e.link_target is None
}

/// The engine listing of an `.msi` package's files, numbered in order.
pub fn map_msi_entries(entries: Vec<MsiListEntry>) -> (r: ArchiveListing)
    ensures
        r.entries@.len() == entries@.len(),
        forall|i: int| 0 <= i < entries@.len() ==> msi_engine_entry(#[trigger] r.entries@[i], entries@[i], i),
{
    let mut out: Vec<EngineEntry> = Vec::new();
    let mut i: usize = 0;
    while i < entries.len()
        invariant
            i <= entries@.len(),
            out@.len() == i,
            forall|j: int| 0 <= j < i ==> msi_engine_entry(#[trigger] out@[j], entries@[j], j),
        decreases entries@.len() - i,
    {
        let m = &entries[i];
        out.push(
            EngineEntry {
                id: EntryId(i as u64),
                path: m.path.clone(),
                kind: BrowserEntryKind::File,
                size: Some(m.size),
                compressed_size: None,
                modified: None,
                mode: None,
                encrypted: Some(false),
                method: None,
                crc: None,
                comment: None,
                link_target: None,
            },
        );
        i += 1;
    }
    ArchiveListing { entries: out }
}

} // verus!
