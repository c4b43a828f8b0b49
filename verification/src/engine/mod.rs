//! Archive engine seam: format identity, sources, the adapter registry,
//! the stateful archive handle, and the default plugin.
pub mod adapters;
pub mod format;
pub mod handle;
pub mod plugins;
pub mod registry;
pub mod source;
pub mod split_zip;
pub mod types;

pub use format::FormatId;
pub use handle::{ArchiveEngine, ArchiveHandle, ReadAdapterFactory};
pub use plugins::{build_engine_with_plugins, ArchivePlugin};
pub use registry::{AdapterDescriptor, AdapterRegistry, ArchiveEngineBuilder};
pub use source::{ArchiveSource, SourceAccess};
pub use types::{
    ArchiveError, ArchiveListing, ArchiveOperation, DetectedArchive, EngineEntry, EntryId, ErrorKind, HandleCapabilities,
    SessionDisposition,
};

use crate::archive_format::FormatDetectionFacts;
use crate::engine::adapters::{
    descriptor_is, full_read_ops, AppleArchiveCreateAdapter, AppleArchiveListAdapter, ArListAdapter, CpioListAdapter,
    DmgListAdapter, FilteredTarAdapter, MsiListAdapter, PkgListAdapter, RarListAdapter, RawStreamFormat,
    RawStreamListAdapter, SevenZCreateAdapter, SevenZListAdapter, SplitZipCreateAdapter, TarGzCreateAdapter,
    TarGzListAdapter, TarListAdapter, TarZstListAdapter, TarZstdCreateAdapter, TzapCreateAdapter, TzapListAdapter,
    VirtualDiskListAdapter, ZipCreateAdapter, ZipListAdapter,
};
use crate::engine::format::{
    APPLE_ARCHIVE, AR, CPIO, DMG, MSI, PKG, RAR, RAW_STREAM, SEVEN_Z, SPLIT_ZIP, TAR, TAR_BZ2, TAR_GZ, TAR_LZMA,
    TAR_XZ, TAR_ZST, TZAP, UDF, VHD, VMDK, ZIP,
};
use crate::engine::handle::{ExtractOptions, ExtractReport, OpenOptions};
use crate::engine::registry::{register_ops, RegistryView};
use vstd::prelude::*;

verus! {

/// Number of adapters the default plugin registers.
pub const DEFAULT_ADAPTER_COUNT: usize = 28;

/// Number of read adapters among them; the creation adapters follow.
pub const DEFAULT_READ_ADAPTER_COUNT: usize = 21;

/// The `i`-th adapter the default plugin registers: the native read
/// adapters, then the native creation adapters.
pub open spec fn default_descriptor_ok(i: int, d: AdapterDescriptor) -> bool {
    if i == 0 {
        descriptor_is(d, "native_zip_lister"@, ZIP@, seq![ArchiveOperation::List, ArchiveOperation::Test, ArchiveOperation::Extract], SourceAccess::Seekable, true)
    } else if i == 1 {
        descriptor_is(d, "native_split_zip_lister"@, SPLIT_ZIP@, seq![ArchiveOperation::List, ArchiveOperation::Test, ArchiveOperation::Extract], SourceAccess::MultiVolumeSet, true)
    } else if i == 2 {
        descriptor_is(d, "native_7z_lister"@, SEVEN_Z@, full_read_ops(), SourceAccess::Seekable, true)
    } else if i == 3 {
        descriptor_is(d, "native_tar_zst_lister"@, TAR_ZST@, full_read_ops(), SourceAccess::Seekable, false)
    } else if i == 4 {
        descriptor_is(d, "native_tar_gz_adapter"@, TAR_GZ@, full_read_ops(), SourceAccess::Seekable, false)
    } else if i == 5 {
        descriptor_is(d, "native_tar_adapter"@, TAR@, full_read_ops(), SourceAccess::Seekable, false)
    } else if i == 6 {
        descriptor_is(d, "native_tar_bz2_adapter"@, TAR_BZ2@, full_read_ops(), SourceAccess::Seekable, false)
    } else if i == 7 {
        descriptor_is(d, "native_tar_xz_adapter"@, TAR_XZ@, full_read_ops(), SourceAccess::Seekable, false)
    } else if i == 8 {
        descriptor_is(d, "native_tar_lzma_adapter"@, TAR_LZMA@, full_read_ops(), SourceAccess::Seekable, false)
    } else if i == 9 {
        descriptor_is(d, "native_ar_adapter"@, AR@, full_read_ops(), SourceAccess::Seekable, false)
    } else if i == 10 {
        descriptor_is(d, "native_cpio_adapter"@, CPIO@, full_read_ops(), SourceAccess::Seekable, false)
    } else if i == 11 {
        descriptor_is(d, "native_tzap_lister"@, TZAP@, full_read_ops(), SourceAccess::Seekable, true)
    } else if i == 12 {
        descriptor_is(d, "native_rar_lister"@, RAR@, full_read_ops(), SourceAccess::Seekable, true)
    } else if i == 13 {
        descriptor_is(d, "native_raw_stream_lister"@, RAW_STREAM@, full_read_ops(), SourceAccess::Seekable, false)
    } else if i == 14 {
        descriptor_is(d, "native_apple_archive_lister"@, APPLE_ARCHIVE@, full_read_ops(), SourceAccess::Seekable, true)
    } else if i == 15 {
        descriptor_is(d, "native_dmg_lister"@, DMG@, seq![ArchiveOperation::List, ArchiveOperation::Extract], SourceAccess::Seekable, false)
    } else if i == 16 {
        descriptor_is(d, "native_pkg_lister"@, PKG@, seq![ArchiveOperation::List, ArchiveOperation::Extract], SourceAccess::Seekable, false)
    } else if i == 17 {
        descriptor_is(d, "native_msi_lister"@, MSI@, seq![ArchiveOperation::List, ArchiveOperation::Extract], SourceAccess::Seekable, false)
    } else if i == 18 {
        descriptor_is(d, "native_virtual_disk_lister"@, VHD@, seq![ArchiveOperation::List, ArchiveOperation::Extract], SourceAccess::Seekable, false)
    } else if i == 19 {
        descriptor_is(d, "native_virtual_disk_lister"@, VMDK@, seq![ArchiveOperation::List, ArchiveOperation::Extract], SourceAccess::Seekable, false)
    } else if i == 20 {
        descriptor_is(d, "native_virtual_disk_lister"@, UDF@, seq![ArchiveOperation::List, ArchiveOperation::Extract], SourceAccess::Seekable, false)
    } else if i == 21 {
        descriptor_is(d, "native_zip_creator"@, ZIP@, seq![ArchiveOperation::Create], SourceAccess::Seekable, true)
    } else if i == 22 {
        descriptor_is(d, "native_split_zip_creator"@, SPLIT_ZIP@, seq![ArchiveOperation::Create], SourceAccess::Seekable, true)
    } else if i == 23 {
        descriptor_is(d, "native_7z_creator"@, SEVEN_Z@, seq![ArchiveOperation::Create], SourceAccess::Seekable, true)
    } else if i == 24 {
        descriptor_is(d, "native_tar_zstd_creator"@, TAR_ZST@, seq![ArchiveOperation::Create], SourceAccess::Seekable, false)
    } else if i == 25 {
        descriptor_is(d, "native_tar_gz_creator"@, TAR_GZ@, seq![ArchiveOperation::Create], SourceAccess::Seekable, false)
    } else if i == 26 {
        descriptor_is(d, "native_tzap_creator"@, TZAP@, seq![ArchiveOperation::Create], SourceAccess::Seekable, true)
    } else if i == 27 {
        descriptor_is(d, "native_apple_archive_creator"@, APPLE_ARCHIVE@, seq![ArchiveOperation::Create], SourceAccess::Seekable, true)
    } else {
        false
    }
}

/// The claims after registering `descs` in order as adapters `base`,
/// `base + 1`, …, and the operation at which a registration failed; nothing
/// is registered after a failure.
pub open spec fn register_all(claims: Seq<crate::engine::registry::Registration>, descs: Seq<AdapterDescriptor>, base: int) -> (Seq<
    crate::engine::registry::Registration,
>, Option<ArchiveOperation>)
    decreases descs.len(),
{
    if descs.len() == 0 {
        (claims, None)
    } else {
        let (c, f) = register_all(claims, descs.drop_last(), base);
        if f is Some {
            (c, f)
        } else {
            register_ops(c, descs.last(), (base + descs.len() - 1) as usize, descs.last().operations@.len() as int)
        }
    }
}

/// What registering the default adapters did to a builder that held `old`:
/// the default descriptors, in order, were added (up to and including the
/// one whose registration failed), and their claims were made.
pub open spec fn default_registration(old: RegistryView, new: RegistryView, ok: bool) -> bool {
    let n = old.descriptors.len();
    let added = new.descriptors.subrange(n as int, new.descriptors.len() as int);
    &&& new.descriptors.len() >= n
    &&& new.descriptors.take(n as int) == old.descriptors
    &&& added.len() <= DEFAULT_ADAPTER_COUNT
    &&& forall|i: int| 0 <= i < added.len() ==> default_descriptor_ok(i, #[trigger] added[i])
    &&& new.claims == register_all(old.claims, added, n as int).0
    &&& ok <==> register_all(old.claims, added, n as int).1 is None
    &&& ok ==> added.len() == DEFAULT_ADAPTER_COUNT
}

/// The default adapter descriptors, in registration order.
pub fn default_descriptors() -> (r: Vec<AdapterDescriptor>)
    ensures
        r@.len() == DEFAULT_ADAPTER_COUNT,
        forall|i: int| 0 <= i < r@.len() ==> default_descriptor_ok(i, #[trigger] r@[i]),
{
    let mut v: Vec<AdapterDescriptor> = Vec::new();
    proof {
        reveal_strlit("zip");
        reveal_strlit("split_zip");
        assert(ZIP@ == "zip"@ && ZIP@.len() == 3);
        assert(SPLIT_ZIP@ == "split_zip"@ && SPLIT_ZIP@.len() == 9);
    }
    v.push(ZipListAdapter::single_volume().descriptor());
    assert(default_descriptor_ok(0, v@[0]));
    v.push(ZipListAdapter::split_volume().descriptor());
    assert(default_descriptor_ok(1, v@[1]));
    v.push(SevenZListAdapter.descriptor());
    assert(default_descriptor_ok(2, v@[2]));
    v.push(TarZstListAdapter.descriptor());
    assert(default_descriptor_ok(3, v@[3]));
    v.push(TarGzListAdapter.descriptor());
    assert(default_descriptor_ok(4, v@[4]));
    v.push(TarListAdapter.descriptor());
    assert(default_descriptor_ok(5, v@[5]));
    v.push(FilteredTarAdapter::new(FormatId(TAR_BZ2), RawStreamFormat::Bzip2, "bzip2").descriptor());
    assert(default_descriptor_ok(6, v@[6]));
    v.push(FilteredTarAdapter::new(FormatId(TAR_XZ), RawStreamFormat::Xz, "xz").descriptor());
    assert(default_descriptor_ok(7, v@[7]));
    v.push(FilteredTarAdapter::new(FormatId(TAR_LZMA), RawStreamFormat::Lzma, "lzma").descriptor());
    assert(default_descriptor_ok(8, v@[8]));
    v.push(ArListAdapter.descriptor());
    assert(default_descriptor_ok(9, v@[9]));
    v.push(CpioListAdapter.descriptor());
    assert(default_descriptor_ok(10, v@[10]));
    v.push(TzapListAdapter.descriptor());
    assert(default_descriptor_ok(11, v@[11]));
    v.push(RarListAdapter.descriptor());
    assert(default_descriptor_ok(12, v@[12]));
    v.push(RawStreamListAdapter.descriptor());
    assert(default_descriptor_ok(13, v@[13]));
    v.push(AppleArchiveListAdapter.descriptor());
    assert(default_descriptor_ok(14, v@[14]));
    v.push(DmgListAdapter.descriptor());
    assert(default_descriptor_ok(15, v@[15]));
    v.push(PkgListAdapter.descriptor());
    assert(default_descriptor_ok(16, v@[16]));
    v.push(MsiListAdapter.descriptor());
    assert(default_descriptor_ok(17, v@[17]));
    v.push(VirtualDiskListAdapter::new(FormatId(VHD)).descriptor());
    assert(default_descriptor_ok(18, v@[18]));
    v.push(VirtualDiskListAdapter::new(FormatId(VMDK)).descriptor());
    assert(default_descriptor_ok(19, v@[19]));
    v.push(VirtualDiskListAdapter::new(FormatId(UDF)).descriptor());
    assert(default_descriptor_ok(20, v@[20]));
    v.push(ZipCreateAdapter.descriptor());
    assert(default_descriptor_ok(21, v@[21]));
    v.push(SplitZipCreateAdapter.descriptor());
    assert(default_descriptor_ok(22, v@[22]));
    v.push(SevenZCreateAdapter.descriptor());
    assert(default_descriptor_ok(23, v@[23]));
    v.push(TarZstdCreateAdapter.descriptor());
    assert(default_descriptor_ok(24, v@[24]));
    v.push(TarGzCreateAdapter.descriptor());
    assert(default_descriptor_ok(25, v@[25]));
    v.push(TzapCreateAdapter.descriptor());
    assert(default_descriptor_ok(26, v@[26]));
    v.push(AppleArchiveCreateAdapter.descriptor());
    assert(default_descriptor_ok(27, v@[27]));
    v
}

/// Default compile-time plugin packaging of the native adapters.
#[derive(Debug, Clone, Copy)]
pub struct DefaultArchivePlugin;

impl ArchivePlugin for DefaultArchivePlugin {
    fn name(&self) -> (r: &'static str) {
        "default_archive_plugin"
    }

    /// The default adapters are added in order, up to and including the
    /// one whose registration failed, with exactly their claims.
    open spec fn registers(&self, before: RegistryView, after: RegistryView, r: Result<(), ArchiveError>) -> bool {
        default_registration(before, after, r is Ok)
    }

    fn register(&self, builder: &mut ArchiveEngineBuilder) -> (r: Result<(), ArchiveError>)
        ensures
            default_registration(old(builder)@, final(builder)@, r is Ok),
    {
        self.register_defaults(builder)
    }
}

impl DefaultArchivePlugin {
    /// Registers the native read adapters, then the native creation
    /// adapters, stopping at the first ambiguous registration.
    pub fn register_defaults(&self, builder: &mut ArchiveEngineBuilder) -> (r: Result<(), ArchiveError>)
        requires
            old(builder).wf(),
        ensures
            final(builder).wf(),
            default_registration(old(builder)@, final(builder)@, r is Ok),
    {
        let descs = default_descriptors();
        let ghost n = old(builder)@.descriptors.len();
        let mut k: usize = 0;
        while k < descs.len()
            invariant
                builder.wf(),
                descs@.len() == DEFAULT_ADAPTER_COUNT,
                forall|i: int| 0 <= i < descs@.len() ==> default_descriptor_ok(i, #[trigger] descs@[i]),
                k <= descs@.len(),
                n == old(builder)@.descriptors.len(),
                builder@.descriptors == old(builder)@.descriptors + descs@.take(k as int),
                register_all(old(builder)@.claims, descs@.take(k as int), n as int) == (
                    builder@.claims,
                    None::<ArchiveOperation>,
                ),
            decreases descs@.len() - k,
        {
            let ghost before = builder@;
            let result = builder.register_read_adapter(descs[k]);
            proof {
                assert(descs@.take(k as int + 1).drop_last() =~= descs@.take(k as int));
                assert(builder@.descriptors =~= old(builder)@.descriptors + descs@.take(k as int + 1));
            }
            if result.is_err() {
                proof {
                    let added = builder@.descriptors.subrange(n as int, builder@.descriptors.len() as int);
                    assert(added =~= descs@.take(k as int + 1));
                    assert(builder@.descriptors.take(n as int) =~= old(builder)@.descriptors);
                }
                return result;
            }
            k += 1;
        }
        proof {
            let added = builder@.descriptors.subrange(n as int, builder@.descriptors.len() as int);
            assert(added =~= descs@.take(k as int));
            assert(descs@.take(k as int) =~= descs@);
            assert(builder@.descriptors.take(n as int) =~= old(builder)@.descriptors);
        }
        Ok(())
    }
}

/// Creates the default engine, holding the native adapters of the default
/// plugin.
pub fn create_default_engine() -> (r: Result<ArchiveEngine, ArchiveError>)
    ensures
        ({
            let empty = RegistryView { descriptors: Seq::empty(), claims: Seq::empty() };
            r matches Ok(engine) && engine.wf() && default_registration(empty, engine.view(), true)
        }),
{
    let mut builder = ArchiveEngineBuilder::new();
    let ghost empty = builder@;
    assert(empty.descriptors =~= Seq::<AdapterDescriptor>::empty());
    assert(empty.claims =~= Seq::<crate::engine::registry::Registration>::empty());
    match DefaultArchivePlugin.register_defaults(&mut builder) {
        Ok(()) => Ok(ArchiveEngine::new(builder.build())),
        Err(e) => {
            proof {
                let added = builder@.descriptors.subrange(0, builder@.descriptors.len() as int);
                lemma_default_fresh(added);
                lemma_register_all_fresh(empty.claims, added, 0);
            }
            Err(e)
        },
    }
}

/// Runs a complete extraction through the default engine: opens `source`
/// (see [`ArchiveEngine::open`]) and extracts it with the adapters, given
/// in the order of the default plugin's registration.
pub fn extract_with_default_engine<A: ReadAdapterFactory>(
    adapters: &[A],
    source: ArchiveSource,
    open_options: OpenOptions,
    detection: FormatDetectionFacts,
    source_exists: bool,
    options: &mut ExtractOptions,
) -> (r: Result<ExtractReport, ArchiveError>)
    requires
        adapters@.len() == DEFAULT_ADAPTER_COUNT,
    ensures
        ({
            let primary = crate::engine::source::source_primary(source);
            let kind = crate::engine::handle::detect_format_of(primary, detection);
            if !source_exists {
                &&& r matches Err(e) && e.kind == ErrorKind::Io && e.message@ == crate::engine::handle::missing_source_message(primary)
                &&& *final(options) == *old(options)
            } else if kind == crate::archive_format::ArchiveFormatKind::Unknown {
                &&& r matches Err(e) && e.kind == ErrorKind::InvalidFormat && e.message@
                    == crate::engine::handle::unknown_format_message(primary)
                &&& *final(options) == *old(options)
            } else {
                let format = crate::engine::format::format_name_of(kind)@;
                exists|reg: RegistryView|
                    #![trigger default_registration(RegistryView { descriptors: Seq::empty(), claims: Seq::empty() }, reg, true)]
                    {
                        &&& default_registration(RegistryView { descriptors: Seq::empty(), claims: Seq::empty() }, reg, true)
                        &&& if crate::engine::registry::claimed_ops(reg.claims, format).len() == 0 {
                            &&& r matches Err(e) && e.kind == ErrorKind::UnsupportedOperation && e.message@
                                == crate::engine::handle::no_format_adapter_message(format)
                            &&& *final(options) == *old(options)
                        } else {
                            exists|h: crate::engine::handle::HandleView, after: crate::engine::handle::HandleView|
                                #![trigger crate::engine::handle::settles(h, after, ArchiveOperation::Extract, crate::engine::handle::extract_refusal(old(options).destination@, old(options).cancelled), r)]
                                {
                                    &&& h.registry == reg
                                    &&& h.format == format
                                    &&& h.source == source
                                    &&& h.options == open_options
                                    &&& h.disposition == SessionDisposition::Usable
                                    &&& h.cached == seq![None::<usize>, None, None, None, None]
                                    &&& crate::engine::handle::settles(
                                        h,
                                        after,
                                        ArchiveOperation::Extract,
                                        crate::engine::handle::extract_refusal(old(options).destination@, old(options).cancelled),
                                        r,
                                    )
                                    &&& crate::engine::handle::runs_adapter(
                                        h,
                                        ArchiveOperation::Extract,
                                        crate::engine::handle::extract_refusal(old(options).destination@, old(options).cancelled),
                                    ) matches Some(a) ==> exists|d: DetectedArchive|
                                        #![trigger adapters@[a as int].extracts(d, open_options, *final(options), r)]
                                        d.format.0@ == format && d.source == source && adapters@[a as int].extracts(
                                            d,
                                            open_options,
                                            *final(options),
                                            r,
                                        )
                                }
                        }
                    }
            }
        }),
{
    let engine = match create_default_engine() {
        Ok(e) => e,
        Err(e) => return Err(e),
    };
    let ghost empty = RegistryView { descriptors: Seq::empty(), claims: Seq::empty() };
    assert(default_registration(empty, engine.view(), true));
    let mut handle = match engine.open(source, open_options, detection, source_exists) {
        Ok(h) => h,
        Err(e) => return Err(e),
    };
    let ghost opened = handle@;
    let ghost archive = handle.detected_archive();
    let r = handle.extract(adapters, options);
    proof {
        assert(crate::engine::handle::settles(
            opened,
            handle@,
            ArchiveOperation::Extract,
            crate::engine::handle::extract_refusal(old(options).destination@, old(options).cancelled),
            r,
        ));
        if let Some(a) = crate::engine::handle::runs_adapter(
            opened,
            ArchiveOperation::Extract,
            crate::engine::handle::extract_refusal(old(options).destination@, old(options).cancelled),
        ) {
            assert(adapters@[a as int].extracts(archive, open_options, *options, r));
        }
    }
    r
}

/// The format of the `i`-th read adapter the default plugin registers.
pub open spec fn default_read_format(i: int) -> Seq<char> {
    if i == 0 {
        ZIP@
    } else if i == 1 {
        SPLIT_ZIP@
    } else if i == 2 {
        SEVEN_Z@
    } else if i == 3 {
        TAR_ZST@
    } else if i == 4 {
        TAR_GZ@
    } else if i == 5 {
        TAR@
    } else if i == 6 {
        TAR_BZ2@
    } else if i == 7 {
        TAR_XZ@
    } else if i == 8 {
        TAR_LZMA@
    } else if i == 9 {
        AR@
    } else if i == 10 {
        CPIO@
    } else if i == 11 {
        TZAP@
    } else if i == 12 {
        RAR@
    } else if i == 13 {
        RAW_STREAM@
    } else if i == 14 {
        APPLE_ARCHIVE@
    } else if i == 15 {
        DMG@
    } else if i == 16 {
        PKG@
    } else if i == 17 {
        MSI@
    } else if i == 18 {
        VHD@
    } else if i == 19 {
        VMDK@
    } else if i == 20 {
        UDF@
    } else {
        Seq::empty()
    }
}

/// The default read adapters claim pairwise different formats.
proof fn lemma_default_read_formats_distinct(i: int, j: int)
    requires
        0 <= i < j < DEFAULT_READ_ADAPTER_COUNT,
    ensures
        default_read_format(i) != default_read_format(j),
{
    reveal_strlit("zip");
    reveal_strlit("split_zip");
    reveal_strlit("7z");
    reveal_strlit("tar.zst");
    reveal_strlit("tar.gz");
    reveal_strlit("tar");
    reveal_strlit("tar.bz2");
    reveal_strlit("tar.xz");
    reveal_strlit("tar.lzma");
    reveal_strlit("ar");
    reveal_strlit("cpio");
    reveal_strlit("tzap");
    reveal_strlit("rar");
    reveal_strlit("raw_stream");
    reveal_strlit("apple_archive");
    reveal_strlit("dmg");
    reveal_strlit("pkg");
    reveal_strlit("msi");
    reveal_strlit("vhd");
    reveal_strlit("vmdk");
    reveal_strlit("udf");
    if default_read_format(i) == default_read_format(j) {
        assert(default_read_format(i).len() == default_read_format(j).len());
        assert(default_read_format(i)[0] == default_read_format(j)[0]);
        if default_read_format(i).len() > 4 {
            assert(default_read_format(i)[4] == default_read_format(j)[4]);
        }
    }
}

/// The read adapter whose format the `i`-th default adapter claims: a
/// read adapter claims its own, a creation adapter that of the read adapter
/// for the same format.
pub open spec fn default_format_source(i: int) -> int {
    if i < DEFAULT_READ_ADAPTER_COUNT {
        i
    } else if i == 21 {
        0
    } else if i == 22 {
        1
    } else if i == 23 {
        2
    } else if i == 24 {
        3
    } else if i == 25 {
        4
    } else if i == 26 {
        11
    } else {
        14
    }
}

/// What registration reads of the `i`-th default adapter: its format, and
/// that a read adapter never declares creation while a creation adapter
/// declares nothing else, each operation once.
proof fn lemma_default_descriptor_facts(i: int, d: AdapterDescriptor)
    requires
        0 <= i < DEFAULT_ADAPTER_COUNT,
        default_descriptor_ok(i, d),
    ensures
        d.format.0@ == default_read_format(default_format_source(i)),
        i < DEFAULT_READ_ADAPTER_COUNT ==> forall|k: int| 0 <= k < d.operations@.len() ==> d.operations@[k] != ArchiveOperation::Create,
        i >= DEFAULT_READ_ADAPTER_COUNT ==> d.operations@ == seq![ArchiveOperation::Create],
        forall|m: int, n: int| 0 <= m < n < d.operations@.len() ==> d.operations@[m] != d.operations@[n],
{
}

/// The pair `(format, op)` is declared by one of `descs`.
pub open spec fn declares(descs: Seq<AdapterDescriptor>, format: Seq<char>, op: ArchiveOperation) -> bool {
    exists|j: int, k: int|
        #![trigger descs[j].operations@[k]]
        0 <= j < descs.len() && 0 <= k < descs[j].operations@.len() && descs[j].format.0@ == format
            && descs[j].operations@[k] == op
}

/// Every pair that `descs` declare is new: not claimed in `claims`, not
/// declared by an earlier descriptor, and not declared twice by its own.
pub open spec fn fresh_pairs(claims: Seq<crate::engine::registry::Registration>, descs: Seq<AdapterDescriptor>) -> bool {
    forall|j: int, k: int|
        #![trigger descs[j].operations@[k]]
        0 <= j < descs.len() && 0 <= k < descs[j].operations@.len() ==> {
            &&& crate::engine::registry::find_claim(claims, descs[j].format.0@, descs[j].operations@[k]) is None
            &&& !declares(descs.take(j), descs[j].format.0@, descs[j].operations@[k])
            &&& forall|m: int| 0 <= m < k ==> descs[j].operations@[m] != descs[j].operations@[k]
        }
}

/// Registering operations that are all new claims each of them and fails
/// none.
proof fn lemma_register_ops_fresh(
    claims: Seq<crate::engine::registry::Registration>,
    d: AdapterDescriptor,
    index: usize,
    k: int,
)
    requires
        0 <= k <= d.operations@.len(),
        forall|m: int| 0 <= m < k ==> crate::engine::registry::find_claim(claims, d.format.0@, #[trigger] d.operations@[m]) is None,
        forall|m: int, n: int| 0 <= m < n < k ==> d.operations@[m] != d.operations@[n],
    ensures
        register_ops(claims, d, index, k).1 is None,
        forall|f: Seq<char>, op: ArchiveOperation|
            #[trigger] crate::engine::registry::find_claim(register_ops(claims, d, index, k).0, f, op) is Some <==> (
            crate::engine::registry::find_claim(claims, f, op) is Some || (f == d.format.0@ && exists|m: int|
                0 <= m < k && #[trigger] d.operations@[m] == op)),
    decreases k,
{
    if k > 0 {
        lemma_register_ops_fresh(claims, d, index, k - 1);
        let prev = register_ops(claims, d, index, k - 1).0;
        let op = d.operations@[k - 1];
        assert(crate::engine::registry::find_claim(prev, d.format.0@, op) is None) by {
            if crate::engine::registry::find_claim(prev, d.format.0@, op) is Some {
                let m = choose|m: int| 0 <= m < k - 1 && #[trigger] d.operations@[m] == op;
                assert(d.operations@[m] != d.operations@[k - 1]);
            }
        }
        let reg = crate::engine::registry::Registration { format: d.format, operation: op, adapter: index };
        let next = prev.push(reg);
        assert(register_ops(claims, d, index, k).0 == next);
        assert(next.drop_last() =~= prev);
        assert forall|f: Seq<char>, o: ArchiveOperation|
            #[trigger] crate::engine::registry::find_claim(next, f, o) is Some <==> (crate::engine::registry::find_claim(claims, f, o) is Some || (f
                == d.format.0@ && exists|m: int| 0 <= m < k && #[trigger] d.operations@[m] == o)) by {
            if crate::engine::registry::find_claim(prev, f, o) is Some {
            } else if f == d.format.0@ && o == op {
                assert(d.operations@[k - 1] == o);
            } else {
                if f == d.format.0@ && exists|m: int| 0 <= m < k && #[trigger] d.operations@[m] == o {
                    let m = choose|m: int| 0 <= m < k && #[trigger] d.operations@[m] == o;
                    assert(m != k - 1);
                    assert(0 <= m < k - 1 && d.operations@[m] == o);
                }
            }
        }
    }
}

/// Registering descriptors that declare only new pairs fails none and
/// claims exactly the declared pairs besides the earlier claims.
proof fn lemma_register_all_fresh(claims: Seq<crate::engine::registry::Registration>, descs: Seq<AdapterDescriptor>, base: int)
    requires
        fresh_pairs(claims, descs),
    ensures
        register_all(claims, descs, base).1 is None,
        forall|f: Seq<char>, op: ArchiveOperation|
            #[trigger] crate::engine::registry::find_claim(register_all(claims, descs, base).0, f, op) is Some <==> (
            crate::engine::registry::find_claim(claims, f, op) is Some || declares(descs, f, op)),
    decreases descs.len(),
{
    if descs.len() > 0 {
        let n = descs.len() - 1;
        let dl = descs.drop_last();
        let last = descs.last();
        assert(descs.take(n) =~= dl);
        assert forall|j: int, k: int|
            #![trigger dl[j].operations@[k]]
            0 <= j < dl.len() && 0 <= k < dl[j].operations@.len() implies {
                &&& crate::engine::registry::find_claim(claims, dl[j].format.0@, dl[j].operations@[k]) is None
                &&& !declares(dl.take(j), dl[j].format.0@, dl[j].operations@[k])
                &&& forall|m: int| 0 <= m < k ==> dl[j].operations@[m] != dl[j].operations@[k]
            } by {
            assert(dl[j] == descs[j]);
            assert(dl.take(j) =~= descs.take(j));
            assert(descs[j].operations@[k] == dl[j].operations@[k]);
        }
        lemma_register_all_fresh(claims, dl, base);
        let c = register_all(claims, dl, base).0;
        assert forall|m: int| 0 <= m < last.operations@.len() implies crate::engine::registry::find_claim(
            c,
            last.format.0@,
            #[trigger] last.operations@[m],
        ) is None by {
            assert(descs[n].operations@[m] == last.operations@[m]);
        }
        assert forall|m: int, q: int| 0 <= m < q < last.operations@.len() implies last.operations@[m] != last.operations@[q] by {
            assert(descs[n].operations@[q] == last.operations@[q]);
        }
        let index = (base + descs.len() - 1) as usize;
        let kk = last.operations@.len() as int;
        lemma_register_ops_fresh(c, last, index, kk);
        assert forall|f: Seq<char>, op: ArchiveOperation|
            declares(descs, f, op) <==> (declares(dl, f, op) || (f == last.format.0@ && exists|m: int|
                0 <= m < kk && #[trigger] last.operations@[m] == op)) by {
            if declares(descs, f, op) {
                let (j, k) = choose|j: int, k: int|
                    #![trigger descs[j].operations@[k]]
                    0 <= j < descs.len() && 0 <= k < descs[j].operations@.len() && descs[j].format.0@ == f
                        && descs[j].operations@[k] == op;
                if j < n {
                    assert(dl[j].operations@[k] == op);
                } else {
                    assert(last.operations@[k] == op);
                }
            }
            if declares(dl, f, op) {
                let (j, k) = choose|j: int, k: int|
                    #![trigger dl[j].operations@[k]]
                    0 <= j < dl.len() && 0 <= k < dl[j].operations@.len() && dl[j].format.0@ == f && dl[j].operations@[k] == op;
                assert(descs[j].operations@[k] == op);
            }
            if f == last.format.0@ && exists|m: int| 0 <= m < kk && #[trigger] last.operations@[m] == op {
                let m = choose|m: int| 0 <= m < kk && #[trigger] last.operations@[m] == op;
                assert(descs[n].operations@[m] == op);
            }
        }
    }
}

/// The default adapters, or any prefix of them, declare only new pairs.
proof fn lemma_default_fresh(descs: Seq<AdapterDescriptor>)
    requires
        descs.len() <= DEFAULT_ADAPTER_COUNT,
        forall|i: int| 0 <= i < descs.len() ==> default_descriptor_ok(i, #[trigger] descs[i]),
    ensures
        fresh_pairs(Seq::empty(), descs),
{
    assert forall|j: int, k: int|
        #![trigger descs[j].operations@[k]]
        0 <= j < descs.len() && 0 <= k < descs[j].operations@.len() implies {
            &&& crate::engine::registry::find_claim(Seq::empty(), descs[j].format.0@, descs[j].operations@[k]) is None
            &&& !declares(descs.take(j), descs[j].format.0@, descs[j].operations@[k])
            &&& forall|m: int| 0 <= m < k ==> descs[j].operations@[m] != descs[j].operations@[k]
        } by {
        lemma_default_descriptor_facts(j, descs[j]);
        let pre = descs.take(j);
        let f = descs[j].format.0@;
        let op = descs[j].operations@[k];
        if declares(pre, f, op) {
            let (j2, k2) = choose|j2: int, k2: int|
                #![trigger pre[j2].operations@[k2]]
                0 <= j2 < pre.len() && 0 <= k2 < pre[j2].operations@.len() && pre[j2].format.0@ == f && pre[j2].operations@[k2] == op;
            assert(pre[j2] == descs[j2]);
            lemma_default_descriptor_facts(j2, descs[j2]);
            if j < DEFAULT_READ_ADAPTER_COUNT {
                lemma_default_read_formats_distinct(j2, j);
            } else if j2 < DEFAULT_READ_ADAPTER_COUNT {
                assert(descs[j].operations@[k] == ArchiveOperation::Create);
                assert(descs[j2].operations@[k2] != ArchiveOperation::Create);
            } else {
                lemma_default_read_formats_distinct(default_format_source(j2), default_format_source(j));
            }
        }
    }
}

} // verus!
