//! Stateful archive handle lifecycle and engine entry points.
//!
//! The handle decides what every operation does before and after the
//! adapter call: it refuses to work once the session is unusable, checks the
//! request, resolves and caches the adapter for the operation, and records
//! the disposition an adapter error reports. The adapters themselves are
//! kept by the caller, in registration order, and passed to each operation.
use crate::archive_format::{detect_archive_format, FormatDetectionFacts};
use crate::engine::format::FormatId;
use crate::engine::format::format_name_of;
use crate::engine::registry::{claimed_ops, claims_wf, find_claim, AdapterDescriptor, AdapterRegistry, RegistryView};
use crate::engine::source::{source_primary, ArchiveSource};
use crate::archive_format::{detect_spec, ArchiveFormatKind};
use crate::paths::file_name_spec;
use crate::engine::types::{
    ArchiveError, ArchiveListing, ArchiveOperation, DetectedArchive, EntryId, ErrorKind, HandleCapabilities,
    SessionDisposition,
};
use crate::paths::file_name_of;
use crate::text::{chars_of, concat_chars, string_from_chars};
use vstd::prelude::*;

verus! {

/// Options bound to an opened archive session.
#[derive(Debug, Clone)]
pub struct OpenOptions {
    /// Password for archives that encrypt headers or payload.
    pub password: Option<String>,
    /// Private key path for recipient-encrypted TZAP metadata.
    pub recipient_key: Option<String>,
}

/// Options of a data-verification run.
#[derive(Debug, Clone)]
pub struct TestOptions {
    /// Whether cancellation was requested before the run.
    pub cancelled: bool,
}

/// Options of a complete extraction.
#[derive(Debug, Clone)]
pub struct ExtractOptions {
    /// Destination directory.
    pub destination: String,
    /// Whether cancellation was requested before the run.
    pub cancelled: bool,
    /// Private key path for recipient-encrypted TZAP archives.
    pub recipient_key: Option<String>,
    /// Password for TZAP archives.
    pub tzap_password: Option<String>,
}

/// Options of a selected-entry extraction.
#[derive(Debug, Clone)]
pub struct SelectedExtractOptions {
    /// Destination directory.
    pub destination: String,
    /// Whether cancellation was requested before the run.
    pub cancelled: bool,
}

/// Report of a data-verification run.
#[derive(Debug, Clone)]
pub struct TestReport {
    pub tested_entries: u64,
    pub skipped_entries: u64,
    pub tested_bytes: u64,
    pub warnings: Vec<String>,
}

/// Report of an extraction.
#[derive(Debug, Clone)]
pub struct ExtractReport {
    pub written_entries: u64,
    pub skipped_entries: u64,
    pub written_bytes: u64,
    pub warnings: Vec<String>,
}

/// Report of a single-entry copy.
#[derive(Debug, Clone, Copy)]
pub struct CopyReport {
    pub written_bytes: u64,
}

/// A read adapter: one archive format's listing, verification, extraction
/// and copy, implemented by the embedding program.
pub trait ReadAdapterFactory {
    /// Static metadata describing the adapter.
    fn descriptor(&self) -> AdapterDescriptor;

    /// Whether listing `archive` with `options` may give `r`. An adapter
    /// that states nothing of its listings keeps this default, which admits
    /// every outcome; so do the relations below.
    open spec fn lists(&self, archive: DetectedArchive, options: OpenOptions, r: Result<ArchiveListing, ArchiveError>) -> bool {
        true
    }

    /// Whether testing `archive` with `options` may give `r`.
    open spec fn tests(
        &self,
        archive: DetectedArchive,
        open_options: OpenOptions,
        options: TestOptions,
        r: Result<TestReport, ArchiveError>,
    ) -> bool {
        true
    }

    /// Whether extracting `archive` with `options` may give `r`.
    open spec fn extracts(
        &self,
        archive: DetectedArchive,
        open_options: OpenOptions,
        options: ExtractOptions,
        r: Result<ExtractReport, ArchiveError>,
    ) -> bool {
        true
    }

    /// Whether extracting the entry `entry_id` of `archive` with `options`
    /// may give `r`.
    open spec fn extracts_selected(
        &self,
        archive: DetectedArchive,
        open_options: OpenOptions,
        entry_id: EntryId,
        options: SelectedExtractOptions,
        r: Result<ExtractReport, ArchiveError>,
    ) -> bool {
        true
    }

    /// Whether copying the entry `entry_id` of `archive` may take a writer
    /// holding `before` to one holding `after`, with the outcome `r`.
    open spec fn copies(
        &self,
        archive: DetectedArchive,
        open_options: OpenOptions,
        entry_id: EntryId,
        before: Seq<u8>,
        after: Seq<u8>,
        r: Result<CopyReport, ArchiveError>,
    ) -> bool {
        true
    }

    /// Lists the entries of `archive`.
    fn list(&self, archive: &DetectedArchive, options: &OpenOptions) -> (r: Result<ArchiveListing, ArchiveError>)
        ensures
            self.lists(*archive, *options, r),
    ;

    /// Verifies the data of `archive`.
    fn test(&self, archive: &DetectedArchive, open_options: &OpenOptions, options: &TestOptions) -> (r: Result<TestReport, ArchiveError>)
        ensures
            self.tests(*archive, *open_options, *options, r),
    ;

    /// Extracts all of `archive`.
    fn extract(&self, archive: &DetectedArchive, open_options: &OpenOptions, options: &ExtractOptions) -> (r: Result<
        ExtractReport,
        ArchiveError,
    >)
        ensures
            self.extracts(*archive, *open_options, *options, r),
    ;

    /// Extracts the entry `entry_id` of `archive`.
    fn selected_extract(
        &self,
        archive: &DetectedArchive,
        open_options: &OpenOptions,
        entry_id: EntryId,
        options: &SelectedExtractOptions,
    ) -> (r: Result<ExtractReport, ArchiveError>)
        ensures
            self.extracts_selected(*archive, *open_options, entry_id, *options, r),
    ;

    /// Appends the payload of the entry `entry_id` of `archive` to `writer`.
    fn copy_to_writer(&self, archive: &DetectedArchive, open_options: &OpenOptions, entry_id: EntryId, writer: &mut Vec<u8>) -> (r: Result<
        CopyReport,
        ArchiveError,
    >)
        ensures
            self.copies(*archive, *open_options, entry_id, old(writer)@, final(writer)@, r),
    ;
}

/// Slot of an operation in a handle's adapter cache.
pub open spec fn op_slot(op: ArchiveOperation) -> int {
    match op {
        ArchiveOperation::List => 0,
        ArchiveOperation::Test => 1,
        ArchiveOperation::Extract => 2,
        ArchiveOperation::SelectedExtract => 3,
        ArchiveOperation::CopyToWriter => 4,
        ArchiveOperation::Create => 5,
    }
}

/// The adapter the registry resolves for `(format, op)`.
pub open spec fn resolved(registry: RegistryView, format: Seq<char>, op: ArchiveOperation) -> Option<usize> {
    match find_claim(registry.claims, format, op) {
        Some(p) => Some(registry.claims[p].adapter),
        None => None,
    }
}

/// Abstract value of an [`ArchiveHandle`].
pub struct HandleView {
    pub registry: RegistryView,
    pub format: Seq<char>,
    pub source: ArchiveSource,
    pub options: OpenOptions,
    pub disposition: SessionDisposition,
    pub cached: Seq<Option<usize>>,
}

pub open spec fn unusable_message() -> Seq<char> {
    "Archive handle session is unusable; close and reopen the archive"@
}

/// The message of an operation for which no adapter is registered.
pub open spec fn no_adapter_message(op: ArchiveOperation, format: Seq<char>) -> Seq<char> {
    let what = match op {
        ArchiveOperation::List => "listing"@,
        ArchiveOperation::Test => "data-test"@,
        ArchiveOperation::Extract => "extraction"@,
        ArchiveOperation::SelectedExtract => "selected extraction"@,
        ArchiveOperation::CopyToWriter => "writer-copy"@,
        ArchiveOperation::Create => "creation"@,
    };
    "No "@ + what + " adapter registered for format '"@ + format + "'"@
}

/// The format detected for `primary`: the name rules applied to its file
/// name and the facts the caller gathered.
pub open spec fn detect_format_of(primary: Seq<char>, facts: FormatDetectionFacts) -> ArchiveFormatKind {
    detect_spec(file_name_spec(primary), facts)
}

/// What a handle operation does around its adapter call. An unusable
/// session refuses every operation; a request the handle itself refuses
/// (`refusal`) changes nothing; an operation without a registered adapter
/// fails as unsupported; otherwise the resolved adapter is cached for the
/// operation and an adapter error that marks the session unusable makes
/// the handle unusable.
pub open spec fn settles<T>(
    old: HandleView,
    new: HandleView,
    op: ArchiveOperation,
    refusal: Option<(ErrorKind, Seq<char>)>,
    r: Result<T, ArchiveError>,
) -> bool {
    if old.disposition == SessionDisposition::Unusable {
        &&& new == old
        &&& r matches Err(e) && e.kind == ErrorKind::CorruptData && e.disposition == SessionDisposition::Unusable
            && e.message@ == unusable_message()
    } else if refusal is Some {
        &&& new == old
        &&& r matches Err(e) && e.kind == refusal.unwrap().0 && e.message@ == refusal.unwrap().1 && e.disposition
            == SessionDisposition::Usable
    } else {
        match resolved(old.registry, old.format, op) {
            None => {
                &&& new == old
                &&& r matches Err(e) && e.kind == ErrorKind::UnsupportedOperation && e.disposition
                    == SessionDisposition::Usable && e.message@ == no_adapter_message(op, old.format)
            },
            Some(a) => {
                &&& new.registry == old.registry
                &&& new.format == old.format
                &&& new.source == old.source
                &&& new.options == old.options
                &&& new.cached == old.cached.update(op_slot(op), Some(a))
                &&& new.disposition == (if r matches Err(e) && e.disposition == SessionDisposition::Unusable {
                    SessionDisposition::Unusable
                } else {
                    old.disposition
                })
            },
        }
    }
}

/// The adapter a handle operation hands its request to: the one the
/// registry resolves, when the session is usable and the handle itself
/// does not refuse the request.
pub open spec fn runs_adapter(old: HandleView, op: ArchiveOperation, refusal: Option<(ErrorKind, Seq<char>)>) -> Option<usize> {
    if old.disposition == SessionDisposition::Unusable || refusal is Some {
        None
    } else {
        resolved(old.registry, old.format, op)
    }
}

/// The message of a refused open for a missing source.
pub open spec fn missing_source_message(path: Seq<char>) -> Seq<char> {
    "Archive path does not exist: "@ + path
}

/// The message of a refused open for a format that no adapter claims.
pub open spec fn no_format_adapter_message(format: Seq<char>) -> Seq<char> {
    "No adapter registered for format '"@ + format + "'"@
}

/// The message of a refused open for an unrecognized format.
pub open spec fn unknown_format_message(path: Seq<char>) -> Seq<char> {
    "Unsupported or unrecognized archive format for "@ + path
}

fn format_adapter_message(format: FormatId) -> (r: String)
    ensures
        r@ == no_format_adapter_message(format.0@),
{
    let head = message_with("No adapter registered for format '", format.as_str());
    let full = concat_chars(&chars_of(head.as_str()), &chars_of("'"));
    string_from_chars(&full)
}

fn message_with(prefix: &str, subject: &str) -> (r: String)
    ensures
        r@ == prefix@ + subject@,
{
    let a = chars_of(prefix);
    let b = chars_of(subject);
    let c = concat_chars(&a, &b);
    string_from_chars(&c)
}

/// The stateful archive engine instance.
#[derive(Debug)]
pub struct ArchiveEngine {
    registry: AdapterRegistry,
}

/// The formats claimed in `claims`, each once, in the order of its first
/// claim.
pub open spec fn first_claimed_formats(claims: Seq<crate::engine::registry::Registration>) -> Seq<Seq<char>>
    decreases claims.len(),
{
    if claims.len() == 0 {
        Seq::empty()
    } else {
        let rest = first_claimed_formats(claims.drop_last());
        let f = claims.last().format.0@;
        if rest.contains(f) {
            rest
        } else {
            rest.push(f)
        }
    }
}

/// `c` describes its format as the registry `reg` does: the operations
/// claimed for it in registration order, the source access required by the
/// adapter of its last claim, and whether any of its adapters supports
/// encryption.
pub open spec fn capabilities_match(reg: RegistryView, c: HandleCapabilities) -> bool {
    let f = c.format.0@;
    &&& c.operations@ == crate::engine::registry::claimed_ops(reg.claims, f)
    &&& c.source_access == reg.descriptors[crate::engine::registry::last_claim_adapter(reg.claims, f)->0 as int].required_source_access
    &&& c.encryption_supported == crate::engine::registry::any_encryption(reg.descriptors, reg.claims, f)
}

/// A format that some claim names has at least one claimed operation.
proof fn lemma_claimed_format_has_ops(claims: Seq<crate::engine::registry::Registration>, k: int)
    requires
        0 <= k < claims.len(),
    ensures
        crate::engine::registry::claimed_ops(claims, claims[k].format.0@).len() > 0,
    decreases claims.len(),
{
    if k < claims.len() - 1 {
        lemma_claimed_format_has_ops(claims.drop_last(), k);
        assert(claims.drop_last()[k] == claims[k]);
    }
}

impl ArchiveEngine {
    /// Creates an engine over an immutable registry.
    pub fn new(registry: AdapterRegistry) -> (r: Self)
        ensures
            r.view() == registry@,
    {
        ArchiveEngine { registry }
    }

    pub closed spec fn view(&self) -> RegistryView {
        self.registry@
    }

    pub open spec fn wf(&self) -> bool {
        claims_wf(self.view().descriptors, self.view().claims)
    }

    /// Accesses the underlying registry.
    pub fn registry(&self) -> (r: &AdapterRegistry)
        ensures
            r@ == self.view(),
    {
        &self.registry
    }

    /// The capabilities of every claimed format, in the order of each
    /// format's first claim.
    pub fn capability_snapshot(&self) -> (r: Vec<HandleCapabilities>)
        requires
            self.wf(),
        ensures
            r@.len() == first_claimed_formats(self.view().claims).len(),
            forall|i: int|
                #![trigger r@[i]]
                0 <= i < r@.len() ==> {
                    &&& r@[i].format.0@ == first_claimed_formats(self.view().claims)[i]
                    &&& capabilities_match(self.view(), r@[i])
                },
    {
        let mut out: Vec<HandleCapabilities> = Vec::new();
        let mut seen: Vec<FormatId> = Vec::new();
        let n = self.registry.claim_count();
        let mut i: usize = 0;
        while i < n
            invariant
                self.wf(),
                self.registry@ == self.view(),
                n == self.view().claims.len(),
                i <= n,
                seen@.len() == out@.len(),
                seen@.len() == first_claimed_formats(self.view().claims.take(i as int)).len(),
                forall|k: int|
                    #![trigger out@[k]]
                    0 <= k < out@.len() ==> {
                        &&& out@[k].format.0@ == seen@[k].0@
                        &&& seen@[k].0@ == first_claimed_formats(self.view().claims.take(i as int))[k]
                        &&& capabilities_match(self.view(), out@[k])
                    },
            decreases n - i,
        {
            let format = self.registry.claim_format(i);
            let ghost before = first_claimed_formats(self.view().claims.take(i as int));
            let mut known = false;
            let mut j: usize = 0;
            while j < seen.len()
                invariant
                    j <= seen@.len(),
                    known <==> exists|m: int| 0 <= m < j && #[trigger] seen@[m].0@ == format.0@,
                decreases seen@.len() - j,
            {
                if seen[j].same_as(format) {
                    known = true;
                }
                j += 1;
            }
            proof {
                let claims = self.view().claims;
                assert(claims.take(i as int + 1).drop_last() =~= claims.take(i as int));
                assert(claims.take(i as int + 1).last() == claims[i as int]);
                if known {
                    let m = choose|m: int| 0 <= m < j && #[trigger] seen@[m].0@ == format.0@;
                    assert(out@[m].format.0@ == seen@[m].0@);
                    assert(before.contains(format.0@)) by {
                        assert(before[m] == format.0@);
                    }
                } else {
                    assert(!before.contains(format.0@)) by {
                        if before.contains(format.0@) {
                            let m = choose|m: int| 0 <= m < before.len() && before[m] == format.0@;
                            assert(out@[m].format.0@ == seen@[m].0@);
                            assert(seen@[m].0@ == format.0@);
                        }
                    }
                    lemma_claimed_format_has_ops(claims, i as int);
                }
            }
            if !known {
                seen.push(format);
                match self.registry.capabilities_for_format(format) {
                    Some(caps) => {
                        out.push(caps);
                    },
                    None => {},
                }
            }
            i += 1;
        }
        proof {
            assert(self.view().claims.take(n as int) =~= self.view().claims);
        }
        out
    }

    /// Opens an archive handle. `detection` holds the facts about the primary
    /// path that format detection needs beyond its name, and `source_exists`
    /// whether the primary path (or, for a 7z volume set, one of its
    /// volumes) exists.
    pub fn open(&self, source: ArchiveSource, options: OpenOptions, detection: FormatDetectionFacts, source_exists: bool) -> (r: Result<
        ArchiveHandle,
        ArchiveError,
    >)
        requires
            self.wf(),
        ensures
            ({
                let primary = source_primary(source);
                let kind = detect_format_of(primary, detection);
                match r {
                    Ok(h) => {
                        &&& source_exists
                        &&& kind != ArchiveFormatKind::Unknown
                        &&& claimed_ops(self.view().claims, format_name_of(kind)@).len() > 0
                        &&& h.wf()
                        &&& h@.registry == self.view()
                        &&& h@.format == format_name_of(kind)@
                        &&& h@.source == source
                        &&& h@.options == options
                        &&& h.detected_archive().source == source
                        &&& h.detected_archive().format.0@ == format_name_of(kind)@
                        &&& h@.disposition == SessionDisposition::Usable
                        &&& h@.cached == seq![None::<usize>, None, None, None, None]
                    },
                    Err(e) => {
                        &&& e.disposition == SessionDisposition::Usable
                        &&& e.path matches Some(p) && p@ == primary
                        &&& if !source_exists {
                            e.kind == ErrorKind::Io && e.message@ == missing_source_message(primary)
                        } else if kind == ArchiveFormatKind::Unknown {
                            &&& e.kind == ErrorKind::InvalidFormat
                            &&& e.message@ == unknown_format_message(primary)
                        } else {
                            &&& claimed_ops(self.view().claims, format_name_of(kind)@).len() == 0
                            &&& e.kind == ErrorKind::UnsupportedOperation
                            &&& e.message@ == no_format_adapter_message(format_name_of(kind)@)
                        }
                    },
                }
            }),
    {
        let primary = source.primary_path_string();
        let name = file_name_of(primary.as_str());
        let kind = match &name {
            Some(n) => detect_archive_format(Some(n.as_str()), detection),
            None => detect_archive_format(None, detection),
        };
        if !source_exists {
            let message = message_with("Archive path does not exist: ", primary.as_str());
            return Err(ArchiveError::usable(ErrorKind::Io, message).with_path(primary));
        }
        let format = match FormatId::from_archive_format_kind(kind) {
            Some(f) => f,
            None => {
                let message = message_with("Unsupported or unrecognized archive format for ", primary.as_str());
                return Err(ArchiveError::usable(ErrorKind::InvalidFormat, message).with_path(primary));
            },
        };
        if self.registry.capabilities_for_format(format).is_none() {
            let message = format_adapter_message(format);
            return Err(ArchiveError::usable(ErrorKind::UnsupportedOperation, message).with_path(primary));
        }
        let h = ArchiveHandle {
            registry: self.registry.duplicate(),
            detected: DetectedArchive { format, source },
            options,
            cached: vec![None, None, None, None, None],
            disposition: SessionDisposition::Usable,
        };
        assert(h@.cached =~= seq![None::<usize>, None, None, None, None]);
        assert(h@.registry == self.view());
        assert(h@.format == format_name_of(kind)@);
        assert(kind != ArchiveFormatKind::Unknown);
        assert(kind == detect_format_of(source_primary(h.detected.source), detection));
        assert(h.wf());
        Ok(h)
    }
}

/// Stateful handle representing an opened archive session.
#[derive(Debug)]
pub struct ArchiveHandle {
    registry: AdapterRegistry,
    detected: DetectedArchive,
    options: OpenOptions,
    cached: Vec<Option<usize>>,
    disposition: SessionDisposition,
}

impl View for ArchiveHandle {
    type V = HandleView;

    closed spec fn view(&self) -> HandleView {
        HandleView {
            registry: self.registry@,
            format: self.detected.format.0@,
            source: self.detected.source,
            options: self.options,
            disposition: self.disposition,
            cached: self.cached@,
        }
    }
}

fn no_adapter_error(op: ArchiveOperation, format: FormatId) -> (r: ArchiveError)
    ensures
        r.kind == ErrorKind::UnsupportedOperation,
        r.disposition == SessionDisposition::Usable,
        r.message@ == no_adapter_message(op, format.0@),
{
    let what = match op {
        ArchiveOperation::List => "listing",
        ArchiveOperation::Test => "data-test",
        ArchiveOperation::Extract => "extraction",
        ArchiveOperation::SelectedExtract => "selected extraction",
        ArchiveOperation::CopyToWriter => "writer-copy",
        ArchiveOperation::Create => "creation",
    };
    let a = chars_of("No ");
    let b = chars_of(what);
    let c = chars_of(" adapter registered for format '");
    let d = chars_of(format.0);
    let e = chars_of("'");
    let ab = concat_chars(&a, &b);
    let abc = concat_chars(&ab, &c);
    let abcd = concat_chars(&abc, &d);
    let all = concat_chars(&abcd, &e);
    ArchiveError::usable(ErrorKind::UnsupportedOperation, string_from_chars(&all))
}

fn unusable_error() -> (r: ArchiveError)
    ensures
        r.kind == ErrorKind::CorruptData,
        r.disposition == SessionDisposition::Unusable,
        r.message@ == unusable_message(),
{
    ArchiveError::unusable(ErrorKind::CorruptData, "Archive handle session is unusable; close and reopen the archive".to_string())
}

fn cache_index(op: ArchiveOperation) -> (r: usize)
    requires
        op != ArchiveOperation::Create,
    ensures
        r == op_slot(op),
{
    match op {
        ArchiveOperation::List => 0,
        ArchiveOperation::Test => 1,
        ArchiveOperation::Extract => 2,
        ArchiveOperation::SelectedExtract => 3,
        _ => 4,
    }
}

impl ArchiveHandle {
    /// The handle's invariant: a well-formed registry, one cache slot per
    /// operation, and every cached adapter the one the registry resolves.
    pub open spec fn wf(&self) -> bool {
        &&& claims_wf(self@.registry.descriptors, self@.registry.claims)
        &&& self@.cached.len() == 5
        &&& forall|op: ArchiveOperation|
            op != ArchiveOperation::Create && (#[trigger] self@.cached[op_slot(op)]) is Some ==> self@.cached[op_slot(op)]
                == resolved(self@.registry, self@.format, op)
    }

    /// The detected archive the session was opened on.
    pub closed spec fn detected_archive(&self) -> DetectedArchive {
        self.detected
    }

    /// Returns the detected archive format and source layout.
    pub fn detected(&self) -> (r: &DetectedArchive)
        ensures
            r.format.0@ == self@.format,
            *r == self.detected_archive(),
    {
        &self.detected
    }

    /// Returns the current session disposition.
    pub fn disposition(&self) -> (r: SessionDisposition)
        ensures
            r == self@.disposition,
    {
        self.disposition
    }

    /// Returns handle capabilities derived from the registered adapters.
    pub fn capabilities(&self) -> (r: Option<HandleCapabilities>)
        requires
            self.wf(),
        ensures
            r is None <==> crate::engine::registry::claimed_ops(self@.registry.claims, self@.format).len() == 0,
            r matches Some(c) ==> c.operations@ == crate::engine::registry::claimed_ops(self@.registry.claims, self@.format),
    {
        self.registry.capabilities_for_format(self.detected.format)
    }

    /// The adapter for `op`: the cached one, or the one the registry
    /// resolves, which is then cached.
    fn session_adapter(&mut self, op: ArchiveOperation) -> (r: Option<usize>)
        requires
            old(self).wf(),
            op != ArchiveOperation::Create,
        ensures
            final(self).wf(),
            r == resolved(old(self)@.registry, old(self)@.format, op),
            r matches Some(a) ==> a < old(self)@.registry.descriptors.len(),
            final(self).detected_archive() == old(self).detected_archive(),
            final(self)@.registry == old(self)@.registry,
            final(self)@.format == old(self)@.format,
            final(self)@.source == old(self)@.source,
            final(self)@.options == old(self)@.options,
            final(self)@.disposition == old(self)@.disposition,
            final(self)@.cached == (if r is Some {
                old(self)@.cached.update(op_slot(op), r)
            } else {
                old(self)@.cached
            }),
    {
        let slot = cache_index(op);
        proof {
            crate::engine::registry::lemma_find_claim_bound(self@.registry.claims, self@.format, op);
        }
        match self.cached[slot] {
            Some(a) => {
                assert(self@.cached[op_slot(op)] is Some);
                assert(self@.cached.update(op_slot(op), Some(a)) =~= self@.cached);
                Some(a)
            },
            None => {
                let found = self.registry.resolve(self.detected.format, op);
                if let Some(a) = found {
                    self.cached.set(slot, Some(a));
                    proof {
                        assert forall|o: ArchiveOperation|
                            o != ArchiveOperation::Create && (#[trigger] self@.cached[op_slot(o)]) is Some implies self@.cached[op_slot(o)]
                            == resolved(self@.registry, self@.format, o) by {
                            if op_slot(o) == op_slot(op) {
                                assert(o == op);
                            } else {
                                assert(self@.cached[op_slot(o)] == old(self)@.cached[op_slot(o)]);
                            }
                        }
                    }
                }
                found
            },
        }
    }

    /// Records the disposition an adapter error reports.
    fn settle<T>(&mut self, result: Result<T, ArchiveError>) -> (r: Result<T, ArchiveError>)
        ensures
            r == result,
            final(self)@.registry == old(self)@.registry,
            final(self)@.format == old(self)@.format,
            final(self)@.source == old(self)@.source,
            final(self)@.options == old(self)@.options,
            final(self)@.cached == old(self)@.cached,
            final(self)@.disposition == (if result matches Err(e) && e.disposition == SessionDisposition::Unusable {
                SessionDisposition::Unusable
            } else {
                old(self)@.disposition
            }),
    {
        match result {
            Ok(v) => Ok(v),
            Err(error) => {
                if error.disposition == SessionDisposition::Unusable {
                    self.disposition = SessionDisposition::Unusable;
                }
                Err(error)
            },
        }
    }

    /// Lists archive entries using the adapter bound to this session.
    pub fn list<A: ReadAdapterFactory>(&mut self, adapters: &[A]) -> (r: Result<ArchiveListing, ArchiveError>)
        requires
            old(self).wf(),
            adapters@.len() == old(self)@.registry.descriptors.len(),
        ensures
            final(self).wf(),
            settles(old(self)@, final(self)@, ArchiveOperation::List, None, r),
            runs_adapter(old(self)@, ArchiveOperation::List, None) matches Some(a) ==> adapters@[a as int].lists(
                old(self).detected_archive(),
                old(self)@.options,
                r,
            ),
    {
        if self.disposition == SessionDisposition::Unusable {
            return Err(unusable_error());
        }
        let adapter = match self.session_adapter(ArchiveOperation::List) {
            Some(a) => a,
            None => {
                return Err(no_adapter_error(ArchiveOperation::List, self.detected.format));
            },
        };
        let result = adapters[adapter].list(&self.detected, &self.options);
        self.settle(result)
    }

    /// Verifies archive data using the adapter bound to this session.
    pub fn test<A: ReadAdapterFactory>(&mut self, adapters: &[A], options: &TestOptions) -> (r: Result<TestReport, ArchiveError>)
        requires
            old(self).wf(),
            adapters@.len() == old(self)@.registry.descriptors.len(),
        ensures
            final(self).wf(),
            settles(
                old(self)@,
                final(self)@,
                ArchiveOperation::Test,
                if options.cancelled {
                    Some((ErrorKind::Cancelled, "Archive test was cancelled"@))
                } else {
                    None
                },
                r,
            ),
            runs_adapter(
                old(self)@,
                ArchiveOperation::Test,
                if options.cancelled {
                    Some((ErrorKind::Cancelled, "Archive test was cancelled"@))
                } else {
                    None
                },
            ) matches Some(a) ==> adapters@[a as int].tests(old(self).detected_archive(), old(self)@.options, *options, r),
    {
        if self.disposition == SessionDisposition::Unusable {
            return Err(unusable_error());
        }
        if options.cancelled {
            return Err(ArchiveError::usable(ErrorKind::Cancelled, "Archive test was cancelled".to_string()));
        }
        let adapter = match self.session_adapter(ArchiveOperation::Test) {
            Some(a) => a,
            None => {
                return Err(no_adapter_error(ArchiveOperation::Test, self.detected.format));
            },
        };
        let result = adapters[adapter].test(&self.detected, &self.options, options);
        self.settle(result)
    }

    /// Extracts the complete archive using the adapter bound to this session.
    /// The session's recipient key and password fill the request's when it
    /// carries none.
    pub fn extract<A: ReadAdapterFactory>(&mut self, adapters: &[A], options: &mut ExtractOptions) -> (r: Result<
        ExtractReport,
        ArchiveError,
    >)
        requires
            old(self).wf(),
            adapters@.len() == old(self)@.registry.descriptors.len(),
        ensures
            final(self).wf(),
            settles(
                old(self)@,
                final(self)@,
                ArchiveOperation::Extract,
                extract_refusal(old(options).destination@, old(options).cancelled),
                r,
            ),
            runs_adapter(old(self)@, ArchiveOperation::Extract, extract_refusal(old(options).destination@, old(options).cancelled))
                matches Some(a) ==> adapters@[a as int].extracts(old(self).detected_archive(), old(self)@.options, *final(options), r),
            final(options).destination == old(options).destination,
            final(options).cancelled == old(options).cancelled,
            (old(self)@.disposition == SessionDisposition::Unusable || extract_refusal(
                old(options).destination@,
                old(options).cancelled,
            ) is Some) ==> *final(options) == *old(options),
            (old(self)@.disposition == SessionDisposition::Usable && extract_refusal(
                old(options).destination@,
                old(options).cancelled,
            ) is None) ==> {
                &&& final(options).recipient_key == (if old(options).recipient_key is Some {
                    old(options).recipient_key
                } else {
                    old(self).open_recipient_key()
                })
                &&& final(options).tzap_password == (if old(options).tzap_password is Some {
                    old(options).tzap_password
                } else {
                    old(self).open_password()
                })
            },
    {
        if self.disposition == SessionDisposition::Unusable {
            return Err(unusable_error());
        }
        if options.destination.as_str().is_empty() {
            return Err(ArchiveError::usable(ErrorKind::Io, "Extraction destination must not be empty".to_string()));
        }
        if options.cancelled {
            return Err(ArchiveError::usable(ErrorKind::Cancelled, "Archive extraction was cancelled".to_string()));
        }
        if options.recipient_key.is_none() {
            options.recipient_key = match &self.options.recipient_key {
                Some(k) => Some(k.clone()),
                None => None,
            };
        }
        if options.tzap_password.is_none() {
            options.tzap_password = match &self.options.password {
                Some(p) => Some(p.clone()),
                None => None,
            };
        }
        let adapter = match self.session_adapter(ArchiveOperation::Extract) {
            Some(a) => a,
            None => {
                return Err(no_adapter_error(ArchiveOperation::Extract, self.detected.format));
            },
        };
        let result = adapters[adapter].extract(&self.detected, &self.options, options);
        self.settle(result)
    }

    /// Extracts one retained entry by its session-scoped ID.
    pub fn extract_selected<A: ReadAdapterFactory>(
        &mut self,
        adapters: &[A],
        entry_id: EntryId,
        options: &SelectedExtractOptions,
    ) -> (r: Result<ExtractReport, ArchiveError>)
        requires
            old(self).wf(),
            adapters@.len() == old(self)@.registry.descriptors.len(),
        ensures
            final(self).wf(),
            settles(
                old(self)@,
                final(self)@,
                ArchiveOperation::SelectedExtract,
                extract_refusal(options.destination@, options.cancelled),
                r,
            ),
            runs_adapter(old(self)@, ArchiveOperation::SelectedExtract, extract_refusal(options.destination@, options.cancelled))
                matches Some(a) ==> adapters@[a as int].extracts_selected(
                old(self).detected_archive(),
                old(self)@.options,
                entry_id,
                *options,
                r,
            ),
    {
        if self.disposition == SessionDisposition::Unusable {
            return Err(unusable_error());
        }
        if options.destination.as_str().is_empty() {
            return Err(ArchiveError::usable(ErrorKind::Io, "Extraction destination must not be empty".to_string()));
        }
        if options.cancelled {
            return Err(ArchiveError::usable(ErrorKind::Cancelled, "Archive extraction was cancelled".to_string()));
        }
        let adapter = match self.session_adapter(ArchiveOperation::SelectedExtract) {
            Some(a) => a,
            None => {
                return Err(no_adapter_error(ArchiveOperation::SelectedExtract, self.detected.format));
            },
        };
        let result = adapters[adapter].selected_extract(&self.detected, &self.options, entry_id, options);
        self.settle(result)
    }

    /// Copies one retained regular-file entry, appending it to `writer`.
    pub fn copy_entry<A: ReadAdapterFactory>(&mut self, adapters: &[A], entry_id: EntryId, writer: &mut Vec<u8>) -> (r: Result<
        CopyReport,
        ArchiveError,
    >)
        requires
            old(self).wf(),
            adapters@.len() == old(self)@.registry.descriptors.len(),
        ensures
            final(self).wf(),
            settles(old(self)@, final(self)@, ArchiveOperation::CopyToWriter, None, r),
            runs_adapter(old(self)@, ArchiveOperation::CopyToWriter, None) matches Some(a) ==> adapters@[a as int].copies(
                old(self).detected_archive(),
                old(self)@.options,
                entry_id,
                old(writer)@,
                final(writer)@,
                r,
            ),
            (old(self)@.disposition == SessionDisposition::Unusable || resolved(
                old(self)@.registry,
                old(self)@.format,
                ArchiveOperation::CopyToWriter,
            ) is None) ==> final(writer)@ == old(writer)@,
    {
        if self.disposition == SessionDisposition::Unusable {
            return Err(unusable_error());
        }
        let adapter = match self.session_adapter(ArchiveOperation::CopyToWriter) {
            Some(a) => a,
            None => {
                return Err(no_adapter_error(ArchiveOperation::CopyToWriter, self.detected.format));
            },
        };
        let result = adapters[adapter].copy_to_writer(&self.detected, &self.options, entry_id, writer);
        self.settle(result)
    }

    /// Consumes the handle and closes the archive session.
    pub fn close(self) -> (r: Result<(), ArchiveError>)
        ensures
            r is Ok,
    {
        Ok(())
    }

    pub closed spec fn open_recipient_key(&self) -> Option<String> {
        self.options.recipient_key
    }

    pub closed spec fn open_password(&self) -> Option<String> {
        self.options.password
    }
}

/// Why an extraction request is refused before any adapter runs: an empty
/// destination, then a cancelled request.
pub open spec fn extract_refusal(destination: Seq<char>, cancelled: bool) -> Option<(ErrorKind, Seq<char>)> {
    if destination.len() == 0 {
        Some((ErrorKind::Io, "Extraction destination must not be empty"@))
    } else if cancelled {
        Some((ErrorKind::Cancelled, "Archive extraction was cancelled"@))
    } else {
        None
    }
}

/// Once a session is unusable it stays unusable, and every operation on it
/// fails with an unusable corrupt-data error.
pub proof fn lemma_unusable_session_is_final<T>(
    old: HandleView,
    new: HandleView,
    op: ArchiveOperation,
    refusal: Option<(ErrorKind, Seq<char>)>,
    r: Result<T, ArchiveError>,
)
    requires
        settles(old, new, op, refusal, r),
        old.disposition == SessionDisposition::Unusable,
    ensures
        new.disposition == SessionDisposition::Unusable,
        r matches Err(e) && e.kind == ErrorKind::CorruptData && e.disposition == SessionDisposition::Unusable,
{
}

/// A usable session becomes unusable only through an error that says so.
pub proof fn lemma_usable_session_survives_usable_errors<T>(
    old: HandleView,
    new: HandleView,
    op: ArchiveOperation,
    refusal: Option<(ErrorKind, Seq<char>)>,
    r: Result<T, ArchiveError>,
)
    requires
        settles(old, new, op, refusal, r),
        old.disposition == SessionDisposition::Usable,
        !(r matches Err(e) && e.disposition == SessionDisposition::Unusable),
    ensures
        new.disposition == SessionDisposition::Usable,
{
}

} // verus!
