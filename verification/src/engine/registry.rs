//! Immutable operation registry and engine builder.
//!
//! Each registered adapter is identified by its position: the `n`-th
//! adapter registered with a builder has index `n`, and resolution answers
//! with that index. Whoever holds the adapter objects keeps them in the same
//! order.
use crate::engine::format::FormatId;
use crate::engine::source::SourceAccess;
use crate::engine::types::{ArchiveError, ArchiveOperation, ErrorKind, HandleCapabilities, SessionDisposition};
use crate::text::{chars_of, concat_chars, string_from_chars};
use vstd::prelude::*;

verus! {

/// Static metadata descriptor for an archive adapter.
#[derive(Debug, Clone, Copy)]
pub struct AdapterDescriptor {
    /// Opaque name/identifier for the adapter implementation.
    pub name: &'static str,
    /// Supported format identifier.
    pub format: FormatId,
    /// Supported operation set.
    pub operations: &'static [ArchiveOperation],
    /// Required source access capability.
    pub required_source_access: SourceAccess,
    /// Whether encryption is supported by this adapter.
    pub supports_encryption: bool,
}

/// One `(format, operation)` claim and the adapter that made it.
#[derive(Debug, Clone, Copy)]
pub struct Registration {
    pub format: FormatId,
    pub operation: ArchiveOperation,
    pub adapter: usize,
}

/// Position of the first claim on `(format, op)`.
pub open spec fn find_claim(claims: Seq<Registration>, format: Seq<char>, op: ArchiveOperation) -> Option<int>
    decreases claims.len(),
{
    if claims.len() == 0 {
        None
    } else {
        match find_claim(claims.drop_last(), format, op) {
            Some(i) => Some(i),
            None => if claims.last().format.0@ == format && claims.last().operation == op {
                Some(claims.len() - 1)
            } else {
                None
            },
        }
    }
}

/// The claims are well formed: no `(format, operation)` pair is claimed
/// twice, and every claim names a registered adapter that declares it.
pub open spec fn claims_wf(descriptors: Seq<AdapterDescriptor>, claims: Seq<Registration>) -> bool {
    &&& forall|i: int, j: int|
        0 <= i < j < claims.len() ==> !(#[trigger] claims[i].format.0@ == #[trigger] claims[j].format.0@ && claims[i].operation
            == claims[j].operation)
    &&& forall|i: int|
        0 <= i < claims.len() ==> {
            let c = #[trigger] claims[i];
            &&& c.adapter < descriptors.len()
            &&& c.format.0@ == descriptors[c.adapter as int].format.0@
            &&& descriptors[c.adapter as int].operations@.contains(c.operation)
        }
}

/// The operations claimed for `format`, in registration order.
pub open spec fn claimed_ops(claims: Seq<Registration>, format: Seq<char>) -> Seq<ArchiveOperation>
    decreases claims.len(),
{
    if claims.len() == 0 {
        Seq::empty()
    } else {
        let rest = claimed_ops(claims.drop_last(), format);
        if claims.last().format.0@ == format {
            rest.push(claims.last().operation)
        } else {
            rest
        }
    }
}

/// The adapter of the last claim for `format`.
pub open spec fn last_claim_adapter(claims: Seq<Registration>, format: Seq<char>) -> Option<usize>
    decreases claims.len(),
{
    if claims.len() == 0 {
        None
    } else if claims.last().format.0@ == format {
        Some(claims.last().adapter)
    } else {
        last_claim_adapter(claims.drop_last(), format)
    }
}

/// Whether some claim for `format` comes from an adapter that supports
/// encryption.
pub open spec fn any_encryption(descriptors: Seq<AdapterDescriptor>, claims: Seq<Registration>, format: Seq<char>) -> bool {
    exists|i: int|
        0 <= i < claims.len() && (#[trigger] claims[i]).format.0@ == format
            && descriptors[claims[i].adapter as int].supports_encryption
}

/// Immutable registry mapping `(FormatId, ArchiveOperation)` to an adapter.
#[derive(Debug, Clone)]
pub struct AdapterRegistry {
    descriptors: Vec<AdapterDescriptor>,
    registrations: Vec<Registration>,
}

/// Abstract value of a registry or builder: the registered descriptors in
/// order, and the claims in the order they were made.
pub struct RegistryView {
    pub descriptors: Seq<AdapterDescriptor>,
    pub claims: Seq<Registration>,
}

impl View for AdapterRegistry {
    type V = RegistryView;

    closed spec fn view(&self) -> RegistryView {
        RegistryView { descriptors: self.descriptors@, claims: self.registrations@ }
    }
}

impl AdapterRegistry {
    pub open spec fn wf(&self) -> bool {
        claims_wf(self@.descriptors, self@.claims)
    }

    /// The adapter claiming `(format, operation)`, by registration index.
    pub fn resolve(&self, format: FormatId, operation: ArchiveOperation) -> (r: Option<usize>)
        requires
            self.wf(),
        ensures
            match find_claim(self@.claims, format.0@, operation) {
                Some(i) => r == Some(self@.claims[i].adapter),
                None => r is None,
            },
            r matches Some(a) ==> a < self@.descriptors.len(),
    {
        let mut i: usize = 0;
        while i < self.registrations.len()
            invariant
                self.wf(),
                i <= self@.claims.len(),
                find_claim(self@.claims.take(i as int), format.0@, operation) is None,
            decreases self@.claims.len() - i,
        {
            let c = self.registrations[i];
            proof {
                lemma_find_claim_take(self@.claims, format.0@, operation, i as int);
            }
            if c.format.same_as(format) && c.operation == operation {
                proof {
                    lemma_find_claim_prefix(self@.claims, format.0@, operation, i as int + 1);
                }
                return Some(c.adapter);
            }
            i += 1;
        }
        assert(self@.claims.take(i as int) =~= self@.claims);
        None
    }

    /// Capabilities of `format` derived from the registered adapters: its
    /// claimed operations in registration order, the source access required
    /// by the adapter of its last claim, and whether any of its adapters
    /// supports encryption; `None` when nothing claims the format.
    pub fn capabilities_for_format(&self, format: FormatId) -> (r: Option<HandleCapabilities>)
        requires
            self.wf(),
        ensures
            match r {
                None => claimed_ops(self@.claims, format.0@).len() == 0,
                Some(c) => {
                    &&& claimed_ops(self@.claims, format.0@).len() > 0
                    &&& c.format == format
                    &&& c.operations@ == claimed_ops(self@.claims, format.0@)
                    &&& c.source_access == self@.descriptors[last_claim_adapter(
                        self@.claims,
                        format.0@,
                    )->0 as int].required_source_access
                    &&& c.encryption_supported == any_encryption(self@.descriptors, self@.claims, format.0@)
                    &&& c.operations@.no_duplicates()
                    &&& forall|op: ArchiveOperation| #[trigger] c.operations@.contains(op) <==> find_claim(self@.claims, format.0@, op) is Some
                    &&& c.encryption_supported <==> exists|op: ArchiveOperation| #[trigger] resolves_with_encryption(
                        self@.descriptors,
                        self@.claims,
                        format.0@,
                        op,
                    )
                },
            },
    {
        proof {
            lemma_capabilities_are_distinct_and_encryption_matches(self@.descriptors, self@.claims, format.0@);
            assert forall|op: ArchiveOperation| #[trigger] claimed_ops(self@.claims, format.0@).contains(op) <==> find_claim(self@.claims, format.0@, op) is Some by {
                lemma_capabilities_match_resolution(self@.claims, format.0@, op);
            }
        }
        let mut ops: Vec<ArchiveOperation> = Vec::new();
        let mut source_access = SourceAccess::Seekable;
        let mut encryption = false;
        let mut found = false;
        let mut i: usize = 0;
        while i < self.registrations.len()
            invariant
                self.wf(),
                i <= self@.claims.len(),
                ops@ == claimed_ops(self@.claims.take(i as int), format.0@),
                found == (ops@.len() > 0),
                found ==> source_access == self@.descriptors[last_claim_adapter(
                    self@.claims.take(i as int),
                    format.0@,
                )->0 as int].required_source_access,
                found ==> last_claim_adapter(self@.claims.take(i as int), format.0@) is Some,
                encryption == any_encryption(self@.descriptors, self@.claims.take(i as int), format.0@),
            decreases self@.claims.len() - i,
        {
            let c = self.registrations[i];
            let ghost pre = self@.claims.take(i as int);
            let ghost post = self@.claims.take(i as int + 1);
            assert(post.drop_last() =~= pre);
            assert(post.last() == c);
            if c.format.same_as(format) {
                found = true;
                ops.push(c.operation);
                let desc = self.descriptors[c.adapter];
                source_access = desc.required_source_access;
                if desc.supports_encryption {
                    encryption = true;
                }
                proof {
                    if desc.supports_encryption {
                        assert(post[i as int] == c);
                    }
                    lemma_any_encryption_step(self@.descriptors, self@.claims, format.0@, i as int);
                }
            } else {
                proof {
                    lemma_any_encryption_step(self@.descriptors, self@.claims, format.0@, i as int);
                }
            }
            i += 1;
        }
        assert(self@.claims.take(i as int) =~= self@.claims);
        if found {
            Some(HandleCapabilities { format, source_access, operations: ops, encryption_supported: encryption })
        } else {
            None
        }
    }

    /// The number of registered adapters.
    pub fn adapter_count(&self) -> (r: usize)
        ensures
            r == self@.descriptors.len(),
    {
        self.descriptors.len()
    }

    /// The number of `(format, operation)` claims.
    pub fn claim_count(&self) -> (r: usize)
        ensures
            r == self@.claims.len(),
    {
        self.registrations.len()
    }

    /// The format of the claim at `index`.
    pub fn claim_format(&self, index: usize) -> (r: FormatId)
        requires
            index < self@.claims.len(),
        ensures
            r == self@.claims[index as int].format,
    {
        self.registrations[index].format
    }

    /// A copy of the registry.
    pub fn duplicate(&self) -> (r: AdapterRegistry)
        ensures
            r@ == self@,
    {
        let mut descriptors: Vec<AdapterDescriptor> = Vec::new();
        let mut i: usize = 0;
        while i < self.descriptors.len()
            invariant
                i <= self@.descriptors.len(),
                descriptors@ == self@.descriptors.take(i as int),
            decreases self@.descriptors.len() - i,
        {
            descriptors.push(self.descriptors[i]);
            i += 1;
            assert(descriptors@ =~= self@.descriptors.take(i as int));
        }
        let mut registrations: Vec<Registration> = Vec::new();
        let mut j: usize = 0;
        while j < self.registrations.len()
            invariant
                j <= self@.claims.len(),
                registrations@ == self@.claims.take(j as int),
            decreases self@.claims.len() - j,
        {
            registrations.push(self.registrations[j]);
            j += 1;
            assert(registrations@ =~= self@.claims.take(j as int));
        }
        assert(descriptors@ =~= self@.descriptors);
        assert(registrations@ =~= self@.claims);
        AdapterRegistry { descriptors, registrations }
    }

    /// The descriptor of the adapter at `index`.
    pub fn descriptor(&self, index: usize) -> (r: AdapterDescriptor)
        requires
            index < self@.descriptors.len(),
        ensures
            r == self@.descriptors[index as int],
    {
        self.descriptors[index]
    }
}

proof fn lemma_find_claim_take(claims: Seq<Registration>, format: Seq<char>, op: ArchiveOperation, i: int)
    requires
        0 <= i < claims.len(),
        find_claim(claims.take(i), format, op) is None,
    ensures
        find_claim(claims.take(i + 1), format, op) == (if claims[i].format.0@ == format && claims[i].operation == op {
            Some(i)
        } else {
            None
        }),
{
    assert(claims.take(i + 1).drop_last() =~= claims.take(i));
}

proof fn lemma_find_claim_prefix(claims: Seq<Registration>, format: Seq<char>, op: ArchiveOperation, k: int)
    requires
        0 <= k <= claims.len(),
        find_claim(claims.take(k), format, op) is Some,
    ensures
        find_claim(claims, format, op) == find_claim(claims.take(k), format, op),
    decreases claims.len() - k,
{
    if k < claims.len() {
        assert(claims.take(k + 1).drop_last() =~= claims.take(k));
        lemma_find_claim_prefix(claims, format, op, k + 1);
    } else {
        assert(claims.take(k) =~= claims);
    }
}

proof fn lemma_any_encryption_step(descriptors: Seq<AdapterDescriptor>, claims: Seq<Registration>, format: Seq<char>, i: int)
    requires
        0 <= i < claims.len(),
    ensures
        any_encryption(descriptors, claims.take(i + 1), format) == (any_encryption(descriptors, claims.take(i), format) || (
        claims[i].format.0@ == format && descriptors[claims[i].adapter as int].supports_encryption)),
{
    let pre = claims.take(i);
    let post = claims.take(i + 1);
    if any_encryption(descriptors, pre, format) {
        let j = choose|j: int|
            0 <= j < pre.len() && (#[trigger] pre[j]).format.0@ == format && descriptors[pre[j].adapter as int].supports_encryption;
        assert(post[j] == pre[j]);
    }
    if claims[i].format.0@ == format && descriptors[claims[i].adapter as int].supports_encryption {
        assert(post[i] == claims[i]);
    }
    if any_encryption(descriptors, post, format) {
        let j = choose|j: int|
            0 <= j < post.len() && (#[trigger] post[j]).format.0@ == format && descriptors[post[j].adapter as int].supports_encryption;
        if j < i {
            assert(pre[j] == post[j]);
        }
    }
}

/// Debug name of an operation.
pub open spec fn operation_name(op: ArchiveOperation) -> Seq<char> {
    match op {
        ArchiveOperation::List => "List"@,
        ArchiveOperation::Test => "Test"@,
        ArchiveOperation::Extract => "Extract"@,
        ArchiveOperation::SelectedExtract => "SelectedExtract"@,
        ArchiveOperation::CopyToWriter => "CopyToWriter"@,
        ArchiveOperation::Create => "Create"@,
    }
}

fn operation_name_str(op: ArchiveOperation) -> (r: &'static str)
    ensures
        r@ == operation_name(op),
{
    match op {
        ArchiveOperation::List => "List",
        ArchiveOperation::Test => "Test",
        ArchiveOperation::Extract => "Extract",
        ArchiveOperation::SelectedExtract => "SelectedExtract",
        ArchiveOperation::CopyToWriter => "CopyToWriter",
        ArchiveOperation::Create => "Create",
    }
}

/// The message of an ambiguous registration.
pub open spec fn ambiguous_message(op: ArchiveOperation, format: Seq<char>) -> Seq<char> {
    "Ambiguous registration: operation '"@ + operation_name(op) + "' for format '"@ + format + "' is already claimed"@
}

fn ambiguous_error(op: ArchiveOperation, format: FormatId) -> (r: ArchiveError)
    ensures
        r.kind == ErrorKind::InvalidFormat,
        r.message@ == ambiguous_message(op, format.0@),
        r.disposition == crate::engine::types::SessionDisposition::Usable,
        r.path is None,
{
    let a = chars_of("Ambiguous registration: operation '");
    let b = chars_of(operation_name_str(op));
    let c = chars_of("' for format '");
    let d = chars_of(format.0);
    let e = chars_of("' is already claimed");
    let ab = concat_chars(&a, &b);
    let abc = concat_chars(&ab, &c);
    let abcd = concat_chars(&abc, &d);
    let all = concat_chars(&abcd, &e);
    ArchiveError::usable(ErrorKind::InvalidFormat, string_from_chars(&all))
}

/// The claims after registering `desc` as adapter `index`, up to its
/// `k`-th operation, and the first operation that was already claimed.
pub open spec fn register_ops(claims: Seq<Registration>, desc: AdapterDescriptor, index: usize, k: int) -> (Seq<Registration>, Option<ArchiveOperation>)
    decreases k,
{
    if k <= 0 {
        (claims, None)
    } else {
        let (prev, failed) = register_ops(claims, desc, index, k - 1);
        if failed is Some {
            (prev, failed)
        } else {
            let op = desc.operations@[k - 1];
            if find_claim(prev, desc.format.0@, op) is Some {
                (prev, Some(op))
            } else {
                (prev.push(Registration { format: desc.format, operation: op, adapter: index }), None)
            }
        }
    }
}

/// Builder for constructing an immutable [`AdapterRegistry`].
#[derive(Debug)]
pub struct ArchiveEngineBuilder {
    descriptors: Vec<AdapterDescriptor>,
    registrations: Vec<Registration>,
}

impl View for ArchiveEngineBuilder {
    type V = RegistryView;

    closed spec fn view(&self) -> RegistryView {
        RegistryView { descriptors: self.descriptors@, claims: self.registrations@ }
    }
}

impl ArchiveEngineBuilder {
    pub open spec fn wf(&self) -> bool {
        claims_wf(self@.descriptors, self@.claims)
    }

    /// Creates a new empty builder.
    pub fn new() -> (r: Self)
        ensures
            r.wf(),
            r@.descriptors.len() == 0,
            r@.claims.len() == 0,
    {
        ArchiveEngineBuilder { descriptors: Vec::new(), registrations: Vec::new() }
    }

    /// Registers an adapter, described by `descriptor`, for all operations
    /// the descriptor declares; the adapter's index is the number of
    /// adapters registered before it.
    ///
    /// Fails with an ambiguous-registration error at the first declared
    /// operation already claimed for the format; the claims made for the
    /// operations before it stay registered.
    pub fn register_read_adapter(&mut self, descriptor: AdapterDescriptor) -> (r: Result<(), ArchiveError>)
        requires
            old(self).wf(),
        ensures
            final(self).wf(),
            final(self)@.descriptors == old(self)@.descriptors.push(descriptor),
            ({
                let (claims, failed) = register_ops(
                    old(self)@.claims,
                    descriptor,
                    old(self)@.descriptors.len() as usize,
                    descriptor.operations@.len() as int,
                );
                &&& final(self)@.claims == claims
                &&& match failed {
                    None => r is Ok,
                    Some(op) => r matches Err(e) && e.kind == ErrorKind::InvalidFormat && e.disposition
                        == SessionDisposition::Usable && e.message@ == ambiguous_message(
                        op,
                        descriptor.format.0@,
                    ),
                }
            }),
    {
        let index = self.descriptors.len();
        self.descriptors.push(descriptor);
        let ops = descriptor.operations;
        let mut k: usize = 0;
        proof {
            assert forall|i: int| 0 <= i < self@.claims.len() implies {
                let c = #[trigger] self@.claims[i];
                &&& c.adapter < self@.descriptors.len()
                &&& c.format.0@ == self@.descriptors[c.adapter as int].format.0@
                &&& self@.descriptors[c.adapter as int].operations@.contains(c.operation)
            } by {
                assert(self@.descriptors[self@.claims[i].adapter as int] == old(self)@.descriptors[self@.claims[i].adapter as int]);
            }
        }
        while k < ops.len()
            invariant
                self.wf(),
                index == old(self)@.descriptors.len(),
                self@.descriptors == old(self)@.descriptors.push(descriptor),
                ops == descriptor.operations,
                k <= ops@.len(),
                register_ops(old(self)@.claims, descriptor, index, k as int) == (self@.claims, None::<ArchiveOperation>),
            decreases ops@.len() - k,
        {
            let op = ops[k];
            let found = self.claimed(descriptor.format, op);
            if found {
                proof {
                    lemma_register_ops_failure_stays(
                        old(self)@.claims,
                        descriptor,
                        index,
                        k as int + 1,
                        descriptor.operations@.len() as int,
                    );
                }
                return Err(ambiguous_error(op, descriptor.format));
            }
            let ghost before = self@.claims;
            self.registrations.push(Registration { format: descriptor.format, operation: op, adapter: index });
            proof {
                let claims = self@.claims;
                assert forall|i: int, j: int| 0 <= i < j < claims.len() implies !(#[trigger] claims[i].format.0@
                    == #[trigger] claims[j].format.0@ && claims[i].operation == claims[j].operation) by {
                    if j == claims.len() - 1 {
                        assert(claims[i] == before[i]);
                        lemma_find_claim_none(before, descriptor.format.0@, op, i);
                    } else {
                        assert(claims[i] == before[i] && claims[j] == before[j]);
                    }
                }
                assert forall|i: int| 0 <= i < claims.len() implies {
                    let c = #[trigger] claims[i];
                    &&& c.adapter < self@.descriptors.len()
                    &&& c.format.0@ == self@.descriptors[c.adapter as int].format.0@
                    &&& self@.descriptors[c.adapter as int].operations@.contains(c.operation)
                } by {
                    if i == claims.len() - 1 {
                        assert(ops@[k as int] == op);
                    } else {
                        assert(claims[i] == before[i]);
                    }
                }
            }
            k += 1;
        }
        Ok(())
    }

    fn claimed(&self, format: FormatId, op: ArchiveOperation) -> (r: bool)
        ensures
            r == find_claim(self@.claims, format.0@, op) is Some,
    {
        let mut i: usize = 0;
        while i < self.registrations.len()
            invariant
                i <= self@.claims.len(),
                find_claim(self@.claims.take(i as int), format.0@, op) is None,
            decreases self@.claims.len() - i,
        {
            let c = self.registrations[i];
            proof {
                lemma_find_claim_take(self@.claims, format.0@, op, i as int);
            }
            if c.format.same_as(format) && c.operation == op {
                proof {
                    lemma_find_claim_prefix(self@.claims, format.0@, op, i as int + 1);
                }
                return true;
            }
            i += 1;
        }
        assert(self@.claims.take(i as int) =~= self@.claims);
        false
    }

    /// Builds the immutable registry.
    pub fn build(self) -> (r: AdapterRegistry)
        requires
            self.wf(),
        ensures
            r.wf(),
            r@ == self@,
    {
        AdapterRegistry { descriptors: self.descriptors, registrations: self.registrations }
    }

    /// The number of registered adapters.
    pub fn adapter_count(&self) -> (r: usize)
        ensures
            r == self@.descriptors.len(),
    {
        self.descriptors.len()
    }
}

proof fn lemma_find_claim_none(claims: Seq<Registration>, format: Seq<char>, op: ArchiveOperation, i: int)
    requires
        find_claim(claims, format, op) is None,
        0 <= i < claims.len(),
    ensures
        !(claims[i].format.0@ == format && claims[i].operation == op),
    decreases claims.len(),
{
    if i < claims.len() - 1 {
        assert(claims.drop_last()[i] == claims[i]);
        lemma_find_claim_none(claims.drop_last(), format, op, i);
    }
}

/// A registration succeeds exactly when none of the descriptor's operations
/// is already claimed for its format (and it declares no operation twice);
/// then each operation resolves to the new adapter.
pub proof fn lemma_registered_operations_resolve(claims: Seq<Registration>, desc: AdapterDescriptor, index: usize, k: int, j: int)
    requires
        0 <= j < k <= desc.operations@.len(),
        register_ops(claims, desc, index, k).1 is None,
    ensures
        find_claim(register_ops(claims, desc, index, k).0, desc.format.0@, desc.operations@[j]) matches Some(p)
            && register_ops(claims, desc, index, k).0[p].adapter == index,
    decreases k,
{
    let (prev, failed) = register_ops(claims, desc, index, k - 1);
    assert(failed is None);
    let op = desc.operations@[k - 1];
    assert(find_claim(prev, desc.format.0@, op) is None);
    let next = prev.push(Registration { format: desc.format, operation: op, adapter: index });
    assert(register_ops(claims, desc, index, k).0 == next);
    assert(next.drop_last() =~= prev);
    if j < k - 1 {
        lemma_registered_operations_resolve(claims, desc, index, k - 1, j);
        let p = find_claim(prev, desc.format.0@, desc.operations@[j])->0;
        lemma_find_claim_bound(prev, desc.format.0@, desc.operations@[j]);
        assert(find_claim(next, desc.format.0@, desc.operations@[j]) == Some(p));
        assert(next[p] == prev[p]);
    } else {
        assert(find_claim(next, desc.format.0@, op) == Some(next.len() - 1));
    }
}

/// A claim found for `(format, op)` is in range and matches.
pub(crate) proof fn lemma_find_claim_bound(claims: Seq<Registration>, format: Seq<char>, op: ArchiveOperation)
    ensures
        find_claim(claims, format, op) matches Some(p) ==> 0 <= p < claims.len() && claims[p].format.0@ == format
            && claims[p].operation == op,
    decreases claims.len(),
{
    if claims.len() > 0 {
        lemma_find_claim_bound(claims.drop_last(), format, op);
    }
}

proof fn lemma_register_ops_failure_stays(claims: Seq<Registration>, desc: AdapterDescriptor, index: usize, k: int, m: int)
    requires
        0 <= k <= m,
        register_ops(claims, desc, index, k).1 is Some,
    ensures
        register_ops(claims, desc, index, m) == register_ops(claims, desc, index, k),
    decreases m - k,
{
    if m > k {
        lemma_register_ops_failure_stays(claims, desc, index, k, m - 1);
    }
}

/// Capabilities agree with resolution: an operation is among the claimed
/// operations of a format exactly when the registry resolves an adapter for
/// that format and operation.
pub proof fn lemma_capabilities_match_resolution(claims: Seq<Registration>, format: Seq<char>, op: ArchiveOperation)
    ensures
        claimed_ops(claims, format).contains(op) <==> find_claim(claims, format, op) is Some,
    decreases claims.len(),
{
    if claims.len() > 0 {
        let rest = claims.drop_last();
        lemma_capabilities_match_resolution(rest, format, op);
        let last = claims.last();
        let before = claimed_ops(rest, format);
        if last.format.0@ == format {
            let after = before.push(last.operation);
            if after.contains(op) && !before.contains(op) {
                let k = choose|k: int| 0 <= k < after.len() && after[k] == op;
                assert(k == after.len() - 1);
            }
            if before.contains(op) {
                let k = choose|k: int| 0 <= k < before.len() && before[k] == op;
                assert(after[k] == op);
            }
            if last.operation == op {
                assert(after[after.len() - 1] == op);
            }
        }
    }
}

/// The adapter that resolves `(format, op)` supports encryption.
pub open spec fn resolves_with_encryption(
    descriptors: Seq<AdapterDescriptor>,
    claims: Seq<Registration>,
    format: Seq<char>,
    op: ArchiveOperation,
) -> bool {
    find_claim(claims, format, op) matches Some(p) && descriptors[claims[p].adapter as int].supports_encryption
}

/// A claim for `(format, op)` anywhere in `claims` is found.
proof fn lemma_find_claim_complete(claims: Seq<Registration>, format: Seq<char>, op: ArchiveOperation, i: int)
    requires
        0 <= i < claims.len(),
        claims[i].format.0@ == format,
        claims[i].operation == op,
    ensures
        find_claim(claims, format, op) is Some,
    decreases claims.len(),
{
    if i < claims.len() - 1 {
        assert(claims.drop_last()[i] == claims[i]);
        lemma_find_claim_complete(claims.drop_last(), format, op, i);
    }
}

/// Capabilities list no operation twice, and a format's encryption flag is
/// set exactly when the adapter that resolves one of its operations
/// supports encryption.
pub proof fn lemma_capabilities_are_distinct_and_encryption_matches(
    descriptors: Seq<AdapterDescriptor>,
    claims: Seq<Registration>,
    format: Seq<char>,
)
    requires
        claims_wf(descriptors, claims),
    ensures
        claimed_ops(claims, format).no_duplicates(),
        any_encryption(descriptors, claims, format) <==> exists|op: ArchiveOperation|
            #[trigger] resolves_with_encryption(descriptors, claims, format, op),
    decreases claims.len(),
{
    if claims.len() > 0 {
        let rest = claims.drop_last();
        assert forall|i: int, j: int|
            0 <= i < j < rest.len() implies !(#[trigger] rest[i].format.0@ == #[trigger] rest[j].format.0@
                && rest[i].operation == rest[j].operation) by {
            assert(rest[i] == claims[i] && rest[j] == claims[j]);
        }
        assert forall|i: int| 0 <= i < rest.len() implies {
            let c = #[trigger] rest[i];
            &&& c.adapter < descriptors.len()
            &&& c.format.0@ == descriptors[c.adapter as int].format.0@
            &&& descriptors[c.adapter as int].operations@.contains(c.operation)
        } by {
            assert(rest[i] == claims[i]);
        }
        lemma_capabilities_are_distinct_and_encryption_matches(descriptors, rest, format);
        let last = claims.last();
        let before = claimed_ops(rest, format);
        if last.format.0@ == format {
            lemma_capabilities_match_resolution(rest, format, last.operation);
            if before.contains(last.operation) {
                lemma_find_claim_bound(rest, format, last.operation);
                let p = find_claim(rest, format, last.operation)->0;
                assert(rest[p] == claims[p]);
                assert(claims[claims.len() - 1] == last);
                assert(false);
            }
            let after = before.push(last.operation);
            assert forall|a: int, b: int| 0 <= a < after.len() && 0 <= b < after.len() && a != b implies after[a]
                != after[b] by {
                if a == after.len() - 1 {
                    assert(before[b] == after[b]);
                } else if b == after.len() - 1 {
                    assert(before[a] == after[a]);
                } else {
                    assert(before[a] == after[a] && before[b] == after[b]);
                }
            }
        }
    }
    if any_encryption(descriptors, claims, format) {
        let i = choose|i: int|
            0 <= i < claims.len() && (#[trigger] claims[i]).format.0@ == format
                && descriptors[claims[i].adapter as int].supports_encryption;
        let op = claims[i].operation;
        lemma_find_claim_complete(claims, format, op, i);
        lemma_find_claim_bound(claims, format, op);
        let p = find_claim(claims, format, op)->0;
        if p != i {
            if p < i {
                assert(!(claims[p].format.0@ == claims[i].format.0@ && claims[p].operation == claims[i].operation));
            } else {
                assert(!(claims[i].format.0@ == claims[p].format.0@ && claims[i].operation == claims[p].operation));
            }
        }
        assert(resolves_with_encryption(descriptors, claims, format, op));
    }
    if exists|op: ArchiveOperation| #[trigger] resolves_with_encryption(descriptors, claims, format, op) {
        let op = choose|op: ArchiveOperation| #[trigger] resolves_with_encryption(descriptors, claims, format, op);
        lemma_find_claim_bound(claims, format, op);
        let p = find_claim(claims, format, op)->0;
        assert(0 <= p < claims.len() && claims[p].format.0@ == format && descriptors[claims[p].adapter as int].supports_encryption);
    }
}

/// Resolution is stable: registering more adapters never changes the claim
/// an earlier registration made.
pub proof fn lemma_resolution_is_stable(
    claims: Seq<Registration>,
    desc: AdapterDescriptor,
    index: usize,
    k: int,
    format: Seq<char>,
    op: ArchiveOperation,
)
    requires
        0 <= k <= desc.operations@.len(),
        find_claim(claims, format, op) is Some,
    ensures
        find_claim(register_ops(claims, desc, index, k).0, format, op) == find_claim(claims, format, op),
    decreases k,
{
    if k > 0 {
        lemma_resolution_is_stable(claims, desc, index, k - 1, format, op);
        let (prev, failed) = register_ops(claims, desc, index, k - 1);
        if failed is None {
            let o = desc.operations@[k - 1];
            if find_claim(prev, desc.format.0@, o) is None {
                let next = prev.push(Registration { format: desc.format, operation: o, adapter: index });
                assert(next.drop_last() =~= prev);
            }
        }
    }
}

} // verus!
