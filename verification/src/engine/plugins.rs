//! Compile-time archive plugin packaging.
use crate::engine::handle::ArchiveEngine;
use crate::engine::registry::{ArchiveEngineBuilder, RegistryView};
use crate::engine::types::ArchiveError;
use vstd::prelude::*;

verus! {

/// A compile-time archive plugin: a named set of adapters to register.
pub trait ArchivePlugin {
    /// Returns the display name of this plugin.
    fn name(&self) -> &'static str;

    /// How a registration by this plugin may take a builder holding
    /// `before` to one holding `after` with the outcome `r`. A plugin that
    /// states nothing of its registrations keeps this default, which admits
    /// every outcome.
    open spec fn registers(&self, before: RegistryView, after: RegistryView, r: Result<(), ArchiveError>) -> bool {
        true
    }

    /// Registers the plugin's adapters with an [`ArchiveEngineBuilder`].
    fn register(&self, builder: &mut ArchiveEngineBuilder) -> (r: Result<(), ArchiveError>)
        requires
            old(builder).wf(),
        ensures
            final(builder).wf(),
            self.registers(old(builder)@, final(builder)@, r),
    ;
}

/// Running the registrations of `plugins` in order on a builder holding
/// `before` can leave it holding `after` with the outcome `r`: each plugin
/// registers on what the one before it left, and the first failure ends
/// the run with that plugin's error.
pub open spec fn registers_in_order<P: ArchivePlugin>(
    plugins: Seq<P>,
    before: RegistryView,
    after: RegistryView,
    r: Result<(), ArchiveError>,
) -> bool
    decreases plugins.len(),
{
    if plugins.len() == 0 {
        after == before && r is Ok
    } else {
        exists|mid: RegistryView, r0: Result<(), ArchiveError>|
            #![trigger then_registers(plugins.last(), mid, after, r0, r)]
            registers_in_order(plugins.drop_last(), before, mid, r0) && then_registers(plugins.last(), mid, after, r0, r)
    }
}

/// After an earlier outcome `r0` left a builder holding `mid`, plugin `p`
/// takes it to `after` with outcome `r`: an earlier failure ends the run
/// unchanged; otherwise `p` registers.
pub open spec fn then_registers<P: ArchivePlugin>(
    p: P,
    mid: RegistryView,
    after: RegistryView,
    r0: Result<(), ArchiveError>,
    r: Result<(), ArchiveError>,
) -> bool {
    if r0 is Err {
        after == mid && r == r0
    } else {
        p.registers(mid, after, r)
    }
}

/// A run that failed stays failed when more plugins follow.
proof fn lemma_failure_stands<P: ArchivePlugin>(
    plugins: Seq<P>,
    k: int,
    before: RegistryView,
    after: RegistryView,
    e: ArchiveError,
)
    requires
        0 <= k <= plugins.len(),
        registers_in_order(plugins.take(k), before, after, Err(e)),
    ensures
        registers_in_order(plugins, before, after, Err(e)),
    decreases plugins.len() - k,
{
    if k < plugins.len() {
        let t = plugins.take(k + 1);
        let r0: Result<(), ArchiveError> = Err(e);
        assert(t.drop_last() =~= plugins.take(k));
        assert(then_registers(t.last(), after, after, r0, r0));
        lemma_failure_stands(plugins, k + 1, before, after, e);
    } else {
        assert(plugins.take(k) =~= plugins);
    }
}

/// Builds an engine holding what each plugin registers, in order, on one
/// builder that starts empty; the first failing registration fails the
/// build with its error.
pub fn build_engine_with_plugins<P: ArchivePlugin>(plugins: &[P]) -> (r: Result<ArchiveEngine, ArchiveError>)
    ensures
        ({
            let empty = RegistryView { descriptors: Seq::empty(), claims: Seq::empty() };
            match r {
                Ok(engine) => engine.wf() && registers_in_order(plugins@, empty, engine.view(), Ok(())),
                Err(e) => exists|v: RegistryView| #[trigger] registers_in_order(plugins@, empty, v, Err(e)),
            }
        }),
        plugins@.len() == 0 ==> (r matches Ok(engine) && engine.view().descriptors.len() == 0 && engine.view().claims.len() == 0),
{
    let mut builder = ArchiveEngineBuilder::new();
    let ghost empty = RegistryView { descriptors: Seq::empty(), claims: Seq::empty() };
    assert(builder@ == empty) by {
        assert(builder@.descriptors =~= empty.descriptors);
        assert(builder@.claims =~= empty.claims);
    }
    assert(plugins@.take(0) =~= Seq::<P>::empty());
    let mut i: usize = 0;
    while i < plugins.len()
        invariant
            builder.wf(),
            i <= plugins@.len(),
            empty == (RegistryView { descriptors: Seq::empty(), claims: Seq::empty() }),
            registers_in_order(plugins@.take(i as int), empty, builder@, Ok(())),
        decreases plugins@.len() - i,
    {
        let ghost mid = builder@;
        let result = plugins[i].register(&mut builder);
        proof {
            assert(plugins@.take(i as int + 1).drop_last() =~= plugins@.take(i as int));
            assert(plugins@.take(i as int + 1).last() == plugins@[i as int]);
            assert(then_registers(plugins@.take(i as int + 1).last(), mid, builder@, Ok::<(), ArchiveError>(()), result));
        }
        match result {
            Ok(u) => {
                assert(u == ());
                assert(result == Ok::<(), ArchiveError>(()));
                assert(then_registers(plugins@.take(i as int + 1).last(), mid, builder@, Ok::<(), ArchiveError>(()), Ok::<(), ArchiveError>(())));
                assert(registers_in_order(plugins@.take(i as int + 1), empty, builder@, Ok::<(), ArchiveError>(())));
            },
            Err(e) => {
                proof {
                    lemma_failure_stands(plugins@, i as int + 1, empty, builder@, e);
                }
                return Err(e);
            },
        }
        i += 1;
    }
    assert(plugins@.take(i as int) =~= plugins@);
    Ok(ArchiveEngine::new(builder.build()))
}

} // verus!
