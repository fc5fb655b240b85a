//! What holds of the coordination core over whole histories of operations.
//!
//! A history is a sequence of operations applied one after another. Callers
//! that run in parallel reach the state through one lock, so whatever they do
//! happens in some such order.

use vstd::prelude::*;
use crate::agents::AIAgent;
use crate::bootstrap::{construct, ConfigModel};
use crate::catalog::{DescriptorModel, MCPService, ServiceModel, Timestamp};
use crate::discovery::{
    discovery_report, entry_for, is_reachable, pass_entries, DiscoveryError,
};
use crate::probe::{answered, lemma_outcome_order_irrelevant, one_outcome_each, OutcomeModel};
use crate::projects::Project;
use crate::registry::{
    as_map, lemma_put, lemma_put_all_ascending, lemma_put_all_members, lemma_put_overwrites,
    lemma_take_out_ascending, put_all,
};
use crate::sorting::{
    keys_nondescending, keys_of, lemma_filter_by_answers_alone, lemma_sorted_by_keys_alone,
    lemma_sorted_in_order, lemma_sorted_permutes,
};
use crate::state::{discover_outcome, initialize_outcome, run, step, Operation, StateModel};

verus! {

/// Whether `op`, applied in state `s`, builds a core and an engine and
/// publishes them.
pub open spec fn publishes(s: StateModel, op: Operation) -> bool {
    match op {
        Operation::Initialize(config) => s.handle is None && construct(config) is Ok,
        _ => false,
    }
}

/// How many operations of a history publish a handle.
pub open spec fn publications(s: StateModel, ops: Seq<Operation>) -> nat
    decreases ops.len(),
{
    if ops.len() == 0 {
        0
    } else {
        let before = publications(s, ops.drop_last());
        if publishes(run(s, ops.drop_last()), ops.last()) {
            before + 1
        } else {
            before
        }
    }
}

/// `n` times the same operation.
pub open spec fn repeated(op: Operation, n: nat) -> Seq<Operation> {
    Seq::new(n, |i: int| op)
}

/// Every operation keeps the registries in order, one entry per key.
pub proof fn lemma_step_well_formed(s: StateModel, op: Operation)
    requires
        s.well_formed(),
    ensures
        step(s, op).well_formed(),
{
    match op {
        Operation::Initialize(_) => {},
        Operation::Discover(outcomes, now) => {
            if s.handle is Some {
                lemma_put_all_ascending::<MCPService>(
                    s.services,
                    pass_entries(s.handle->0.engine.providers, outcomes, now),
                );
            }
        },
        Operation::UpsertCatalog(entry) => {
            lemma_put::<MCPService>(s.services, entry);
        },
        Operation::UpsertAgent(agent) => {
            lemma_put::<AIAgent>(s.agents, agent);
        },
        Operation::RemoveAgent(id) => {
            lemma_take_out_ascending::<AIAgent>(s.agents, id);
        },
        Operation::RegisterProject(project) => {
            lemma_put::<Project>(s.projects, project);
        },
    }
}

/// Every history keeps the registries in order, one entry per key.
pub proof fn lemma_run_well_formed(s: StateModel, ops: Seq<Operation>)
    requires
        s.well_formed(),
    ensures
        run(s, ops).well_formed(),
    decreases ops.len(),
{
    if ops.len() > 0 {
        lemma_run_well_formed(s, ops.drop_last());
        lemma_step_well_formed(run(s, ops.drop_last()), ops.last());
    }
}

/// A published handle stays, the same, whatever happens afterwards.
pub proof fn lemma_handle_stable(s: StateModel, ops: Seq<Operation>)
    requires
        s.handle is Some,
    ensures
        run(s, ops).handle == s.handle,
    decreases ops.len(),
{
    if ops.len() > 0 {
        lemma_handle_stable(s, ops.drop_last());
    }
}

/// Over any history a handle is published at most once: never where one
/// stood at the start, and otherwise exactly once if one stands at the end.
pub proof fn lemma_published_at_most_once(s: StateModel, ops: Seq<Operation>)
    ensures
        s.handle is Some ==> publications(s, ops) == 0,
        s.handle is None ==> publications(s, ops) == if run(s, ops).handle is Some {
            1nat
        } else {
            0nat
        },
    decreases ops.len(),
{
    if ops.len() > 0 {
        lemma_published_at_most_once(s, ops.drop_last());
        if s.handle is Some {
            lemma_handle_stable(s, ops.drop_last());
        }
    }
}

/// Initializing any number of times in a row does what initializing once
/// does, and every one of the calls is answered as the first is.
pub proof fn lemma_initialize_idempotent(s: StateModel, config: ConfigModel, n: nat)
    ensures
        n >= 1 ==> run(s, repeated(Operation::Initialize(config), n)) == step(
            s,
            Operation::Initialize(config),
        ),
        initialize_outcome(run(s, repeated(Operation::Initialize(config), n)), config)
            == initialize_outcome(s, config),
    decreases n,
{
    let op = Operation::Initialize(config);
    if n > 0 {
        let shorter = repeated(op, (n - 1) as nat);
        assert(repeated(op, n).drop_last() =~= shorter);
        assert(repeated(op, n).last() == op);
        lemma_initialize_idempotent(s, config, (n - 1) as nat);
    } else {
        assert(repeated(op, 0).len() == 0);
    }
}

/// Before any initialization has succeeded, discovery fails for want of a
/// handle.
pub proof fn lemma_discover_before_initialize(
    ops: Seq<Operation>,
    outcomes: Seq<OutcomeModel>,
    now: Timestamp,
)
    requires
        forall|i: int|
            0 <= i < ops.len() ==> match #[trigger] ops[i] {
                Operation::Initialize(config) => construct(config) is Err,
                _ => true,
            },
    ensures
        run(StateModel::initial(), ops).handle is None,
        discover_outcome(run(StateModel::initial(), ops), outcomes, now) == Err::<
            Seq<ServiceModel>,
            DiscoveryError,
        >(DiscoveryError::NotInitialized),
    decreases ops.len(),
{
    if ops.len() > 0 {
        let earlier = ops.drop_last();
        assert forall|i: int| 0 <= i < earlier.len() implies match #[trigger] earlier[i] {
            Operation::Initialize(config) => construct(config) is Err,
            _ => true,
        } by {
            assert(earlier[i] == ops[i]);
        }
        lemma_discover_before_initialize(earlier, outcomes, now);
        assert(ops.last() == ops[ops.len() - 1]);
    }
}

/// Once an initialization has succeeded, discovery never again fails for
/// want of a handle, whatever happened in between.
pub proof fn lemma_discover_after_initialize(
    s: StateModel,
    config: ConfigModel,
    ops: Seq<Operation>,
    outcomes: Seq<OutcomeModel>,
    now: Timestamp,
)
    requires
        initialize_outcome(s, config) is Ok,
    ensures
        discover_outcome(
            run(step(s, Operation::Initialize(config)), ops),
            outcomes,
            now,
        ) is Ok,
{
    lemma_handle_stable(step(s, Operation::Initialize(config)), ops);
}

/// Filing two catalog entries under one id leaves the second, whole: its
/// capabilities and nothing of the first's.
pub proof fn lemma_upsert_replaces(s: StateModel, first: ServiceModel, second: ServiceModel)
    requires
        s.well_formed(),
        first.id == second.id,
    ensures
        step(step(s, Operation::UpsertCatalog(first)), Operation::UpsertCatalog(second)) == step(
            s,
            Operation::UpsertCatalog(second),
        ),
        as_map::<MCPService>(
            step(
                step(s, Operation::UpsertCatalog(first)),
                Operation::UpsertCatalog(second),
            ).services,
        )[second.id] == second,
{
    lemma_put_overwrites::<MCPService>(s.services, first, second);
}

/// A discovery pass is a run of upserts: it leaves the catalog as filing
/// its entries one by one does.
pub proof fn lemma_pass_is_upserts(
    s: StateModel,
    outcomes: Seq<OutcomeModel>,
    now: Timestamp,
)
    requires
        s.handle is Some,
    ensures
        step(s, Operation::Discover(outcomes, now)) == run(
            s,
            pass_entries(s.handle->0.engine.providers, outcomes, now).map_values(
                |e: ServiceModel| Operation::UpsertCatalog(e),
            ),
        ),
{
    let pass = pass_entries(s.handle->0.engine.providers, outcomes, now);
    lemma_upserts_file_all(s, pass);
}

/// Filing a batch entry by entry is filing the batch.
pub proof fn lemma_upserts_file_all(s: StateModel, batch: Seq<ServiceModel>)
    ensures
        run(s, batch.map_values(|e: ServiceModel| Operation::UpsertCatalog(e))) == (StateModel {
            services: put_all::<MCPService>(s.services, batch),
            ..s
        }),
    decreases batch.len(),
{
    let wrap = |e: ServiceModel| Operation::UpsertCatalog(e);
    if batch.len() > 0 {
        lemma_upserts_file_all(s, batch.drop_last());
        assert(batch.map_values(wrap).drop_last() =~= batch.drop_last().map_values(wrap));
        assert(batch.map_values(wrap).last() == wrap(batch.last()));
    } else {
        assert(batch.map_values(wrap).len() == 0);
    }
}

/// At every point of a discovery pass, each entry of the catalog is whole:
/// it is an entry as it stood before the pass, or an entry as the pass
/// makes it, never a mixture of the two.
pub proof fn lemma_pass_never_tears(
    s: StateModel,
    outcomes: Seq<OutcomeModel>,
    now: Timestamp,
    done: int,
    i: int,
)
    requires
        s.handle is Some,
        0 <= done <= pass_entries(s.handle->0.engine.providers, outcomes, now).len(),
        0 <= i < put_all::<MCPService>(
            s.services,
            pass_entries(s.handle->0.engine.providers, outcomes, now).take(done),
        ).len(),
    ensures
        ({
            let pass = pass_entries(s.handle->0.engine.providers, outcomes, now);
            let seen = put_all::<MCPService>(s.services, pass.take(done))[i];
            s.services.contains(seen) || pass.contains(seen)
        }),
{
    let pass = pass_entries(s.handle->0.engine.providers, outcomes, now);
    let seen = put_all::<MCPService>(s.services, pass.take(done))[i];
    lemma_put_all_members::<MCPService>(s.services, pass.take(done), i);
    if pass.take(done).contains(seen) {
        let k = choose|k: int| 0 <= k < pass.take(done).len() && pass.take(done)[k] == seen;
        assert(pass[k] == seen);
    }
}

/// Where each provider has one outcome at most, a pass does the same and
/// reports the same in whatever order the outcomes came in.
pub proof fn lemma_pass_ignores_arrival_order(
    s: StateModel,
    first: Seq<OutcomeModel>,
    second: Seq<OutcomeModel>,
    now: Timestamp,
)
    requires
        one_outcome_each(first),
        one_outcome_each(second),
        forall|x: OutcomeModel| first.contains(x) <==> second.contains(x),
    ensures
        step(s, Operation::Discover(first, now)) == step(s, Operation::Discover(second, now)),
        discover_outcome(s, first, now) == discover_outcome(s, second, now),
{
    if s.handle is Some {
        let providers = s.handle->0.engine.providers;
        assert forall|i: int| 0 <= i < providers.len() implies entry_for(
            #[trigger] providers[i],
            first,
            now,
        ) == entry_for(providers[i], second, now) by {
            lemma_outcome_order_irrelevant(first, second, providers[i].id);
        }
        assert(pass_entries(providers, first, now) =~= pass_entries(providers, second, now));
    }
}

/// A report lists exactly the entries of the providers that answered, by
/// ascending id.
pub proof fn lemma_report_contents(
    providers: Seq<DescriptorModel>,
    outcomes: Seq<OutcomeModel>,
    now: Timestamp,
)
    ensures
        keys_nondescending::<MCPService>(discovery_report(providers, outcomes, now)),
        discovery_report(providers, outcomes, now).to_multiset() == pass_entries(
            providers,
            outcomes,
            now,
        ).filter(is_reachable()).to_multiset(),
{
    let kept = pass_entries(providers, outcomes, now).filter(is_reachable());
    lemma_sorted_in_order::<MCPService>(kept);
    lemma_sorted_permutes::<MCPService>(kept);
}

/// The order of a report depends only on which providers are configured and
/// which of them answered: two passes over the same providers, with the same
/// ones answering, report the same ids in the same order.
pub proof fn lemma_report_order_deterministic(
    providers: Seq<DescriptorModel>,
    first: Seq<OutcomeModel>,
    first_time: Timestamp,
    second: Seq<OutcomeModel>,
    second_time: Timestamp,
)
    requires
        forall|i: int|
            0 <= i < providers.len() ==> (answered(first, (#[trigger] providers[i]).id) is Some
                <==> answered(second, providers[i].id) is Some),
    ensures
        keys_of::<MCPService>(discovery_report(providers, first, first_time)) == keys_of::<
            MCPService,
        >(discovery_report(providers, second, second_time)),
{
    let a = pass_entries(providers, first, first_time);
    let b = pass_entries(providers, second, second_time);
    assert(keys_of::<MCPService>(a) =~= keys_of::<MCPService>(b));
    let wanted = is_reachable();
    assert forall|i: int| 0 <= i < a.len() implies wanted(#[trigger] a[i]) == wanted(b[i]) by {
        let id = providers[i].id;
        assert(answered(first, id) is Some <==> answered(second, id) is Some);
    }
    lemma_filter_by_answers_alone::<MCPService>(a, b, is_reachable());
    lemma_sorted_by_keys_alone::<MCPService>(a.filter(is_reachable()), b.filter(is_reachable()));
}

} // verus!
