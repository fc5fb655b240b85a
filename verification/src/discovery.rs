//! The discovery engine: which probes a discovery pass is made of, and what
//! the answers to them make of the catalog.
//!
//! Probing itself happens outside: the engine says what to probe, and takes
//! what came back.

use vstd::prelude::*;
use crate::automation::{core_buildable, PowerAutomationCore};
use crate::batching::{batch_models, batches, split_batches};
use crate::bootstrap::InitError;
use crate::catalog::{
    DescriptorModel, MCPService, ProviderDescriptor, ServiceModel, ServiceStatus, Timestamp,
};
use crate::probe::{
    answered, find_outcome, OutcomeModel, ProbeOutcome, ProbeRequest, ProbeResult, RequestModel,
};
use crate::record::{duplicate_all, models, Record};
use crate::registry::{
    as_map, has_key, index_of_key, keys_ascending, lemma_put, put_all, Registry,
};
use crate::sorting::{sort_by_key, sorted_by_key};

verus! {

/// Why a discovery pass did not run.
#[derive(Clone, Copy, Debug, PartialEq, Eq, Structural)]
pub enum DiscoveryError {
    /// No handle has been published yet.
    NotInitialized,
}

/// The mathematical value of an [`MCPCoordinator`].
pub struct EngineModel {
    pub core_address: Seq<char>,
    pub providers: Seq<DescriptorModel>,
    pub probe_timeout_ms: u64,
    pub max_in_flight: usize,
}

/// An engine can be built where every probe has time to run and room to run in.
pub open spec fn engine_buildable(probe_timeout_ms: u64, max_in_flight: usize) -> bool {
    probe_timeout_ms > 0 && max_in_flight > 0
}

/// The probe that asks after provider `d`.
pub open spec fn request_for(d: DescriptorModel, timeout_ms: u64) -> RequestModel {
    RequestModel {
        provider_id: d.id,
        address: d.address,
        declared_capabilities: d.declared_capabilities,
        timeout_ms,
    }
}

/// The probes of one pass: one for each provider, in configuration order.
pub open spec fn planned(engine: EngineModel) -> Seq<RequestModel> {
    Seq::new(
        engine.providers.len(),
        |i: int| request_for(engine.providers[i], engine.probe_timeout_ms),
    )
}

/// A capability list as a set: in ascending order, each capability once.
pub open spec fn canonical(list: Seq<Seq<char>>) -> Seq<Seq<char>> {
    put_all::<String>(Seq::empty(), list)
}

/// The catalog entry that a pass makes of provider `d`: reachable with the
/// capabilities it answered with, or unreachable with none.
pub open spec fn entry_for(
    d: DescriptorModel,
    outcomes: Seq<OutcomeModel>,
    now: Timestamp,
) -> ServiceModel {
    match answered(outcomes, d.id) {
        Some(list) => ServiceModel {
            id: d.id,
            name: d.name,
            url: d.address,
            status: ServiceStatus::Reachable,
            capabilities: canonical(list),
            last_probed: now,
        },
        None => ServiceModel {
            id: d.id,
            name: d.name,
            url: d.address,
            status: ServiceStatus::Unreachable,
            capabilities: Seq::empty(),
            last_probed: now,
        },
    }
}

/// The entries of one pass: one for each provider, in configuration order.
pub open spec fn pass_entries(
    providers: Seq<DescriptorModel>,
    outcomes: Seq<OutcomeModel>,
    now: Timestamp,
) -> Seq<ServiceModel> {
    Seq::new(providers.len(), |i: int| entry_for(providers[i], outcomes, now))
}

/// The test "is reachable".
pub open spec fn is_reachable() -> spec_fn(ServiceModel) -> bool {
    |e: ServiceModel| e.status == ServiceStatus::Reachable
}

/// What a pass reports: the entries of the providers that answered, by
/// ascending id; entries with the same id in configuration order.
pub open spec fn discovery_report(
    providers: Seq<DescriptorModel>,
    outcomes: Seq<OutcomeModel>,
    now: Timestamp,
) -> Seq<ServiceModel> {
    sorted_by_key::<MCPService>(pass_entries(providers, outcomes, now).filter(is_reachable()))
}

/// A canonical capability list is ascending, so each capability stands in
/// it once, and it holds exactly the capabilities of the list it was made of.
pub proof fn lemma_canonical_is_set(list: Seq<Seq<char>>)
    ensures
        keys_ascending::<String>(canonical(list)),
        forall|x: Seq<char>| canonical(list).contains(x) <==> list.contains(x),
    decreases list.len(),
{
    if list.len() > 0 {
        let front = canonical(list.drop_last());
        let last = list.last();
        lemma_canonical_is_set(list.drop_last());
        lemma_put::<String>(front, last);
        assert forall|x: Seq<char>| canonical(list).contains(x) <==> list.contains(x) by {
            let whole = canonical(list);
            if whole.contains(x) {
                let i = choose|i: int| 0 <= i < whole.len() && whole[i] == x;
                assert(has_key::<String>(whole, x));
                assert(as_map::<String>(front).insert(last, last).dom().contains(x));
                if x != last {
                    assert(has_key::<String>(front, x));
                    let j = index_of_key::<String>(front, x);
                    assert(front[j] == x);
                    assert(front.contains(x));
                    assert(list.drop_last().contains(x));
                    let k = choose|k: int|
                        0 <= k < list.drop_last().len() && list.drop_last()[k] == x;
                    assert(list[k] == x);
                } else {
                    assert(list[list.len() - 1] == x);
                }
            }
            if list.contains(x) {
                let k = choose|k: int| 0 <= k < list.len() && list[k] == x;
                if x != last {
                    assert(list.drop_last()[k] == x);
                    assert(list.drop_last().contains(x));
                    assert(front.contains(x));
                    let j = choose|j: int| 0 <= j < front.len() && front[j] == x;
                    assert(has_key::<String>(front, x));
                }
                assert(as_map::<String>(whole).dom().contains(x));
                let i = index_of_key::<String>(whole, x);
                assert(whole[i] == x);
            }
        }
    }
}

/// A capability list as a set: sorted, each capability once.
pub fn canonical_capabilities(list: &Vec<String>) -> (set: Vec<String>)
    ensures
        models(set@) == canonical(models(list@)),
{
    let ghost all = models(list@);
    let mut filed: Registry<String> = Registry::new();
    let mut i: usize = 0;
    assert(all.take(0) =~= Seq::<Seq<char>>::empty());
    while i < list.len()
        invariant
            all == models(list@),
            i <= all.len(),
            filed.entries() == put_all::<String>(Seq::empty(), all.take(i as int)),
        decreases all.len() - i,
    {
        assert(all.take(i as int + 1).drop_last() =~= all.take(i as int));
        assert(all.take(i as int + 1).last() == all[i as int]);
        let _ = filed.upsert(list[i].clone());
        i += 1;
    }
    assert(all.take(all.len() as int) =~= all);
    filed.snapshot()
}

/// The catalog entry that a pass makes of `provider`.
pub fn catalog_entry(
    provider: &ProviderDescriptor,
    outcomes: &Vec<ProbeOutcome>,
    now: Timestamp,
) -> (entry: MCPService)
    ensures
        entry@ == entry_for(provider@, models(outcomes@), now),
{
    let found = find_outcome(outcomes, provider.id.as_str());
    let answer: Option<&Vec<String>> = match found {
        Some(at) => match &outcomes[at].result {
            ProbeResult::Capabilities(list) => Some(list),
            _ => None,
        },
        None => None,
    };
    match answer {
        Some(list) => MCPService {
            id: provider.id.clone(),
            name: provider.name.clone(),
            url: provider.address.clone(),
            status: ServiceStatus::Reachable,
            capabilities: canonical_capabilities(list),
            last_probed: now,
        },
        None => {
            let none: Vec<String> = Vec::new();
            assert(models(none@) =~= Seq::<Seq<char>>::empty());
            MCPService {
                id: provider.id.clone(),
                name: provider.name.clone(),
                url: provider.address.clone(),
                status: ServiceStatus::Unreachable,
                capabilities: none,
                last_probed: now,
            }
        },
    }
}

/// Copies of the entries that are reachable, in the same order.
pub fn reachable_only(entries: &Vec<MCPService>) -> (kept: Vec<MCPService>)
    ensures
        models(kept@) == models(entries@).filter(is_reachable()),
{
    let ghost all = models(entries@);
    let mut kept: Vec<MCPService> = Vec::new();
    let mut i: usize = 0;
    proof {
        reveal(Seq::filter);
        assert(all.take(0) =~= Seq::<ServiceModel>::empty());
        assert(models(kept@) =~= Seq::<ServiceModel>::empty());
    }
    while i < entries.len()
        invariant
            all == models(entries@),
            i <= all.len(),
            models(kept@) == all.take(i as int).filter(is_reachable()),
        decreases all.len() - i,
    {
        proof {
            reveal(Seq::filter);
            assert(all.take(i as int + 1).drop_last() =~= all.take(i as int));
            assert(all.take(i as int + 1).last() == all[i as int]);
        }
        let ghost before = models(kept@);
        match entries[i].status {
            ServiceStatus::Reachable => {
                kept.push(entries[i].duplicate());
                assert(models(kept@) =~= before.push(all[i as int]));
            },
            _ => {},
        }
        i += 1;
    }
    assert(all.take(all.len() as int) =~= all);
    kept
}

/// The discovery engine: the configured providers and the limits within
/// which they are probed.
#[derive(Debug)]
pub struct MCPCoordinator {
    core_address: String,
    providers: Vec<ProviderDescriptor>,
    probe_timeout_ms: u64,
    max_in_flight: usize,
}

impl View for MCPCoordinator {
    type V = EngineModel;

    closed spec fn view(&self) -> EngineModel {
        EngineModel {
            core_address: self.core_address@,
            providers: models(self.providers@),
            probe_timeout_ms: self.probe_timeout_ms,
            max_in_flight: self.max_in_flight,
        }
    }
}

impl MCPCoordinator {
    /// An engine always has a core to speak for, time for a probe and room
    /// for one.
    #[verifier::type_invariant]
    spec fn bounded(self) -> bool {
        core_buildable(self.core_address@) && engine_buildable(
            self.probe_timeout_ms,
            self.max_in_flight,
        )
    }

    /// Builds the engine for a core that stands. Fails where the timeout or
    /// the number of probes in flight is zero.
    pub fn new(
        core: &PowerAutomationCore,
        providers: &Vec<ProviderDescriptor>,
        probe_timeout_ms: u64,
        max_in_flight: usize,
    ) -> (built: Result<Self, InitError>)
        ensures
            match built {
                Ok(engine) => engine_buildable(probe_timeout_ms, max_in_flight) && engine@ == (
                EngineModel {
                    core_address: core@.address,
                    providers: models(providers@),
                    probe_timeout_ms,
                    max_in_flight,
                }),
                Err(e) => !engine_buildable(probe_timeout_ms, max_in_flight) && e
                    == InitError::DiscoveryEngineFailed,
            },
    {
        if probe_timeout_ms == 0 || max_in_flight == 0 {
            Err(InitError::DiscoveryEngineFailed)
        } else {
            Ok(
                MCPCoordinator {
                    core_address: core.address().clone(),
                    providers: duplicate_all(providers),
                    probe_timeout_ms,
                    max_in_flight,
                },
            )
        }
    }

    /// The address of the core that this engine was built for.
    pub fn core_address(&self) -> (address: &String)
        ensures
            address@ == self@.core_address,
    {
        &self.core_address
    }

    /// Copies of the configured providers, in probing order.
    pub fn providers(&self) -> (providers: Vec<ProviderDescriptor>)
        ensures
            models(providers@) == self@.providers,
    {
        duplicate_all(&self.providers)
    }

    /// How long one probe may take, in milliseconds. Never zero.
    pub fn probe_timeout_ms(&self) -> (ms: u64)
        ensures
            ms == self@.probe_timeout_ms,
            ms > 0,
    {
        proof {
            use_type_invariant(self);
        }
        self.probe_timeout_ms
    }

    /// How many probes may run at the same time. Never zero.
    pub fn max_in_flight(&self) -> (n: usize)
        ensures
            n == self@.max_in_flight,
            n > 0,
    {
        proof {
            use_type_invariant(self);
        }
        self.max_in_flight
    }

    /// The probes of one pass: one for each provider, in configuration order.
    pub fn plan(&self) -> (requests: Vec<ProbeRequest>)
        ensures
            models(requests@) == planned(self@),
    {
        let mut requests: Vec<ProbeRequest> = Vec::new();
        let mut i: usize = 0;
        while i < self.providers.len()
            invariant
                i <= self.providers@.len(),
                requests@.len() == i,
                forall|j: int|
                    0 <= j < i ==> (#[trigger] requests@[j])@ == request_for(
                        self.providers@[j]@,
                        self.probe_timeout_ms,
                    ),
            decreases self.providers@.len() - i,
        {
            let provider = &self.providers[i];
            requests.push(
                ProbeRequest {
                    provider_id: provider.id.clone(),
                    address: provider.address.clone(),
                    declared_capabilities: duplicate_all(&provider.declared_capabilities),
                    timeout_ms: self.probe_timeout_ms,
                },
            );
            i += 1;
        }
        assert(models(requests@) =~= planned(self@));
        requests
    }

    /// The probes of one pass in batches: the batches are to be run one
    /// after another, the probes of one batch may run at the same time.
    pub fn plan_batches(&self) -> (groups: Vec<Vec<ProbeRequest>>)
        ensures
            batch_models(groups@) == batches(planned(self@), self@.max_in_flight as int),
    {
        let requests = self.plan();
        split_batches(&requests, self.max_in_flight)
    }

    /// The entries that a pass makes of the providers, in configuration order.
    pub fn catalog(
        &self,
        outcomes: &Vec<ProbeOutcome>,
        now: Timestamp,
    ) -> (entries: Vec<MCPService>)
        ensures
            models(entries@) == pass_entries(self@.providers, models(outcomes@), now),
    {
        let mut entries: Vec<MCPService> = Vec::new();
        let mut i: usize = 0;
        while i < self.providers.len()
            invariant
                i <= self.providers@.len(),
                entries@.len() == i,
                forall|j: int|
                    0 <= j < i ==> (#[trigger] entries@[j])@ == entry_for(
                        self.providers@[j]@,
                        models(outcomes@),
                        now,
                    ),
            decreases self.providers@.len() - i,
        {
            entries.push(catalog_entry(&self.providers[i], outcomes, now));
            i += 1;
        }
        assert(models(entries@) =~= pass_entries(self@.providers, models(outcomes@), now));
        entries
    }

    /// What a pass reports: copies of the reachable entries, by ascending id.
    pub fn report(
        &self,
        outcomes: &Vec<ProbeOutcome>,
        now: Timestamp,
    ) -> (reachable: Vec<MCPService>)
        ensures
            models(reachable@) == discovery_report(self@.providers, models(outcomes@), now),
    {
        let entries = self.catalog(outcomes, now);
        sort_by_key(reachable_only(&entries))
    }
}

} // verus!
