//! The state of the coordination core and the operations on it.
//!
//! The state is one value: the three registries and the handle that
//! initialization publishes. Each operation is one step from a state to the
//! next, described by [`step`].

use vstd::prelude::*;
use crate::agents::{AIAgent, AgentModel};
use crate::bootstrap::{
    construct, ConfigModel, CoordinationConfig, CoordinationHandle, HandleModel, InitError, Ready,
};
use crate::catalog::{MCPService, ServiceModel, Timestamp};
use crate::batching::{batch_models, batches};
use crate::discovery::{discovery_report, pass_entries, planned, DiscoveryError};
use crate::probe::{OutcomeModel, ProbeOutcome, ProbeRequest};
use crate::projects::{Project, ProjectModel};
use crate::record::{models, text_model, Record};
use crate::registry::{keys_ascending, put, put_all, take_out, Registry};
use crate::system::{current_time, is_random_uuid, random_uuid};

verus! {

/// The mathematical value of an [`AppState`]: each registry as the
/// sequence of its entries by ascending key, and the published handle.
pub struct StateModel {
    pub projects: Seq<ProjectModel>,
    pub services: Seq<ServiceModel>,
    pub agents: Seq<AgentModel>,
    pub handle: Option<HandleModel>,
}

/// An operation that may change the state.
pub enum Operation {
    /// Initialize from a configuration.
    Initialize(ConfigModel),
    /// Take in the outcomes of a discovery pass that ended at a given time.
    Discover(Seq<OutcomeModel>, Timestamp),
    /// File a catalog entry.
    UpsertCatalog(ServiceModel),
    /// File an agent entry.
    UpsertAgent(AgentModel),
    /// Take out the agent with a given id.
    RemoveAgent(Seq<char>),
    /// File a project.
    RegisterProject(ProjectModel),
}

impl StateModel {
    /// The state before anything happened.
    pub open spec fn initial() -> StateModel {
        StateModel {
            projects: Seq::empty(),
            services: Seq::empty(),
            agents: Seq::empty(),
            handle: None,
        }
    }

    /// Every registry lists its entries by strictly ascending key.
    pub open spec fn well_formed(self) -> bool {
        &&& keys_ascending::<Project>(self.projects)
        &&& keys_ascending::<MCPService>(self.services)
        &&& keys_ascending::<AIAgent>(self.agents)
    }
}

/// What initialization answers in state `s`: success where a handle stands
/// already, else whatever construction from `config` yields.
pub open spec fn initialize_outcome(
    s: StateModel,
    config: ConfigModel,
) -> Result<Ready, InitError> {
    if s.handle is Some {
        Ok(Ready)
    } else {
        match construct(config) {
            Ok(_) => Ok(Ready),
            Err(e) => Err(e),
        }
    }
}

/// What a discovery pass answers in state `s`: the report of the published
/// engine, or that there is none.
pub open spec fn discover_outcome(
    s: StateModel,
    outcomes: Seq<OutcomeModel>,
    now: Timestamp,
) -> Result<Seq<ServiceModel>, DiscoveryError> {
    match s.handle {
        Some(handle) => Ok(discovery_report(handle.engine.providers, outcomes, now)),
        None => Err(DiscoveryError::NotInitialized),
    }
}

/// The state after one operation.
pub open spec fn step(s: StateModel, op: Operation) -> StateModel {
    match op {
        Operation::Initialize(config) => match (s.handle, construct(config)) {
            (None, Ok(handle)) => StateModel { handle: Some(handle), ..s },
            _ => s,
        },
        Operation::Discover(outcomes, now) => match s.handle {
            Some(handle) => StateModel {
                services: put_all::<MCPService>(
                    s.services,
                    pass_entries(handle.engine.providers, outcomes, now),
                ),
                ..s
            },
            None => s,
        },
        Operation::UpsertCatalog(entry) => StateModel {
            services: put::<MCPService>(s.services, entry),
            ..s
        },
        Operation::UpsertAgent(agent) => StateModel {
            agents: put::<AIAgent>(s.agents, agent),
            ..s
        },
        Operation::RemoveAgent(id) => StateModel {
            agents: take_out::<AIAgent>(s.agents, id),
            ..s
        },
        Operation::RegisterProject(project) => StateModel {
            projects: put::<Project>(s.projects, project),
            ..s
        },
    }
}

/// The state after a sequence of operations, first to last.
pub open spec fn run(s: StateModel, ops: Seq<Operation>) -> StateModel
    decreases ops.len(),
{
    if ops.len() == 0 {
        s
    } else {
        step(run(s, ops.drop_last()), ops.last())
    }
}

/// The state of the coordination core.
#[derive(Debug)]
pub struct AppState {
    projects: Registry<Project>,
    mcp_services: Registry<MCPService>,
    ai_agents: Registry<AIAgent>,
    coordination: Option<CoordinationHandle>,
}

impl View for AppState {
    type V = StateModel;

    closed spec fn view(&self) -> StateModel {
        StateModel {
            projects: self.projects.entries(),
            services: self.mcp_services.entries(),
            agents: self.ai_agents.entries(),
            handle: match self.coordination {
                Some(handle) => Some(handle@),
                None => None,
            },
        }
    }
}

impl Default for AppState {
    /// The state before anything happened.
    fn default() -> (state: Self)
        ensures
            state@ == StateModel::initial(),
    {
        AppState::new()
    }
}

impl AppState {
    /// The state before anything happened: empty registries, no handle.
    pub fn new() -> (state: Self)
        ensures
            state@ == StateModel::initial(),
    {
        AppState {
            projects: Registry::new(),
            mcp_services: Registry::new(),
            ai_agents: Registry::new(),
            coordination: None,
        }
    }

    /// Whether a handle has been published.
    pub fn is_initialized(&self) -> (ready: bool)
        ensures
            ready == (self@.handle is Some),
    {
        self.coordination.is_some()
    }

    /// The published handle, if there is one.
    pub fn handle(&self) -> (handle: Option<&CoordinationHandle>)
        ensures
            match handle {
                Some(h) => self@.handle == Some(h@),
                None => self@.handle is None,
            },
    {
        self.coordination.as_ref()
    }

    /// The registry of catalog entries.
    pub fn services(&self) -> (registry: &Registry<MCPService>)
        ensures
            registry.entries() == self@.services,
    {
        &self.mcp_services
    }

    /// The registry of agent entries.
    pub fn agents(&self) -> (registry: &Registry<AIAgent>)
        ensures
            registry.entries() == self@.agents,
    {
        &self.ai_agents
    }

    /// The registry of projects.
    pub fn projects(&self) -> (registry: &Registry<Project>)
        ensures
            registry.entries() == self@.projects,
    {
        &self.projects
    }

    /// Builds the automation core and the discovery engine from `config` and
    /// publishes both, unless a handle stands already: then nothing is built
    /// and the call succeeds at once. Where construction fails nothing is
    /// published, and a later call may try again.
    pub fn initialize(
        &mut self,
        config: &CoordinationConfig,
    ) -> (outcome: Result<Ready, InitError>)
        ensures
            outcome == initialize_outcome(old(self)@, config@),
            final(self)@ == step(old(self)@, Operation::Initialize(config@)),
            outcome is Ok <==> final(self)@.handle is Some,
    {
        if self.coordination.is_some() {
            return Ok(Ready);
        }
        match CoordinationHandle::build(config) {
            Ok(handle) => {
                self.coordination = Some(handle);
                Ok(Ready)
            },
            Err(e) => Err(e),
        }
    }

    /// The probes that the next discovery pass is made of, in batches: the
    /// batches run one after another, the probes of one batch may run at the
    /// same time. Fails where no handle has been published.
    pub fn plan_discovery(&self) -> (plan: Result<Vec<Vec<ProbeRequest>>, DiscoveryError>)
        ensures
            match plan {
                Ok(groups) => self@.handle is Some && batch_models(groups@) == batches(
                    planned(self@.handle->0.engine),
                    self@.handle->0.engine.max_in_flight as int,
                ),
                Err(e) => self@.handle is None && e == DiscoveryError::NotInitialized,
            },
    {
        match &self.coordination {
            Some(handle) => Ok(handle.engine().plan_batches()),
            None => Err(DiscoveryError::NotInitialized),
        }
    }

    /// Takes in the outcomes of a discovery pass that ended at `now`: files
    /// an entry for every configured provider, reachable or not, and reports
    /// the reachable ones by ascending id. Fails, and changes nothing, where
    /// no handle has been published; a provider that failed is no failure of
    /// the pass.
    pub fn discover_at(
        &mut self,
        outcomes: &Vec<ProbeOutcome>,
        now: Timestamp,
    ) -> (report: Result<Vec<MCPService>, DiscoveryError>)
        ensures
            final(self)@ == step(old(self)@, Operation::Discover(models(outcomes@), now)),
            match report {
                Ok(reachable) => discover_outcome(old(self)@, models(outcomes@), now) == Ok::<
                    Seq<ServiceModel>,
                    DiscoveryError,
                >(models(reachable@)),
                Err(e) => discover_outcome(old(self)@, models(outcomes@), now) == Err::<
                    Seq<ServiceModel>,
                    DiscoveryError,
                >(e),
            },
    {
        match &self.coordination {
            None => Err(DiscoveryError::NotInitialized),
            Some(handle) => {
                let engine = handle.engine();
                let entries = engine.catalog(outcomes, now);
                let report = engine.report(outcomes, now);
                let ghost batch = models(entries@);
                let ghost before = self.mcp_services.entries();
                let mut i: usize = 0;
                assert(batch.take(0) =~= Seq::<ServiceModel>::empty());
                while i < entries.len()
                    invariant
                        batch == models(entries@),
                        i <= batch.len(),
                        self.mcp_services.entries() == put_all::<MCPService>(
                            before,
                            batch.take(i as int),
                        ),
                        self.projects == old(self).projects,
                        self.ai_agents == old(self).ai_agents,
                        self.coordination == old(self).coordination,
                    decreases batch.len() - i,
                {
                    assert(batch.take(i as int + 1).drop_last() =~= batch.take(i as int));
                    assert(batch.take(i as int + 1).last() == batch[i as int]);
                    let _ = self.mcp_services.upsert(entries[i].duplicate());
                    i += 1;
                }
                assert(batch.take(batch.len() as int) =~= batch);
                Ok(report)
            },
        }
    }

    /// [`AppState::discover_at`] at the present time, read from the clock.
    pub fn discover(
        &mut self,
        outcomes: &Vec<ProbeOutcome>,
    ) -> (report: Result<Vec<MCPService>, DiscoveryError>)
        ensures
            exists|now: Timestamp|
                #![trigger discover_outcome(old(self)@, models(outcomes@), now)]
                {
                    &&& final(self)@ == step(
                        old(self)@,
                        Operation::Discover(models(outcomes@), now),
                    )
                    &&& match report {
                        Ok(reachable) => discover_outcome(old(self)@, models(outcomes@), now)
                            == Ok::<Seq<ServiceModel>, DiscoveryError>(models(reachable@)),
                        Err(e) => discover_outcome(old(self)@, models(outcomes@), now) == Err::<
                            Seq<ServiceModel>,
                            DiscoveryError,
                        >(e),
                    }
                },
            report is Err <==> old(self)@.handle is None,
    {
        let now = current_time();
        self.discover_at(outcomes, now)
    }

    /// Files `entry` in the catalog, in place of the entry with the same id
    /// if there is one.
    pub fn upsert_catalog(&mut self, entry: MCPService)
        ensures
            final(self)@ == step(old(self)@, Operation::UpsertCatalog(entry@)),
    {
        let _ = self.mcp_services.upsert(entry);
    }

    /// Copies of all catalog entries, by ascending id.
    pub fn list_services(&self) -> (entries: Vec<MCPService>)
        ensures
            models(entries@) == self@.services,
            keys_ascending::<MCPService>(self@.services),
    {
        self.mcp_services.snapshot()
    }

    /// Files `agent`, in place of the agent with the same id if there is one.
    pub fn upsert_agent(&mut self, agent: AIAgent)
        ensures
            final(self)@ == step(old(self)@, Operation::UpsertAgent(agent@)),
    {
        let _ = self.ai_agents.upsert(agent);
    }

    /// Takes out the agent with id `id`. Says whether there was one.
    pub fn remove_agent(&mut self, id: &str) -> (removed: bool)
        ensures
            final(self)@ == step(old(self)@, Operation::RemoveAgent(id@)),
            removed == crate::registry::has_key::<AIAgent>(old(self)@.agents, id@),
    {
        self.ai_agents.remove(id)
    }

    /// Copies of all agent entries, by ascending id.
    pub fn list_agents(&self) -> (entries: Vec<AIAgent>)
        ensures
            models(entries@) == self@.agents,
            keys_ascending::<AIAgent>(self@.agents),
    {
        self.ai_agents.snapshot()
    }

    /// Files `project`, in place of the project with the same id if there is
    /// one.
    pub fn register_project(&mut self, project: Project)
        ensures
            final(self)@ == step(old(self)@, Operation::RegisterProject(project@)),
    {
        let _ = self.projects.upsert(project);
    }

    /// Makes a project with a fresh id, created and last modified now, and
    /// without tags, files it and hands back a copy.
    pub fn create_project(
        &mut self,
        name: String,
        path: String,
        description: Option<String>,
    ) -> (project: Project)
        ensures
            is_random_uuid(project@.id),
            project@.name == name@,
            project@.path == path@,
            project@.description == text_model(description),
            project@.tags == Seq::<Seq<char>>::empty(),
            final(self)@ == step(old(self)@, Operation::RegisterProject(project@)),
    {
        let id = random_uuid();
        let created_at = current_time();
        let last_modified = current_time();
        let tags: Vec<String> = Vec::new();
        assert(models(tags@) =~= Seq::<Seq<char>>::empty());
        let project = Project { id, name, path, created_at, last_modified, description, tags };
        let copy = project.duplicate();
        self.register_project(project);
        copy
    }

    /// Copies of all projects, by ascending id.
    pub fn get_projects(&self) -> (entries: Vec<Project>)
        ensures
            models(entries@) == self@.projects,
            keys_ascending::<Project>(self@.projects),
    {
        self.projects.snapshot()
    }
}

} // verus!
