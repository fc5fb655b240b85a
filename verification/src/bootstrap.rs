//! One-time construction of the automation core and the discovery engine.
//!
//! The core is built first, the engine second, from one configuration. Either
//! both are built and handed out together as a [`CoordinationHandle`], or
//! nothing is.

use vstd::prelude::*;
use crate::automation::{core_buildable, CoreModel, PowerAutomationCore};
use crate::catalog::{DescriptorModel, ProviderDescriptor};
use crate::discovery::{engine_buildable, EngineModel, MCPCoordinator};
use crate::record::models;

verus! {

/// Why an initialization did not publish a handle.
#[derive(Clone, Copy, Debug, PartialEq, Eq, Structural)]
pub enum InitError {
    /// The automation core could not be built: it has no address.
    AutomationCoreFailed,
    /// The discovery engine could not be built: a probe could never run
    /// within its limits.
    DiscoveryEngineFailed,
}

/// The coordination core is initialized.
#[derive(Clone, Copy, Debug, PartialEq, Eq, Structural)]
pub struct Ready;

/// What the core and the engine are built from.
#[derive(Clone, Debug, PartialEq, Eq)]
pub struct CoordinationConfig {
    /// Where the automation core can be addressed.
    pub core_address: String,
    /// The providers to probe, in the order in which they are probed.
    pub providers: Vec<ProviderDescriptor>,
    /// How long one probe may take, in milliseconds.
    pub probe_timeout_ms: u64,
    /// How many probes may run at the same time.
    pub max_in_flight: usize,
}

/// The mathematical value of a [`CoordinationConfig`].
pub struct ConfigModel {
    pub core_address: Seq<char>,
    pub providers: Seq<DescriptorModel>,
    pub probe_timeout_ms: u64,
    pub max_in_flight: usize,
}

impl View for CoordinationConfig {
    type V = ConfigModel;

    open spec fn view(&self) -> ConfigModel {
        ConfigModel {
            core_address: self.core_address@,
            providers: models(self.providers@),
            probe_timeout_ms: self.probe_timeout_ms,
            max_in_flight: self.max_in_flight,
        }
    }
}

/// The mathematical value of a [`CoordinationHandle`].
pub struct HandleModel {
    pub core: CoreModel,
    pub engine: EngineModel,
}

/// What construction from `config` yields: the core is tried first, and the
/// engine only once the core stands.
pub open spec fn construct(config: ConfigModel) -> Result<HandleModel, InitError> {
    if !core_buildable(config.core_address) {
        Err(InitError::AutomationCoreFailed)
    } else if !engine_buildable(config.probe_timeout_ms, config.max_in_flight) {
        Err(InitError::DiscoveryEngineFailed)
    } else {
        Ok(
            HandleModel {
                core: CoreModel { address: config.core_address },
                engine: EngineModel {
                    core_address: config.core_address,
                    providers: config.providers,
                    probe_timeout_ms: config.probe_timeout_ms,
                    max_in_flight: config.max_in_flight,
                },
            },
        )
    }
}

/// The core and the engine, published together.
#[derive(Debug)]
pub struct CoordinationHandle {
    core: PowerAutomationCore,
    engine: MCPCoordinator,
}

impl View for CoordinationHandle {
    type V = HandleModel;

    closed spec fn view(&self) -> HandleModel {
        HandleModel { core: self.core@, engine: self.engine@ }
    }
}

impl CoordinationHandle {
    /// Builds the core, then the engine, from `config`. The first failure
    /// ends the construction, and nothing that was built is kept.
    pub fn build(config: &CoordinationConfig) -> (built: Result<Self, InitError>)
        ensures
            match built {
                Ok(handle) => construct(config@) == Ok::<HandleModel, InitError>(handle@),
                Err(e) => construct(config@) == Err::<HandleModel, InitError>(e),
            },
    {
        match PowerAutomationCore::new(config.core_address.as_str()) {
            Err(e) => Err(e),
            Ok(core) => match MCPCoordinator::new(
                &core,
                &config.providers,
                config.probe_timeout_ms,
                config.max_in_flight,
            ) {
                Err(e) => Err(e),
                Ok(engine) => Ok(CoordinationHandle { core, engine }),
            },
        }
    }

    /// The automation core.
    pub fn automation_core(&self) -> (core: &PowerAutomationCore)
        ensures
            core@ == self@.core,
    {
        &self.core
    }

    /// The discovery engine.
    pub fn engine(&self) -> (engine: &MCPCoordinator)
        ensures
            engine@ == self@.engine,
    {
        &self.engine
    }
}

} // verus!
