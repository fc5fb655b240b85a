//! Coordination core of the editor shell: a registry of tool-providing
//! services and of agents, a one-time bootstrap of the automation core and the
//! discovery engine, and the rules by which probe results become catalog
//! entries.
//!
//! Every function here is sequential. A shell that serves parallel callers
//! keeps one `AppState` behind a lock and calls in with the lock held; the
//! contracts then describe each call as one atomic step.

pub mod agents;
pub mod automation;
pub mod batching;
pub mod bootstrap;
pub mod catalog;
pub mod discovery;
pub mod laws;
pub mod probe;
pub mod projects;
pub mod record;
pub mod registry;
pub mod sorting;
pub mod state;
pub mod system;
pub mod text;
pub mod tray;

pub use agents::{AIAgent, AgentStatus};
pub use automation::PowerAutomationCore;
pub use bootstrap::{CoordinationConfig, CoordinationHandle, InitError, Ready};
pub use catalog::{MCPService, ProviderDescriptor, ServiceStatus, Timestamp};
pub use discovery::{DiscoveryError, MCPCoordinator};
pub use probe::{ProbeOutcome, ProbeRequest, ProbeResult};
pub use projects::Project;
pub use registry::Registry;
pub use state::AppState;
