//! Agent entries: the AI actors that the automation core reports.

use vstd::prelude::*;
use crate::record::{duplicate_all, models, Record};

verus! {

/// What an agent is doing.
#[derive(Clone, Copy, Debug, PartialEq, Eq, Structural)]
pub enum AgentStatus {
    Idle,
    Busy,
    Error,
}

/// The registry's record of one agent.
#[derive(Clone, Debug, PartialEq, Eq)]
pub struct AIAgent {
    pub id: String,
    pub name: String,
    pub agent_type: String,
    pub status: AgentStatus,
    pub capabilities: Vec<String>,
}

/// The mathematical value of an [`AIAgent`].
pub struct AgentModel {
    pub id: Seq<char>,
    pub name: Seq<char>,
    pub agent_type: Seq<char>,
    pub status: AgentStatus,
    pub capabilities: Seq<Seq<char>>,
}

impl AgentModel {
    /// The capabilities as a set, order and repetition apart.
    pub open spec fn capability_set(self) -> Set<Seq<char>> {
        self.capabilities.to_set()
    }
}

impl View for AIAgent {
    type V = AgentModel;

    open spec fn view(&self) -> AgentModel {
        AgentModel {
            id: self.id@,
            name: self.name@,
            agent_type: self.agent_type@,
            status: self.status,
            capabilities: models(self.capabilities@),
        }
    }
}

impl Record for AIAgent {
    type Model = AgentModel;

    open spec fn model(&self) -> AgentModel {
        self@
    }

    open spec fn key_of(model: AgentModel) -> Seq<char> {
        model.id
    }

    fn key(&self) -> (key: &String) {
        &self.id
    }

    fn duplicate(&self) -> (copy: Self) {
        AIAgent {
            id: self.id.clone(),
            name: self.name.clone(),
            agent_type: self.agent_type.clone(),
            status: self.status,
            capabilities: duplicate_all(&self.capabilities),
        }
    }
}

} // verus!
