//! Catalog entries: what the registry knows of one tool provider, and the
//! descriptor under which a provider is configured.

use vstd::prelude::*;
use crate::record::{duplicate_all, models, Record};

verus! {

/// A point in time: whole seconds since the Unix epoch, and the nanoseconds
/// into that second.
#[derive(Clone, Copy, Debug, PartialEq, Eq, PartialOrd, Ord, Structural)]
pub struct Timestamp {
    pub secs: i64,
    pub nanos: u32,
}

impl Timestamp {
    /// Earlier by the seconds, or within one second by the nanoseconds.
    pub open spec fn before(self, other: Timestamp) -> bool {
        self.secs < other.secs || (self.secs == other.secs && self.nanos < other.nanos)
    }

    /// Whether this point in time lies before `other`.
    pub fn is_before(&self, other: &Timestamp) -> (earlier: bool)
        ensures
            earlier == self.before(*other),
    {
        self.secs < other.secs || (self.secs == other.secs && self.nanos < other.nanos)
    }
}

/// Whether a provider answered its last probe.
#[derive(Clone, Copy, Debug, PartialEq, Eq, Structural)]
pub enum ServiceStatus {
    /// Never probed.
    Unknown,
    /// The last probe was answered.
    Reachable,
    /// The last probe failed or ran out of time.
    Unreachable,
}

/// A provider as configured: where it is and what it is said to offer.
#[derive(Clone, Debug, PartialEq, Eq)]
pub struct ProviderDescriptor {
    pub id: String,
    pub name: String,
    pub address: String,
    pub declared_capabilities: Vec<String>,
}

/// The mathematical value of a [`ProviderDescriptor`].
pub struct DescriptorModel {
    pub id: Seq<char>,
    pub name: Seq<char>,
    pub address: Seq<char>,
    pub declared_capabilities: Seq<Seq<char>>,
}

impl View for ProviderDescriptor {
    type V = DescriptorModel;

    open spec fn view(&self) -> DescriptorModel {
        DescriptorModel {
            id: self.id@,
            name: self.name@,
            address: self.address@,
            declared_capabilities: models(self.declared_capabilities@),
        }
    }
}

impl Record for ProviderDescriptor {
    type Model = DescriptorModel;

    open spec fn model(&self) -> DescriptorModel {
        self@
    }

    open spec fn key_of(model: DescriptorModel) -> Seq<char> {
        model.id
    }

    fn key(&self) -> (key: &String) {
        &self.id
    }

    fn duplicate(&self) -> (copy: Self) {
        ProviderDescriptor {
            id: self.id.clone(),
            name: self.name.clone(),
            address: self.address.clone(),
            declared_capabilities: duplicate_all(&self.declared_capabilities),
        }
    }
}

/// The registry's record of one provider: its last known reachability and
/// capabilities.
#[derive(Clone, Debug, PartialEq, Eq)]
pub struct MCPService {
    pub id: String,
    pub name: String,
    pub url: String,
    pub status: ServiceStatus,
    pub capabilities: Vec<String>,
    pub last_probed: Timestamp,
}

/// The mathematical value of an [`MCPService`].
pub struct ServiceModel {
    pub id: Seq<char>,
    pub name: Seq<char>,
    pub url: Seq<char>,
    pub status: ServiceStatus,
    pub capabilities: Seq<Seq<char>>,
    pub last_probed: Timestamp,
}

impl ServiceModel {
    /// The capabilities as a set, order and repetition apart.
    pub open spec fn capability_set(self) -> Set<Seq<char>> {
        self.capabilities.to_set()
    }
}

impl View for MCPService {
    type V = ServiceModel;

    open spec fn view(&self) -> ServiceModel {
        ServiceModel {
            id: self.id@,
            name: self.name@,
            url: self.url@,
            status: self.status,
            capabilities: models(self.capabilities@),
            last_probed: self.last_probed,
        }
    }
}

impl Record for MCPService {
    type Model = ServiceModel;

    open spec fn model(&self) -> ServiceModel {
        self@
    }

    open spec fn key_of(model: ServiceModel) -> Seq<char> {
        model.id
    }

    fn key(&self) -> (key: &String) {
        &self.id
    }

    fn duplicate(&self) -> (copy: Self) {
        MCPService {
            id: self.id.clone(),
            name: self.name.clone(),
            url: self.url.clone(),
            status: self.status,
            capabilities: duplicate_all(&self.capabilities),
            last_probed: self.last_probed,
        }
    }
}

} // verus!
