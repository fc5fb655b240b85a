//! Probes: what a discovery pass asks of the providers, and what comes
//! back.

use vstd::prelude::*;
use crate::record::{duplicate_all, models, Record};
use crate::text::str_equal;

verus! {

/// One probe to make: whom to ask, where, what it is said to offer, and for
/// how long at most.
#[derive(Clone, Debug, PartialEq, Eq)]
pub struct ProbeRequest {
    pub provider_id: String,
    pub address: String,
    pub declared_capabilities: Vec<String>,
    pub timeout_ms: u64,
}

/// The mathematical value of a [`ProbeRequest`].
pub struct RequestModel {
    pub provider_id: Seq<char>,
    pub address: Seq<char>,
    pub declared_capabilities: Seq<Seq<char>>,
    pub timeout_ms: u64,
}

impl View for ProbeRequest {
    type V = RequestModel;

    open spec fn view(&self) -> RequestModel {
        RequestModel {
            provider_id: self.provider_id@,
            address: self.address@,
            declared_capabilities: models(self.declared_capabilities@),
            timeout_ms: self.timeout_ms,
        }
    }
}

impl Record for ProbeRequest {
    type Model = RequestModel;

    open spec fn model(&self) -> RequestModel {
        self@
    }

    open spec fn key_of(model: RequestModel) -> Seq<char> {
        model.provider_id
    }

    fn key(&self) -> (key: &String) {
        &self.provider_id
    }

    fn duplicate(&self) -> (copy: Self) {
        ProbeRequest {
            provider_id: self.provider_id.clone(),
            address: self.address.clone(),
            declared_capabilities: duplicate_all(&self.declared_capabilities),
            timeout_ms: self.timeout_ms,
        }
    }
}

/// How one probe ended.
#[derive(Clone, Debug, PartialEq, Eq)]
pub enum ProbeResult {
    /// The provider answered with the capabilities it offers.
    Capabilities(Vec<String>),
    /// The provider could not be reached, or did not answer to the point.
    Failed,
    /// The provider did not answer in time.
    TimedOut,
}

/// The mathematical value of a [`ProbeResult`].
pub enum ResultModel {
    Capabilities(Seq<Seq<char>>),
    Failed,
    TimedOut,
}

impl View for ProbeResult {
    type V = ResultModel;

    open spec fn view(&self) -> ResultModel {
        match self {
            ProbeResult::Capabilities(list) => ResultModel::Capabilities(models(list@)),
            ProbeResult::Failed => ResultModel::Failed,
            ProbeResult::TimedOut => ResultModel::TimedOut,
        }
    }
}

/// How the probe of one provider ended.
#[derive(Clone, Debug, PartialEq, Eq)]
pub struct ProbeOutcome {
    pub provider_id: String,
    pub result: ProbeResult,
}

/// The mathematical value of a [`ProbeOutcome`].
pub struct OutcomeModel {
    pub provider_id: Seq<char>,
    pub result: ResultModel,
}

impl View for ProbeOutcome {
    type V = OutcomeModel;

    open spec fn view(&self) -> OutcomeModel {
        OutcomeModel { provider_id: self.provider_id@, result: self.result@ }
    }
}

impl Record for ProbeOutcome {
    type Model = OutcomeModel;

    open spec fn model(&self) -> OutcomeModel {
        self@
    }

    open spec fn key_of(model: OutcomeModel) -> Seq<char> {
        model.provider_id
    }

    fn key(&self) -> (key: &String) {
        &self.provider_id
    }

    fn duplicate(&self) -> (copy: Self) {
        let result = match &self.result {
            ProbeResult::Capabilities(list) => ProbeResult::Capabilities(duplicate_all(list)),
            ProbeResult::Failed => ProbeResult::Failed,
            ProbeResult::TimedOut => ProbeResult::TimedOut,
        };
        ProbeOutcome { provider_id: self.provider_id.clone(), result }
    }
}

/// The first result reported for provider `id`, if any was.
pub open spec fn reported(outcomes: Seq<OutcomeModel>, id: Seq<char>) -> Option<ResultModel>
    decreases outcomes.len(),
{
    if outcomes.len() == 0 {
        None
    } else if outcomes[0].provider_id == id {
        Some(outcomes[0].result)
    } else {
        reported(outcomes.drop_first(), id)
    }
}

/// The capabilities that provider `id` answered with, if it answered.
pub open spec fn answered(outcomes: Seq<OutcomeModel>, id: Seq<char>) -> Option<Seq<Seq<char>>> {
    match reported(outcomes, id) {
        Some(ResultModel::Capabilities(list)) => Some(list),
        _ => None,
    }
}

/// No two outcomes speak of the same provider.
pub open spec fn one_outcome_each(outcomes: Seq<OutcomeModel>) -> bool {
    forall|i: int, j: int|
        0 <= i < j < outcomes.len() ==> (#[trigger] outcomes[i]).provider_id
            != (#[trigger] outcomes[j]).provider_id
}

/// What is reported for a provider is one of the outcomes, and nothing is
/// reported only where no outcome speaks of the provider.
pub proof fn lemma_reported_is_member(outcomes: Seq<OutcomeModel>, id: Seq<char>)
    ensures
        match reported(outcomes, id) {
            Some(result) => outcomes.contains(OutcomeModel { provider_id: id, result }),
            None => forall|i: int|
                0 <= i < outcomes.len() ==> (#[trigger] outcomes[i]).provider_id != id,
        },
    decreases outcomes.len(),
{
    if outcomes.len() > 0 {
        if outcomes[0].provider_id == id {
            assert(outcomes[0] == OutcomeModel { provider_id: id, result: outcomes[0].result });
        } else {
            let rest = outcomes.drop_first();
            lemma_reported_is_member(rest, id);
            match reported(rest, id) {
                Some(result) => {
                    let x = OutcomeModel { provider_id: id, result };
                    let i = choose|i: int| 0 <= i < rest.len() && rest[i] == x;
                    assert(outcomes[i + 1] == x);
                },
                None => {
                    assert forall|i: int| 0 <= i < outcomes.len() implies (
                    #[trigger] outcomes[i]).provider_id != id by {
                        if i > 0 {
                            assert(rest[i - 1] == outcomes[i]);
                        }
                    }
                },
            }
        }
    }
}

/// Where no two outcomes speak of the same provider, each outcome is what
/// is reported for its provider.
pub proof fn lemma_member_is_reported(outcomes: Seq<OutcomeModel>, i: int)
    requires
        one_outcome_each(outcomes),
        0 <= i < outcomes.len(),
    ensures
        reported(outcomes, outcomes[i].provider_id) == Some(outcomes[i].result),
    decreases outcomes.len(),
{
    if i > 0 {
        let rest = outcomes.drop_first();
        assert(outcomes[0].provider_id != outcomes[i].provider_id);
        assert(rest[i - 1] == outcomes[i]);
        assert(one_outcome_each(rest)) by {
            assert forall|a: int, b: int| 0 <= a < b < rest.len() implies (
            #[trigger] rest[a]).provider_id != (#[trigger] rest[b]).provider_id by {
                assert(rest[a] == outcomes[a + 1] && rest[b] == outcomes[b + 1]);
            }
        }
        lemma_member_is_reported(rest, i - 1);
    }
}

/// Where each provider has one outcome at most, the order in which the
/// outcomes came in does not matter.
pub proof fn lemma_outcome_order_irrelevant(
    a: Seq<OutcomeModel>,
    b: Seq<OutcomeModel>,
    id: Seq<char>,
)
    requires
        one_outcome_each(a),
        one_outcome_each(b),
        forall|x: OutcomeModel| a.contains(x) <==> b.contains(x),
    ensures
        reported(a, id) == reported(b, id),
{
    lemma_reported_is_member(a, id);
    lemma_reported_is_member(b, id);
    match reported(a, id) {
        Some(result) => {
            let x = OutcomeModel { provider_id: id, result };
            assert(b.contains(x));
            let i = choose|i: int| 0 <= i < b.len() && b[i] == x;
            lemma_member_is_reported(b, i);
        },
        None => {
            if reported(b, id) is Some {
                let x = OutcomeModel { provider_id: id, result: reported(b, id)->0 };
                assert(a.contains(x));
                let i = choose|i: int| 0 <= i < a.len() && a[i] == x;
                assert(a[i].provider_id == id);
            }
        },
    }
}

/// The position of the first outcome reported for provider `id`.
pub fn find_outcome(outcomes: &Vec<ProbeOutcome>, id: &str) -> (found: Option<usize>)
    ensures
        match found {
            Some(at) => at < outcomes@.len() && reported(models(outcomes@), id@) == Some(
                outcomes@[at as int]@.result,
            ),
            None => reported(models(outcomes@), id@) is None,
        },
{
    let ghost all = models(outcomes@);
    let mut at: usize = 0;
    assert(all.skip(0) =~= all);
    while at < outcomes.len()
        invariant
            all == models(outcomes@),
            at <= all.len(),
            reported(all, id@) == reported(all.skip(at as int), id@),
        decreases all.len() - at,
    {
        assert(all.skip(at as int)[0] == all[at as int]);
        assert(all.skip(at as int).drop_first() =~= all.skip(at as int + 1));
        if str_equal(outcomes[at].provider_id.as_str(), id) {
            return Some(at);
        }
        at += 1;
    }
    None
}

} // verus!
