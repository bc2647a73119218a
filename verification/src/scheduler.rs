//! What a framework is configured with, and what the dispatcher asks the
//! application to do.

use vstd::prelude::*;
use crate::proto::{
    AgentID, Call, CallView, ExecutorID, FrameworkID, InverseOffer, Offer, OfferID, Scalar,
    TaskStatus,
};

verus! {

/// The configuration of a framework.
#[derive(Clone, Debug, PartialEq, Eq)]
pub struct SchedulerConf {
    /// Where the server listens.
    pub master_url: String,
    /// The identity that tasks run under.
    pub user: String,
    /// The name of the framework, for people.
    pub name: String,
    /// How long the server keeps a disconnected framework's state.
    pub framework_timeout: Scalar,
    /// Whether every status update is acknowledged for the application.
    pub implicit_acknowledgements: bool,
    /// The session identity of an earlier run, to take that session up again.
    pub framework_id: Option<FrameworkID>,
}

/// One thing that the dispatcher asks for: a callback of the application, or
/// a call to send to the server.
#[allow(inconsistent_fields)]
#[derive(Clone, Debug, PartialEq, Eq)]
pub enum Action {
    /// The connection was lost.
    Disconnected,
    Subscribed { framework_id: FrameworkID, heartbeat_interval_seconds: Option<Scalar> },
    /// Offers of one agent.
    Offers { offers: Vec<Offer> },
    /// Inverse offers of one agent.
    InverseOffers { inverse_offers: Vec<InverseOffer> },
    Rescind { offer_id: OfferID },
    Update { status: TaskStatus },
    Message { agent_id: AgentID, executor_id: ExecutorID, data: Vec<u8> },
    Failure { agent_id: Option<AgentID>, executor_id: Option<ExecutorID>, status: Option<i32> },
    Error { message: String },
    Heartbeat,
    /// Not a callback: a call that the dispatcher itself makes.
    Send { call: Call },
}

/// An action with its lists as sequences.
#[allow(inconsistent_fields)]
pub enum Effect {
    Disconnected,
    Subscribed { framework_id: FrameworkID, heartbeat_interval_seconds: Option<Scalar> },
    Offers { offers: Seq<Offer> },
    InverseOffers { inverse_offers: Seq<InverseOffer> },
    Rescind { offer_id: OfferID },
    Update { status: TaskStatus },
    Message { agent_id: AgentID, executor_id: ExecutorID, data: Seq<u8> },
    Failure { agent_id: Option<AgentID>, executor_id: Option<ExecutorID>, status: Option<i32> },
    Error { message: String },
    Heartbeat,
    Send { call: CallView },
}

impl View for Action {
    type V = Effect;

    open spec fn view(&self) -> Effect {
        match *self {
            Action::Disconnected => Effect::Disconnected,
            Action::Subscribed { framework_id, heartbeat_interval_seconds } => Effect::Subscribed {
                framework_id,
                heartbeat_interval_seconds,
            },
            Action::Offers { offers } => Effect::Offers { offers: offers@ },
            Action::InverseOffers { inverse_offers } => Effect::InverseOffers {
                inverse_offers: inverse_offers@,
            },
            Action::Rescind { offer_id } => Effect::Rescind { offer_id },
            Action::Update { status } => Effect::Update { status },
            Action::Message { agent_id, executor_id, data } => Effect::Message {
                agent_id,
                executor_id,
                data: data@,
            },
            Action::Failure { agent_id, executor_id, status } => Effect::Failure {
                agent_id,
                executor_id,
                status,
            },
            Action::Error { message } => Effect::Error { message },
            Action::Heartbeat => Effect::Heartbeat,
            Action::Send { call } => Effect::Send { call: call@ },
        }
    }
}

/// The effects that a list of actions stands for.
pub open spec fn effects_of(actions: Seq<Action>) -> Seq<Effect> {
    Seq::new(actions.len(), |i: int| actions[i]@)
}

} // verus!
