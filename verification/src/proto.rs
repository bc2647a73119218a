//! The messages of the protocol, as far as this library reads or fills them.
//! Binary layouts belong to the transport side; here a message is its fields.

use vstd::prelude::*;

verus! {

/// The session identity that the server assigns to a framework.
#[derive(Debug, PartialEq, Eq, Hash)]
pub struct FrameworkID {
    pub value: String,
}

/// The identity of an agent, the owner of offers.
#[derive(Debug, PartialEq, Eq, Hash)]
pub struct AgentID {
    pub value: String,
}

#[derive(Debug, PartialEq, Eq, Hash)]
pub struct TaskID {
    pub value: String,
}

#[derive(Debug, PartialEq, Eq, Hash)]
pub struct OfferID {
    pub value: String,
}

#[derive(Debug, PartialEq, Eq, Hash)]
pub struct ExecutorID {
    pub value: String,
}

impl View for FrameworkID {
    type V = Seq<char>;

    open spec fn view(&self) -> Seq<char> {
        self.value@
    }
}

impl View for AgentID {
    type V = Seq<char>;

    open spec fn view(&self) -> Seq<char> {
        self.value@
    }
}

impl View for TaskID {
    type V = Seq<char>;

    open spec fn view(&self) -> Seq<char> {
        self.value@
    }
}

impl View for OfferID {
    type V = Seq<char>;

    open spec fn view(&self) -> Seq<char> {
        self.value@
    }
}

impl View for ExecutorID {
    type V = Seq<char>;

    open spec fn view(&self) -> Seq<char> {
        self.value@
    }
}

impl Clone for FrameworkID {
    fn clone(&self) -> (copy: Self)
        ensures
            copy == *self,
    {
        FrameworkID { value: self.value.clone() }
    }
}

impl Clone for AgentID {
    fn clone(&self) -> (copy: Self)
        ensures
            copy == *self,
    {
        AgentID { value: self.value.clone() }
    }
}

impl Clone for TaskID {
    fn clone(&self) -> (copy: Self)
        ensures
            copy == *self,
    {
        TaskID { value: self.value.clone() }
    }
}

impl Clone for OfferID {
    fn clone(&self) -> (copy: Self)
        ensures
            copy == *self,
    {
        OfferID { value: self.value.clone() }
    }
}

impl Clone for ExecutorID {
    fn clone(&self) -> (copy: Self)
        ensures
            copy == *self,
    {
        ExecutorID { value: self.value.clone() }
    }
}

/// A number of seconds, or another scalar quantity, that the wire carries as
/// an IEEE 754 double. The library never computes with it: it holds the 64
/// bits and hands them on.
#[derive(Clone, Copy, Debug, PartialEq, Eq, Structural)]
pub struct Scalar {
    pub bits: u64,
}

/// A scalar resource: a named quantity under a role.
#[derive(Clone, Debug, PartialEq, Eq)]
pub struct Resource {
    pub name: String,
    pub role: String,
    pub scalar: Scalar,
}

/// Resources that an agent offers to the framework.
#[derive(Clone, Debug, PartialEq, Eq)]
pub struct Offer {
    pub id: OfferID,
    pub agent_id: AgentID,
    pub resources: Vec<Resource>,
}

/// Something that belongs to one agent.
pub trait AgentOwned {
    /// The identity of the owning agent.
    spec fn owner(&self) -> Seq<char>;

    fn agent(&self) -> (id: &AgentID)
        ensures
            id@ == self.owner(),
    ;
}


/// A request of the server that the framework give resources of an agent back.
#[derive(Clone, Debug, PartialEq, Eq)]
pub struct InverseOffer {
    pub id: OfferID,
    pub agent_id: AgentID,
}

impl AgentOwned for Offer {
    open spec fn owner(&self) -> Seq<char> {
        self.agent_id@
    }

    fn agent(&self) -> (id: &AgentID) {
        &self.agent_id
    }
}

impl AgentOwned for InverseOffer {
    open spec fn owner(&self) -> Seq<char> {
        self.agent_id@
    }

    fn agent(&self) -> (id: &AgentID) {
        &self.agent_id
    }
}

/// The state of a task as an agent reports it. `uuid` is the token by which
/// the report is acknowledged.
#[derive(Clone, Debug, PartialEq, Eq)]
pub struct TaskStatus {
    pub task_id: TaskID,
    pub agent_id: AgentID,
    pub uuid: Vec<u8>,
}

/// What the server sends down the subscription stream.
#[allow(inconsistent_fields)]
#[derive(Clone, Debug, PartialEq, Eq)]
pub enum Event {
    Subscribed { framework_id: FrameworkID, heartbeat_interval_seconds: Option<Scalar> },
    Offers { offers: Vec<Offer>, inverse_offers: Vec<InverseOffer> },
    Rescind { offer_id: OfferID },
    Update { status: TaskStatus },
    Message { agent_id: AgentID, executor_id: ExecutorID, data: Vec<u8> },
    Failure { agent_id: Option<AgentID>, executor_id: Option<ExecutorID>, status: Option<i32> },
    Error { message: String },
    Heartbeat,
}

/// How long declined resources are not offered again.
#[derive(Clone, Copy, Debug, PartialEq, Eq, Structural)]
pub struct Filters {
    pub refuse_seconds: Scalar,
}

#[derive(Clone, Debug, PartialEq, Eq)]
pub struct FrameworkInfo {
    pub user: String,
    pub name: String,
    pub failover_timeout: Scalar,
    pub id: Option<FrameworkID>,
}

#[derive(Debug, PartialEq, Eq)]
pub struct CommandInfo {
    pub value: String,
}

#[derive(Debug, PartialEq, Eq)]
pub struct ContainerInfo {
    pub image: String,
}

impl Clone for CommandInfo {
    fn clone(&self) -> (copy: Self)
        ensures
            copy == *self,
    {
        CommandInfo { value: self.value.clone() }
    }
}

impl Clone for ContainerInfo {
    fn clone(&self) -> (copy: Self)
        ensures
            copy == *self,
    {
        ContainerInfo { image: self.image.clone() }
    }
}


#[derive(Clone, Debug, PartialEq, Eq)]
pub struct TaskInfo {
    pub name: String,
    pub task_id: TaskID,
    pub agent_id: AgentID,
    pub command: CommandInfo,
    pub container: Option<ContainerInfo>,
    pub resources: Vec<Resource>,
}

/// What to do with accepted offers.
#[derive(Clone, Debug, PartialEq, Eq)]
pub enum Operation {
    Launch { task_infos: Vec<TaskInfo> },
}

/// Resources that the framework asks for.
#[derive(Clone, Debug, PartialEq, Eq)]
pub struct Request {
    pub agent_id: Option<AgentID>,
    pub resources: Vec<Resource>,
}

/// A task whose state the framework wants reported again.
#[derive(Clone, Debug, PartialEq, Eq)]
pub struct ReconcileTask {
    pub task_id: TaskID,
    pub agent_id: Option<AgentID>,
}

/// The kinds of call, each with its own fields.
#[allow(inconsistent_fields)]
#[derive(Clone, Debug, PartialEq, Eq)]
pub enum CallBody {
    Subscribe { framework_info: FrameworkInfo },
    Teardown,
    Accept { offer_ids: Vec<OfferID>, operations: Vec<Operation>, filters: Option<Filters> },
    Decline { offer_ids: Vec<OfferID>, filters: Option<Filters> },
    Revive,
    Kill { task_id: TaskID, agent_id: Option<AgentID> },
    Shutdown { executor_id: ExecutorID, agent_id: AgentID },
    Acknowledge { agent_id: AgentID, task_id: TaskID, uuid: Vec<u8> },
    Reconcile { tasks: Vec<ReconcileTask> },
    Message { agent_id: AgentID, executor_id: ExecutorID, data: Vec<u8> },
    Request { requests: Vec<Request> },
    Suppress,
}

/// What the framework sends to the server: the session identity, where there
/// is one, and the call itself.
#[derive(Clone, Debug, PartialEq, Eq)]
pub struct Call {
    pub framework_id: Option<FrameworkID>,
    pub body: CallBody,
}

/// An executor as the agent knows it.
#[derive(Clone, Debug, PartialEq, Eq)]
pub struct ExecutorInfo {
    pub executor_id: ExecutorID,
    pub framework_id: FrameworkID,
}

/// The agent that an executor runs on.
#[derive(Clone, Debug, PartialEq, Eq)]
pub struct AgentInfo {
    pub id: AgentID,
    pub hostname: String,
}

/// A status that an executor reports, with the time of the report and the
/// token by which it is acknowledged.
#[derive(Clone, Debug, PartialEq, Eq)]
pub struct StatusUpdate {
    pub status: TaskStatus,
    pub timestamp: Scalar,
    pub uuid: Vec<u8>,
}

/// The kinds of call that an executor makes.
#[derive(Clone, Debug, PartialEq, Eq)]
pub enum ExecutorCallBody {
    /// Opens the stream, with the tasks and updates that the agent has not
    /// acknowledged yet.
    Subscribe { tasks: Vec<TaskInfo>, updates: Vec<StatusUpdate> },
    Update { update: StatusUpdate },
    Message { data: Vec<u8> },
}

/// What an executor sends to its agent: its identities, where it has them,
/// and the call itself.
#[derive(Clone, Debug, PartialEq, Eq)]
pub struct ExecutorCall {
    pub framework_id: Option<FrameworkID>,
    pub executor_id: Option<ExecutorID>,
    pub body: ExecutorCallBody,
}

/// A call body with its lists as sequences.
#[allow(inconsistent_fields)]
pub enum CallBodyView {
    Subscribe { framework_info: FrameworkInfo },
    Teardown,
    Accept { offer_ids: Seq<OfferID>, operations: Seq<Operation>, filters: Option<Filters> },
    Decline { offer_ids: Seq<OfferID>, filters: Option<Filters> },
    Revive,
    Kill { task_id: TaskID, agent_id: Option<AgentID> },
    Shutdown { executor_id: ExecutorID, agent_id: AgentID },
    Acknowledge { agent_id: AgentID, task_id: TaskID, uuid: Seq<u8> },
    Reconcile { tasks: Seq<ReconcileTask> },
    Message { agent_id: AgentID, executor_id: ExecutorID, data: Seq<u8> },
    Request { requests: Seq<Request> },
    Suppress,
}

/// A call as a value: its session identity and its body.
pub struct CallView {
    pub framework_id: Option<FrameworkID>,
    pub body: CallBodyView,
}

impl View for CallBody {
    type V = CallBodyView;

    open spec fn view(&self) -> CallBodyView {
        match *self {
            CallBody::Subscribe { framework_info } => CallBodyView::Subscribe { framework_info },
            CallBody::Teardown => CallBodyView::Teardown,
            CallBody::Accept { offer_ids, operations, filters } => CallBodyView::Accept {
                offer_ids: offer_ids@,
                operations: operations@,
                filters,
            },
            CallBody::Decline { offer_ids, filters } => CallBodyView::Decline {
                offer_ids: offer_ids@,
                filters,
            },
            CallBody::Revive => CallBodyView::Revive,
            CallBody::Kill { task_id, agent_id } => CallBodyView::Kill { task_id, agent_id },
            CallBody::Shutdown { executor_id, agent_id } => CallBodyView::Shutdown {
                executor_id,
                agent_id,
            },
            CallBody::Acknowledge { agent_id, task_id, uuid } => CallBodyView::Acknowledge {
                agent_id,
                task_id,
                uuid: uuid@,
            },
            CallBody::Reconcile { tasks } => CallBodyView::Reconcile { tasks: tasks@ },
            CallBody::Message { agent_id, executor_id, data } => CallBodyView::Message {
                agent_id,
                executor_id,
                data: data@,
            },
            CallBody::Request { requests } => CallBodyView::Request { requests: requests@ },
            CallBody::Suppress => CallBodyView::Suppress,
        }
    }
}

impl View for Call {
    type V = CallView;

    open spec fn view(&self) -> CallView {
        CallView { framework_id: self.framework_id, body: self.body@ }
    }
}

} // verus!
