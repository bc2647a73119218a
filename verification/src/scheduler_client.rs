//! The session client: it holds the session identity and builds every call
//! that a framework makes, each stamped with that identity.

use vstd::prelude::*;
use crate::proto::{
    AgentID, Call, CallBody, CallBodyView, ExecutorID, Filters, FrameworkID, FrameworkInfo, OfferID, Operation,
    ReconcileTask, Request, TaskID, TaskInfo,
};
use crate::util;

verus! {

#[derive(Clone, Debug, PartialEq, Eq)]
pub struct SchedulerClient {
    /// Where calls are posted.
    pub url: String,
    /// The session identity: absent until the server assigns one, unless an
    /// earlier session is taken up again.
    pub framework_id: Option<FrameworkID>,
}

/// The framework description that a Subscribe call carries: the one given,
/// with the session identity written into it where there is one.
pub open spec fn resumed(framework_info: FrameworkInfo, session: Option<FrameworkID>)
    -> FrameworkInfo {
    FrameworkInfo {
        user: framework_info.user,
        name: framework_info.name,
        failover_timeout: framework_info.failover_timeout,
        id: if session is Some {
            session
        } else {
            framework_info.id
        },
    }
}

impl SchedulerClient {
    pub fn new(url: String, framework_id: Option<FrameworkID>) -> (client: SchedulerClient)
        ensures
            client.url == url,
            client.framework_id == framework_id,
    {
        SchedulerClient { url, framework_id }
    }

    /// A copy of the session identity as it is now.
    pub fn get_framework_id(&self) -> (id: Option<FrameworkID>)
        ensures
            id == self.framework_id,
    {
        match &self.framework_id {
            Some(id) => Some(id.clone()),
            None => None,
        }
    }

    /// Takes the identity that the server assigned.
    pub fn set_framework_id(&mut self, id: FrameworkID)
        ensures
            final(self).url == old(self).url,
            final(self).framework_id == Some(id),
    {
        self.framework_id = Some(id);
    }

    /// The call that goes out for a body: the body under the session
    /// identity of this moment.
    pub open spec fn stamped(&self, body: CallBody) -> Call {
        Call { framework_id: self.framework_id, body }
    }

    /// Stamps a call body with the session identity.
    pub fn stamp(&self, body: CallBody) -> (call: Call)
        ensures
            call == self.stamped(body),
    {
        Call { framework_id: self.get_framework_id(), body }
    }

    /// The call that opens the event stream. On a first connection it names
    /// no session; after that it names the session to take up again, in the
    /// call and in the framework description. `force` is accepted and not
    /// sent.
    pub fn subscribe(&self, framework_info: FrameworkInfo, force: Option<bool>) -> (call: Call)
        ensures
            call == self.stamped(
                CallBody::Subscribe { framework_info: resumed(framework_info, self.framework_id) },
            ),
    {
        let mut framework_info = framework_info;
        match self.get_framework_id() {
            Some(id) => {
                framework_info.id = Some(id);
            },
            None => {},
        }
        self.stamp(CallBody::Subscribe { framework_info })
    }

    pub fn teardown(&self) -> (call: Call)
        ensures
            call == self.stamped(CallBody::Teardown),
    {
        self.stamp(CallBody::Teardown)
    }

    /// Accepts offers to launch the given tasks on them.
    pub fn launch(
        &self,
        offer_ids: Vec<OfferID>,
        tasks: Vec<TaskInfo>,
        filters: Option<Filters>,
    ) -> (call: Call)
        ensures
            call.framework_id == self.framework_id,
            call@.body == (CallBodyView::Accept {
                offer_ids: offer_ids@,
                operations: seq![Operation::Launch { task_infos: tasks }],
                filters,
            }),
    {
        let operation = util::launch_operation(tasks);
        let mut operations: Vec<Operation> = Vec::new();
        operations.push(operation);
        self.accept(offer_ids, operations, filters)
    }

    pub fn accept(
        &self,
        offer_ids: Vec<OfferID>,
        operations: Vec<Operation>,
        filters: Option<Filters>,
    ) -> (call: Call)
        ensures
            call == self.stamped(CallBody::Accept { offer_ids, operations, filters }),
    {
        self.stamp(CallBody::Accept { offer_ids, operations, filters })
    }

    pub fn decline(&self, offer_ids: Vec<OfferID>, filters: Option<Filters>) -> (call: Call)
        ensures
            call == self.stamped(CallBody::Decline { offer_ids, filters }),
    {
        self.stamp(CallBody::Decline { offer_ids, filters })
    }

    pub fn revive(&self) -> (call: Call)
        ensures
            call == self.stamped(CallBody::Revive),
    {
        self.stamp(CallBody::Revive)
    }

    pub fn kill(&self, task_id: TaskID, agent_id: Option<AgentID>) -> (call: Call)
        ensures
            call == self.stamped(CallBody::Kill { task_id, agent_id }),
    {
        self.stamp(CallBody::Kill { task_id, agent_id })
    }

    pub fn shutdown(&self, executor_id: ExecutorID, agent_id: AgentID) -> (call: Call)
        ensures
            call == self.stamped(CallBody::Shutdown { executor_id, agent_id }),
    {
        self.stamp(CallBody::Shutdown { executor_id, agent_id })
    }

    pub fn acknowledge(&self, agent_id: AgentID, task_id: TaskID, uuid: Vec<u8>) -> (call: Call)
        ensures
            call == self.stamped(CallBody::Acknowledge { agent_id, task_id, uuid }),
    {
        self.stamp(CallBody::Acknowledge { agent_id, task_id, uuid })
    }

    /// Asks for the state of one task.
    pub fn reconcile_task(&self, task_id: TaskID, agent_id: Option<AgentID>) -> (call: Call)
        ensures
            call.framework_id == self.framework_id,
            call@.body == (CallBodyView::Reconcile {
                tasks: seq![ReconcileTask { task_id, agent_id }],
            }),
    {
        let mut tasks: Vec<ReconcileTask> = Vec::new();
        tasks.push(ReconcileTask { task_id, agent_id });
        self.reconcile(tasks)
    }

    /// Asks for the state of the given tasks, or of all tasks if none is given.
    pub fn reconcile(&self, tasks: Vec<ReconcileTask>) -> (call: Call)
        ensures
            call == self.stamped(CallBody::Reconcile { tasks }),
    {
        self.stamp(CallBody::Reconcile { tasks })
    }

    pub fn message(
        &self,
        agent_id: AgentID,
        executor_id: ExecutorID,
        data: Vec<u8>,
    ) -> (call: Call)
        ensures
            call == self.stamped(CallBody::Message { agent_id, executor_id, data }),
    {
        self.stamp(CallBody::Message { agent_id, executor_id, data })
    }

    pub fn request(&self, requests: Vec<Request>) -> (call: Call)
        ensures
            call == self.stamped(CallBody::Request { requests }),
    {
        self.stamp(CallBody::Request { requests })
    }

    pub fn suppress(&self) -> (call: Call)
        ensures
            call == self.stamped(CallBody::Suppress),
    {
        self.stamp(CallBody::Suppress)
    }
}

} // verus!
