//! The client of an executor: it holds the identities of the framework and
//! of the executor and builds the calls that an executor makes.

use vstd::prelude::*;
use crate::proto::{
    ExecutorCall, ExecutorCallBody, ExecutorID, FrameworkID, Scalar, StatusUpdate, TaskInfo,
    TaskStatus,
};

verus! {

#[derive(Clone, Debug, PartialEq, Eq)]
pub struct ExecutorClient {
    /// Where calls are posted.
    pub url: String,
    pub framework_id: Option<FrameworkID>,
    pub executor_id: Option<ExecutorID>,
}

impl ExecutorClient {
    /// The call that goes out for a body: the body under the identities of
    /// this moment.
    pub open spec fn stamped(&self, body: ExecutorCallBody) -> ExecutorCall {
        ExecutorCall { framework_id: self.framework_id, executor_id: self.executor_id, body }
    }

    /// Stamps a call body with the identities of the framework and of the
    /// executor, each where the client has it.
    pub fn stamp(&self, body: ExecutorCallBody) -> (call: ExecutorCall)
        ensures
            call == self.stamped(body),
    {
        let framework_id = match &self.framework_id {
            Some(id) => Some(id.clone()),
            None => None,
        };
        let executor_id = match &self.executor_id {
            Some(id) => Some(id.clone()),
            None => None,
        };
        ExecutorCall { framework_id, executor_id, body }
    }

    pub fn subscribe(
        &self,
        tasks: Vec<TaskInfo>,
        updates: Vec<StatusUpdate>,
    ) -> (call: ExecutorCall)
        ensures
            call == self.stamped(ExecutorCallBody::Subscribe { tasks, updates }),
    {
        self.stamp(ExecutorCallBody::Subscribe { tasks, updates })
    }

    pub fn update(
        &self,
        status: TaskStatus,
        timestamp: Scalar,
        uuid: Vec<u8>,
    ) -> (call: ExecutorCall)
        ensures
            call == self.stamped(
                ExecutorCallBody::Update { update: StatusUpdate { status, timestamp, uuid } },
            ),
    {
        self.stamp(ExecutorCallBody::Update { update: StatusUpdate { status, timestamp, uuid } })
    }

    pub fn message(&self, data: Vec<u8>) -> (call: ExecutorCall)
        ensures
            call == self.stamped(ExecutorCallBody::Message { data }),
    {
        self.stamp(ExecutorCallBody::Message { data })
    }
}

} // verus!
