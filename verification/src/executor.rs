//! The callbacks of an executor.

use vstd::prelude::*;
use crate::executor_client::ExecutorClient;
use crate::proto::{AgentInfo, ExecutorInfo, FrameworkInfo, TaskID, TaskInfo};

verus! {

/// What an executor does when its agent speaks to it. Each callback gets the
/// client, to make calls from within.
pub trait Executor {
    fn subscribed(
        &self,
        client: &ExecutorClient,
        executor_info: &ExecutorInfo,
        framework_info: &FrameworkInfo,
        agent_info: &AgentInfo,
    );

    fn launch(&self, client: &ExecutorClient, task_info: &TaskInfo);

    fn kill(&self, client: &ExecutorClient, task_id: &TaskID);

    fn acknowledged(&self, client: &ExecutorClient, task_id: &TaskID, uuid: Vec<u8>);

    fn message(&self, client: &ExecutorClient, data: Vec<u8>);

    fn shutdown(&self, client: &ExecutorClient);

    fn error(&self, client: &ExecutorClient, message: String);
}

} // verus!
