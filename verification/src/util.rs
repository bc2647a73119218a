//! Builders for the messages that a framework writes most often.

use vstd::prelude::*;
use crate::proto::{
    AgentID, CommandInfo, ContainerInfo, FrameworkID, FrameworkInfo, Operation, Resource, Scalar,
    TaskID, TaskInfo,
};

verus! {

pub fn framework_id(id: &str) -> (framework_id: FrameworkID)
    ensures
        framework_id@ == id@,
{
    FrameworkID { value: id.to_owned() }
}

/// The description of a framework that has no session yet.
pub fn framework_info(user: &str, name: &str, failover_timeout: Scalar) -> (info: FrameworkInfo)
    ensures
        info.user@ == user@,
        info.name@ == name@,
        info.failover_timeout == failover_timeout,
        info.id is None,
{
    FrameworkInfo { user: user.to_owned(), name: name.to_owned(), failover_timeout, id: None }
}

pub fn task_id(id: &str) -> (task_id: TaskID)
    ensures
        task_id@ == id@,
{
    TaskID { value: id.to_owned() }
}

/// A task that runs a command directly on the agent.
pub fn task_info(
    name: &str,
    task_id: &TaskID,
    agent_id: &AgentID,
    command: &CommandInfo,
    resources: Vec<Resource>,
) -> (info: TaskInfo)
    ensures
        info.name@ == name@,
        info.task_id == *task_id,
        info.agent_id == *agent_id,
        info.command == *command,
        info.container is None,
        info.resources == resources,
{
    TaskInfo {
        name: name.to_owned(),
        task_id: task_id.clone(),
        agent_id: agent_id.clone(),
        command: command.clone(),
        container: None,
        resources,
    }
}

/// A task that runs a command in a container.
pub fn task_info_for_container(
    name: &str,
    task_id: &TaskID,
    agent_id: &AgentID,
    command: &CommandInfo,
    container: &ContainerInfo,
    resources: Vec<Resource>,
) -> (info: TaskInfo)
    ensures
        info.name@ == name@,
        info.task_id == *task_id,
        info.agent_id == *agent_id,
        info.command == *command,
        info.container == Some(*container),
        info.resources == resources,
{
    TaskInfo {
        name: name.to_owned(),
        task_id: task_id.clone(),
        agent_id: agent_id.clone(),
        command: command.clone(),
        container: Some(container.clone()),
        resources,
    }
}

pub fn launch_operation(task_infos: Vec<TaskInfo>) -> (operation: Operation)
    ensures
        operation == (Operation::Launch { task_infos }),
{
    Operation::Launch { task_infos }
}

/// A scalar resource.
pub fn scalar(name: &str, role: &str, value: Scalar) -> (resource: Resource)
    ensures
        resource.name@ == name@,
        resource.role@ == role@,
        resource.scalar == value,
{
    Resource { name: name.to_owned(), role: role.to_owned(), scalar: value }
}

} // verus!
