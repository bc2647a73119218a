use mesos::proto::{
    AgentID, Call, CallBody, CommandInfo, ContainerInfo, ExecutorCall, ExecutorCallBody,
    ExecutorID, Filters, FrameworkID, FrameworkInfo, OfferID, Operation, ReconcileTask, Request,
    Resource, Scalar, StatusUpdate, TaskID, TaskInfo, TaskStatus,
};
use mesos::util;
use mesos::{ExecutorClient, SchedulerClient};

fn fw(id: &str) -> FrameworkID {
    FrameworkID { value: id.to_string() }
}

fn agent(id: &str) -> AgentID {
    AgentID { value: id.to_string() }
}

fn task(id: &str) -> TaskID {
    TaskID { value: id.to_string() }
}

fn offer(id: &str) -> OfferID {
    OfferID { value: id.to_string() }
}

fn executor(id: &str) -> ExecutorID {
    ExecutorID { value: id.to_string() }
}

fn info() -> FrameworkInfo {
    FrameworkInfo {
        user: "root".to_string(),
        name: "rust http".to_string(),
        failover_timeout: Scalar { bits: 0f64.to_bits() },
        id: None,
    }
}

fn subscribed_client() -> SchedulerClient {
    SchedulerClient::new("http://localhost:5050/api/v1/scheduler".to_string(), Some(fw("fw-123")))
}

#[test]
fn first_subscribe_carries_no_session() {
    let client = SchedulerClient::new("http://localhost:5050".to_string(), None);
    assert_eq!(client.get_framework_id(), None);
    let call = client.subscribe(info(), None);
    assert_eq!(call, Call { framework_id: None, body: CallBody::Subscribe { framework_info: info() } });
}

#[test]
fn resubscribe_carries_the_session() {
    let client = subscribed_client();
    let call = client.subscribe(info(), Some(true));
    let mut expected = info();
    expected.id = Some(fw("fw-123"));
    assert_eq!(
        call,
        Call {
            framework_id: Some(fw("fw-123")),
            body: CallBody::Subscribe { framework_info: expected },
        }
    );
}

#[test]
fn set_framework_id_replaces_the_session() {
    let mut client = SchedulerClient::new("u".to_string(), None);
    client.set_framework_id(fw("fw-1"));
    assert_eq!(client.get_framework_id(), Some(fw("fw-1")));
    client.set_framework_id(fw("fw-2"));
    assert_eq!(client.get_framework_id(), Some(fw("fw-2")));
    assert_eq!(client.url, "u");
    assert_eq!(client.teardown().framework_id, Some(fw("fw-2")));
}

#[test]
fn every_kind_of_call_carries_the_session() {
    let client = subscribed_client();
    let filters = Some(Filters { refuse_seconds: Scalar { bits: 5f64.to_bits() } });
    let calls = vec![
        client.subscribe(info(), None),
        client.teardown(),
        client.accept(vec![offer("o1")], vec![], filters),
        client.launch(vec![offer("o1")], vec![], None),
        client.decline(vec![offer("o1")], None),
        client.revive(),
        client.kill(task("t1"), None),
        client.shutdown(executor("e1"), agent("a1")),
        client.acknowledge(agent("a1"), task("t1"), vec![1, 2]),
        client.reconcile_task(task("t1"), Some(agent("a1"))),
        client.reconcile(vec![]),
        client.message(agent("a1"), executor("e1"), vec![9]),
        client.request(vec![]),
        client.suppress(),
        client.stamp(CallBody::Revive),
    ];
    assert_eq!(calls.len(), 15);
    for call in calls {
        assert_eq!(call.framework_id, Some(fw("fw-123")));
    }
}

#[test]
fn calls_without_a_session_carry_none() {
    let client = SchedulerClient::new("u".to_string(), None);
    assert_eq!(client.teardown(), Call { framework_id: None, body: CallBody::Teardown });
    assert_eq!(client.revive(), Call { framework_id: None, body: CallBody::Revive });
    assert_eq!(client.suppress(), Call { framework_id: None, body: CallBody::Suppress });
}

#[test]
fn call_bodies_hold_their_arguments() {
    let client = subscribed_client();
    let filters = Some(Filters { refuse_seconds: Scalar { bits: 5f64.to_bits() } });
    let op = Operation::Launch { task_infos: vec![] };
    assert_eq!(
        client.accept(vec![offer("o1"), offer("o2")], vec![op.clone()], filters).body,
        CallBody::Accept {
            offer_ids: vec![offer("o1"), offer("o2")],
            operations: vec![op],
            filters,
        }
    );
    assert_eq!(
        client.decline(vec![offer("o3")], filters).body,
        CallBody::Decline { offer_ids: vec![offer("o3")], filters }
    );
    assert_eq!(
        client.kill(task("t1"), Some(agent("a1"))).body,
        CallBody::Kill { task_id: task("t1"), agent_id: Some(agent("a1")) }
    );
    assert_eq!(
        client.kill(task("t1"), None).body,
        CallBody::Kill { task_id: task("t1"), agent_id: None }
    );
    assert_eq!(
        client.shutdown(executor("e1"), agent("a1")).body,
        CallBody::Shutdown { executor_id: executor("e1"), agent_id: agent("a1") }
    );
    assert_eq!(
        client.acknowledge(agent("a1"), task("t1"), vec![0xAB]).body,
        CallBody::Acknowledge { agent_id: agent("a1"), task_id: task("t1"), uuid: vec![0xAB] }
    );
    assert_eq!(
        client.message(agent("a1"), executor("e1"), vec![1, 2, 3]).body,
        CallBody::Message { agent_id: agent("a1"), executor_id: executor("e1"), data: vec![1, 2, 3] }
    );
    let request = Request { agent_id: Some(agent("a1")), resources: vec![] };
    assert_eq!(
        client.request(vec![request.clone()]).body,
        CallBody::Request { requests: vec![request] }
    );
}

#[test]
fn reconcile_task_asks_for_one_task() {
    let client = subscribed_client();
    assert_eq!(
        client.reconcile_task(task("t1"), None).body,
        CallBody::Reconcile { tasks: vec![ReconcileTask { task_id: task("t1"), agent_id: None }] }
    );
    assert_eq!(client.reconcile(vec![]).body, CallBody::Reconcile { tasks: vec![] });
}

#[test]
fn launch_accepts_with_one_launch_operation() {
    let client = subscribed_client();
    let t = util::task_info(
        "sleepy-1",
        &task("sleepy-1"),
        &agent("a1"),
        &CommandInfo { value: "sleep 1".to_string() },
        vec![util::scalar("cpus", "*", Scalar { bits: 1f64.to_bits() })],
    );
    let call = client.launch(vec![offer("o1")], vec![t.clone()], None);
    assert_eq!(
        call,
        Call {
            framework_id: Some(fw("fw-123")),
            body: CallBody::Accept {
                offer_ids: vec![offer("o1")],
                operations: vec![Operation::Launch { task_infos: vec![t] }],
                filters: None,
            },
        }
    );
}

#[test]
fn builders_fill_their_fields() {
    assert_eq!(util::framework_id("fw-123"), fw("fw-123"));
    assert_eq!(util::task_id("t-9"), task("t-9"));
    assert_eq!(util::framework_info("root", "rust http", Scalar { bits: 0f64.to_bits() }), info());
    let mem = util::scalar("mem", "*", Scalar { bits: 128f64.to_bits() });
    assert_eq!(
        mem,
        Resource {
            name: "mem".to_string(),
            role: "*".to_string(),
            scalar: Scalar { bits: 0x4060000000000000 },
        }
    );
    let command = CommandInfo { value: "env".to_string() };
    let plain = util::task_info("n", &task("t"), &agent("a"), &command, vec![mem.clone()]);
    assert_eq!(
        plain,
        TaskInfo {
            name: "n".to_string(),
            task_id: task("t"),
            agent_id: agent("a"),
            command: command.clone(),
            container: None,
            resources: vec![mem.clone()],
        }
    );
    let container = ContainerInfo { image: "busybox".to_string() };
    let boxed =
        util::task_info_for_container("n", &task("t"), &agent("a"), &command, &container, vec![]);
    assert_eq!(boxed.container, Some(container));
    assert_eq!(boxed.resources, vec![]);
    assert_eq!(
        util::launch_operation(vec![plain.clone()]),
        Operation::Launch { task_infos: vec![plain] }
    );
}

#[test]
fn executor_calls_carry_both_identities() {
    let client = ExecutorClient {
        url: "http://localhost:5051/api/v1/executor".to_string(),
        framework_id: Some(fw("fw-123")),
        executor_id: Some(executor("e1")),
    };
    let status = TaskStatus { task_id: task("t1"), agent_id: agent("a1"), uuid: vec![] };
    assert_eq!(
        client.subscribe(vec![], vec![]),
        ExecutorCall {
            framework_id: Some(fw("fw-123")),
            executor_id: Some(executor("e1")),
            body: ExecutorCallBody::Subscribe { tasks: vec![], updates: vec![] },
        }
    );
    let timestamp = Scalar { bits: 1.5f64.to_bits() };
    assert_eq!(
        client.update(status.clone(), timestamp, vec![7]),
        ExecutorCall {
            framework_id: Some(fw("fw-123")),
            executor_id: Some(executor("e1")),
            body: ExecutorCallBody::Update {
                update: StatusUpdate { status, timestamp, uuid: vec![7] },
            },
        }
    );
    assert_eq!(client.message(vec![1]).body, ExecutorCallBody::Message { data: vec![1] });
}

#[test]
fn executor_calls_without_identities() {
    let client = ExecutorClient { url: "u".to_string(), framework_id: None, executor_id: None };
    assert_eq!(
        client.stamp(ExecutorCallBody::Message { data: vec![] }),
        ExecutorCall {
            framework_id: None,
            executor_id: None,
            body: ExecutorCallBody::Message { data: vec![] },
        }
    );
}
