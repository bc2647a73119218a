//! Client-side protocol engine for a resource-offer cluster manager's
//! streaming HTTP API: record framing, session identity, call construction
//! and event dispatch.

pub mod executor;
pub mod executor_client;
pub mod proto;
pub mod recordio;
pub mod scheduler;
pub mod scheduler_client;
pub mod scheduler_event_stream;
pub mod scheduler_router;
pub mod util;

pub use executor::Executor;
pub use executor_client::ExecutorClient;
pub use recordio::RecordIOCodec;
pub use scheduler::SchedulerConf;
pub use scheduler_client::SchedulerClient;
pub use scheduler_router::ProtobufCallbackRouter;
