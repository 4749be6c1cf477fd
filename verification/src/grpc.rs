//! The remote procedure handlers of the head node and of the workers:
//! request validation and the replies.
use vstd::prelude::*;
use crate::common::{parse_uuid, uuid_parse_outcome, NodeInfo, NodeType};
use crate::head::{with_worker, HeadNode, WorkerView};
use crate::scheduler::load_balancer::with_registered;
use crate::text::{copy_text, join_text};
use crate::worker::reconnect::{HeartbeatRequest, RegisterWorkerRequest, WorkerStatus};

verus! {

/// Kind of a refused call.
#[derive(Debug, Clone, Copy, PartialEq, Eq, Structural)]
pub enum Code {
    /// The request is malformed.
    InvalidArgument,
    /// The service failed.
    Internal,
}

/// Why a call was refused.
#[derive(Debug, Clone)]
pub struct Status {
    /// Kind of refusal.
    pub code: Code,
    /// What was wrong.
    pub message: String,
}

/// Reply to a registration.
#[derive(Debug, Clone)]
pub struct RegisterWorkerResponse {
    /// Whether the worker was registered.
    pub success: bool,
    /// A message for the worker.
    pub message: String,
}

/// Reply to a heartbeat.
#[derive(Debug, Clone, Copy, PartialEq, Eq, Structural)]
pub struct HeartbeatResponse {
    /// Whether the heartbeat was accepted.
    pub success: bool,
}

/// A request to run a task on a worker.
#[derive(Debug, Clone)]
pub struct ExecuteTaskRequest {
    /// Id of the task, as text.
    pub task_id: String,
    /// Function to run.
    pub function_name: String,
    /// Serialized positional arguments.
    pub args: Vec<Vec<u8>>,
    /// Keyword arguments.
    pub kwargs: Vec<(String, String)>,
}

/// A refusal because the request is malformed.
pub open spec fn invalid_argument(s: Status, message: Seq<char>) -> bool {
    s.code == Code::InvalidArgument && s.message@ == message
}

/// A parse result with its error text as characters.
pub open spec fn parsed_view(parsed: Result<u128, String>) -> Result<u128, Seq<char>> {
    match parsed {
        Ok(u) => Ok(u),
        Err(m) => Err(m@),
    }
}

/// What a registration does once the worker id was read as `parsed`: the
/// reply `r`, and the head node going from `before` to `after`.
pub open spec fn registration(
    before: HeadNode,
    after: HeadNode,
    parsed: Result<u128, Seq<char>>,
    req: RegisterWorkerRequest,
    now: u64,
    r: Result<RegisterWorkerResponse, Status>,
) -> bool {
    match parsed {
        Err(e) => (r matches Err(s) && invalid_argument(s, "Invalid UUID: "@ + e)) && after == before,
        Ok(id) => if req.address@.len() == 0 {
            (r matches Err(s) && invalid_argument(s, "Worker address cannot be empty"@)) && after == before
        } else {
            &&& r matches Ok(resp) && resp.success && resp.message@ == "Worker registered successfully"@
            &&& after.workers() == with_worker(
                before.workers(),
                WorkerView {
                    id,
                    node_type: NodeType::Worker,
                    address: req.address@,
                    port: req.port as u16,
                    last_heartbeat: now,
                    memory: None,
                    running_tasks: 0,
                },
            )
            &&& after.balancer().nodes() == with_registered(before.balancer().nodes(), id)
            &&& after.balancer().strategy() == before.balancer().strategy()
            &&& after.graph() == before.graph()
            &&& after.head_state() == before.head_state()
            &&& after.config() == before.config()
        },
    }
}

/// The reply to a heartbeat whose worker id was read as `parsed`.
pub open spec fn heartbeat_reply(parsed: Result<u128, Seq<char>>, r: Result<HeartbeatResponse, Status>) -> bool {
    match parsed {
        Err(e) => r matches Err(s) && invalid_argument(s, "Invalid UUID: "@ + e),
        Ok(_) => r == Ok::<HeartbeatResponse, Status>(HeartbeatResponse { success: true }),
    }
}

/// The verdict on a task request whose task id was read as `parsed`.
pub open spec fn execute_verdict(parsed: Result<u128, Seq<char>>, req: ExecuteTaskRequest, r: Result<u128, Status>) -> bool {
    match parsed {
        Err(e) => r matches Err(s) && invalid_argument(s, "Invalid task ID: "@ + e),
        Ok(id) => if req.function_name@.len() == 0 {
            r matches Err(s) && invalid_argument(s, "Function name cannot be empty"@)
        } else {
            r == Ok::<u128, Status>(id)
        },
    }
}

/// The head node's service.
pub struct HeadServiceImpl {
    /// The head node it serves.
    pub head: HeadNode,
}

impl HeadServiceImpl {
    /// Registration once the worker id was read as `parsed`: a worker id that
    /// is not a UUID is refused ("Invalid UUID: " and the parser's message),
    /// then an empty address ("Worker address cannot be empty"); otherwise
    /// the worker, with the port cut to 16 bits, is registered with the head
    /// node at `now` and the reply says so.
    pub fn register_parsed_worker(
        &mut self,
        parsed: Result<u128, String>,
        req: RegisterWorkerRequest,
        now: u64,
    ) -> (r: Result<RegisterWorkerResponse, Status>)
        requires
            old(self).head.wf(),
        ensures
            final(self).head.wf(),
            registration(old(self).head, final(self).head, parsed_view(parsed), req, now, r),
    {
        let node_id = match parsed {
            Ok(id) => id,
            Err(e) => {
                return Err(Status { code: Code::InvalidArgument, message: join_text("Invalid UUID: ", e.as_str()) });
            },
        };
        if req.address.as_str().unicode_len() == 0 {
            return Err(
                Status { code: Code::InvalidArgument, message: copy_text("Worker address cannot be empty") },
            );
        }
        let node_info = NodeInfo {
            node_id,
            node_type: NodeType::Worker,
            address: req.address,
            port: req.port as u16,
        };
        let _ = self.head.register_worker(node_info, now);
        Ok(RegisterWorkerResponse { success: true, message: copy_text("Worker registered successfully") })
    }

    /// Handles a registration at `now`: reads the worker id with the UUID
    /// parser, then proceeds as `register_parsed_worker`.
    pub fn register_worker(&mut self, req: RegisterWorkerRequest, now: u64) -> (r: Result<RegisterWorkerResponse, Status>)
        requires
            old(self).head.wf(),
        ensures
            final(self).head.wf(),
            registration(old(self).head, final(self).head, uuid_parse_outcome(req.worker_id@), req, now, r),
    {
        let parsed = parse_uuid(req.worker_id.as_str());
        self.register_parsed_worker(parsed, req, now)
    }

    /// A heartbeat once the worker id was read as `parsed`: refused when the
    /// id is not a UUID ("Invalid UUID: " and the parser's message), and
    /// otherwise accepted.
    pub fn heartbeat_parsed(&self, parsed: Result<u128, String>) -> (r: Result<HeartbeatResponse, Status>)
        ensures
            heartbeat_reply(parsed_view(parsed), r),
    {
        match parsed {
            Ok(_) => Ok(HeartbeatResponse { success: true }),
            Err(e) => Err(Status { code: Code::InvalidArgument, message: join_text("Invalid UUID: ", e.as_str()) }),
        }
    }

    /// Handles a heartbeat: reads the worker id with the UUID parser, then
    /// proceeds as `heartbeat_parsed`.
    pub fn heartbeat(&self, req: HeartbeatRequest) -> (r: Result<HeartbeatResponse, Status>)
        ensures
            heartbeat_reply(uuid_parse_outcome(req.worker_id@), r),
    {
        let parsed = parse_uuid(req.worker_id.as_str());
        self.heartbeat_parsed(parsed)
    }
}

/// Checks a task request once its task id was read as `parsed`: a task id
/// that is not a UUID is refused ("Invalid task ID: " and the parser's
/// message), then an empty function name ("Function name cannot be empty");
/// otherwise the task id is given back.
pub fn check_parsed_execute_request(parsed: Result<u128, String>, req: &ExecuteTaskRequest) -> (r: Result<u128, Status>)
    ensures
        execute_verdict(parsed_view(parsed), *req, r),
{
    let task_id = match parsed {
        Ok(id) => id,
        Err(e) => {
            return Err(Status { code: Code::InvalidArgument, message: join_text("Invalid task ID: ", e.as_str()) });
        },
    };
    if req.function_name.as_str().unicode_len() == 0 {
        return Err(Status { code: Code::InvalidArgument, message: copy_text("Function name cannot be empty") });
    }
    Ok(task_id)
}

/// Checks a task request: reads the task id with the UUID parser, then
/// proceeds as `check_parsed_execute_request`.
pub fn check_execute_request(req: &ExecuteTaskRequest) -> (r: Result<u128, Status>)
    ensures
        execute_verdict(uuid_parse_outcome(req.task_id@), *req, r),
{
    let parsed = parse_uuid(req.task_id.as_str());
    check_parsed_execute_request(parsed, req)
}

/// Reply to a status request.
#[derive(Debug, Clone, Copy, PartialEq, Eq, Structural)]
pub struct GetStatusResponse {
    /// The worker's figures.
    pub status: Option<WorkerStatus>,
}

/// The worker service's answer to a status request: figures of zero, as the
/// service does not measure them.
pub fn get_status_response() -> (r: GetStatusResponse)
    ensures
        r == (GetStatusResponse { status: Some(WorkerStatus { cpu_usage: 0, memory_usage: 0, task_count: 0 }) }),
{
    GetStatusResponse { status: Some(WorkerStatus { cpu_usage: 0, memory_usage: 0, task_count: 0 }) }
}

} // verus!
