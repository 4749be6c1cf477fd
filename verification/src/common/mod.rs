//! Shared task and node model types.
use vstd::prelude::*;

pub mod object_store;

verus! {

/// Priority of a task; `Normal` is the default.
#[derive(Debug, Clone, Copy, PartialEq, Eq, Hash, Structural)]
pub enum TaskPriority {
    /// Critical task, highest priority.
    Critical,
    /// High priority.
    High,
    /// Ordinary task.
    Normal,
    /// Low priority.
    Low,
    /// Background task, lowest priority.
    Background,
}

impl Default for TaskPriority {
    fn default() -> (p: Self)
        ensures
            p == TaskPriority::Normal,
    {
        TaskPriority::Normal
    }
}

/// Outcome of a task execution.
#[derive(Debug)]
pub enum TaskResult {
    /// Waiting to run.
    Pending,
    /// Running.
    Running,
    /// Finished, with its output bytes.
    Completed(Vec<u8>),
    /// Failed, with an error message.
    Failed(String),
}

/// The contents of a [`TaskResult`].
pub enum TaskResultView {
    Pending,
    Running,
    Completed(Seq<u8>),
    Failed(Seq<char>),
}

impl View for TaskResult {
    type V = TaskResultView;

    open spec fn view(&self) -> TaskResultView {
        match self {
            TaskResult::Pending => TaskResultView::Pending,
            TaskResult::Running => TaskResultView::Running,
            TaskResult::Completed(v) => TaskResultView::Completed(v@),
            TaskResult::Failed(m) => TaskResultView::Failed(m@),
        }
    }
}

/// A copy of a byte vector.
pub fn copy_byte_vec(v: &Vec<u8>) -> (r: Vec<u8>)
    ensures
        r@ == v@,
{
    let mut r: Vec<u8> = Vec::new();
    let mut i: usize = 0;
    while i < v.len()
        invariant
            i <= v@.len(),
            r@ == v@.subrange(0, i as int),
        decreases v.len() - i,
    {
        r.push(v[i]);
        i = i + 1;
        assert(r@ =~= v@.subrange(0, i as int));
    }
    assert(v@.subrange(0, v@.len() as int) =~= v@);
    r
}

impl Clone for TaskResult {
    fn clone(&self) -> (r: Self)
        ensures
            r@ == self@,
    {
        match self {
            TaskResult::Pending => TaskResult::Pending,
            TaskResult::Running => TaskResult::Running,
            TaskResult::Completed(v) => TaskResult::Completed(copy_byte_vec(v)),
            TaskResult::Failed(m) => TaskResult::Failed(m.clone()),
        }
    }
}

/// Role of a node in the cluster.
#[derive(Debug, Clone, Copy, PartialEq, Eq, Structural)]
pub enum NodeType {
    /// Head node: scheduling and management.
    Head,
    /// Worker node: runs tasks.
    Worker,
}

/// A node of the cluster. Its id is the 128-bit value of its UUID.
#[derive(Debug, Clone)]
pub struct NodeInfo {
    /// Node id.
    pub node_id: u128,
    /// Role of the node.
    pub node_type: NodeType,
    /// Address.
    pub address: String,
    /// Port.
    pub port: u16,
}

/// Hexadecimal digit for a nibble.
pub open spec fn hex_digit(n: u128) -> char {
    if n < 10 {
        ((n + 48) as u32) as char
    } else {
        ((n + 87) as u32) as char
    }
}

/// Position, counted from the most significant end, of the nibble shown at
/// character `i` of the hyphenated form.
pub open spec fn nibble_at(i: int) -> int {
    if i < 8 {
        i
    } else if i < 13 {
        i - 1
    } else if i < 18 {
        i - 2
    } else if i < 23 {
        i - 3
    } else {
        i - 4
    }
}

/// The hyphenated lower-case form of a UUID (8-4-4-4-12 hexadecimal digits).
pub open spec fn uuid_text(u: u128) -> Seq<char> {
    Seq::new(
        36,
        |i: int|
            if i == 8 || i == 13 || i == 18 || i == 23 {
                '-'
            } else {
                hex_digit((u >> ((4 * (31 - nibble_at(i))) as u128)) & 15)
            },
    )
}

/// Renders a UUID, given by its 128-bit value, with `uuid::Uuid`'s
/// `Display`: hyphenated, lower-case hexadecimal.
#[verifier::external_body]
pub(crate) fn uuid_to_text(u: u128) -> (s: String)
    ensures
        s@ == uuid_text(u),
{
    uuid::Uuid::from_u128(u).to_string()
}

/// What `uuid::Uuid::parse_str` makes of a text: the 128-bit value it reads,
/// or the text of its error.
pub uninterp spec fn uuid_parse_outcome(s: Seq<char>) -> Result<u128, Seq<char>>;

/// Calls `uuid::Uuid::parse_str`, which reads the simple, hyphenated, braced
/// and URN forms; gives the value read, or the error's `Display` text. The
/// outcome is a function of the text alone, named `uuid_parse_outcome` and
/// not spelled out here.
#[verifier::external_body]
pub(crate) fn parse_uuid(s: &str) -> (r: Result<u128, String>)
    ensures
        match r {
            Ok(u) => uuid_parse_outcome(s@) == Ok::<u128, Seq<char>>(u),
            Err(m) => uuid_parse_outcome(s@) == Err::<u128, Seq<char>>(m@),
        },
{
    match uuid::Uuid::parse_str(s) {
        Ok(u) => Ok(u.as_u128()),
        Err(e) => Err(e.to_string()),
    }
}

/// Calls `uuid::Uuid::new_v4()` and gives its 128-bit value: a random id, of
/// which nothing is stated.
#[verifier::external_body]
pub(crate) fn new_uuid_value() -> u128 {
    uuid::Uuid::new_v4().as_u128()
}

/// A fresh random id in its hyphenated text form.
pub(crate) fn new_uuid_text() -> (s: String)
    ensures
        exists|u: u128| s@ == uuid_text(u),
        s@.len() == 36,
{
    let u = new_uuid_value();
    uuid_to_text(u)
}

/// Execution status of a task.
#[derive(Debug, Clone, Copy, PartialEq, Eq, Structural)]
pub enum TaskStatus {
    /// Waiting to run.
    Pending,
    /// Running.
    Running,
    /// Finished.
    Completed,
    /// Failed.
    Failed,
}

} // verus!
