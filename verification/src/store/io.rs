//! Decisions of the I/O loop of the store, which drives `io_uring` from one thread.
use vstd::prelude::*;
use vstd::string::*;

use super::error::StoreError;

verus! {

pub const DEFAULT_MAX_IO_DEPTH: u32 = 4096;

pub const DEFAULT_SQPOLL_IDLE_MS: u32 = 2000;

pub const DEFAULT_SQPOLL_CPU: u32 = 1;

pub const DEFAULT_MAX_BOUNDED_URING_WORKER_COUNT: u32 = 2;

pub const DEFAULT_MAX_UNBOUNDED_URING_WORKER_COUNT: u32 = 2;

/// How the I/O ring is set up.
pub struct Options {
    pub io_depth: u32,
    pub sqpoll_idle_ms: u32,
    /// Bind the kernel's poll thread to this CPU.
    pub sqpoll_cpu: u32,
    /// Most bounded and unbounded kernel workers of the ring.
    pub max_workers: [u32; 2],
}

impl Default for Options {
    fn default() -> (o: Options)
        ensures
            o.io_depth == DEFAULT_MAX_IO_DEPTH,
            o.sqpoll_idle_ms == DEFAULT_SQPOLL_IDLE_MS,
            o.sqpoll_cpu == DEFAULT_SQPOLL_CPU,
            o.max_workers@ == seq![DEFAULT_MAX_BOUNDED_URING_WORKER_COUNT, DEFAULT_MAX_UNBOUNDED_URING_WORKER_COUNT],
    {
        let o = Options {
            io_depth: DEFAULT_MAX_IO_DEPTH,
            sqpoll_idle_ms: DEFAULT_SQPOLL_IDLE_MS,
            sqpoll_cpu: DEFAULT_SQPOLL_CPU,
            max_workers: [DEFAULT_MAX_BOUNDED_URING_WORKER_COUNT, DEFAULT_MAX_UNBOUNDED_URING_WORKER_COUNT],
        };
        assert(o.max_workers@ =~= seq![DEFAULT_MAX_BOUNDED_URING_WORKER_COUNT, DEFAULT_MAX_UNBOUNDED_URING_WORKER_COUNT]);
        o
    }
}

/// The operation of a completed I/O request.
#[derive(Debug, Clone, Copy, PartialEq, Eq, Structural)]
pub enum Opcode {
    Write,
    Read,
    Other,
}

/// What a successful completion asks of the I/O loop.
#[derive(Debug, Clone, Copy, PartialEq, Eq, Structural)]
pub enum Completion {
    /// Commit the written buffer to the write window.
    CommitWrite,
    /// Account this many bytes read into the read buffer.
    Read(usize),
    /// Nothing to do.
    Nothing,
}

/// How the I/O loop takes in tasks from its channel.
#[derive(Debug, Clone, Copy, PartialEq, Eq, Structural)]
pub enum Receive {
    /// The ring is full: stop receiving.
    Stop,
    /// Nothing is in flight or pending: block until a task arrives.
    Block,
    /// Take a task if one is waiting.
    Poll,
}

/// Checks the store options that the I/O loop needs: a WAL path and a metadata path.
pub fn validate_options(wal_path_count: usize, metadata_path: &str) -> (r: Result<(), StoreError>)
    ensures
        wal_path_count == 0 ==> (r matches Err(StoreError::Configuration(m)) && m@ == "WAL path required"@),
        wal_path_count > 0 && metadata_path@.len() == 0 ==> (r matches Err(StoreError::Configuration(m))
            && m@ == "Metadata path required"@),
        wal_path_count > 0 && metadata_path@.len() > 0 ==> r is Ok,
{
    if wal_path_count == 0 {
        return Err(StoreError::Configuration(String::from_str("WAL path required")));
    }
    if metadata_path.unicode_len() == 0 {
        return Err(StoreError::Configuration(String::from_str("Metadata path required")));
    }
    Ok(())
}

/// A write task is valid unless its buffer is empty.
pub fn validate_write(buffer_len: usize) -> (b: bool)
    ensures
        b == (buffer_len > 0),
{
    buffer_len != 0
}

/// How to take in the next task, with `inflight` tasks submitted, `received` taken in
/// this round and `pending` waiting, on a ring of `io_depth` entries.
pub fn receive_step(inflight: usize, received: usize, pending: usize, io_depth: usize) -> (s: Receive)
    requires
        inflight + received + pending <= usize::MAX,
    ensures
        inflight + received >= io_depth ==> s == Receive::Stop,
        inflight + received < io_depth && inflight + received + pending == 0 ==> s == Receive::Block,
        inflight + received < io_depth && inflight + received + pending > 0 ==> s == Receive::Poll,
{
    if inflight + received >= io_depth {
        Receive::Stop
    } else if inflight + received + pending == 0 {
        Receive::Block
    } else {
        Receive::Poll
    }
}

/// Interprets the result code of a completed request (as the system call returns it).
///
/// A negative code is the negated errno. A read must return exactly the requested length;
/// a read without its request is an internal error.
pub fn on_complete(opcode: Opcode, result: i32, read_request: Option<(u64, u32)>) -> (r: Result<Completion, StoreError>)
    requires
        result != i32::MIN,
    ensures
        opcode == Opcode::Other ==> r == Ok::<Completion, StoreError>(Completion::Nothing),
        opcode != Opcode::Other && result < 0 ==> r == Err::<Completion, StoreError>(StoreError::System(-result as i32)),
        opcode == Opcode::Write && result >= 0 ==> r == Ok::<Completion, StoreError>(Completion::CommitWrite),
        opcode == Opcode::Read && result >= 0 ==> match read_request {
            Some((_, len)) => if result != len as i32 {
                r == Err::<Completion, StoreError>(StoreError::InsufficientData)
            } else {
                r == Ok::<Completion, StoreError>(Completion::Read(result as usize))
            },
            None => (r matches Err(StoreError::Internal(m)) && m@ == "Invalid read request"@),
        },
{
    match opcode {
        Opcode::Write => {
            if result < 0 {
                Err(StoreError::System(-result))
            } else {
                Ok(Completion::CommitWrite)
            }
        },
        Opcode::Read => {
            if result < 0 {
                return Err(StoreError::System(-result));
            }
            match read_request {
                Some((_offset, len)) => {
                    if result != len as i32 {
                        Err(StoreError::InsufficientData)
                    } else {
                        Ok(Completion::Read(result as usize))
                    }
                },
                None => Err(StoreError::Internal(String::from_str("Invalid read request"))),
            }
        },
        Opcode::Other => Ok(Completion::Nothing),
    }
}

/// The part of a read buffer at `buf_offset` holding `buf_limit` bytes that a read task
/// of `task_len` bytes at `task_offset` wants: the start within the buffer and the limit.
pub fn read_slice(buf_offset: u64, buf_limit: usize, task_offset: u64, task_len: u32) -> (r: (u32, u32))
    requires
        buf_offset + buf_limit <= u64::MAX,
        task_offset + task_len <= u64::MAX,
        buf_offset + buf_limit >= task_offset + task_len ==> task_offset + task_len >= buf_offset,
    ensures
        r.0 == if buf_offset < task_offset { ((task_offset - buf_offset) as u64) as u32 } else { 0 },
        r.1 == (if buf_offset + buf_limit >= task_offset + task_len {
            buf_limit - (buf_offset + buf_limit - (task_offset + task_len))
        } else {
            buf_limit as int
        }) as u32,
{
    let mut start_pos: u32 = 0;
    if buf_offset < task_offset {
        start_pos = (task_offset - buf_offset) as u32;
    }
    let mut limit = buf_limit;
    let buf_end = buf_offset + buf_limit as u64;
    let task_end = task_offset + task_len as u64;
    if buf_end >= task_end {
        limit = limit - (buf_end - task_end) as usize;
    }
    (start_pos, limit as u32)
}

/// What the block cache of a segment holds of the entries a read task wants.
#[derive(Debug, Clone, Copy, PartialEq, Eq, Structural)]
pub enum CacheLookup {
    /// All of them: the task can be served from memory.
    Hit,
    /// Those it lacks are already being read from disk.
    Loading,
    /// Some must be read from disk.
    Miss,
}

/// Where a read task goes when the I/O loop dispatches it to the segment that holds its
/// offset.
#[derive(Debug, Clone, Copy, PartialEq, Eq, Structural)]
pub enum ReadRoute {
    /// Serve it from the cache now.
    Complete,
    /// Park it until the reads it depends on complete.
    Await,
    /// Read the missing entries from disk and park it until they arrive.
    Load,
    /// The segment file is not open yet: put the task back at the head of the queue.
    Requeue,
}

/// Routes a read task; `segment_open` says whether the file of the segment holding its
/// offset is open.
pub fn route_read(segment_open: bool, cache: CacheLookup) -> (r: ReadRoute)
    ensures
        !segment_open ==> r == ReadRoute::Requeue,
        segment_open && cache == CacheLookup::Hit ==> r == ReadRoute::Complete,
        segment_open && cache == CacheLookup::Loading ==> r == ReadRoute::Await,
        segment_open && cache == CacheLookup::Miss ==> r == ReadRoute::Load,
{
    if !segment_open {
        return ReadRoute::Requeue;
    }
    match cache {
        CacheLookup::Hit => ReadRoute::Complete,
        CacheLookup::Loading => ReadRoute::Await,
        CacheLookup::Miss => ReadRoute::Load,
    }
}

/// What the I/O loop does with a write task, given the segment at the write position.
#[derive(Debug, Clone, Copy, PartialEq, Eq, Structural)]
pub enum WriteRoute {
    /// No segment is ready for writing: put the task back and stop dispatching.
    Yield,
    /// The record does not fit: pad the segment with its footer and move on to the next.
    SealSegment,
    /// Append the record to the segment.
    Append,
}

/// Routes a write task. `found` says whether a segment covers the write position; a
/// writable segment always has its file open.
pub fn route_write(found: bool, writable: bool, open: bool, can_hold: bool) -> (r: WriteRoute)
    requires
        found && writable ==> open,
    ensures
        !(found && writable) ==> r == WriteRoute::Yield,
        found && writable && !can_hold ==> r == WriteRoute::SealSegment,
        found && writable && can_hold ==> r == WriteRoute::Append,
{
    if !found || !writable {
        WriteRoute::Yield
    } else if !can_hold {
        WriteRoute::SealSegment
    } else {
        WriteRoute::Append
    }
}

/// How many bytes to reserve in the write buffer for each of the buffers a batch of
/// writes needs: the first may use what is `left` of the current buffer, the others are
/// reserved whole.
pub fn write_reservations(buffers: &Vec<usize>, left: usize) -> (r: Vec<usize>)
    ensures
        r@.len() == buffers@.len(),
        forall|i: int| 0 <= i < r@.len() ==> #[trigger] r@[i] == if i == 0 {
            if buffers@[0] > left { buffers@[0] - left } else { 0 }
        } else {
            buffers@[i] as int
        },
{
    let mut r: Vec<usize> = Vec::new();
    let mut i: usize = 0;
    while i < buffers.len()
        invariant
            i <= buffers.len(),
            r@.len() == i,
            forall|j: int| 0 <= j < i ==> #[trigger] r@[j] == if j == 0 {
                if buffers@[0] > left { buffers@[0] - left } else { 0 }
            } else {
                buffers@[j] as int
            },
        decreases buffers.len() - i,
    {
        let n = buffers[i];
        if i == 0 {
            if n > left {
                r.push(n - left);
            } else {
                r.push(0);
            }
        } else {
            r.push(n);
        }
        i = i + 1;
    }
    r
}

/// How many completions to wait for: none when nothing is in flight, else `wanted`, but
/// never more than are in flight.
pub fn completions_to_await(inflight: usize, wanted: usize) -> (r: Option<usize>)
    ensures
        inflight == 0 ==> r is None,
        inflight > 0 ==> r == Some(if wanted > inflight { inflight } else { wanted }),
{
    if inflight == 0 {
        None
    } else if wanted > inflight {
        Some(inflight)
    } else {
        Some(wanted)
    }
}

/// The I/O loop may stop: nothing is in flight, pending or unacknowledged, no file
/// operation is under way, and the task channel is closed.
pub fn should_quit(
    inflight: usize,
    pending_tasks: usize,
    inflight_writes: usize,
    inflight_reads: usize,
    control_tasks: usize,
    channel_disconnected: bool,
) -> (b: bool)
    ensures
        b == (inflight == 0 && pending_tasks == 0 && inflight_writes == 0 && inflight_reads == 0
            && control_tasks == 0 && channel_disconnected),
{
    0 == inflight && pending_tasks == 0 && inflight_writes == 0 && inflight_reads == 0
        && control_tasks == 0 && channel_disconnected
}

} // verus!
