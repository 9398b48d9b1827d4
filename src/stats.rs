use vstd::prelude::*;

verus! {

/// What is recorded of one interpreter invocation.
#[derive(Debug, Clone, Copy, PartialEq, Eq, Structural)]
pub struct InterpretationStats {
    pub success: bool,
    /// Wall time of the invocation, in milliseconds.
    pub took_ms: u64,
    /// Memory used by the interpreter, in bytes.
    pub memory: u64,
    /// The interpreter's return code; `-1` where it did not return.
    pub ret_code: i32,
}

/// The prev-data read for a run, as the store answered.
pub enum StoreRead {
    Found(Vec<u8>),
    Absent,
    /// The store could not be read.
    Failed,
}

/// The prev-data handed to the interpreter, and whether reading it failed.
pub struct RunInput {
    pub prev_data: Vec<u8>,
    pub read_failed: bool,
}

/// A run starts from the stored blob; from an empty one where there is none or the
/// read failed, and the failure is recorded.
pub fn prepare_prev_data(read: StoreRead) -> (r: RunInput)
    ensures
        match read {
            StoreRead::Found(d) => r.prev_data@ == d@ && !r.read_failed,
            StoreRead::Absent => r.prev_data@ == Seq::<u8>::empty() && !r.read_failed,
            StoreRead::Failed => r.prev_data@ == Seq::<u8>::empty() && r.read_failed,
        },
{
    match read {
        StoreRead::Found(d) => RunInput { prev_data: d, read_failed: false },
        StoreRead::Absent => RunInput { prev_data: Vec::new(), read_failed: false },
        StoreRead::Failed => RunInput { prev_data: Vec::new(), read_failed: true },
    }
}

} // verus!
