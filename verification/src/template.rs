use vstd::prelude::*;
use crate::kernel::{kernel_input, spec_kernel_input, target_from_difficulty};

verus! {

/// Where block templates come from.
#[derive(Clone, Copy, Debug, PartialEq, Eq, Structural)]
pub enum NodeKind {
    /// A base node reached over gRPC.
    BaseNode,
    /// No node: benchmark mode searches a fixed template.
    Benchmark,
}

/// The node that serves templates: none in benchmark mode.
pub fn node_kind(benchmark: bool) -> (k: NodeKind)
    ensures k == (if benchmark { NodeKind::Benchmark } else { NodeKind::BaseNode }),
{
    if benchmark { NodeKind::Benchmark } else { NodeKind::BaseNode }
}

/// What a device needs of a block template to search it.
pub struct TemplateWork {
    /// The difficulty that a block must reach.
    pub target_difficulty: u64,
    /// The 32-byte hash of the header that the kernel mines on.
    pub mining_hash: Vec<u8>,
}

/// The work that benchmark mode searches without a node: the largest
/// difficulty and an all-zero mining hash.
pub fn benchmark_work() -> (w: TemplateWork)
    ensures
        w.target_difficulty == u64::MAX,
        w.mining_hash@ == Seq::new(32, |i: int| 0u8),
{
    let mining_hash: Vec<u8> = vec![0u8; 32];
    assert(mining_hash@ =~= Seq::new(32, |i: int| 0u8));
    TemplateWork { target_difficulty: u64::MAX, mining_hash }
}

/// What the kernel is launched with for a template.
pub struct KernelJob {
    /// The kernel's input words.
    pub data: Vec<u64>,
    /// The share target that hashes are compared against.
    pub target: u64,
}

/// Prepares the kernel launch for a template: its input words and its target.
pub fn prepare_job(work: TemplateWork) -> (job: KernelJob)
    requires
        work.target_difficulty > 0,
        work.mining_hash.len() == 32,
    ensures
        job.data@ == spec_kernel_input(work.mining_hash@),
        job.target == u64::MAX / work.target_difficulty,
{
    let target = target_from_difficulty(work.target_difficulty);
    KernelJob { data: kernel_input(work.mining_hash), target }
}

} // verus!
