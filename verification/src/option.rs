//! Execution switches of a network and of the tensor operations.

use vstd::prelude::*;

verus! {

/// Threads that a newly made `Option` asks for.
pub const DEFAULT_NUM_THREADS: u32 = 1;

/// What an `Option` holds.
pub struct OptionView {
    pub num_threads: u32,
    pub vulkan_compute: bool,
}

/// The switches that the compute backend reads: how many threads it may use
/// and whether it may compute on the GPU.
#[derive(Clone, Copy, Debug, PartialEq, Eq)]
pub struct Option {
    num_threads: u32,
    vulkan_compute: bool,
}

impl View for Option {
    type V = OptionView;

    closed spec fn view(&self) -> OptionView {
        OptionView { num_threads: self.num_threads, vulkan_compute: self.vulkan_compute }
    }
}

impl Option {
    /// One thread, no GPU.
    pub fn new() -> (opt: Self)
        ensures
            opt@ == (OptionView { num_threads: DEFAULT_NUM_THREADS, vulkan_compute: false }),
    {
        Option { num_threads: DEFAULT_NUM_THREADS, vulkan_compute: false }
    }

    /// Sets how many threads the compute backend may use. The number is kept
    /// as it is given.
    pub fn set_num_threads(&mut self, num_threads: u32)
        ensures
            final(self)@ == (OptionView { num_threads, ..old(self)@ }),
    {
        self.num_threads = num_threads;
    }

    /// How many threads the compute backend may use.
    pub fn get_num_threads(&self) -> (num_threads: u32)
        ensures
            num_threads == self@.num_threads,
    {
        self.num_threads
    }

    /// Sets whether the compute backend may compute on the GPU.
    pub fn set_vulkan_compute(&mut self, enabled: bool)
        ensures
            final(self)@ == (OptionView { vulkan_compute: enabled, ..old(self)@ }),
    {
        self.vulkan_compute = enabled;
    }

    /// Whether the compute backend may compute on the GPU.
    pub fn get_vulkan_compute(&self) -> (enabled: bool)
        ensures
            enabled == self@.vulkan_compute,
    {
        self.vulkan_compute
    }
}

impl Default for Option {
    fn default() -> (opt: Self)
        ensures
            opt@ == (OptionView { num_threads: DEFAULT_NUM_THREADS, vulkan_compute: false }),
    {
        Option::new()
    }
}

} // verus!
