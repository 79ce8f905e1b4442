use vstd::prelude::*;

pub mod clk;
pub mod consumer;
pub mod dev_read;
pub mod parser;
pub mod sliding_window;
pub mod types;
pub mod widget_for_display_queue;

verus! {

/// Adds two counters, the crate's smallest exported helper.
pub fn add(left: u64, right: u64) -> (r: u64)
    requires
        left + right <= u64::MAX,
    ensures
        r == left + right,
{
    left + right
}

} // verus!
