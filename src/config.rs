//! The session's display switches and probe target.

use vstd::prelude::*;

verus! {

/// Which sections the display hides, the address to probe and the
/// arguments handed to the probe (the address last).
#[derive(Clone, Debug)]
pub struct Config {
    pub no_legend: bool,
    pub no_graph: bool,
    pub no_history: bool,
    pub no_title: bool,
    pub addr: String,
    pub ping_args: Vec<String>,
}

} // verus!
