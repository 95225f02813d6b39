use vstd::prelude::*;

verus! {

/// Display options used when a line is rendered for the screen.
pub struct RenderConfig {
    pub tab_size: usize,
}

impl Default for RenderConfig {
    fn default() -> (r: Self)
        ensures
            r.tab_size == 4,
    {
        RenderConfig { tab_size: 4 }
    }
}

} // verus!
