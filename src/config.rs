use vstd::prelude::*;

verus! {

/// Initial capacities of a client's buffers; both grow on demand.
pub struct Config {
    pub read_buffer_capacity: usize,
    pub write_buffer_capacity: usize,
}

impl Default for Config {
    /// 128 KiB for each buffer.
    fn default() -> (r: Self)
        ensures
            r.read_buffer_capacity == 128 * 1024,
            r.write_buffer_capacity == 128 * 1024,
    {
        Config { read_buffer_capacity: 128 * 1024, write_buffer_capacity: 128 * 1024 }
    }
}

} // verus!
