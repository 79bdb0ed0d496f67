pub mod bits;
pub mod net;
pub mod params;
pub mod sched;
pub mod session;
pub mod signal;
pub mod task;
pub mod timer;
pub mod utils;
