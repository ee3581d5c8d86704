//! A mock I/O handle that follows a predefined script of reads, writes and
//! waits, with the script's state machine verified.
pub mod script;
mod outside;
pub mod mock;
pub mod builder;
pub mod laws;

pub use builder::{Builder, Direction, Packet};
pub use mock::{
    after_poll, async_read, async_read_with, async_write, async_write_with, is_task_ctx, InTask, Mock,
    MockError, TokioInner,
};
pub use script::IoError;
