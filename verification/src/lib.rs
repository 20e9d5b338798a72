//! A verified peer tracker: wire protocol, stream framing, send queues and tracker state.

pub mod addr;
pub mod buffer;
pub mod cli;
pub mod frame;
pub mod io;
pub mod net;
pub mod ordmap;
pub mod proto;
pub mod queue;
pub mod stream;
pub mod tracker;
pub mod util;
