//! The verified core of mobiletunnel, a reconnecting TCP tunnel with stream
//! multiplexing.
//!
//! * [`reconnecting_stream`] is one end of a message stream that outlives its
//!   TCP connections, over the messages of [`stream_codec`]; [`stream_runner`]
//!   decides which connection to use, and [`delivery`] states what two such
//!   ends achieve together.
//! * [`stream_multiplexer`] carries many byte streams over one such stream, in
//!   the frames of [`channel_message`]; [`internal_stream`] is one of them, and
//!   [`flow_control`] its backpressure. [`tunnel`] states what both layers
//!   achieve together.
//! * [`launch`], [`ssh_runner`], [`server_check_port`], [`processes`] and
//!   [`host`] hold the rules by which the tunnel is started and kept up.
//!
//! Nothing here touches a socket, a process or a clock: the functions decide,
//! and the program round them carries out what they decide.

pub mod buffer;
pub mod channel_message;
pub mod delivery;
pub mod flow_control;
pub mod framing;
pub mod host;
pub mod internal_stream;
pub mod launch;
pub mod multiplexer_error;
pub mod processes;
pub mod random;
pub mod reconnecting_stream;
pub mod server_check_port;
pub mod shell;
pub mod ssh_runner;
pub mod stream_codec;
pub mod stream_multiplexer;
pub mod stream_runner;
pub mod text;
pub mod tunnel;
