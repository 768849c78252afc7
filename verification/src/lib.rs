//! The transport bridge of a point-to-point chat client.
//!
//! A chat client keeps one stream open to its peer. A worker owns the
//! stream; the presentation layer owns the chat history; messages cross
//! between the two through a pair of bounded queues. This library holds
//! what is decided on either side of the queues, and proves it:
//!
//! - [`codec`]: the wire codec, in its two frame formats, [`delimited`] and
//!   [`prefixed`]. Reading the frame that was written for a valid message
//!   gives the message back.
//! - [`stream`]: the frames in a chunk of received bytes.
//! - [`worker`]: the worker as a state machine, from what happens to what
//!   is to be done. Frames are written in the order of the queue.
//! - [`store`] and [`session`]: the chat history, and what the presentation
//!   layer does with a message that is sent or delivered.
//! - [`message`], [`color`], [`decimal`], [`text`], [`errors`]: the values
//!   that the others speak of.
//!
//! The stream, the queues and the window are the caller's.

pub mod codec;
pub mod color;
pub mod decimal;
pub mod delimited;
pub mod errors;
pub mod message;
pub mod prefixed;
pub mod session;
pub mod store;
pub mod stream;
pub mod text;
pub mod worker;
