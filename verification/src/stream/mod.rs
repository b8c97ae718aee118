//! Socket side of a control stream.
//!
//! After `control.open` the connection stays open. A reader takes request
//! lines apart, a writer turns responses, subscription events and raw
//! terminal records into lines in one order, and the server owns attaches.
//! What is decided on the way is decided here; reading, writing and threads
//! are the caller's.

pub mod input;
pub mod laws;
pub mod line_buffer;
pub mod reader;
pub mod records;
pub mod request;
pub mod serve;
pub mod subscribe;
