//! What the operations promise, stated on their calls.
//!
//! Each law speaks of a call, of what went into it and of what came out: messages that channels
//! brought, readings of tokens, results of the functions that do the outside work, events sent.
pub mod answers;
pub mod checks;
pub mod ends;
pub mod queues;
pub mod runs;
pub mod turns;
