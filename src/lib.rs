//! A privileged shell session driven over its standard input and output.
//!
//! The verified part of the library holds the rules of the session: how a
//! command is framed on the wire, when a response is complete, how the
//! response text is cleaned, and which lifecycle steps are allowed.
pub mod framing;
pub mod session;
pub mod text;
