//! Client library for a third-party scheduling portal.
//!
//! The library holds the verified core of the client: the credential
//! store semantics, the portal wire format (request bodies and JSON
//! response decoding), the two-leg login handshake, and the three
//! authenticated operations (schedule lookup, course resolution,
//! booking submission) together with their error classification.
//! Network transport is left to the embedding program, which carries
//! the request plans produced here to the portal and hands the
//! response text back.

pub mod client;
pub mod creds;
pub mod json;
pub mod wire;
