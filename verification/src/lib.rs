//! A message-segment codec for a chat-bot wire protocol: typed payload
//! records with required and optional fields, a structural textual wire
//! form they round-trip through, a chain that composes segments, and a
//! model of the derivation step that classifies declared fields.
pub mod cq_code;
pub mod cq_codes;
pub mod codegen;
pub mod message_chain;
pub mod wire;
