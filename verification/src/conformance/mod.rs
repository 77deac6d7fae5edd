//! The scenario every HTTP interpretation is held to: what reading a served answer amounts to,
//! what measuring a close states, the shared surface and domain, and the exchanges answering it must
//! produce.

pub mod span;
pub mod lifecycle;
pub mod measure;
pub mod surface;
pub mod scenario;
