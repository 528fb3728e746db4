//! What the proxy answers: decisions and bodies, without the connections.

pub mod answer;
pub mod answer_laws;
pub mod forward;
pub mod models;
pub mod plan;
pub mod reply;
pub mod reply_laws;
