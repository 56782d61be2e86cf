//! Outbound-mail composition and delivery pipeline: template resolution with
//! language fallback, multipart message assembly, and interpretation of the
//! server's final reply, together with the small collaborators around it.
pub mod envars;
pub mod error;
pub mod mailer;
pub mod rsakeys;
pub mod text;
