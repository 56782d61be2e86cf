//! The failure taxonomy of the pipeline: one kind per failure surface, each
//! carrying a human-readable message.
use vstd::prelude::*;

verus! {

/// Every failure a call can end in. A call either fully succeeds or fails
/// with exactly one of these kinds; nothing is retried or swallowed.
#[derive(Debug)]
pub enum ErrorReport {
    /// A filesystem read failed (template or attachment file).
    Io { msg: String },
    /// A declared attachment MIME type string is malformed.
    ContentType { msg: String },
    /// The message could not be assembled into well-formed headers and parts.
    Assembly { msg: String },
    /// Building or using the SMTP transport failed (network, TLS or
    /// authentication).
    Transport { msg: String },
    /// The server took the submission but answered with a non-success final
    /// reply; carries the server's literal response text.
    MailSentResponse { msg: String },
    /// A key could not be loaded or an RSA operation failed.
    Crypto { msg: String },
    /// A base64 text could not be decoded.
    Decode { msg: String },
    /// Bytes that should spell UTF-8 text did not.
    Utf8 { msg: String },
}

impl ErrorReport {
    /// The message carried by this report.
    pub fn message(&self) -> (r: &String)
        ensures
            *self matches ErrorReport::Io { msg } ==> r@ == msg@,
            *self matches ErrorReport::ContentType { msg } ==> r@ == msg@,
            *self matches ErrorReport::Assembly { msg } ==> r@ == msg@,
            *self matches ErrorReport::Transport { msg } ==> r@ == msg@,
            *self matches ErrorReport::MailSentResponse { msg } ==> r@ == msg@,
            *self matches ErrorReport::Crypto { msg } ==> r@ == msg@,
            *self matches ErrorReport::Decode { msg } ==> r@ == msg@,
            *self matches ErrorReport::Utf8 { msg } ==> r@ == msg@,
    {
        match self {
            ErrorReport::Io { msg } => msg,
            ErrorReport::ContentType { msg } => msg,
            ErrorReport::Assembly { msg } => msg,
            ErrorReport::Transport { msg } => msg,
            ErrorReport::MailSentResponse { msg } => msg,
            ErrorReport::Crypto { msg } => msg,
            ErrorReport::Decode { msg } => msg,
            ErrorReport::Utf8 { msg } => msg,
        }
    }
}

/// A delivery that the server answered with a non-success final reply,
/// carrying the server's response text.
pub fn error_mail_sent_response(msg: &str) -> (r: ErrorReport)
    ensures
        r matches ErrorReport::MailSentResponse { msg: m } && m@ == msg@,
{
    ErrorReport::MailSentResponse { msg: msg.to_owned() }
}

} // verus!
