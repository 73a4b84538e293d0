//! The failures of the pipeline, one kind for each cause.

use crate::text::{push_text, string_of};
use vstd::prelude::*;

verus! {

/// The header fields that a signature covers, in the order in which they are signed.
#[derive(Clone, Copy, Debug, PartialEq, Eq, Structural)]
pub enum HeaderName {
    From,
    ContentType,
    MimeVersion,
    Subject,
    MessageId,
    Date,
    To,
    DkimSignature,
}

/// Why a stage of the pipeline gave up. No stage puts a default in place of a missing value.
#[derive(Clone, Copy, Debug, PartialEq, Eq, Structural)]
pub enum PipelineError {
    /// The tag list of the DKIM-Signature field is malformed or lacks a needed tag.
    MalformedDkimHeader,
    /// The message has no field of this name.
    MissingHeader { name: HeaderName },
    /// The DKIM-Signature value holds neither spelling of the signature tag's marker.
    SignatureTagNotFound,
    /// The DNS answer is empty or holds no key tag.
    KeyRecordNotFound,
    /// The published key does not parse as an RSA public key.
    KeyDecodeError,
    /// The integer needs more bits than the configured width allows.
    ValueExceedsBitWidth,
    /// The declared body hash does not occur in the canonical header bytes.
    BodyHashNotFound,
    /// The recipient address has no local part before an `@`.
    AddressFormatError,
}

impl HeaderName {
    /// The name in lower case, as it stands in the signed bytes.
    pub open spec fn label(self) -> Seq<char> {
        match self {
            HeaderName::From => "from"@,
            HeaderName::ContentType => "content-type"@,
            HeaderName::MimeVersion => "mime-version"@,
            HeaderName::Subject => "subject"@,
            HeaderName::MessageId => "message-id"@,
            HeaderName::Date => "date"@,
            HeaderName::To => "to"@,
            HeaderName::DkimSignature => "dkim-signature"@,
        }
    }

    /// The name in lower case, as it stands in the signed bytes.
    pub fn label_text(self) -> (text: &'static str)
        ensures
            text@ == self.label(),
    {
        match self {
            HeaderName::From => "from",
            HeaderName::ContentType => "content-type",
            HeaderName::MimeVersion => "mime-version",
            HeaderName::Subject => "subject",
            HeaderName::MessageId => "message-id",
            HeaderName::Date => "date",
            HeaderName::To => "to",
            HeaderName::DkimSignature => "dkim-signature",
        }
    }
}

/// The kinds of failure, by what a caller can do about them.
#[derive(Clone, Copy, Debug, PartialEq, Eq, Structural)]
pub enum ErrorCategory {
    /// The message is malformed or lacks something: trying again does not help.
    Input,
    /// The key could not be had from DNS: the lookup may be tried again.
    Resolution,
    /// Two stages disagree, or the configuration does not fit the key: a defect, to be
    /// reported.
    InvariantViolation,
}

impl PipelineError {
    /// The kind of this failure.
    pub open spec fn category_of(self) -> ErrorCategory {
        match self {
            PipelineError::MalformedDkimHeader => ErrorCategory::Input,
            PipelineError::MissingHeader { name } => ErrorCategory::Input,
            PipelineError::SignatureTagNotFound => ErrorCategory::Input,
            PipelineError::AddressFormatError => ErrorCategory::Input,
            PipelineError::KeyRecordNotFound => ErrorCategory::Resolution,
            PipelineError::KeyDecodeError => ErrorCategory::Resolution,
            PipelineError::ValueExceedsBitWidth => ErrorCategory::InvariantViolation,
            PipelineError::BodyHashNotFound => ErrorCategory::InvariantViolation,
        }
    }

    /// The kind of this failure.
    pub fn category(self) -> (kind: ErrorCategory)
        ensures
            kind == self.category_of(),
    {
        match self {
            PipelineError::MalformedDkimHeader => ErrorCategory::Input,
            PipelineError::MissingHeader { name: _ } => ErrorCategory::Input,
            PipelineError::SignatureTagNotFound => ErrorCategory::Input,
            PipelineError::AddressFormatError => ErrorCategory::Input,
            PipelineError::KeyRecordNotFound => ErrorCategory::Resolution,
            PipelineError::KeyDecodeError => ErrorCategory::Resolution,
            PipelineError::ValueExceedsBitWidth => ErrorCategory::InvariantViolation,
            PipelineError::BodyHashNotFound => ErrorCategory::InvariantViolation,
        }
    }

    /// Whether trying again can help: only a failure to have the key from DNS is worth
    /// another lookup.
    pub fn is_retriable(self) -> (retriable: bool)
        ensures
            retriable == (self.category_of() == ErrorCategory::Resolution),
    {
        match self.category() {
            ErrorCategory::Resolution => true,
            _ => false,
        }
    }

    /// What went wrong, in words.
    pub open spec fn description(self) -> Seq<char> {
        match self {
            PipelineError::MalformedDkimHeader => "malformed DKIM-Signature header"@,
            PipelineError::MissingHeader { name } => "missing header field: "@ + name.label(),
            PipelineError::SignatureTagNotFound => "no signature tag in the DKIM-Signature header"@,
            PipelineError::KeyRecordNotFound => "no public key in the DNS record"@,
            PipelineError::KeyDecodeError => "the published key is no RSA public key"@,
            PipelineError::ValueExceedsBitWidth => "integer exceeds the configured bit width"@,
            PipelineError::BodyHashNotFound => "body hash not found in the signed headers"@,
            PipelineError::AddressFormatError => "recipient address has no local part"@,
        }
    }

    /// What went wrong, in words.
    pub fn describe(self) -> (text: String)
        ensures
            text@ == self.description(),
    {
        let mut out: Vec<char> = Vec::new();
        match self {
            PipelineError::MalformedDkimHeader => {
                push_text(&mut out, "malformed DKIM-Signature header");
            },
            PipelineError::MissingHeader { name } => {
                push_text(&mut out, "missing header field: ");
                push_text(&mut out, name.label_text());
            },
            PipelineError::SignatureTagNotFound => {
                push_text(&mut out, "no signature tag in the DKIM-Signature header");
            },
            PipelineError::KeyRecordNotFound => {
                push_text(&mut out, "no public key in the DNS record");
            },
            PipelineError::KeyDecodeError => {
                push_text(&mut out, "the published key is no RSA public key");
            },
            PipelineError::ValueExceedsBitWidth => {
                push_text(&mut out, "integer exceeds the configured bit width");
            },
            PipelineError::BodyHashNotFound => {
                push_text(&mut out, "body hash not found in the signed headers");
            },
            PipelineError::AddressFormatError => {
                push_text(&mut out, "recipient address has no local part");
            },
        }
        string_of(&out)
    }
}

} // verus!
