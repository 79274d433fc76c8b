//! The closed error taxonomy and the classifier that maps raw backend
//! failures into it.
//!
//! Classification is two-tier: a transport-level failure is mapped by its
//! structural kind before any service logic runs, and a structured service
//! error is mapped by its code string. Substring inspection is used only for
//! the one transport case that has no structured code: telling a credential
//! failure from a plain connection failure.

use vstd::prelude::*;

use crate::strutil::contains_seq;
use crate::value::attr_entries_view;
use crate::value::AttrV;
use crate::value::AttributeValue;

verus! {

broadcast use vstd::std_specs::vec::group_vec_axioms, vstd::seq::group_seq_axioms;

/// A stored item: attribute values keyed by attribute name.
pub type Item = Vec<(String, AttributeValue)>;

/// Mathematical model of an error of the taxonomy: the category, its
/// message, and what extra payload the category carries.
pub enum ErrV {
    Generic(Seq<char>),
    ResourceNotFound(Seq<char>),
    ResourceInUse(Seq<char>),
    Validation(Seq<char>),
    ConditionCheckFailed(Seq<char>, Option<Seq<(Seq<char>, AttrV)>>),
    TransactionCanceled(Seq<char>, Option<Seq<Seq<char>>>),
    ThroughputExceeded(Seq<char>),
    AccessDenied(Seq<char>),
    Credentials(Seq<char>),
    Serialization(Seq<char>),
    Connection(Seq<char>),
    Encryption(Seq<char>),
    ObjectStoreError(Seq<char>),
}

/// An error of the closed taxonomy. Every public operation either succeeds
/// or returns exactly one of these. `ConditionCheckFailed` carries the
/// conflicting item when the backend supplied it; `TransactionCanceled`
/// carries the per-operation cancellation reasons when reported.
#[derive(Debug, PartialEq, Eq)]
pub enum PydynoError {
    Generic(String),
    ResourceNotFound(String),
    ResourceInUse(String),
    Validation(String),
    ConditionCheckFailed(String, Option<Item>),
    TransactionCanceled(String, Option<Vec<String>>),
    ThroughputExceeded(String),
    AccessDenied(String),
    Credentials(String),
    Serialization(String),
    Connection(String),
    Encryption(String),
    ObjectStoreError(String),
}

/// Model of an optional conflicting item.
pub open spec fn opt_item_view(o: &Option<Item>) -> Option<Seq<(Seq<char>, AttrV)>> {
    match o {
        Some(it) => Some(attr_entries_view(it@)),
        None => None,
    }
}

/// Model of an optional list of reason strings.
pub open spec fn opt_strings_view(o: &Option<Vec<String>>) -> Option<Seq<Seq<char>>> {
    match o {
        Some(v) => Some(Seq::new(v@.len(), |i: int| v@[i]@)),
        None => None,
    }
}

impl View for PydynoError {
    type V = ErrV;

    open spec fn view(&self) -> ErrV {
        match self {
            PydynoError::Generic(m) => ErrV::Generic(m@),
            PydynoError::ResourceNotFound(m) => ErrV::ResourceNotFound(m@),
            PydynoError::ResourceInUse(m) => ErrV::ResourceInUse(m@),
            PydynoError::Validation(m) => ErrV::Validation(m@),
            PydynoError::ConditionCheckFailed(m, it) => ErrV::ConditionCheckFailed(
                m@,
                opt_item_view(it),
            ),
            PydynoError::TransactionCanceled(m, rs) => ErrV::TransactionCanceled(
                m@,
                opt_strings_view(rs),
            ),
            PydynoError::ThroughputExceeded(m) => ErrV::ThroughputExceeded(m@),
            PydynoError::AccessDenied(m) => ErrV::AccessDenied(m@),
            PydynoError::Credentials(m) => ErrV::Credentials(m@),
            PydynoError::Serialization(m) => ErrV::Serialization(m@),
            PydynoError::Connection(m) => ErrV::Connection(m@),
            PydynoError::Encryption(m) => ErrV::Encryption(m@),
            PydynoError::ObjectStoreError(m) => ErrV::ObjectStoreError(m@),
        }
    }
}

/// The message a model error carries.
pub open spec fn err_message_view(e: ErrV) -> Seq<char> {
    match e {
        ErrV::Generic(m) => m,
        ErrV::ResourceNotFound(m) => m,
        ErrV::ResourceInUse(m) => m,
        ErrV::Validation(m) => m,
        ErrV::ConditionCheckFailed(m, _) => m,
        ErrV::TransactionCanceled(m, _) => m,
        ErrV::ThroughputExceeded(m) => m,
        ErrV::AccessDenied(m) => m,
        ErrV::Credentials(m) => m,
        ErrV::Serialization(m) => m,
        ErrV::Connection(m) => m,
        ErrV::Encryption(m) => m,
        ErrV::ObjectStoreError(m) => m,
    }
}

impl PydynoError {
    /// The error's message text.
    pub fn message(&self) -> (r: &String)
        ensures
            r@ == err_message_view(self@),
    {
        match self {
            PydynoError::Generic(m) => m,
            PydynoError::ResourceNotFound(m) => m,
            PydynoError::ResourceInUse(m) => m,
            PydynoError::Validation(m) => m,
            PydynoError::ConditionCheckFailed(m, _) => m,
            PydynoError::TransactionCanceled(m, _) => m,
            PydynoError::ThroughputExceeded(m) => m,
            PydynoError::AccessDenied(m) => m,
            PydynoError::Credentials(m) => m,
            PydynoError::Serialization(m) => m,
            PydynoError::Connection(m) => m,
            PydynoError::Encryption(m) => m,
            PydynoError::ObjectStoreError(m) => m,
        }
    }
}

/// The structural kind of a transport-level failure, known before any
/// service code is inspected.
#[derive(Debug, PartialEq, Eq)]
pub enum TransportKind {
    /// The request could not be constructed.
    Construction,
    /// The request could not be dispatched to the backend.
    Dispatch,
    /// The backend did not answer in time.
    Timeout,
    /// The backend answered, but the response could not be read.
    Response,
}

/// A raw backend failure, exactly as the transport hands it over: either a
/// transport-level failure with a structural kind, or a structured service
/// rejection with a code and message. A service rejection may carry the
/// conflicting item of a failed condition and the reasons of a canceled
/// transaction, when the backend reported them.
#[derive(Debug, PartialEq, Eq)]
pub enum RawBackendError {
    Transport(TransportKind, String),
    Service { code: String, message: String, item: Option<Item>, reasons: Option<Vec<String>> },
}

/// Mathematical model of a raw backend failure.
pub enum RawV {
    Transport(TransportKind, Seq<char>),
    Service {
        code: Seq<char>,
        message: Seq<char>,
        item: Option<Seq<(Seq<char>, AttrV)>>,
        reasons: Option<Seq<Seq<char>>>,
    },
}

impl View for RawBackendError {
    type V = RawV;

    open spec fn view(&self) -> RawV {
        match self {
            RawBackendError::Transport(kind, m) => RawV::Transport(*kind, m@),
            RawBackendError::Service { code, message, item, reasons } => RawV::Service {
                code: code@,
                message: message@,
                item: opt_item_view(item),
                reasons: opt_strings_view(reasons),
            },
        }
    }
}

/// Whether a service code names a credential or signature problem. These
/// codes are shared across backends and map uniformly.
pub open spec fn is_credentials_code(code: Seq<char>) -> bool {
    ||| code == "UnrecognizedClientException"@
    ||| code == "InvalidSignatureException"@
    ||| code == "MissingAuthenticationTokenException"@
    ||| code == "ExpiredTokenException"@
}

/// Whether a service code names denied access.
pub open spec fn is_access_denied_code(code: Seq<char>) -> bool {
    code == "AccessDeniedException"@ || code == "AccessDenied"@
}

/// Whether a service code names throttling or exhausted throughput. These
/// codes are shared across backends and map uniformly.
pub open spec fn is_throughput_code(code: Seq<char>) -> bool {
    ||| code == "ProvisionedThroughputExceededException"@
    ||| code == "ThrottlingException"@
    ||| code == "Throttling"@
    ||| code == "RequestLimitExceeded"@
    ||| code == "TooManyRequestsException"@
    ||| code == "SlowDown"@
}

/// Whether a service code names an encryption-backend failure.
pub open spec fn is_encryption_code(code: Seq<char>) -> bool {
    ||| code == "InvalidCiphertextException"@
    ||| code == "DisabledException"@
    ||| code == "KeyUnavailableException"@
    ||| code == "KMSInvalidStateException"@
    ||| code == "KMSInternalException"@
    ||| code == "IncorrectKeyException"@
}

/// Whether a service code names an object-store failure.
pub open spec fn is_object_store_code(code: Seq<char>) -> bool {
    ||| code == "NoSuchKey"@
    ||| code == "NoSuchBucket"@
    ||| code == "BucketAlreadyExists"@
    ||| code == "BucketAlreadyOwnedByYou"@
    ||| code == "EntityTooLarge"@
}

/// The message of a resource-not-found error: it names the resource the
/// caller addressed, when the caller supplied its name.
pub open spec fn not_found_message(resource: Option<Seq<char>>, message: Seq<char>) -> Seq<char> {
    match resource {
        Some(r) => "Table not found: "@ + r,
        None => message,
    }
}

/// Model of the service-tier classification: dispatch on the code string.
pub open spec fn classify_service_v(
    code: Seq<char>,
    message: Seq<char>,
    item: Option<Seq<(Seq<char>, AttrV)>>,
    reasons: Option<Seq<Seq<char>>>,
    resource: Option<Seq<char>>,
) -> ErrV {
    if code == "ConditionalCheckFailedException"@ {
        ErrV::ConditionCheckFailed("Condition check failed: "@ + message, item)
    } else if code == "TransactionCanceledException"@ {
        ErrV::TransactionCanceled("Transaction canceled: "@ + message, reasons)
    } else if code == "ResourceNotFoundException"@ {
        ErrV::ResourceNotFound(not_found_message(resource, message))
    } else if code == "ResourceInUseException"@ {
        ErrV::ResourceInUse(message)
    } else if code == "ValidationException"@ || code == "ItemCollectionSizeLimitExceededException"@ {
        ErrV::Validation(message)
    } else if code == "SerializationException"@ {
        ErrV::Serialization(message)
    } else if is_credentials_code(code) {
        ErrV::Credentials(message)
    } else if is_access_denied_code(code) {
        ErrV::AccessDenied(message)
    } else if is_throughput_code(code) {
        ErrV::ThroughputExceeded(message)
    } else if is_encryption_code(code) {
        ErrV::Encryption(message)
    } else if is_object_store_code(code) {
        ErrV::ObjectStoreError(message)
    } else {
        ErrV::Generic(message)
    }
}

/// Model of the whole classification: the transport tier is decided by the
/// failure's structural kind before any service logic; the service tier is
/// decided by the code string. A timeout is a connection-level failure; a
/// request that could not be built, or an answer that could not be read, is
/// a serialization failure.
pub open spec fn classify_v(e: RawV, resource: Option<Seq<char>>) -> ErrV {
    match e {
        RawV::Transport(kind, msg) => match kind {
            TransportKind::Construction => ErrV::Serialization(msg),
            TransportKind::Dispatch => if contains_seq(msg, "credential"@) {
                ErrV::Credentials(msg)
            } else {
                ErrV::Connection(msg)
            },
            TransportKind::Timeout => ErrV::Connection(msg),
            TransportKind::Response => ErrV::Serialization(msg),
        },
        RawV::Service { code, message, item, reasons } => classify_service_v(
            code,
            message,
            item,
            reasons,
            resource,
        ),
    }
}

/// Model of an optional resource name handed to the classifier.
pub open spec fn opt_str_view(o: Option<&str>) -> Option<Seq<char>> {
    match o {
        Some(s) => Some(s@),
        None => None,
    }
}

/// Maps a raw backend failure to the typed taxonomy. `resource` is the name
/// of the table or resource the failed call addressed, used to word the
/// not-found message.
pub fn classify(err: RawBackendError, resource: Option<&str>) -> (r: PydynoError)
    ensures
        r@ == classify_v(err@, opt_str_view(resource)),
{
    match err {
        RawBackendError::Transport(kind, msg) => match kind {
            TransportKind::Construction => PydynoError::Serialization(msg),
            TransportKind::Dispatch => {
                if crate::strutil::str_contains(msg.as_str(), "credential") {
                    PydynoError::Credentials(msg)
                } else {
                    PydynoError::Connection(msg)
                }
            },
            TransportKind::Timeout => PydynoError::Connection(msg),
            TransportKind::Response => PydynoError::Serialization(msg),
        },
        RawBackendError::Service { code, message, item, reasons } => classify_service(
            code,
            message,
            item,
            reasons,
            resource,
        ),
    }
}

/// Maps a structured service rejection to the typed taxonomy by its code.
fn classify_service(
    code: String,
    message: String,
    item: Option<Item>,
    reasons: Option<Vec<String>>,
    resource: Option<&str>,
) -> (r: PydynoError)
    ensures
        r@ == classify_service_v(
            code@,
            message@,
            opt_item_view(&item),
            opt_strings_view(&reasons),
            opt_str_view(resource),
        ),
{
    let c = code.as_str();
    if crate::strutil::str_eq(c, "ConditionalCheckFailedException") {
        let m = String::from_str("Condition check failed: ").concat(message.as_str());
        PydynoError::ConditionCheckFailed(m, item)
    } else if crate::strutil::str_eq(c, "TransactionCanceledException") {
        let m = String::from_str("Transaction canceled: ").concat(message.as_str());
        PydynoError::TransactionCanceled(m, reasons)
    } else if crate::strutil::str_eq(c, "ResourceNotFoundException") {
        match resource {
            Some(rname) => {
                let m = String::from_str("Table not found: ").concat(rname);
                PydynoError::ResourceNotFound(m)
            },
            None => PydynoError::ResourceNotFound(message),
        }
    } else if crate::strutil::str_eq(c, "ResourceInUseException") {
        PydynoError::ResourceInUse(message)
    } else if crate::strutil::str_eq(c, "ValidationException") || crate::strutil::str_eq(
        c,
        "ItemCollectionSizeLimitExceededException",
    ) {
        PydynoError::Validation(message)
    } else if crate::strutil::str_eq(c, "SerializationException") {
        PydynoError::Serialization(message)
    } else if crate::strutil::str_eq(c, "UnrecognizedClientException") || crate::strutil::str_eq(
        c,
        "InvalidSignatureException",
    ) || crate::strutil::str_eq(c, "MissingAuthenticationTokenException")
        || crate::strutil::str_eq(c, "ExpiredTokenException") {
        PydynoError::Credentials(message)
    } else if crate::strutil::str_eq(c, "AccessDeniedException") || crate::strutil::str_eq(
        c,
        "AccessDenied",
    ) {
        PydynoError::AccessDenied(message)
    } else if crate::strutil::str_eq(c, "ProvisionedThroughputExceededException")
        || crate::strutil::str_eq(c, "ThrottlingException") || crate::strutil::str_eq(
        c,
        "Throttling",
    ) || crate::strutil::str_eq(c, "RequestLimitExceeded") || crate::strutil::str_eq(
        c,
        "TooManyRequestsException",
    ) || crate::strutil::str_eq(c, "SlowDown") {
        PydynoError::ThroughputExceeded(message)
    } else if crate::strutil::str_eq(c, "InvalidCiphertextException") || crate::strutil::str_eq(
        c,
        "DisabledException",
    ) || crate::strutil::str_eq(c, "KeyUnavailableException") || crate::strutil::str_eq(
        c,
        "KMSInvalidStateException",
    ) || crate::strutil::str_eq(c, "KMSInternalException") || crate::strutil::str_eq(
        c,
        "IncorrectKeyException",
    ) {
        PydynoError::Encryption(message)
    } else if crate::strutil::str_eq(c, "NoSuchKey") || crate::strutil::str_eq(c, "NoSuchBucket")
        || crate::strutil::str_eq(c, "BucketAlreadyExists") || crate::strutil::str_eq(
        c,
        "BucketAlreadyOwnedByYou",
    ) || crate::strutil::str_eq(c, "EntityTooLarge") {
        PydynoError::ObjectStoreError(message)
    } else {
        PydynoError::Generic(message)
    }
}

} // verus!
