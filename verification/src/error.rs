use vstd::prelude::*;

verus! {

/// Why a store operation did not deliver.
#[derive(Clone, Copy, Debug, PartialEq, Eq, Structural)]
pub enum StoreError {
    /// The requested row is absent.
    NotFound,
    /// The store itself could not carry out the operation.
    StorageError,
}

/// The kinds of failure that the registry tells apart.
#[derive(Clone, Copy, Debug, PartialEq, Eq, Structural)]
pub enum ErrorKind {
    /// The requested entity is absent.
    NotFound,
    /// The credential is missing, unknown, or not admitted.
    Forbidden,
    /// The input is not of the required shape.
    Malformed,
    /// The store could not carry out the operation.
    StorageError,
}

/// The answer classes of the transport that the registry uses.
#[derive(Clone, Copy, Debug, PartialEq, Eq, Structural)]
pub enum Status {
    Success,
    BadRequest,
    Forbidden,
    NotFound,
    ServiceUnavailable,
}

/// The class under which each kind of failure is reported: one class per
/// kind, so that an absent entity is never taken for a fault or the reverse.
pub open spec fn status_of(kind: ErrorKind) -> Status {
    match kind {
        ErrorKind::NotFound => Status::NotFound,
        ErrorKind::Forbidden => Status::Forbidden,
        ErrorKind::Malformed => Status::BadRequest,
        ErrorKind::StorageError => Status::ServiceUnavailable,
    }
}

/// The numeric code of each class.
pub open spec fn code_of(status: Status) -> u16 {
    match status {
        Status::Success => 200,
        Status::BadRequest => 400,
        Status::Forbidden => 403,
        Status::NotFound => 404,
        Status::ServiceUnavailable => 503,
    }
}

impl ErrorKind {
    /// The kind of a store failure.
    pub fn of_store(e: StoreError) -> (res: ErrorKind)
        ensures
            res == match e {
                StoreError::NotFound => ErrorKind::NotFound,
                StoreError::StorageError => ErrorKind::StorageError,
            },
    {
        match e {
            StoreError::NotFound => ErrorKind::NotFound,
            StoreError::StorageError => ErrorKind::StorageError,
        }
    }

    /// The class under which this kind of failure is reported.
    pub fn status(&self) -> (res: Status)
        ensures
            res == status_of(*self),
    {
        match self {
            ErrorKind::NotFound => Status::NotFound,
            ErrorKind::Forbidden => Status::Forbidden,
            ErrorKind::Malformed => Status::BadRequest,
            ErrorKind::StorageError => Status::ServiceUnavailable,
        }
    }
}

impl Status {
    /// The numeric code of the class.
    pub fn code(&self) -> (res: u16)
        ensures
            res == code_of(*self),
    {
        match self {
            Status::Success => 200,
            Status::BadRequest => 400,
            Status::Forbidden => 403,
            Status::NotFound => 404,
            Status::ServiceUnavailable => 503,
        }
    }
}

/// The version that every answer of the registry carries.
pub fn version() -> (res: String)
    ensures
        res@ == "0.1.0"@,
{
    "0.1.0".to_owned()
}

/// The uniform envelope of a failure: the version and the messages.
#[derive(Debug)]
pub struct TenebraeError {
    pub version: String,
    pub errors: Vec<String>,
}

impl TenebraeError {
    /// Whether the envelope carries the version and exactly `message`.
    pub open spec fn says(&self, message: Seq<char>) -> bool {
        &&& self.version@ == "0.1.0"@
        &&& self.errors@.len() == 1
        &&& self.errors@[0]@ == message
    }

    /// An envelope with one message.
    pub fn new(message: &str) -> (res: Self)
        ensures
            res.says(message@),
    {
        let mut errors: Vec<String> = Vec::new();
        errors.push(message.to_owned());
        TenebraeError { version: version(), errors }
    }
}

/// The envelope for input that is not of the required shape.
pub fn illformed_request() -> (res: TenebraeError)
    ensures
        res.says("Malformed request!"@),
{
    TenebraeError::new("Malformed request!")
}

/// The envelope for a fault of the service.
pub fn service_unavailable() -> (res: TenebraeError)
    ensures
        res.says("Service currently unavailable!"@),
{
    TenebraeError::new("Service currently unavailable!")
}

/// The envelope for a request that the guard turned away.
pub fn access_denied() -> (res: TenebraeError)
    ensures
        res.says("Access denied!"@),
{
    TenebraeError::new("Access denied!")
}

/// The envelope for an absent entity.
pub fn not_found() -> (res: TenebraeError)
    ensures
        res.says("The requested resource was not found!"@),
{
    TenebraeError::new("The requested resource was not found!")
}

/// The message that spells out each kind of failure.
pub open spec fn message_of(kind: ErrorKind) -> Seq<char> {
    match kind {
        ErrorKind::NotFound => "The requested resource was not found!"@,
        ErrorKind::Forbidden => "Access denied!"@,
        ErrorKind::Malformed => "Malformed request!"@,
        ErrorKind::StorageError => "Service currently unavailable!"@,
    }
}

/// The envelope for a failure of the given kind.
pub fn envelope(kind: ErrorKind) -> (res: TenebraeError)
    ensures
        res.says(message_of(kind)),
{
    match kind {
        ErrorKind::NotFound => not_found(),
        ErrorKind::Forbidden => access_denied(),
        ErrorKind::Malformed => illformed_request(),
        ErrorKind::StorageError => service_unavailable(),
    }
}

} // verus!
