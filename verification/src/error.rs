//! The errors that callers of the library see.

use vstd::prelude::*;
use vstd::string::*;

use crate::api::{ApiError, ApiErrorView, ErrorCode, ErrorCodeView};
use crate::event::StoreError;
use crate::session::KeyStoreError;

verus! {

/// What can go wrong.
#[derive(Debug)]
pub enum CoreError {
    /// Encryption failed or is not to be had.
    Crypto { reason: String },
    /// The server refused a request with a typed code.
    Api { code: ErrorCode, reason: String },
    /// The server was not reached. Such a failure may be retried.
    Network { reason: String },
    /// What came from the server is not what the protocol promises.
    Protocol { reason: String },
    /// What is kept on the device failed.
    Storage { reason: String },
}

/// What a [`CoreError`] says.
pub enum CoreErrorView {
    Crypto(Seq<char>),
    Api(ErrorCodeView, Seq<char>),
    Network(Seq<char>),
    Protocol(Seq<char>),
    Storage(Seq<char>),
}

impl View for CoreError {
    type V = CoreErrorView;

    open spec fn view(&self) -> CoreErrorView {
        match self {
            CoreError::Crypto { reason } => CoreErrorView::Crypto(reason@),
            CoreError::Api { code, reason } => CoreErrorView::Api(code@, reason@),
            CoreError::Network { reason } => CoreErrorView::Network(reason@),
            CoreError::Protocol { reason } => CoreErrorView::Protocol(reason@),
            CoreError::Storage { reason } => CoreErrorView::Storage(reason@),
        }
    }
}

impl CoreErrorView {
    /// The error in words.
    pub open spec fn words(self) -> Seq<char> {
        match self {
            CoreErrorView::Crypto(reason) => "crypto error: "@ + reason,
            CoreErrorView::Api(code, reason) => "server rejected the request ["@ + code.wire()
                + "]: "@ + reason,
            CoreErrorView::Network(reason) => "network error: "@ + reason,
            CoreErrorView::Protocol(reason) => "protocol error: "@ + reason,
            CoreErrorView::Storage(reason) => "storage error: "@ + reason,
        }
    }
}

/// What a failure of the HTTP layer is reported as. The code is kept.
pub open spec fn of_api(err: ApiErrorView) -> CoreErrorView {
    match err {
        ApiErrorView::Server(_, code, message) => CoreErrorView::Api(code, message),
        ApiErrorView::Network(reason) => CoreErrorView::Network(reason),
        ApiErrorView::Malformed(reason) => CoreErrorView::Protocol(reason),
    }
}

/// A failure of the HTTP layer keeps its code and its words: a refusal is reported with
/// the server's own, a server that was not reached as such, and a malformed response as
/// a breach of the protocol.
pub proof fn failures_keep_their_words(
    status: u16,
    code: ErrorCodeView,
    words: Seq<char>,
    err: ApiErrorView,
)
    ensures
        of_api(ApiErrorView::Server(status, code, words)) == CoreErrorView::Api(code, words),
        of_api(ApiErrorView::Network(words)) == CoreErrorView::Network(words),
        of_api(ApiErrorView::Malformed(words)) == CoreErrorView::Protocol(words),
        of_api(err) is Network <==> err is Network,
        of_api(err) is Api <==> err is Server,
        of_api(err) is Protocol <==> err is Malformed,
{
}

/// An error in words ends with its own words and names its kind, and the code where it
/// has one.
pub proof fn errors_say_what_they_are(reason: Seq<char>, code: ErrorCodeView)
    ensures
        CoreErrorView::Crypto(reason).words() == "crypto error: "@ + reason,
        CoreErrorView::Api(code, reason).words() == "server rejected the request ["@ + code.wire()
            + "]: "@ + reason,
        CoreErrorView::Network(reason).words() == "network error: "@ + reason,
        CoreErrorView::Protocol(reason).words() == "protocol error: "@ + reason,
        CoreErrorView::Storage(reason).words() == "storage error: "@ + reason,
        crate::event::StoreErrorView::Db(reason).words() == "database error: "@ + reason,
        crate::event::StoreErrorView::Malformed(reason).words() == "malformed event: "@ + reason,
{
}

impl From<ApiError> for CoreError {
    fn from(err: ApiError) -> (r: CoreError) {
        match err {
            ApiError::Server { status, code, message } => CoreError::Api { code, reason: message },
            ApiError::Network { reason } => CoreError::Network { reason },
            ApiError::Malformed { reason } => CoreError::Protocol { reason },
        }
    }
}

impl vstd::std_specs::convert::FromSpecImpl<ApiError> for CoreError {
    open spec fn obeys_from_spec() -> bool {
        true
    }

    open spec fn from_spec(err: ApiError) -> CoreError {
        match err {
            ApiError::Server { status, code, message } => CoreError::Api { code, reason: message },
            ApiError::Network { reason } => CoreError::Network { reason },
            ApiError::Malformed { reason } => CoreError::Protocol { reason },
        }
    }
}

impl From<KeyStoreError> for CoreError {
    fn from(err: KeyStoreError) -> (r: CoreError) {
        match err {
            KeyStoreError::Backend { reason } => CoreError::Storage { reason },
        }
    }
}

impl vstd::std_specs::convert::FromSpecImpl<KeyStoreError> for CoreError {
    open spec fn obeys_from_spec() -> bool {
        true
    }

    open spec fn from_spec(err: KeyStoreError) -> CoreError {
        match err {
            KeyStoreError::Backend { reason } => CoreError::Storage { reason },
        }
    }
}

impl CoreError {
    /// The error in words.
    pub fn describe(&self) -> (r: String)
        ensures
            r@ == self@.words(),
    {
        match self {
            CoreError::Crypto { reason } => crate::text::join2("crypto error: ", reason.as_str()),
            CoreError::Api { code, reason } => {
                let mut s = crate::text::join3(
                    "server rejected the request [",
                    code.as_str(),
                    "]: ",
                );
                s.append(reason.as_str());
                s
            },
            CoreError::Network { reason } => crate::text::join2("network error: ", reason.as_str()),
            CoreError::Protocol { reason } => crate::text::join2(
                "protocol error: ",
                reason.as_str(),
            ),
            CoreError::Storage { reason } => crate::text::join2("storage error: ", reason.as_str()),
        }
    }

    /// What a failure of the HTTP layer is reported as.
    pub fn of_api(err: ApiError) -> (r: CoreError)
        ensures
            r@ == of_api(err@),
    {
        CoreError::from(err)
    }

    /// What a failure of the local store is reported as.
    pub fn of_store(err: StoreError) -> (r: CoreError)
        ensures
            r@ == CoreErrorView::Storage(err@.words()),
    {
        CoreError::Storage { reason: err.describe() }
    }

    /// A failure of encryption.
    pub fn crypto(reason: &str) -> (r: CoreError)
        ensures
            r@ == CoreErrorView::Crypto(reason@),
    {
        CoreError::Crypto { reason: reason.to_owned() }
    }
}

/// The view of a result of the library.
pub open spec fn core_outcome<T: View>(r: Result<T, CoreError>) -> Result<T::V, CoreErrorView> {
    match r {
        Ok(x) => Ok(x@),
        Err(e) => Err(e@),
    }
}

/// An error that is converted keeps its words, and its code where it has one: a refusal of
/// the server stays one, a server that was not reached stays one, a reply that cannot be
/// read is a breach of the protocol, and a fault of the key store one of storage.
pub proof fn converted_errors_keep_their_words(e: ApiError, k: KeyStoreError)
    ensures
        ({
            let c = <CoreError as vstd::std_specs::convert::FromSpec<ApiError>>::from_spec(e);
            match e {
                ApiError::Server { status, code, message } => c@ == CoreErrorView::Api(
                    code@,
                    message@,
                ),
                ApiError::Network { reason } => c@ == CoreErrorView::Network(reason@),
                ApiError::Malformed { reason } => c@ == CoreErrorView::Protocol(reason@),
            }
        }),
        ({
            let c = <CoreError as vstd::std_specs::convert::FromSpec<KeyStoreError>>::from_spec(k);
            k matches KeyStoreError::Backend { reason } && c@ == CoreErrorView::Storage(reason@)
        }),
{
}

/// An error shows its kind and its fields.
pub proof fn errors_show_their_fields(e: CoreError)
    ensures
        match e {
            CoreError::Crypto { reason } => e@ == CoreErrorView::Crypto(reason@),
            CoreError::Api { code, reason } => e@ == CoreErrorView::Api(code@, reason@),
            CoreError::Network { reason } => e@ == CoreErrorView::Network(reason@),
            CoreError::Protocol { reason } => e@ == CoreErrorView::Protocol(reason@),
            CoreError::Storage { reason } => e@ == CoreErrorView::Storage(reason@),
        },
{
}

} // verus!
