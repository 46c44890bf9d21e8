use vstd::prelude::*;
use crate::error::PdError;

verus! {

/// The header that the client attaches to every request.
pub struct RequestHeader {
    pub cluster_id: u64,
}

/// The header that the PD server attaches to every response.
pub struct ResponseHeader {
    pub cluster_id: u64,
    /// The message of the error that the server reports, if it reports one.
    pub error: Option<String>,
}

/// Builds the request header for the cluster `cluster_id`.
pub fn request_header(cluster_id: u64) -> (header: RequestHeader)
    ensures
        header.cluster_id == cluster_id,
{
    RequestHeader { cluster_id }
}

/// Checks a response header: `Ok` when it carries no error, otherwise the
/// server's error message.
pub fn check_resp_header(header: &ResponseHeader) -> (res: Result<(), PdError>)
    ensures
        header.error is None ==> res is Ok,
        header.error is Some ==> res == Err::<(), PdError>(PdError::Server(header.error->0)),
{
    match &header.error {
        None => Ok(()),
        Some(message) => Err(PdError::Server(message.clone())),
    }
}

/// The value of a response whose header carries no error; the server's
/// error otherwise.
pub fn checked<T>(header: &ResponseHeader, value: T) -> (res: Result<T, PdError>)
    ensures
        header.error is None ==> res == Ok::<T, PdError>(value),
        header.error is Some ==> res == Err::<T, PdError>(PdError::Server(header.error->0)),
{
    match check_resp_header(header) {
        Ok(()) => Ok(value),
        Err(e) => Err(e),
    }
}

/// The region of a `GetRegionByID` response: `None` when the response holds
/// no region, the server's error when its header carries one.
pub fn checked_region<T>(header: &ResponseHeader, has_region: bool, region: T) -> (res: Result<
    Option<T>,
    PdError,
>)
    ensures
        header.error is Some ==> res == Err::<Option<T>, PdError>(PdError::Server(header.error->0)),
        header.error is None && has_region ==> res == Ok::<Option<T>, PdError>(Some(region)),
        header.error is None && !has_region ==> res == Ok::<Option<T>, PdError>(None),
{
    match check_resp_header(header) {
        Err(e) => Err(e),
        Ok(()) => if has_region {
            Ok(Some(region))
        } else {
            Ok(None)
        },
    }
}

} // verus!
