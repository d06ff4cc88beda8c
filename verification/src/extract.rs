//! What server functions take from the request and from the application.

use vstd::prelude::*;

verus! {

/// The state that the application registered, as found in the request of the current
/// context. Without a request there is none.
pub fn use_app_state<T>(request_state: Option<Option<T>>) -> (state: Option<T>)
    ensures
        state == (match request_state {
            Some(state) => state,
            None => None,
        }),
{
    match request_state {
        Some(state) => state,
        None => None,
    }
}

/// The state that the application registered. The caller knows that there is one.
pub fn expect_app_state<T>(state: Option<T>) -> (found: T)
    requires
        state is Some,
    ensures
        state == Some(found),
{
    state.unwrap()
}

/// What is said where an extractor is run outside of a server function.
pub const MISSING_REQUEST: &'static str = "HttpRequest should have been provided via context";

/// Why an extractor gave no value.
pub enum ExtractError {
    /// There is no request in the context.
    MissingRequest,
    /// The extractor failed, and says why.
    Failed(String),
}

/// The outcome of an extractor. `outcome` is absent where there is no request in the
/// context to run it on.
pub fn extract_with_err<T>(outcome: Option<Result<T, String>>) -> (r: Result<T, ExtractError>)
    ensures
        match (r, outcome) {
            (Ok(value), Some(Ok(found))) => value == found,
            (Err(ExtractError::Failed(message)), Some(Err(cause))) => message == cause,
            (Err(ExtractError::MissingRequest), None) => true,
            _ => false,
        },
{
    match outcome {
        None => Err(ExtractError::MissingRequest),
        Some(Ok(value)) => Ok(value),
        Some(Err(cause)) => Err(ExtractError::Failed(cause)),
    }
}

// ---------------------------------------------------------------------------
// Laws
// ---------------------------------------------------------------------------
/// State is found exactly if there is a request and it holds some, and is then that.
pub proof fn state_is_that_of_the_request<T>(request_state: Option<Option<T>>, state: Option<T>)
    requires
        call_ensures(use_app_state::<T>, (request_state,), state),
    ensures
        request_state is None ==> state is None,
        request_state matches Some(held) ==> state == held,
{
}

/// What an extractor found is handed on as it is, and what it said where it failed; without
/// a request there is nothing to extract.
pub proof fn extracted_values_are_handed_on<T>(
    value: T,
    cause: String,
    found: Result<T, ExtractError>,
    failed: Result<T, ExtractError>,
    missing: Result<T, ExtractError>,
)
    requires
        call_ensures(extract_with_err::<T>, (Some(Ok::<T, String>(value)),), found),
        call_ensures(extract_with_err::<T>, (Some(Err::<T, String>(cause)),), failed),
        call_ensures(extract_with_err::<T>, (None::<Result<T, String>>,), missing),
    ensures
        found matches Ok(v) && v == value,
        failed matches Err(ExtractError::Failed(message)) && message == cause,
        missing matches Err(ExtractError::MissingRequest),
{
}

} // verus!
