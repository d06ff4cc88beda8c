use leptos_ntex_unofficial::extract::{extract_with_err, ExtractError, MISSING_REQUEST};
use leptos_ntex_unofficial::owner::{
    activates_owner, end_of_response, restore_owner, Cleanup, Restore,
};
use leptos_ntex_unofficial::request::{missing_scope_status, Retirement, Scopes};
use leptos_ntex_unofficial::{
    expect_app_state, use_app_state, Request, RequestAccessError, RequestRuntime, RequestScope,
};

#[test]
fn app_state_needs_a_request_that_holds_it() {
    assert_eq!(use_app_state::<u8>(None), None);
    assert_eq!(use_app_state::<u8>(Some(None)), None);
    assert_eq!(use_app_state(Some(Some(3u8))), Some(3));
    assert_eq!(expect_app_state(Some(3u8)), 3);
}

#[test]
fn extraction_without_a_request_says_so() {
    assert_eq!(
        MISSING_REQUEST,
        "HttpRequest should have been provided via context"
    );
    assert!(matches!(
        extract_with_err::<u8>(None),
        Err(ExtractError::MissingRequest)
    ));
}

#[test]
fn extraction_hands_over_the_outcome() {
    assert!(matches!(extract_with_err(Some(Ok(5u8))), Ok(5)));
    assert!(matches!(
        extract_with_err::<u8>(Some(Err("no".to_owned()))),
        Err(ExtractError::Failed(m)) if m == "no"
    ));
}

#[test]
fn owners_end_on_their_thread() {
    assert_eq!(end_of_response(true, 1, 1), Cleanup::Force);
    assert_eq!(end_of_response(true, 1, 2), Cleanup::Leak);
    assert_eq!(end_of_response(false, 1, 1), Cleanup::Nothing);
    assert!(activates_owner(4, 4));
    assert!(!activates_owner(4, 5));
}

#[test]
fn previous_owner_is_restored() {
    assert_eq!(restore_owner(&Some(1u8), &Some(2)), Restore::SetPrevious);
    assert_eq!(restore_owner(&Some(1u8), &None), Restore::SetPrevious);
    assert_eq!(restore_owner(&None, &Some(2u8)), Restore::UnsetCurrent);
    assert_eq!(restore_owner::<u8>(&None, &None), Restore::Nothing);
}

#[test]
fn access_errors_have_messages() {
    let messages = [
        RequestAccessError::MissingScope.message(),
        RequestAccessError::WrongThread.message(),
        RequestAccessError::Closed.message(),
    ];
    assert_eq!(
        messages,
        [
            "no active RequestScope on this thread",
            "request access requires its origin thread",
            "request scope is closed",
        ]
    );
}

#[test]
fn requests_without_a_scope_are_failures_of_the_server() {
    assert_eq!(missing_scope_status(), 500);
}

#[test]
fn requests_need_a_scope() {
    let mut scopes: Scopes<&str> = Scopes::new();
    assert!(scopes.check_registration_scope());
    assert!(!scopes.is_exhausted());
    assert_eq!(
        Request::try_new(&mut scopes, "a", 1),
        Err(RequestAccessError::MissingScope)
    );
}

#[test]
fn fresh_handle_reaches_its_request_on_its_thread() {
    let mut scopes: Scopes<&str> = Scopes::new();
    let scope = RequestScope::new(&mut scopes, 1);
    assert!(!scopes.check_registration_scope());
    let first = Request::new(&mut scopes, "first", 7);
    let second = Request::try_new(&mut scopes, "second", 7).unwrap();
    assert!(!scopes.is_exhausted());
    assert_eq!(first.with(&scopes, 7), Ok(&"first"));
    assert_eq!(second.with(&scopes, 7), Ok(&"second"));
    assert_eq!(second.with(&scopes, 8), Err(RequestAccessError::WrongThread));
    assert_eq!(first.try_into_inner(&scopes, 7), Ok("first"));
    assert_eq!(
        first.try_into_inner(&scopes, 8),
        Err(RequestAccessError::WrongThread)
    );
    assert_eq!(second.into_inner(&scopes, 7), "second");
    let closed = scope.close(&mut scopes);
    let natives: Vec<&str> = closed.iter().map(|(_, native)| *native).collect();
    assert_eq!(natives, ["first", "second"]);
    assert_eq!(first.with(&scopes, 7), Err(RequestAccessError::Closed));
}

#[test]
fn scopes_may_close_in_any_order() {
    let mut scopes: Scopes<u8> = Scopes::new();
    let outer = RequestScope::new(&mut scopes, 1);
    let in_outer = Request::new(&mut scopes, 10, 0);
    let inner = RequestScope::new(&mut scopes, 2);
    let in_inner = Request::new(&mut scopes, 20, 0);
    let closed = outer.close(&mut scopes);
    assert_eq!(closed.len(), 1);
    assert_eq!(in_outer.with(&scopes, 0), Err(RequestAccessError::Closed));
    assert_eq!(in_inner.with(&scopes, 0), Ok(&20));
    let again = Request::new(&mut scopes, 21, 0);
    assert_eq!(again.scope, 2);
    assert_eq!(inner.close(&mut scopes).len(), 2);
    assert!(scopes.check_registration_scope());
}

#[test]
fn dropped_handle_takes_its_request_along() {
    let mut scopes: Scopes<u8> = Scopes::new();
    let _scope = RequestScope::new(&mut scopes, 1);
    let kept = Request::new(&mut scopes, 10, 0);
    let dropped = Request::new(&mut scopes, 20, 0);
    assert!(matches!(scopes.retire(&dropped, 0), Retirement::Removed(20)));
    assert!(matches!(scopes.retire(&dropped, 0), Retirement::Gone));
    assert!(matches!(scopes.retire(&kept, 3), Retirement::Elsewhere));
    assert_eq!(kept.with(&scopes, 0), Ok(&10));
    assert_eq!(dropped.with(&scopes, 0), Err(RequestAccessError::Closed));
}

#[test]
fn collecting_takes_the_retired_requests_out() {
    let mut scopes: Scopes<u8> = Scopes::new();
    let scope = RequestScope::new(&mut scopes, 9);
    let a = Request::new(&mut scopes, 1, 0);
    let b = Request::new(&mut scopes, 2, 0);
    let c = Request::new(&mut scopes, 3, 0);
    assert_eq!(scope.collect(&mut scopes, &vec![a.id, c.id]), vec![1, 3]);
    assert_eq!(a.with(&scopes, 0), Err(RequestAccessError::Closed));
    assert_eq!(b.with(&scopes, 0), Ok(&2));
    assert_eq!(c.with(&scopes, 0), Err(RequestAccessError::Closed));
    assert_eq!(scope.collect(&mut scopes, &vec![]), Vec::<u8>::new());
}

#[test]
fn request_runtime_keeps_the_runtime_it_wraps() {
    let runtime = RequestRuntime::new(5u8);
    let copy = runtime;
    assert_eq!(*runtime.inner(), 5);
    assert_eq!(*copy.inner(), 5);
}
