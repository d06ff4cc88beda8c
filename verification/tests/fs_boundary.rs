use leptos_ntex_unofficial::fs_boundary::{
    acquire, checked_lock_file, lock_mode, open_lock_entry, opens_directly, parent, relative,
    BoundaryError, IoKind, LockAction, LockEntryError, LockError, LockEvent, LockMode,
    PathComponent, PrefixSearch, SplitError,
};

fn names(parts: &[&str]) -> Vec<Vec<u8>> {
    parts.iter().map(|part| part.as_bytes().to_vec()).collect()
}

fn normal(name: &str) -> PathComponent {
    PathComponent::Normal(name.as_bytes().to_vec())
}

#[test]
fn paths_are_taken_relative_to_the_root() {
    let root = names(&["srv", "site"]);
    assert_eq!(
        relative(&root, &names(&["srv", "site", "a"]), &names(&["b", "c"])),
        Ok(names(&["a", "b", "c"]))
    );
    assert_eq!(relative(&root, &root, &names(&[])), Ok(names(&[])));
    assert_eq!(
        relative(&root, &names(&["srv", "other"]), &names(&["b"])),
        Err(BoundaryError::Escapes)
    );
    assert_eq!(
        relative(&root, &names(&["srv"]), &names(&["site"])),
        Err(BoundaryError::Escapes)
    );
    for dots in [".", ".."] {
        assert_eq!(
            relative(&root, &root, &names(&["a", dots])),
            Err(BoundaryError::NotPlain)
        );
    }
}

#[test]
fn boundary_errors_have_kinds_and_messages() {
    assert_eq!(BoundaryError::Escapes.kind(), IoKind::PermissionDenied);
    assert_eq!(BoundaryError::Escapes.message(), "file escapes site_root");
    assert_eq!(BoundaryError::NotPlain.kind(), IoKind::InvalidInput);
    assert_eq!(
        BoundaryError::NotPlain.message(),
        "missing path components must be plain names"
    );
}

#[test]
fn plain_paths_open_directly() {
    assert!(opens_directly(&vec![normal("a"), normal("b")]));
    assert!(!opens_directly(&vec![]));
    assert!(!opens_directly(&vec![normal("a"), PathComponent::Parent]));
    assert!(!opens_directly(&vec![PathComponent::Root, normal("a")]));
}

#[test]
fn prefix_search_sets_components_aside() {
    let path = vec![PathComponent::Root, normal("a"), normal("b")];
    let mut search = PrefixSearch::canonicalize_existing_prefix(path);
    assert_eq!(search.probe().len(), 3);
    assert!(search.step_back());
    assert!(search.step_back());
    assert_eq!(search.probe().len(), 1);
    assert!(!search.step_back());
    let suffix = search.into_suffix();
    assert!(matches!(&suffix[0], PathComponent::Normal(name) if name == b"a"));
    assert!(matches!(&suffix[1], PathComponent::Normal(name) if name == b"b"));
    assert!(!PrefixSearch::canonicalize_existing_prefix(vec![]).step_back());
}

#[test]
fn paths_split_into_directory_and_name() {
    assert_eq!(parent(&vec![PathComponent::Root, normal("a")]), Ok(1));
    assert_eq!(parent(&vec![normal("a")]), Ok(0));
    assert_eq!(parent(&vec![]), Err(SplitError::NoParent));
    assert_eq!(parent(&vec![PathComponent::Root]), Err(SplitError::NoParent));
    assert_eq!(parent(&vec![normal("a"), PathComponent::Parent]), Err(SplitError::NoName));
    assert_eq!(parent(&vec![PathComponent::Current]), Err(SplitError::NoName));
}

#[test]
fn locks_are_private_regular_files() {
    assert_eq!(checked_lock_file(true, 1), Ok(()));
    assert_eq!(checked_lock_file(true, 2), Err(LockEntryError::Aliased));
    assert_eq!(checked_lock_file(true, 0), Err(LockEntryError::Aliased));
    assert_eq!(checked_lock_file(false, 1), Err(LockEntryError::NotRegular));
}

#[test]
fn writers_create_locks_and_readers_look_them_up() {
    let gone = IoKind::NotFound;
    let writer = |event| open_lock_entry(true, event);
    let reader = |event| open_lock_entry(false, event);
    assert_eq!(writer(LockEvent::Start), LockAction::Create);
    assert_eq!(reader(LockEvent::Start), LockAction::LookUp);
    assert_eq!(writer(LockEvent::Created(Ok(()))), LockAction::Inspect);
    assert_eq!(
        writer(LockEvent::Created(Err(IoKind::AlreadyExists))),
        LockAction::LookUp
    );
    assert_eq!(
        writer(LockEvent::Created(Err(gone))),
        LockAction::Refuse(LockEntryError::Io(gone))
    );
    assert_eq!(reader(LockEvent::LookedUp(Ok(true))), LockAction::Open);
    assert_eq!(
        reader(LockEvent::LookedUp(Ok(false))),
        LockAction::Refuse(LockEntryError::NotRegular)
    );
    assert_eq!(
        reader(LockEvent::LookedUp(Err(gone))),
        LockAction::Refuse(LockEntryError::Io(gone))
    );
    assert_eq!(reader(LockEvent::Opened(Ok(()))), LockAction::Inspect);
    assert_eq!(
        reader(LockEvent::Opened(Err(gone))),
        LockAction::Refuse(LockEntryError::Io(gone))
    );
    assert_eq!(reader(LockEvent::Inspected(Ok((true, 1)))), LockAction::Accept);
    assert_eq!(
        reader(LockEvent::Inspected(Ok((true, 2)))),
        LockAction::Refuse(LockEntryError::Aliased)
    );
    assert_eq!(
        reader(LockEvent::Inspected(Err(gone))),
        LockAction::Refuse(LockEntryError::Io(gone))
    );
}

#[test]
fn lock_failures_are_classified() {
    assert!(LockEntryError::Io(IoKind::NotFound).is_not_found());
    assert!(!LockEntryError::Aliased.is_not_found());
    assert_eq!(LockEntryError::Aliased.kind(), IoKind::InvalidData);
    assert_eq!(LockEntryError::NotRegular.kind(), IoKind::InvalidData);
    assert_eq!(LockEntryError::Io(IoKind::Other).kind(), IoKind::Other);
    assert_eq!(lock_mode(true), LockMode::Exclusive);
    assert_eq!(lock_mode(false), LockMode::Shared);
    assert_eq!(acquire(Ok(())), Ok(()));
    assert_eq!(acquire(Err(IoKind::WouldBlock)), Err(LockError::WouldBlock));
    assert_eq!(acquire(Err(IoKind::Other)), Err(LockError::Io(IoKind::Other)));
}
