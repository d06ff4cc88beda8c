use leptos_ntex_unofficial::fs_boundary::IoKind;
use leptos_ntex_unofficial::http::{HeaderName, HeaderValue};
use leptos_ntex_unofficial::response::NtexResponse;
use leptos_ntex_unofficial::static_routes::generation::{
    Generation, GenerationAction, GenerationEvent, Phase, Trigger,
};
use leptos_ntex_unofficial::static_routes::names::{
    has_ascii_letter, is_transient_publication_name, next_lookup, observe_case_rule, probe_name,
    static_namespace, static_work_key, stored_entry_name, swap_ascii_case, Ancestor, CaseRule,
    CaseSearch, LookupStep, Observation, SearchStep,
};
use leptos_ntex_unofficial::static_routes::paths::static_path;
use leptos_ntex_unofficial::static_routes::report::{try_generate, StaticPolicyError};
use leptos_ntex_unofficial::static_routes::serve::{
    base_status, complete_static_response, handle_static_route, inline_page, selected_media_type,
    was_error_status, ServeAction, ServeEvent,
};
use leptos_ntex_unofficial::static_routes::storage::{
    body_digest, bucket_lock_name, damaged_metadata_error, lock_name, metadata_name,
    next_publish_step, open_static_metadata, parse_static_snapshot, read_paired_static_file,
    read_snapshot, read_stored_page, temporary_name, to_hex, write_static_route, EntryType, MetadataAction,
    MetadataEvent, PublishStep, ReadAction, ReadEvent, SnapshotError, StoredResponse,
    LOCK_BUCKETS, METADATA_DIRECTORY, PUBLICATION_LOCK,
};
use leptos_ntex_unofficial::static_routes::verified::{Identity, VerifiedPairs, CAPACITY};
use leptos_ntex_unofficial::static_routes::work::{
    Admission, StaticRuntime, WorkState, NO_WAITERS, RENDER_CANCELLED, SUBSCRIPTION_ENDED,
    TASK_ENDED,
};
use leptos_ntex_unofficial::{ResponseParts, StaticGenerationReport};
use ntex::http::HeaderMap;

fn parts(status: Option<u16>, fields: &[(&str, &str)]) -> ResponseParts {
    let mut parts = ResponseParts::new();
    parts.status = status;
    for (name, value) in fields {
        parts.append_header(
            HeaderName::from_text(name).unwrap(),
            HeaderValue::from_text(value).unwrap(),
        );
    }
    parts
}

fn values(headers: &HeaderMap, name: &str) -> Vec<String> {
    headers
        .get_all(name)
        .map(|value| value.to_str().unwrap().to_owned())
        .collect()
}

fn bytes(text: &str) -> Vec<u8> {
    text.as_bytes().to_vec()
}

fn owned(text: &str) -> String {
    text.to_owned()
}

#[test]
fn pages_have_html_files() {
    let path = |route: &str| static_path(route).map(|entries| entries.join("/"));
    let some = |text: &str| Some(text.to_owned());
    assert_eq!(path("/"), some("index.html"));
    assert_eq!(path(""), some("index.html"));
    assert_eq!(path("/about"), some("about.html"));
    assert_eq!(path("/about/"), some("about/index.html"));
    assert_eq!(path("/a//b"), some("a/b.html"));
    assert_eq!(path("/a%20b/c"), some("a b/c.html"));
    assert_eq!(path("/.well-known/x"), some(".well-known/x.html"));
}

#[test]
fn pages_stay_below_the_site() {
    for route in [
        "/../x",
        "/a/../b",
        "/%2e%2e/x",
        "/a%2fb",
        "/a%5cb",
        "/a%00b",
        "/.env",
        "/.well-known",
        "/%ff",
    ] {
        assert_eq!(static_path(route), None, "{route}");
    }
}

#[test]
fn index_aliases_lead_to_one_file() {
    assert_eq!(static_path("/"), static_path("/index"));
    assert_eq!(static_path("/a/"), static_path("/a/index"));
}

#[test]
fn case_is_swapped_and_folded() {
    assert_eq!(swap_ascii_case(&bytes("aB1")), Some(bytes("Ab1")));
    assert_eq!(swap_ascii_case(&bytes("123")), None);
    assert!(has_ascii_letter(&bytes("1z")));
    assert!(!has_ascii_letter(&bytes("\u{e9}")));
    assert_eq!(CaseRule::Folds.fold(&bytes("aBC")), bytes("abc"));
    assert_eq!(CaseRule::Distinct.fold(&bytes("aBC")), bytes("aBC"));
    assert_eq!(CaseRule::Unknown.fold(&bytes("aBC")), bytes("aBC"));
}

#[test]
fn transient_names_are_not_probed() {
    let transient = bytes(".leptos-0a.tmp.1.2");
    assert!(is_transient_publication_name(&transient));
    assert!(!is_transient_publication_name(&bytes(".leptos-static-00.lock")));
    assert!(!is_transient_publication_name(&bytes("x.leptos-a.tmp.1")));
    assert_eq!(probe_name(&transient), None);
    assert_eq!(probe_name(&bytes("42")), None);
    assert_eq!(probe_name(&bytes("Page.html")), Some(bytes("pAGE.HTML")));
}

#[test]
fn observations_show_the_case_rule() {
    let see = |single, swapped, retained| {
        observe_case_rule(&Observation {
            original: Some(((1, 2), single)),
            swapped,
            retained,
        })
    };
    assert_eq!(see(true, Ok((1, 2)), Some((1, 2))), Some(CaseRule::Folds));
    assert_eq!(see(true, Ok((1, 3)), Some((1, 2))), Some(CaseRule::Distinct));
    assert_eq!(see(true, Err(true), Some((1, 2))), Some(CaseRule::Distinct));
    assert_eq!(see(true, Err(false), Some((1, 2))), None);
    assert_eq!(see(false, Ok((1, 2)), Some((1, 2))), None);
    assert_eq!(see(true, Ok((1, 2)), Some((1, 9))), None);
    assert_eq!(see(true, Ok((1, 2)), None), None);
    let vanished = Observation {
        original: None,
        swapped: Ok((1, 2)),
        retained: Some((1, 2)),
    };
    assert_eq!(observe_case_rule(&vanished), None);
}

#[test]
fn rule_search_stays_on_its_device() {
    let mut search = CaseSearch { device: None };
    assert_eq!(search.ascii_case_rule(Ancestor::Missing), SearchStep::Up);
    assert_eq!(search.ascii_case_rule(Ancestor::Directory(7)), SearchStep::Observe);
    assert_eq!(search.ascii_case_rule(Ancestor::Directory(7)), SearchStep::Observe);
    assert_eq!(search.ascii_case_rule(Ancestor::Directory(8)), SearchStep::Stop);
    assert_eq!(search.device, Some(7));
    assert_eq!(search.ascii_case_rule(Ancestor::Other), SearchStep::Stop);
}

#[test]
fn entries_are_looked_up_twice() {
    let next = |earlier, listed: Option<&[&str]>| {
        let listed = listed.map(|names| names.iter().map(|name| bytes(name)).collect());
        next_lookup(earlier, &listed, &bytes("a"), CaseRule::Folds)
    };
    assert!(matches!(next(0, None), LookupStep::Absent));
    assert!(matches!(next(1, None), LookupStep::Absent));
    assert!(matches!(next(0, Some(&[])), LookupStep::Again));
    assert!(matches!(next(1, Some(&[])), LookupStep::Found(name) if name == b"a"));
    assert!(matches!(next(0, Some(&["A"])), LookupStep::Found(name) if name == b"A"));
    assert!(matches!(next(usize::MAX, Some(&[])), LookupStep::Found(name) if name == b"a"));
}

#[test]
fn stored_spellings() {
    let stored = |candidates: &[&str], name: &str, rule| {
        let candidates = candidates.iter().map(|c| bytes(c)).collect();
        stored_entry_name(&candidates, &bytes(name), rule)
    };
    assert_eq!(stored(&[], "a", CaseRule::Folds), None);
    assert_eq!(stored(&["x"], "a", CaseRule::Distinct), Some(bytes("x")));
    assert_eq!(stored(&["A", "a"], "a", CaseRule::Folds), Some(bytes("a")));
    assert_eq!(stored(&["A", "b"], "a", CaseRule::Folds), Some(bytes("A")));
    assert_eq!(stored(&["A", "b"], "a", CaseRule::Distinct), Some(bytes("a")));
}

#[test]
fn aliases_in_case_share_their_keys() {
    let key = |name: &str, stored: Option<&str>, rule| {
        static_work_key(bytes("/site"), &bytes(name), stored.map(bytes), rule).keys()
    };
    assert_eq!(key("Page.html", None, CaseRule::Folds), [bytes("/site/page.html")]);
    assert_eq!(
        key("Page.html", None, CaseRule::Folds),
        key("PAGE.html", Some("page.HTML"), CaseRule::Folds)
    );
    assert_ne!(
        key("Page.html", None, CaseRule::Distinct),
        key("page.html", None, CaseRule::Distinct)
    );
    assert_eq!(
        key("a", Some("b"), CaseRule::Distinct),
        [bytes("/site/b"), bytes("/site/a")]
    );
    let root = static_work_key(bytes("/"), &bytes("a"), None, CaseRule::Unknown);
    assert_eq!(root.keys(), [bytes("/a")]);
}

#[test]
fn namespaces_are_extended_by_names() {
    let mut namespace = vec![bytes("srv")];
    static_namespace(&mut namespace, &bytes("a"));
    static_namespace(&mut namespace, &bytes("."));
    static_namespace(&mut namespace, &bytes("b"));
    static_namespace(&mut namespace, &bytes(".."));
    assert_eq!(namespace, [bytes("srv"), bytes("a")]);
    static_namespace(&mut namespace, &bytes(".."));
    static_namespace(&mut namespace, &bytes(".."));
    static_namespace(&mut namespace, &bytes(".."));
    assert!(namespace.is_empty());
}

#[test]
fn digest_is_sha_256_in_hexadecimal() {
    assert_eq!(
        body_digest(b"abc"),
        "ba7816bf8f01cfea414140de5dae2223b00361a396177a9cb410ff61f20015ad"
    );
    assert_eq!(to_hex(&[0x00, 0x0f, 0xa0, 0xff]), "000fa0ff");
    assert_eq!(to_hex(&[]), "");
}

#[test]
fn stored_names() {
    assert_eq!(METADATA_DIRECTORY, ".leptos-static-metadata");
    assert_eq!(PUBLICATION_LOCK, ".leptos-static-publish.lock");
    assert_eq!(metadata_name(b"a.html"), bytes(".leptos-static-metadata/a.html"));
    assert_eq!(LOCK_BUCKETS, 32);
    assert_eq!(bucket_lock_name(7), ".leptos-static-07.lock");
    assert_eq!(bucket_lock_name(31), ".leptos-static-31.lock");
    // The digest of `abc` begins with 0xba, which leaves 26.
    assert_eq!(lock_name(b"abc"), ".leptos-static-26.lock");
    assert_eq!(
        temporary_name(b"abc", 12, 345),
        ".leptos-ba7816bf8f01cfea414140de5dae2223b00361a396177a9cb410ff61f20015ad.tmp.12.345"
    );
}

#[test]
fn pages_without_metadata_say_nothing_of_their_response() {
    assert!(matches!(read_stored_page(None, b"page"), Ok(None)));
    let metadata = write_static_route(&parts(Some(203), &[("x-a", "1")]), b"page");
    let read = read_stored_page(Some(&metadata), b"page").ok().unwrap().unwrap();
    assert_eq!(read.status, Some(203));
    assert_eq!(values(&read.headers, "x-a"), ["1"]);
    assert!(matches!(
        read_stored_page(Some(&metadata), b"other"),
        Err(SnapshotError::Inconsistent)
    ));
    assert!(matches!(
        read_stored_page(Some(b""), b"page"),
        Err(SnapshotError::Unreadable)
    ));
}

#[test]
fn metadata_with_a_name_that_is_no_token_are_refused() {
    let mut odd = parts(Some(200), &[("x-a", "1")]);
    odd.append_header(
        HeaderName::from_lowercase("x\"y").unwrap(),
        HeaderValue::from_text("2").unwrap(),
    );
    let metadata = write_static_route(&odd, b"page");
    assert!(matches!(
        read_snapshot(&metadata, b"page"),
        Err(SnapshotError::BadHeader)
    ));
}

#[test]
fn inline_pages_are_no_successes() {
    let head = inline_page();
    assert_eq!(head.status, 404);
    assert_eq!(values(&head.headers, "content-type"), ["text/html"]);
    assert_eq!(head.headers.len(), 1);
}

#[test]
fn temporary_names_are_transient_and_distinct() {
    let name = temporary_name(b"page.html", 1, 2);
    assert!(is_transient_publication_name(&name.clone().into_bytes()));
    assert_ne!(name, temporary_name(b"page.html", 1, 3));
    assert_ne!(temporary_name(b"p", 1, 12), temporary_name(b"p", 11, 2));
}

#[test]
fn written_metadata_are_read_back_with_their_page() {
    let original = parts(Some(404), &[("set-cookie", "a"), ("set-cookie", "b"), ("x-a", "\t")]);
    let metadata = write_static_route(&original, b"page");
    let read = read_snapshot(&metadata, b"page").ok().unwrap();
    assert_eq!(read.status, Some(404));
    assert_eq!(values(&read.headers, "set-cookie"), ["a", "b"]);
    assert_eq!(values(&read.headers, "x-a"), ["\t"]);
    assert_eq!(read.headers.len(), 2);
    assert!(matches!(
        read_snapshot(&metadata, b"other"),
        Err(SnapshotError::Inconsistent)
    ));
    assert!(matches!(
        read_snapshot(b"{}", b"page"),
        Err(SnapshotError::Unreadable)
    ));
}

#[test]
fn metadata_are_a_json_array() {
    let metadata = write_static_route(&parts(None, &[("x-a", "b")]), b"abc");
    let text = String::from_utf8(metadata).unwrap();
    assert_eq!(
        text,
        "[1,\"ba7816bf8f01cfea414140de5dae2223b00361a396177a9cb410ff61f20015ad\",null,[[\"x-a\",[98]]]]"
    );
}

#[test]
fn bytes_outside_of_text_survive_storage() {
    let mut original = ResponseParts::new();
    original.append_header(
        HeaderName::from_text("x-a").unwrap(),
        HeaderValue::from_bytes(b"\xff\xfe").unwrap(),
    );
    let metadata = write_static_route(&original, b"");
    let read = read_snapshot(&metadata, b"").ok().unwrap();
    assert_eq!(read.headers.get("x-a").unwrap().as_bytes(), b"\xff\xfe");
}

#[test]
fn broken_snapshots_are_told_apart() {
    let snapshot = |version, status, headers: &[(&str, &[u8])]| {
        let stored = StoredResponse {
            version,
            digest: owned("d"),
            status,
            headers: headers.iter().map(|(n, v)| (owned(n), v.to_vec())).collect(),
        };
        parse_static_snapshot(Some(stored), "d").map(|parts| parts.status)
    };
    assert_eq!(snapshot(1, Some(200), &[("X-A", b"1")]), Ok(Some(200)));
    assert_eq!(snapshot(1, None, &[]), Ok(None));
    assert_eq!(snapshot(2, None, &[]), Err(SnapshotError::Inconsistent));
    assert_eq!(snapshot(1, Some(99), &[]), Err(SnapshotError::BadStatus));
    assert_eq!(snapshot(1, Some(1000), &[]), Err(SnapshotError::BadStatus));
    assert_eq!(snapshot(1, None, &[("a b", b"1")]), Err(SnapshotError::BadHeader));
    assert_eq!(snapshot(1, None, &[("a", b"\n")]), Err(SnapshotError::BadHeader));
    assert!(matches!(
        parse_static_snapshot(None, "d"),
        Err(SnapshotError::Unreadable)
    ));
}

#[test]
fn metadata_search() {
    let gone = IoKind::NotFound;
    assert_eq!(
        open_static_metadata(MetadataEvent::Opened(Ok(()))),
        MetadataAction::Present
    );
    assert_eq!(
        open_static_metadata(MetadataEvent::Opened(Err(gone))),
        MetadataAction::LookUp(gone)
    );
    assert_eq!(
        open_static_metadata(MetadataEvent::Opened(Err(IoKind::PermissionDenied))),
        MetadataAction::Fail(IoKind::PermissionDenied)
    );
    assert_eq!(
        open_static_metadata(MetadataEvent::LookedUp(gone, true)),
        MetadataAction::Fail(IoKind::InvalidData)
    );
    assert_eq!(
        open_static_metadata(MetadataEvent::LookedUp(gone, false)),
        MetadataAction::InspectDirectory(gone)
    );
    let directory = |found| open_static_metadata(MetadataEvent::Directory(gone, found));
    assert_eq!(directory(Err(gone)), MetadataAction::Absent);
    assert_eq!(directory(Ok(EntryType::Directory)), MetadataAction::Absent);
    assert_eq!(directory(Ok(EntryType::Link)), MetadataAction::ResolveDirectory(gone));
    assert_eq!(directory(Ok(EntryType::Other)), MetadataAction::Fail(IoKind::InvalidData));
    let resolved = |found| open_static_metadata(MetadataEvent::Resolved(gone, found));
    assert_eq!(resolved(Ok(true)), MetadataAction::Absent);
    assert_eq!(resolved(Ok(false)), MetadataAction::Fail(IoKind::InvalidData));
    assert_eq!(resolved(Err(gone)), MetadataAction::Fail(IoKind::InvalidData));
    assert_eq!(damaged_metadata_error(IoKind::Other), IoKind::Other);
}

#[test]
fn pairs_are_read_under_the_lock_or_twice() {
    let gone = IoKind::NotFound;
    let next = read_paired_static_file;
    assert_eq!(next(ReadEvent::Locked(Ok(()))), ReadAction::Pin { lockless: false });
    assert_eq!(next(ReadEvent::Locked(Err(gone))), ReadAction::Pin { lockless: true });
    assert_eq!(
        next(ReadEvent::Locked(Err(IoKind::Other))),
        ReadAction::Fail(IoKind::Other)
    );
    let pinned = |lockless, metadata| next(ReadEvent::Pinned { lockless, metadata });
    assert_eq!(pinned(false, Ok(true)), ReadAction::Finish);
    assert_eq!(pinned(true, Ok(false)), ReadAction::Finish);
    assert_eq!(pinned(true, Ok(true)), ReadAction::Relock);
    assert_eq!(pinned(true, Err(gone)), ReadAction::Relock);
    assert_eq!(next(ReadEvent::Relocked(Ok(()))), ReadAction::Repin);
    assert_eq!(next(ReadEvent::Relocked(Err(gone))), ReadAction::Finish);
    assert_eq!(
        next(ReadEvent::Relocked(Err(IoKind::Other))),
        ReadAction::Fail(IoKind::Other)
    );
    assert_eq!(next(ReadEvent::Repinned), ReadAction::Finish);
}

#[test]
fn publication_steps_in_order() {
    let steps: Vec<PublishStep> = (0..).map_while(next_publish_step).collect();
    assert_eq!(
        steps,
        [
            PublishStep::LockPreparation,
            PublishStep::PreparePage,
            PublishStep::PrepareMetadata,
            PublishStep::LockPublication,
            PublishStep::CreateMetadataDirectory,
            PublishStep::PublishMetadata,
            PublishStep::SyncMetadataDirectory,
            PublishStep::PublishPage,
            PublishStep::SyncDirectory,
        ]
    );
}

fn identity(inode: u64) -> Identity {
    Identity {
        device: 1,
        inode,
        length: 10,
        changed: 0,
        changed_nsec: 0,
        modified: 0,
        modified_nsec: 0,
    }
}

#[test]
fn verified_pairs_are_remembered_while_unchanged() {
    let mut pairs: VerifiedPairs<u8> = VerifiedPairs::new();
    assert_eq!(pairs.lookup(b"a", identity(1), identity(2)), None);
    pairs.remember(b"a", identity(1), identity(2), 5);
    pairs.remember(b"b", identity(3), identity(4), 6);
    assert_eq!(pairs.lookup(b"a", identity(1), identity(2)), Some(&5));
    assert_eq!(pairs.lookup(b"a", identity(9), identity(2)), None);
    assert_eq!(pairs.lookup(b"a", identity(1), identity(9)), None);
    let mut touched = identity(1);
    touched.modified_nsec = 1;
    assert_eq!(pairs.lookup(b"a", touched, identity(2)), None);
    pairs.remember(b"a", identity(7), identity(8), 9);
    assert_eq!(pairs.lookup(b"a", identity(7), identity(8)), Some(&9));
    assert_eq!(pairs.lookup(b"b", identity(3), identity(4)), Some(&6));
}

#[test]
fn full_memory_of_pairs_starts_over() {
    let mut pairs: VerifiedPairs<usize> = VerifiedPairs::new();
    for index in 0..CAPACITY {
        pairs.remember(index.to_string().as_bytes(), identity(0), identity(0), index);
    }
    assert_eq!(pairs.lookup(b"0", identity(0), identity(0)), Some(&0));
    pairs.remember(b"0", identity(1), identity(0), 1);
    assert_eq!(pairs.lookup(b"1", identity(0), identity(0)), Some(&1));
    pairs.remember(b"one more", identity(0), identity(0), 2);
    assert_eq!(pairs.lookup(b"1", identity(0), identity(0)), None);
    assert_eq!(pairs.lookup(b"one more", identity(0), identity(0)), Some(&2));
}

type State = WorkState<&'static str, u8, &'static str>;

#[test]
fn callers_share_a_render() {
    let mut state: State = WorkState::new();
    assert!(matches!(state.render(&vec![], 1, Some("a")), Admission::Waiting(None)));
    assert!(matches!(state.render(&vec![true], 2, Some("b")), Admission::Waiting(Some("b"))));
    assert_eq!(state.begin_render(), Some("a"));
    assert!(matches!(
        state.render(&vec![false, true], 3, Some("c")),
        Admission::Waiting(Some("c"))
    ));
    assert_eq!(state.waiters, [2, 3]);
    assert_eq!(state.finish_static_work(None), [2, 3]);
    assert!(!state.running);
    assert!(state.terminal.is_none());
}

#[test]
fn finished_work_takes_no_callers() {
    let mut state: State = WorkState::new();
    state.render(&vec![], 1, Some("a"));
    state.begin_render();
    assert_eq!(state.finish_static_work(Some("done")), [1]);
    assert!(matches!(state.render(&vec![], 2, Some("b")), Admission::Over(2, Some("b"))));
    assert_eq!(state.end_task("late"), Vec::<u8>::new());
    assert_eq!(state.terminal, Some("done"));
}

#[test]
fn refused_work_is_blocked_until_it_reopens() {
    let mut state: State = WorkState::new();
    state.render(&vec![], 1, Some("a"));
    assert_eq!(state.refuse(), (Some("a"), vec![1]));
    assert!(matches!(state.render(&vec![], 2, None), Admission::Blocked(2, None)));
    state.reopen();
    assert!(matches!(state.render(&vec![], 2, None), Admission::Waiting(None)));
}

#[test]
fn unwanted_renders_are_abandoned() {
    let mut state: State = WorkState::new();
    state.render(&vec![], 1, Some("a"));
    state.render(&vec![true], 2, None);
    assert!(!state.abandon(&vec![false, true], NO_WAITERS));
    assert_eq!(state.waiters, [2]);
    assert!(state.abandon(&vec![false], NO_WAITERS));
    assert_eq!(state.terminal, Some("static render has no remaining waiters"));
}

#[test]
fn ended_tasks_and_subscriptions_say_so() {
    let mut state: State = WorkState::new();
    state.render(&vec![], 1, Some("a"));
    assert!(!state.end_subscriptions(SUBSCRIPTION_ENDED));
    state.begin_render();
    assert!(state.end_subscriptions(SUBSCRIPTION_ENDED));
    assert_eq!(state.terminal, Some("static regeneration subscription ended"));
    let mut state: State = WorkState::new();
    state.render(&vec![], 1, None);
    assert_eq!(state.end_task(TASK_ENDED), [1]);
    assert_eq!(state.terminal, Some("static render task ended before completion"));
    assert_eq!(RENDER_CANCELLED, "static render was cancelled");
}

#[test]
fn aliases_find_one_piece_of_work() {
    let mut runtime = StaticRuntime::new();
    let first = vec![bytes("/a"), bytes("/b")];
    assert_eq!(runtime.join_or_register(&first, &vec![], 1), (1, true));
    assert_eq!(runtime.join_or_register(&vec![bytes("/b")], &vec![1], 2), (1, false));
    assert_eq!(runtime.join_or_register(&vec![bytes("/c")], &vec![1], 3), (3, true));
    assert_eq!(runtime.join_or_register(&vec![bytes("/a")], &vec![3], 4), (4, true));
    runtime.release(&first, 1);
    assert_eq!(runtime.join_or_register(&vec![bytes("/a")], &vec![1, 4], 5), (4, false));
    assert_eq!(runtime.join_or_register(&vec![bytes("/b")], &vec![1, 4], 6), (6, true));
}

#[test]
fn plain_generation_runs_once() {
    let (work, action) = Generation::begin(false, 0);
    assert_eq!(action, GenerationAction::Render { abandonable: true });
    let (work, action) = work.run(GenerationEvent::Rendered(true));
    assert_eq!(action, GenerationAction::Publish);
    let (work, action) = work.run(GenerationEvent::Published(true));
    assert_eq!(action, GenerationAction::Finish { terminal: true });
    assert_eq!(work.phase, Phase::Ended);
}

#[test]
fn later_renders_subscribe_no_more() {
    let (work, _) = Generation::begin(false, 1);
    let (work, _) = work.run(GenerationEvent::Rendered(true));
    let (work, action) = work.run(GenerationEvent::Published(true));
    assert_eq!(action, GenerationAction::Subscribe);
    let (work, _) = work.run(GenerationEvent::Subscribed(true));
    let (work, action) = work.run(GenerationEvent::Triggered(Trigger::Request));
    assert_eq!(action, GenerationAction::Render { abandonable: false });
    let (work, action) = work.run(GenerationEvent::Rendered(true));
    assert_eq!(action, GenerationAction::Publish);
    let (_, action) = work.run(GenerationEvent::Published(true));
    assert_eq!(action, GenerationAction::Finish { terminal: false });
}

#[test]
fn subscribed_generation_goes_on() {
    let (work, action) = Generation::begin(true, 2);
    assert_eq!(action, GenerationAction::Reserve);
    let (work, action) = work.run(GenerationEvent::Reserved(true));
    assert_eq!(action, GenerationAction::Admit);
    let (work, action) = work.run(GenerationEvent::Admitted(true));
    assert_eq!(action, GenerationAction::Render { abandonable: false });
    let (work, _) = work.run(GenerationEvent::Rendered(true));
    let (work, action) = work.run(GenerationEvent::Published(true));
    assert_eq!(action, GenerationAction::Subscribe);
    let (work, action) = work.run(GenerationEvent::Subscribed(true));
    assert_eq!(action, GenerationAction::Finish { terminal: false });
    let (work, action) = work.run(GenerationEvent::Triggered(Trigger::Subscription));
    assert_eq!(action, GenerationAction::Admit);
    let (work, action) = work.run(GenerationEvent::Admitted(false));
    assert_eq!(action, GenerationAction::RefuseAndQueue);
    let (work, action) = work.run(GenerationEvent::SlotFreed);
    assert_eq!(action, GenerationAction::Render { abandonable: false });
    let (work, action) = work.run(GenerationEvent::Rendered(false));
    assert_eq!(action, GenerationAction::Finish { terminal: false });
    let (refused, action) = work
        .run(GenerationEvent::Triggered(Trigger::Request))
        .0
        .run(GenerationEvent::Admitted(false));
    assert_eq!(action, GenerationAction::RefuseAndWait);
    let (work, action) = refused.run(GenerationEvent::Exhausted { requested: false });
    assert_eq!(action, GenerationAction::End);
    assert_eq!(work.phase, Phase::Ended);
}

#[test]
fn refused_generation_fails() {
    let (work, _) = Generation::begin(true, 0);
    assert_eq!(work.run(GenerationEvent::Reserved(false)).1, GenerationAction::Fail);
    let (work, _) = work.run(GenerationEvent::Reserved(true));
    assert_eq!(work.run(GenerationEvent::Admitted(false)).1, GenerationAction::Fail);
    let (work, _) = Generation::begin(false, 0);
    let (work, action) = work.run(GenerationEvent::Abandoned);
    assert_eq!(action, GenerationAction::End);
    assert_eq!(work.phase, Phase::Ended);
}

#[test]
fn generation_is_summed_up() {
    let done = || (owned("/a"), Ok(()));
    assert!(matches!(
        try_generate(vec![done(), done()]),
        Ok(StaticGenerationReport { completed: 2 })
    ));
    let failed = (owned("/b"), Err(StaticPolicyError::Render(owned("why"))));
    let error = try_generate(vec![done(), failed, done()]).unwrap_err();
    assert_eq!(error.completed(), 2);
    assert_eq!(error.failures().len(), 1);
    assert_eq!(error.failures()[0].0, "/b");
    assert_eq!(
        error.message(),
        "1 static generation failures after 2 completed paths"
    );
}

#[test]
fn policy_errors_have_their_status() {
    assert_eq!(StaticPolicyError::Admission(owned("full")).status(), 503);
    assert!(StaticPolicyError::Admission(owned("full")).is_admission());
    assert_eq!(StaticPolicyError::Render(owned("x")).status(), 500);
    assert_eq!(StaticPolicyError::Storage(owned("x")).status(), 500);
}

#[test]
fn static_requests_are_served_from_the_file_if_they_can() {
    let next = handle_static_route;
    assert_eq!(next(ServeEvent::Named(false)), ServeAction::Bare(404));
    assert_eq!(next(ServeEvent::Named(true)), ServeAction::Open);
    assert_eq!(next(ServeEvent::Opened(true)), ServeAction::File);
    assert_eq!(next(ServeEvent::Opened(false)), ServeAction::Generate);
    assert_eq!(next(ServeEvent::Published), ServeAction::Reopen);
    assert_eq!(next(ServeEvent::Inline), ServeAction::Page);
    assert_eq!(next(ServeEvent::Refused { admission: true }), ServeAction::Bare(503));
    assert_eq!(next(ServeEvent::Refused { admission: false }), ServeAction::Bare(500));
    assert_eq!(next(ServeEvent::Reopened(true)), ServeAction::File);
    assert_eq!(next(ServeEvent::Reopened(false)), ServeAction::Bare(500));
}

#[test]
fn error_pages_and_base_statuses() {
    assert!(was_error_status(Some(404)));
    assert!(was_error_status(Some(500)));
    assert!(!was_error_status(Some(302)));
    assert!(!was_error_status(None));
    assert_eq!(base_status(&None), 200);
    assert_eq!(base_status(&Some(parts(None, &[]))), 200);
    assert_eq!(base_status(&Some(parts(Some(203), &[]))), 203);
}

#[test]
fn media_type_is_the_last_legal_one() {
    let selected = |fields: &[(&str, &str)]| selected_media_type(&parts(None, fields).headers);
    assert_eq!(selected(&[]), None);
    assert_eq!(
        selected(&[("content-type", "text/html"), ("content-type", "text/plain; charset=utf-8")]),
        Some(owned("text/plain; charset=utf-8"))
    );
    assert_eq!(selected(&[("content-type", "text/html"), ("content-type", "nonsense")]), None);
}

#[test]
fn stored_metadata_join_the_file() {
    let stored = || {
        parts(
            Some(203),
            &[
                ("etag", "\"stored\""),
                ("content-language", "de"),
                ("content-location", "/x"),
                ("x-a", "1"),
            ],
        )
    };
    let complete = |status, from_file, if_range| {
        let mut head = NtexResponse {
            status,
            headers: parts(None, &[("etag", "\"own\"")]).headers,
        };
        complete_static_response(&mut head, stored(), from_file, if_range);
        head
    };
    let head = complete(200, true, false);
    assert_eq!(head.status, 200);
    assert_eq!(values(&head.headers, "etag"), ["\"own\""]);
    assert_eq!(values(&head.headers, "content-language"), ["de"]);
    assert_eq!(values(&head.headers, "x-a"), ["1"]);
    let head = complete(304, true, false);
    assert!(values(&head.headers, "content-language").is_empty());
    assert_eq!(values(&head.headers, "content-location"), ["/x"]);
    assert!(values(&complete(206, true, true).headers, "content-language").is_empty());
    assert_eq!(values(&complete(206, true, false).headers, "content-language"), ["de"]);
    let head = complete(200, false, false);
    assert_eq!(head.status, 203);
    assert_eq!(values(&head.headers, "etag"), ["\"stored\""]);
}
