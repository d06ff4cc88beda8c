//! What a page route needs to know of a request, and how its HTML is streamed.

use crate::http::{self, contains_header};
use crate::routes::{self, ListingView, Method, RegistrationView, SsrMode};
use crate::text::{self, same_text};
use ntex::http::HeaderMap;
use vstd::prelude::*;

verus! {

/// The URL under which the router sees a request: a fixed origin, the path, and the
/// query where there is one.
pub open spec fn corrected_path(path: Seq<char>, query: Seq<char>) -> Seq<char> {
    if query.len() == 0 {
        "http://leptos"@ + path
    } else {
        "http://leptos"@ + path + "?"@ + query
    }
}

/// The URL under which the router sees a request.
pub fn leptos_corrected_path(path: &str, query: &str) -> (url: String)
    ensures
        url@ == corrected_path(path@, query@),
{
    let mut url = text::copy_text("http://leptos");
    url.append(path);
    if query.unicode_len() > 0 {
        url.append("?");
        url.append(query);
    }
    url
}

/// The name of a method.
pub open spec fn method_name(method: Method) -> Seq<char> {
    match method {
        Method::Get => "GET"@,
        Method::Post => "POST"@,
        Method::Put => "PUT"@,
        Method::Delete => "DELETE"@,
        Method::Patch => "PATCH"@,
    }
}

/// The name of a method.
pub fn ntex_method(method: Method) -> (name: &'static str)
    ensures
        name@ == method_name(method),
{
    match method {
        Method::Get => "GET",
        Method::Post => "POST",
        Method::Put => "PUT",
        Method::Delete => "DELETE",
        Method::Patch => "PATCH",
    }
}

/// Whether a route for `method` answers a request. HEAD is answered like GET.
pub open spec fn accepts_method(method: Method, requested: Seq<char>) -> bool {
    requested == method_name(method) || (method == Method::Get && requested == "HEAD"@)
}

/// Whether a route for `method` answers a request. HEAD is answered like GET.
pub fn route_accepts(method: Method, requested: &str) -> (accepts: bool)
    ensures
        accepts <==> accepts_method(method, requested@),
{
    same_text(requested, ntex_method(method)) || (method == Method::Get && same_text(
        requested,
        "HEAD",
    ))
}

// ---------------------------------------------------------------------------
// Streaming
// ---------------------------------------------------------------------------
/// How the HTML of a page is produced.
#[derive(Clone, Copy, Debug, PartialEq, Eq, Structural)]
pub enum PageStream {
    /// Fragments are sent as they resolve.
    OutOfOrder,
    /// The stream pauses at each fragment until it has resolved.
    InOrder,
    /// Everything is sent once all of it has resolved.
    Collected,
    /// The page is served from a generated file.
    Stored,
    /// The mode is not known: the request fails.
    Unsupported,
}

/// How a page of a mode is produced. A client that cannot reorder fragments gets
/// them in order.
pub fn page_stream(mode: SsrMode, supports_ooo: bool) -> (stream: PageStream)
    ensures
        stream == (match mode {
            SsrMode::OutOfOrder | SsrMode::PartiallyBlocked => if supports_ooo {
                PageStream::OutOfOrder
            } else {
                PageStream::InOrder
            },
            SsrMode::InOrder => PageStream::InOrder,
            SsrMode::Async => PageStream::Collected,
            SsrMode::Static => PageStream::Stored,
            SsrMode::Unknown => PageStream::Unsupported,
        }),
{
    match mode {
        SsrMode::OutOfOrder => if supports_ooo {
            PageStream::OutOfOrder
        } else {
            PageStream::InOrder
        },
        SsrMode::PartiallyBlocked => if supports_ooo {
            PageStream::OutOfOrder
        } else {
            PageStream::InOrder
        },
        SsrMode::InOrder => PageStream::InOrder,
        SsrMode::Async => PageStream::Collected,
        SsrMode::Static => PageStream::Stored,
        SsrMode::Unknown => PageStream::Unsupported,
    }
}

/// Whether a request is a navigation of the islands router, which can occur only
/// where that router is enabled. Its fragments are sent in order.
pub fn is_islands_navigation(headers: &HeaderMap, enabled: bool) -> (navigation: bool)
    ensures
        navigation <==> enabled && http::has_field(*headers, "islands-router"@),
{
    enabled && contains_header(headers, "islands-router")
}

/// The response to a page whose mode is not known.
pub const UNSUPPORTED_MODE: &'static str = "This rendering mode is not supported.";

/// The status of a response to a page whose mode is not known.
pub fn unsupported_ssr_mode_status() -> (status: http::StatusCode)
    ensures
        status == http::INTERNAL_SERVER_ERROR,
{
    http::INTERNAL_SERVER_ERROR
}

// ---------------------------------------------------------------------------
// Preloading
// ---------------------------------------------------------------------------
/// A link in the head of a page.
pub enum PreloadLink {
    /// `preload` of a WebAssembly module.
    Module(String),
    /// `modulepreload` of the loader script.
    Loader(String),
}

/// What a link says.
pub enum PreloadView {
    Module(Seq<char>),
    Loader(Seq<char>),
}

impl View for PreloadLink {
    type V = PreloadView;

    open spec fn view(&self) -> PreloadView {
        match self {
            PreloadLink::Module(href) => PreloadView::Module(href@),
            PreloadLink::Loader(href) => PreloadView::Loader(href@),
        }
    }
}

pub open spec fn link_views(links: Seq<PreloadLink>) -> Seq<PreloadView> {
    links.map_values(|link: PreloadLink| link@)
}

/// The modules of each function that is loaded lazily.
pub struct ManifestEntry {
    pub key: String,
    pub modules: Vec<String>,
}

/// The modules that a manifest lists under a key.
pub open spec fn modules_of(manifest: Seq<ManifestEntry>, key: Seq<char>) -> Seq<Seq<char>>
    decreases manifest.len(),
{
    if manifest.len() == 0 {
        Seq::empty()
    } else if manifest[0].key@ == key {
        text::strings(manifest[0].modules@)
    } else {
        modules_of(manifest.skip(1), key)
    }
}

/// The modules under each of the keys, in order.
pub open spec fn all_modules(manifest: Seq<ManifestEntry>, keys: Seq<Seq<char>>) -> Seq<Seq<char>>
    decreases keys.len(),
{
    if keys.len() == 0 {
        Seq::empty()
    } else {
        all_modules(manifest, keys.drop_last()) + modules_of(manifest, keys.last())
    }
}

/// The address of a module.
pub open spec fn module_href(pkg_path: Seq<char>, module: Seq<char>) -> Seq<char> {
    pkg_path + "/"@ + module + ".wasm"@
}

/// The links of these modules.
pub open spec fn module_links(pkg_path: Seq<char>, modules: Seq<Seq<char>>) -> Seq<PreloadView> {
    modules.map_values(|module: Seq<char>| PreloadView::Module(module_href(pkg_path, module)))
}

/// The links for a page that prefetches the functions under `keys`: one for each
/// module, and one for the loader. A page that prefetches nothing has none.
pub open spec fn preloads(
    pkg_path: Seq<char>,
    manifest: Seq<ManifestEntry>,
    loader: Seq<char>,
    keys: Seq<Seq<char>>,
) -> Seq<PreloadView> {
    if keys.len() == 0 {
        Seq::empty()
    } else {
        module_links(pkg_path, all_modules(manifest, keys)).push(
            PreloadView::Loader(pkg_path + "/"@ + loader),
        )
    }
}

fn find_modules<'a>(manifest: &'a Vec<ManifestEntry>, key: &str) -> (modules: Option<
    &'a Vec<String>,
>)
    ensures
        match modules {
            Some(list) => text::strings(list@) == modules_of(manifest@, key@),
            None => modules_of(manifest@, key@) == Seq::<Seq<char>>::empty(),
        },
{
    let mut i: usize = 0;
    proof {
        assert(manifest@.skip(0) =~= manifest@);
    }
    while i < manifest.len()
        invariant
            i <= manifest.len(),
            modules_of(manifest@, key@) == modules_of(manifest@.skip(i as int), key@),
        decreases manifest.len() - i,
    {
        proof {
            assert(manifest@.skip(i as int).skip(1) =~= manifest@.skip(i + 1));
            assert(manifest@.skip(i as int)[0] == manifest@[i as int]);
        }
        if same_text(manifest[i].key.as_str(), key) {
            return Some(&manifest[i].modules);
        }
        i = i + 1;
    }
    proof {
        assert(manifest@.skip(i as int) =~= Seq::empty());
    }
    None
}

fn push_modules(pkg_path: &str, modules: &Vec<String>, links: &mut Vec<PreloadLink>)
    ensures
        link_views(final(links)@) == link_views(old(links)@) + module_links(
            pkg_path@,
            text::strings(modules@),
        ),
{
    let ghost before = link_views(links@);
    let ghost names = text::strings(modules@);
    let mut i: usize = 0;
    proof {
        assert(before =~= before + module_links(pkg_path@, names.take(0)));
    }
    while i < modules.len()
        invariant
            i <= modules.len(),
            names == text::strings(modules@),
            link_views(links@) == before + module_links(pkg_path@, names.take(i as int)),
        decreases modules.len() - i,
    {
        let mut href = text::concat3(pkg_path, "/", modules[i].as_str());
        href.append(".wasm");
        let ghost sofar = link_views(links@);
        links.push(PreloadLink::Module(href));
        proof {
            assert(link_views(links@) =~= sofar.push(PreloadView::Module(href@)));
            assert(names[i as int] == modules@[i as int]@);
            assert(names.take(i + 1) =~= names.take(i as int).push(names[i as int]));
            assert(link_views(links@) =~= before + module_links(pkg_path@, names.take(i + 1)));
        }
        i = i + 1;
    }
    proof {
        assert(names.take(i as int) =~= names);
    }
}

/// The links for a page that prefetches the functions under `keys`.
pub fn preload_links(
    pkg_path: &str,
    manifest: &Vec<ManifestEntry>,
    loader: &str,
    keys: &Vec<String>,
) -> (links: Vec<PreloadLink>)
    ensures
        link_views(links@) == preloads(pkg_path@, manifest@, loader@, text::strings(keys@)),
{
    let mut links: Vec<PreloadLink> = Vec::new();
    let ghost names = text::strings(keys@);
    if keys.len() == 0 {
        proof {
            assert(link_views(links@) =~= Seq::empty());
        }
        return links;
    }
    let mut i: usize = 0;
    proof {
        assert(names.take(0) =~= Seq::empty());
        assert(link_views(links@) =~= module_links(pkg_path@, all_modules(manifest@, names.take(0))));
    }
    while i < keys.len()
        invariant
            i <= keys.len(),
            names == text::strings(keys@),
            names.len() == keys@.len(),
            link_views(links@) == module_links(pkg_path@, all_modules(manifest@, names.take(i as int))),
        decreases keys.len() - i,
    {
        proof {
            assert(names[i as int] == keys@[i as int]@);
            assert(names.take(i + 1).drop_last() =~= names.take(i as int));
            assert(names.take(i + 1).last() == names[i as int]);
        }
        let ghost before = all_modules(manifest@, names.take(i as int));
        let ghost added = modules_of(manifest@, names[i as int]);
        if let Some(modules) = find_modules(manifest, keys[i].as_str()) {
            push_modules(pkg_path, modules, &mut links);
            proof {
                assert(link_views(links@) =~= module_links(pkg_path@, before + added));
            }
        } else {
            proof {
                assert(before + added =~= before);
            }
        }
        i = i + 1;
    }
    proof {
        assert(names.take(i as int) =~= names);
    }
    let ghost modules = link_views(links@);
    links.push(PreloadLink::Loader(text::concat3(pkg_path, "/", loader)));
    proof {
        assert(link_views(links@) =~= modules.push(PreloadView::Loader(pkg_path@ + "/"@ + loader@)));
        assert(link_views(links@) =~= preloads(pkg_path@, manifest@, loader@, names));
    }
    links
}

// ---------------------------------------------------------------------------
// Laws
// ---------------------------------------------------------------------------
/// The URL of a request tells its path and query apart: a request without a query
/// gets no question mark.
pub proof fn corrected_paths_keep_the_query(path: Seq<char>, query: Seq<char>)
    requires
        !path.contains('?'),
    ensures
        corrected_path(path, query).contains('?') <==> query.len() > 0,
        query.len() > 0 ==> corrected_path(path, query).skip(
            ("http://leptos"@.len() + path.len() + 1) as int,
        ) == query,
{
    reveal_strlit("http://leptos");
    reveal_strlit("?");
    let url = corrected_path(path, query);
    let n: int = "http://leptos"@.len() as int;
    if query.len() > 0 {
        assert(url[n + path.len()] == '?');
        assert(url.skip(n + path.len() + 1) =~= query);
    } else {
        assert forall|i: int| 0 <= i < url.len() implies #[trigger] url[i] != '?' by {
            if i < n {
                assert(url[i] == "http://leptos"@[i]);
            } else {
                assert(url[i] == path[i - n]);
            }
        }
    }
}

/// Whether a registration answers requests by a method at a route path.
pub open spec fn handles<R>(
    entry: RegistrationView<R>,
    path: Seq<char>,
    requested: Seq<char>,
) -> bool {
    match entry {
        RegistrationView::ServerFn(own, verb) => own == path && verb == requested,
        RegistrationView::Page(own, method, _, _) => own == path && accepts_method(
            method,
            requested,
        ),
    }
}

/// The registration that answers requests by a method at a route path: the first one
/// that does.
pub open spec fn handler<R>(
    plan: Seq<RegistrationView<R>>,
    path: Seq<char>,
    requested: Seq<char>,
) -> Option<RegistrationView<R>>
    decreases plan.len(),
{
    if plan.len() == 0 {
        None
    } else if handles(plan[0], path, requested) {
        Some(plan[0])
    } else {
        handler(plan.skip(1), path, requested)
    }
}

proof fn lemma_head_and_get(method: Method)
    ensures
        accepts_method(method, "HEAD"@) <==> method == Method::Get,
        accepts_method(method, "GET"@) <==> method == Method::Get,
        "HEAD"@ != "GET"@,
{
    reveal_strlit("GET");
    reveal_strlit("HEAD");
    reveal_strlit("POST");
    reveal_strlit("PUT");
    reveal_strlit("DELETE");
    reveal_strlit("PATCH");
    assert("HEAD"@[0] == 'H' && "POST"@[0] == 'P');
    assert("GET"@[0] == 'G' && "PUT"@[0] == 'P');
}

proof fn lemma_same_handler<R>(
    plan: Seq<RegistrationView<R>>,
    path: Seq<char>,
    a: Seq<char>,
    b: Seq<char>,
)
    requires
        forall|i: int|
            0 <= i < plan.len() ==> handles(#[trigger] plan[i], path, a) == handles(
                plan[i],
                path,
                b,
            ),
    ensures
        handler(plan, path, a) == handler(plan, path, b),
    decreases plan.len(),
{
    if plan.len() > 0 {
        let rest = plan.skip(1);
        assert(handles(plan[0], path, a) == handles(plan[0], path, b));
        assert forall|i: int| 0 <= i < rest.len() implies handles(
            #[trigger] rest[i],
            path,
            a,
        ) == handles(rest[i], path, b) by {
            assert(rest[i] == plan[i + 1]);
        }
        lemma_same_handler(rest, path, a, b);
    }
}

proof fn lemma_handler<R>(
    plan: Seq<RegistrationView<R>>,
    path: Seq<char>,
    requested: Seq<char>,
    i: int,
)
    requires
        0 <= i < plan.len(),
        handles(plan[i], path, requested),
    ensures
        handler(plan, path, requested) matches Some(entry) && plan.contains(entry) && handles(
            entry,
            path,
            requested,
        ),
    decreases plan.len(),
{
    if !handles(plan[0], path, requested) {
        let rest = plan.skip(1);
        assert(rest[i - 1] == plan[i]);
        lemma_handler(rest, path, requested, i - 1);
        let entry = handler(rest, path, requested)->0;
        let k: int = choose|k: int| 0 <= k < rest.len() && rest[k] == entry;
        assert(plan[k + 1] == entry);
    }
}

proof fn lemma_function<R>(
    listings: Seq<ListingView<R>>,
    functions: Seq<(Seq<char>, Seq<char>)>,
    i: int,
)
    requires
        0 <= i < routes::server_fn_registrations(listings, functions).len(),
    ensures
        routes::server_fn_registrations(listings, functions)[i] matches RegistrationView::ServerFn(
            path,
            verb,
        ) && functions.contains((path, verb)),
    decreases functions.len(),
{
    if functions.len() > 0 {
        let rest = routes::server_fn_registrations(listings, functions.drop_last());
        let entry = routes::server_fn_registrations(listings, functions)[i];
        if i < rest.len() {
            lemma_function(listings, functions.drop_last(), i);
            let own = (entry->ServerFn_0, entry->ServerFn_1);
            let k: int = choose|k: int|
                0 <= k < functions.drop_last().len() && functions.drop_last()[k] == own;
            assert(functions[k] == own);
        } else {
            assert(functions[functions.len() - 1] == functions.last());
        }
    }
}

proof fn lemma_pages<R>(listings: Seq<ListingView<R>>, i: int)
    requires
        0 <= i < routes::page_registrations(listings).len(),
    ensures
        routes::page_registrations(listings)[i] is Page,
    decreases listings.len(),
{
    if listings.len() > 0 {
        let rest = routes::page_registrations(listings.drop_last());
        if i < rest.len() {
            lemma_pages(listings.drop_last(), i);
        }
    }
}

proof fn lemma_listed<R>(listings: Seq<ListingView<R>>, j: int, m: int) -> (i: int)
    requires
        0 <= j < listings.len(),
        !listings[j].4,
        0 <= m < listings[j].2.len(),
    ensures
        0 <= i < routes::page_registrations(listings).len(),
        routes::page_registrations(listings)[i] == RegistrationView::Page(
            listings[j].0,
            listings[j].2[m],
            listings[j].1,
            listings[j].3,
        ),
    decreases listings.len(),
{
    let rest = routes::page_registrations(listings.drop_last());
    if j < listings.len() - 1 {
        let i: int = lemma_listed(listings.drop_last(), j, m);
        assert(routes::page_registrations(listings)[i] == rest[i]);
        i
    } else {
        let i: int = rest.len() + m;
        assert(routes::page_registrations(listings)[i] == routes::listing_registrations(
            listings[j],
        )[m]);
        i
    }
}

proof fn lemma_registration<R>(
    listings: Seq<ListingView<R>>,
    functions: Seq<(Seq<char>, Seq<char>)>,
    i: int,
)
    requires
        0 <= i < routes::registrations(listings, functions).len(),
    ensures
        routes::registrations(listings, functions)[i] matches RegistrationView::ServerFn(path, verb)
            ==> functions.contains((path, verb)),
{
    let served = routes::server_fn_registrations(listings, functions);
    if i < served.len() {
        lemma_function(listings, functions, i);
    } else {
        lemma_pages(listings, i - served.len());
    }
}

/// HEAD is answered as GET is: at a path where no server function takes either, both
/// go to the same registration, with its mode and its context. Such a registration is
/// there exactly if there is one for GET.
pub proof fn head_is_answered_as_get<R>(
    listings: Seq<ListingView<R>>,
    functions: Seq<(Seq<char>, Seq<char>)>,
    path: Seq<char>,
)
    requires
        !functions.contains((path, "GET"@)),
        !functions.contains((path, "HEAD"@)),
    ensures
        handler(routes::registrations(listings, functions), path, "HEAD"@) == handler(
            routes::registrations(listings, functions),
            path,
            "GET"@,
        ),
{
    let plan = routes::registrations(listings, functions);
    assert forall|i: int| 0 <= i < plan.len() implies handles(
        #[trigger] plan[i],
        path,
        "HEAD"@,
    ) == handles(plan[i], path, "GET"@) by {
        lemma_registration(listings, functions, i);
        if let RegistrationView::Page(_, method, _, _) = plan[i] {
            lemma_head_and_get(method);
        }
    }
    lemma_same_handler(plan, path, "HEAD"@, "GET"@);
}

/// Every page that is registered for GET answers HEAD, and nothing else that is
/// registered does, unless a server function is registered for HEAD itself.
pub proof fn head_has_no_handler_of_its_own<R>(
    listings: Seq<ListingView<R>>,
    functions: Seq<(Seq<char>, Seq<char>)>,
    i: int,
    path: Seq<char>,
)
    requires
        0 <= i < routes::registrations(listings, functions).len(),
        !functions.contains((path, "HEAD"@)),
    ensures
        handles(routes::registrations(listings, functions)[i], path, "HEAD"@) <==> (
        routes::registrations(listings, functions)[i] matches RegistrationView::Page(
            own,
            method,
            _,
            _,
        ) && own == path && method == Method::Get),
{
    lemma_registration(listings, functions, i);
    if let RegistrationView::Page(_, method, _, _) = routes::registrations(
        listings,
        functions,
    )[i] {
        lemma_head_and_get(method);
    }
}

/// A listed page that takes GET and is not excluded is reached by HEAD: a page for GET
/// at its path answers.
pub proof fn listed_pages_answer_head<R>(
    listings: Seq<ListingView<R>>,
    functions: Seq<(Seq<char>, Seq<char>)>,
    j: int,
)
    requires
        0 <= j < listings.len(),
        !listings[j].4,
        listings[j].2.contains(Method::Get),
        !functions.contains((listings[j].0, "HEAD"@)),
    ensures
        handler(
            routes::registrations(listings, functions),
            listings[j].0,
            "HEAD"@,
        ) matches Some(RegistrationView::Page(path, method, _, _)) && path == listings[j].0
            && method == Method::Get,
{
    let plan = routes::registrations(listings, functions);
    let path = listings[j].0;
    let m: int = choose|m: int| 0 <= m < listings[j].2.len() && listings[j].2[m] == Method::Get;
    let at: int = lemma_listed(listings, j, m);
    let i: int = routes::server_fn_registrations(listings, functions).len() + at;
    lemma_head_and_get(Method::Get);
    assert(handles(plan[i], path, "HEAD"@));
    lemma_handler(plan, path, "HEAD"@, i);
    let entry = handler(plan, path, "HEAD"@)->0;
    let k: int = choose|k: int| 0 <= k < plan.len() && plan[k] == entry;
    head_has_no_handler_of_its_own(listings, functions, k, path);
}

/// The URL of a request begins with the origin and the path as they are, and without a
/// query ends there.
pub proof fn corrected_paths_keep_the_path(path: Seq<char>, query: Seq<char>)
    ensures
        ({
            let url = corrected_path(path, query);
            let front = seq!['h', 't', 't', 'p', ':', '/', '/', 'l', 'e', 'p', 't', 'o', 's'] + path;
            &&& front.is_prefix_of(url)
            &&& query.len() == 0 ==> url == front
            &&& query.len() > 0 ==> url == front + seq!['?'] + query
        }),
{
    reveal_strlit("http://leptos");
    reveal_strlit("?");
    let url = corrected_path(path, query);
    let front = seq!['h', 't', 't', 'p', ':', '/', '/', 'l', 'e', 'p', 't', 'o', 's'] + path;
    assert("http://leptos"@ + path =~= front);
    assert("?"@ =~= seq!['?']);
    assert(url.subrange(0, front.len() as int) =~= front);
}

proof fn lemma_modules_of(manifest: Seq<ManifestEntry>, key: Seq<char>, i: int)
    requires
        forall|j: int| 0 <= j < i ==> (#[trigger] manifest[j]).key@ != key,
        0 <= i <= manifest.len(),
        i < manifest.len() ==> manifest[i].key@ == key,
    ensures
        modules_of(manifest, key) == (if i < manifest.len() {
            text::strings(manifest[i].modules@)
        } else {
            Seq::empty()
        }),
    decreases i,
{
    if i > 0 {
        assert(manifest[0].key@ != key);
        let rest = manifest.skip(1);
        assert forall|j: int| 0 <= j < i - 1 implies (#[trigger] rest[j]).key@ != key by {
            assert(rest[j] == manifest[j + 1]);
        }
        lemma_modules_of(rest, key, i - 1);
    }
}

/// The links of one function are those of the modules that the manifest lists for it
/// first, in order, and then the loader; a function that is not listed has only the
/// loader.
pub proof fn functions_load_their_modules(
    pkg_path: Seq<char>,
    manifest: Seq<ManifestEntry>,
    loader: Seq<char>,
    key: Seq<char>,
    i: int,
)
    requires
        forall|j: int| 0 <= j < i ==> (#[trigger] manifest[j]).key@ != key,
        0 <= i <= manifest.len(),
        i < manifest.len() ==> manifest[i].key@ == key,
    ensures
        ({
            let links = preloads(pkg_path, manifest, loader, seq![key]);
            let count = if i < manifest.len() {
                manifest[i].modules@.len()
            } else {
                0
            };
            &&& links.len() == count + 1
            &&& forall|m: int|
                0 <= m < count ==> (#[trigger] links[m]) == PreloadView::Module(
                    pkg_path + seq!['/'] + manifest[i].modules@[m]@ + seq!['.', 'w', 'a', 's', 'm'],
                )
            &&& links.last() == PreloadView::Loader(pkg_path + seq!['/'] + loader)
        }),
{
    reveal_strlit("/");
    reveal_strlit(".wasm");
    assert("/"@ =~= seq!['/']);
    assert(".wasm"@ =~= seq!['.', 'w', 'a', 's', 'm']);
    lemma_modules_of(manifest, key, i);
    reveal_with_fuel(all_modules, 2);
    assert(seq![key].drop_last() =~= Seq::<Seq<char>>::empty());
    assert(all_modules(manifest, seq![key]) =~= modules_of(manifest, key));
}

/// The links of several functions are those of each, in order, with the loader once, at
/// the end. A page that prefetches nothing has no links.
pub proof fn preloads_follow_the_functions(
    pkg_path: Seq<char>,
    manifest: Seq<ManifestEntry>,
    loader: Seq<char>,
    a: Seq<Seq<char>>,
    b: Seq<Seq<char>>,
)
    ensures
        preloads(pkg_path, manifest, loader, Seq::empty()).len() == 0,
        a.len() > 0 && b.len() > 0 ==> preloads(pkg_path, manifest, loader, a + b) == preloads(
            pkg_path,
            manifest,
            loader,
            a,
        ).drop_last() + preloads(pkg_path, manifest, loader, b),
{
    lemma_all_modules(manifest, a, b);
    if a.len() > 0 && b.len() > 0 {
        let (x, y) = (all_modules(manifest, a), all_modules(manifest, b));
        assert(preloads(pkg_path, manifest, loader, a).drop_last() =~= module_links(pkg_path, x));
        assert(module_links(pkg_path, x + y) =~= module_links(pkg_path, x) + module_links(
            pkg_path,
            y,
        ));
        assert(preloads(pkg_path, manifest, loader, a + b) =~= preloads(
            pkg_path,
            manifest,
            loader,
            a,
        ).drop_last() + preloads(pkg_path, manifest, loader, b));
    }
}

proof fn lemma_all_modules(manifest: Seq<ManifestEntry>, a: Seq<Seq<char>>, b: Seq<Seq<char>>)
    ensures
        all_modules(manifest, a + b) == all_modules(manifest, a) + all_modules(manifest, b),
    decreases b.len(),
{
    if b.len() == 0 {
        assert(a + b =~= a);
        assert(all_modules(manifest, a) + all_modules(manifest, b) =~= all_modules(manifest, a));
    } else {
        assert((a + b).drop_last() =~= a + b.drop_last());
        assert((a + b).last() == b.last());
        lemma_all_modules(manifest, a, b.drop_last());
        assert(all_modules(manifest, a + b) =~= all_modules(manifest, a) + all_modules(manifest, b));
    }
}

/// The names of methods tell them apart, and a route answers the method of its own name;
/// only GET answers HEAD too.
pub proof fn routes_answer_their_method(method: Method, other: Method)
    ensures
        accepts_method(method, method_name(method)),
        accepts_method(method, method_name(other)) ==> method == other,
        accepts_method(method, "HEAD"@) <==> method is Get,
{
    reveal_strlit("GET");
    reveal_strlit("POST");
    reveal_strlit("PUT");
    reveal_strlit("DELETE");
    reveal_strlit("PATCH");
    reveal_strlit("HEAD");
    assert("GET"@[0] == 'G' && "PUT"@[0] == 'P');
    assert("POST"@[0] == 'P' && "HEAD"@[0] == 'H');
    assert("GET"@.len() == 3 && "PUT"@.len() == 3 && "POST"@.len() == 4 && "HEAD"@.len() == 4);
    assert("DELETE"@.len() == 6 && "PATCH"@.len() == 5);
    match (method, other) {
        (Method::Get, Method::Post) => assert("POST"@ != "HEAD"@),
        _ => {},
    }
}

/// A client that can reorder fragments changes nothing but whether they are sent as they
/// resolve; every other mode is produced alike for all clients.
pub proof fn clients_get_what_they_can_show(
    mode: SsrMode,
    supports_ooo: bool,
    stream: PageStream,
)
    requires
        call_ensures(page_stream, (mode, supports_ooo), stream),
    ensures
        stream == PageStream::OutOfOrder ==> supports_ooo,
        mode == SsrMode::Static <==> stream == PageStream::Stored,
        mode == SsrMode::Async <==> stream == PageStream::Collected,
        mode == SsrMode::Unknown <==> stream == PageStream::Unsupported,
        mode == SsrMode::InOrder ==> stream == PageStream::InOrder,
        mode == SsrMode::OutOfOrder || mode == SsrMode::PartiallyBlocked ==> (stream
            == PageStream::OutOfOrder <==> supports_ooo) && (stream == PageStream::InOrder
            <==> !supports_ooo),
{
}

/// The router sees the path and the query of a request behind a fixed origin.
pub proof fn routers_see_path_and_query(path: &str, query: &str, url: String)
    requires
        call_ensures(leptos_corrected_path, (path, query), url),
    ensures
        query@.len() == 0 ==> url@ == seq![
            'h', 't', 't', 'p', ':', '/', '/', 'l', 'e', 'p', 't', 'o', 's',
        ] + path@,
        query@.len() > 0 ==> url@ == seq![
            'h', 't', 't', 'p', ':', '/', '/', 'l', 'e', 'p', 't', 'o', 's',
        ] + path@ + seq!['?'] + query@,
{
    corrected_paths_keep_the_path(path@, query@);
}

/// A route answers the method that bears its name, and a route for GET answers HEAD.
pub proof fn routes_accept_their_method(
    method: Method,
    name: &'static str,
    accepts: bool,
    head: bool,
)
    requires
        call_ensures(ntex_method, (method,), name),
        call_ensures(route_accepts, (method, name), accepts),
        call_ensures(route_accepts, (method, "HEAD"), head),
    ensures
        accepts,
        head <==> method is Get,
{
    routes_answer_their_method(method, method);
}

} // verus!
