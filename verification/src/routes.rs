//! The list of routes that an application serves, how it is registered, and the
//! one-time installation of the executor.

use crate::text::{self, same_text, starts_with_char};
use vstd::prelude::*;

verus! {

// ---------------------------------------------------------------------------
// The executor
// ---------------------------------------------------------------------------
/// Whose executor runs the asynchronous tasks of the process.
#[derive(Clone, Copy, Debug, PartialEq, Eq, Structural)]
pub enum ExecutorInitState {
    /// No installation was tried yet.
    Unknown,
    /// The executor of this crate.
    NtexInstalled,
    /// Another executor was there first.
    ForeignInstalled,
}

/// Why the executor was not installed.
#[derive(Clone, Copy, Debug, PartialEq, Eq, Structural)]
pub enum ExecutorError {
    AlreadySet,
}

/// Whether an installation is still to be tried. It is tried at most once.
pub fn needs_install(state: ExecutorInitState) -> (needed: bool)
    ensures
        needed == (state == ExecutorInitState::Unknown),
{
    state == ExecutorInitState::Unknown
}

/// Records whose executor is installed, and says whether it is that of this crate.
/// `attempt` is the outcome of the installation; it counts only where none was
/// tried before.
pub fn try_init_executor(
    state: &mut ExecutorInitState,
    attempt: Result<(), ExecutorError>,
) -> (r: Result<(), ExecutorError>)
    ensures
        *final(state) != ExecutorInitState::Unknown,
        *old(state) != ExecutorInitState::Unknown ==> *final(state) == *old(state),
        *old(state) == ExecutorInitState::Unknown ==> (attempt is Ok <==> *final(state)
            == ExecutorInitState::NtexInstalled),
        r == (if *final(state) == ExecutorInitState::NtexInstalled {
            Ok::<(), ExecutorError>(())
        } else {
            Err::<(), ExecutorError>(ExecutorError::AlreadySet)
        }),
{
    match *state {
        ExecutorInitState::NtexInstalled => Ok(()),
        ExecutorInitState::ForeignInstalled => Err(ExecutorError::AlreadySet),
        ExecutorInitState::Unknown => match attempt {
            Ok(()) => {
                *state = ExecutorInitState::NtexInstalled;
                Ok(())
            },
            Err(error) => {
                *state = ExecutorInitState::ForeignInstalled;
                Err(error)
            },
        },
    }
}

// ---------------------------------------------------------------------------
// Paths
// ---------------------------------------------------------------------------
/// A segment of a route path.
pub enum PathSegment {
    Unit,
    Static(String),
    Param(String),
    OptionalParam(String),
    Splat(String),
}

impl Clone for PathSegment {
    fn clone(&self) -> (copy: Self)
        ensures
            copy == *self,
    {
        match self {
            PathSegment::Unit => PathSegment::Unit,
            PathSegment::Static(s) => PathSegment::Static(s.clone()),
            PathSegment::Param(s) => PathSegment::Param(s.clone()),
            PathSegment::OptionalParam(s) => PathSegment::OptionalParam(s.clone()),
            PathSegment::Splat(s) => PathSegment::Splat(s.clone()),
        }
    }
}

/// The text of a segment as it was declared.
pub open spec fn raw_text(segment: PathSegment) -> Seq<char> {
    match segment {
        PathSegment::Unit => Seq::empty(),
        PathSegment::Static(s) => s@,
        PathSegment::Param(s) => s@,
        PathSegment::OptionalParam(s) => s@,
        PathSegment::Splat(s) => s@,
    }
}

/// A segment in the pattern syntax of the router: `{name}` matches one segment of a
/// path, `{name}*` its whole rest.
pub open spec fn segment_pattern(segment: PathSegment) -> Seq<char> {
    match segment {
        PathSegment::Unit => Seq::empty(),
        PathSegment::Static(s) => s@,
        PathSegment::Param(s) => seq!['{'] + s@ + seq!['}'],
        PathSegment::OptionalParam(_) => Seq::empty(),
        PathSegment::Splat(s) => seq!['{'] + s@ + seq!['}', '*'],
    }
}

/// The slash before a segment: none for an empty one, or one that brings its own.
pub open spec fn separator(segment: PathSegment) -> Seq<char> {
    let raw = raw_text(segment);
    if raw.len() > 0 && raw[0] != '/' {
        seq!['/']
    } else {
        Seq::empty()
    }
}

/// The pattern of a path without optional segments.
pub open spec fn path_pattern(path: Seq<PathSegment>) -> Seq<char>
    decreases path.len(),
{
    if path.len() == 0 {
        Seq::empty()
    } else {
        path_pattern(path.drop_last()) + separator(path.last()) + segment_pattern(path.last())
    }
}

fn raw<'a>(segment: &'a PathSegment) -> (text: &'a str)
    ensures
        text@ == raw_text(*segment),
{
    match segment {
        PathSegment::Unit => {
            proof {
                reveal_strlit("");
                assert(""@ =~= Seq::empty());
            }
            ""
        },
        PathSegment::Static(s) => s.as_str(),
        PathSegment::Param(s) => s.as_str(),
        PathSegment::OptionalParam(s) => s.as_str(),
        PathSegment::Splat(s) => s.as_str(),
    }
}

/// The pattern of a path. The path has no optional segments any more.
pub fn to_ntex_path(path: &Vec<PathSegment>) -> (pattern: String)
    ensures
        pattern@ == path_pattern(path@),
{
    let mut pattern = String::new();
    let mut i: usize = 0;
    proof {
        assert(path@.take(0) =~= Seq::empty());
    }
    while i < path.len()
        invariant
            i <= path.len(),
            pattern@ == path_pattern(path@.take(i as int)),
        decreases path.len() - i,
    {
        let segment = &path[i];
        let ghost before = pattern@;
        proof {
            assert(path@.take(i + 1).drop_last() =~= path@.take(i as int));
            assert(path@.take(i + 1).last() == *segment);
        }
        let text = raw(segment);
        if text.unicode_len() > 0 && !starts_with_char(text, '/') {
            pattern.push('/');
        }
        proof {
            assert(pattern@ =~= before + separator(*segment));
        }
        let ghost separated = pattern@;
        match segment {
            PathSegment::Unit => {},
            PathSegment::Static(s) => {
                pattern.append(s.as_str());
            },
            PathSegment::Param(s) => {
                pattern.push('{');
                pattern.append(s.as_str());
                pattern.push('}');
            },
            PathSegment::OptionalParam(_) => {},
            PathSegment::Splat(s) => {
                pattern.push('{');
                pattern.append(s.as_str());
                pattern.push('}');
                pattern.push('*');
            },
        }
        proof {
            assert(pattern@ =~= separated + segment_pattern(*segment));
        }
        i = i + 1;
    }
    proof {
        assert(path@.take(i as int) =~= path@);
    }
    pattern
}

/// The paths with a segment before each of them.
pub open spec fn prefixed(segment: PathSegment, paths: Seq<Seq<PathSegment>>) -> Seq<
    Seq<PathSegment>,
> {
    Seq::new(paths.len(), |i: int| seq![segment] + paths[i])
}

/// The paths without optional segments that a path stands for. Those with an
/// optional segment come before those without it.
pub open spec fn expanded(path: Seq<PathSegment>) -> Seq<Seq<PathSegment>>
    decreases path.len(),
{
    if path.len() == 0 {
        seq![path]
    } else {
        let rest = expanded(path.skip(1));
        match path[0] {
            PathSegment::OptionalParam(name) => prefixed(PathSegment::Param(name), rest) + rest,
            segment => prefixed(segment, rest),
        }
    }
}

/// The segments of every path.
pub open spec fn path_views(paths: Seq<Vec<PathSegment>>) -> Seq<Seq<PathSegment>> {
    paths.map_values(|path: Vec<PathSegment>| path@)
}

fn copy_path(path: &Vec<PathSegment>) -> (copy: Vec<PathSegment>)
    ensures
        copy@ == path@,
{
    let mut copy: Vec<PathSegment> = Vec::new();
    let mut i: usize = 0;
    while i < path.len()
        invariant
            i <= path.len(),
            copy@ == path@.take(i as int),
        decreases path.len() - i,
    {
        copy.push(path[i].clone());
        proof {
            assert(path@.take(i + 1) =~= path@.take(i as int).push(path@[i as int]));
        }
        i = i + 1;
    }
    proof {
        assert(path@.take(i as int) =~= path@);
    }
    copy
}

fn prefix_all(segment: &PathSegment, paths: &Vec<Vec<PathSegment>>) -> (longer: Vec<
    Vec<PathSegment>,
>)
    ensures
        path_views(longer@) == prefixed(*segment, path_views(paths@)),
{
    let mut longer: Vec<Vec<PathSegment>> = Vec::new();
    let mut i: usize = 0;
    while i < paths.len()
        invariant
            i <= paths.len(),
            longer@.len() == i,
            forall|j: int| 0 <= j < i ==> (#[trigger] longer@[j])@ == seq![*segment] + paths@[j]@,
        decreases paths.len() - i,
    {
        let mut path: Vec<PathSegment> = Vec::new();
        path.push(segment.clone());
        let mut rest = copy_path(&paths[i]);
        path.append(&mut rest);
        proof {
            assert(path@ =~= seq![*segment] + paths@[i as int]@);
        }
        longer.push(path);
        i = i + 1;
    }
    proof {
        assert(path_views(longer@) =~= prefixed(*segment, path_views(paths@)));
    }
    longer
}

/// Expands the optional segments of a path.
pub fn expand_optionals(path: &Vec<PathSegment>) -> (paths: Vec<Vec<PathSegment>>)
    ensures
        path_views(paths@) == expanded(path@),
{
    let mut paths: Vec<Vec<PathSegment>> = Vec::new();
    paths.push(Vec::new());
    let mut i: usize = path.len();
    proof {
        assert(path@.skip(i as int) =~= Seq::empty());
        assert(path_views(paths@) =~= seq![Seq::<PathSegment>::empty()]);
    }
    while i > 0
        invariant
            i <= path.len(),
            path_views(paths@) == expanded(path@.skip(i as int)),
        decreases i,
    {
        let ghost tail = path@.skip(i - 1);
        proof {
            assert(tail.skip(1) =~= path@.skip(i as int));
            assert(tail[0] == path@[i - 1]);
        }
        let ghost rest = path_views(paths@);
        match &path[i - 1] {
            PathSegment::OptionalParam(name) => {
                let mut longer = prefix_all(&PathSegment::Param(name.clone()), &paths);
                let ghost with = path_views(longer@);
                longer.append(&mut paths);
                proof {
                    assert(path_views(longer@) =~= with + rest);
                }
                paths = longer;
            },
            segment => {
                paths = prefix_all(segment, &paths);
            },
        }
        i = i - 1;
    }
    proof {
        assert(path@.skip(0) =~= path@);
    }
    paths
}

// ---------------------------------------------------------------------------
// Listings
// ---------------------------------------------------------------------------
/// The rendering mode of a route.
#[derive(Clone, Copy, Debug, PartialEq, Eq, Structural)]
pub enum SsrMode {
    OutOfOrder,
    PartiallyBlocked,
    InOrder,
    Async,
    Static,
    /// A mode that this crate does not know.
    Unknown,
}

/// The methods that a route can have.
#[derive(Clone, Copy, Debug, PartialEq, Eq, Structural)]
pub enum Method {
    Get,
    Post,
    Put,
    Delete,
    Patch,
}

/// A route that the application serves. `R` is a handle on the regeneration
/// functions of a static route.
pub struct NtexRouteListing<R> {
    path: String,
    mode: SsrMode,
    methods: Vec<Method>,
    regenerate: Option<R>,
    exclude: bool,
}

/// The path, the mode, the methods, the regeneration handle, and whether the path is
/// excluded.
pub type ListingView<R> = (Seq<char>, SsrMode, Seq<Method>, Option<R>, bool);

impl<R> View for NtexRouteListing<R> {
    type V = ListingView<R>;

    closed spec fn view(&self) -> ListingView<R> {
        (self.path@, self.mode, self.methods@, self.regenerate, self.exclude)
    }
}

/// What every listing says.
pub open spec fn listing_views<R>(listings: Seq<NtexRouteListing<R>>) -> Seq<ListingView<R>> {
    listings.map_values(|listing: NtexRouteListing<R>| listing@)
}

impl<R: Copy> NtexRouteListing<R> {
    /// Creates a route listing from its parts.
    pub fn new(
        path: String,
        mode: SsrMode,
        methods: Vec<Method>,
        regenerate: Option<R>,
    ) -> (listing: NtexRouteListing<R>)
        ensures
            listing@ == (path@, mode, methods@, regenerate, false),
    {
        NtexRouteListing { path, mode, methods, regenerate, exclude: false }
    }

    /// The listing of a path at which the application mounts its own handler.
    pub fn excluded(path: String) -> (listing: NtexRouteListing<R>)
        ensures
            listing@ == excluded_listing::<R>(path@),
    {
        let listing = NtexRouteListing {
            path,
            mode: SsrMode::OutOfOrder,
            methods: Vec::new(),
            regenerate: None,
            exclude: true,
        };
        proof {
            assert(listing@.2 =~= Seq::empty());
        }
        listing
    }

    /// The path that this route handles.
    pub fn path(&self) -> (path: &str)
        ensures
            path@ == self@.0,
    {
        self.path.as_str()
    }

    /// The rendering mode of this route.
    pub fn mode(&self) -> (mode: SsrMode)
        ensures
            mode == self@.1,
    {
        self.mode
    }

    /// The methods that this route accepts.
    pub fn methods(&self) -> (methods: &Vec<Method>)
        ensures
            methods@ == self@.2,
    {
        &self.methods
    }

    /// The handle on the regeneration functions of this route.
    pub fn regenerate(&self) -> (regenerate: Option<R>)
        ensures
            regenerate == self@.3,
    {
        self.regenerate
    }

    /// Whether the application mounts its own handler at the path.
    pub fn is_excluded(&self) -> (excluded: bool)
        ensures
            excluded == self@.4,
    {
        self.exclude
    }
}

/// A route as the router declares it.
pub struct DeclaredRoute<R> {
    pub path: Vec<PathSegment>,
    pub mode: SsrMode,
    pub methods: Vec<Method>,
    pub regenerate: Option<R>,
}

/// The pattern of an expanded path; that of an empty path is `/`.
pub open spec fn listing_path(path: Seq<PathSegment>) -> Seq<char> {
    if path_pattern(path).len() == 0 {
        "/"@
    } else {
        path_pattern(path)
    }
}

/// The listings of a declared route, one for each path that it expands to.
pub open spec fn route_listings<R>(route: DeclaredRoute<R>) -> Seq<ListingView<R>> {
    let paths = expanded(route.path@);
    Seq::new(
        paths.len(),
        |i: int|
            (listing_path(paths[i]), route.mode, route.methods@, route.regenerate, false),
    )
}

/// The listings of all declared routes.
pub open spec fn declared_listings<R>(routes: Seq<DeclaredRoute<R>>) -> Seq<ListingView<R>>
    decreases routes.len(),
{
    if routes.len() == 0 {
        Seq::empty()
    } else {
        declared_listings(routes.drop_last()) + route_listings(routes.last())
    }
}

/// The listing of an excluded path.
pub open spec fn excluded_listing<R>(path: Seq<char>) -> ListingView<R> {
    (path, SsrMode::OutOfOrder, Seq::empty(), None, true)
}

/// The listing that an application without routes gets.
pub open spec fn root_listing<R>() -> ListingView<R> {
    ("/"@, SsrMode::OutOfOrder, seq![Method::Get], None, false)
}

/// The listings whose paths are not among `excluded`.
pub open spec fn retained<R>(
    listings: Seq<ListingView<R>>,
    excluded: Seq<Seq<char>>,
) -> Seq<ListingView<R>>
    decreases listings.len(),
{
    if listings.len() == 0 {
        Seq::empty()
    } else {
        let rest = retained(listings.drop_last(), excluded);
        if excluded.contains(listings.last().0) {
            rest
        } else {
            rest.push(listings.last())
        }
    }
}

/// The list of routes: those that are declared, or else the root, without those that
/// are excluded; and then the excluded paths.
pub open spec fn route_list<R>(
    routes: Seq<DeclaredRoute<R>>,
    excluded: Seq<Seq<char>>,
) -> Seq<ListingView<R>> {
    let declared = declared_listings(routes);
    let all = if declared.len() == 0 {
        seq![root_listing::<R>()]
    } else {
        declared
    };
    retained(all, excluded) + Seq::new(excluded.len(), |i: int| excluded_listing::<R>(excluded[i]))
}

/// The listings of a declared route.
pub fn into_route_listing<R: Copy>(route: &DeclaredRoute<R>) -> (listings: Vec<NtexRouteListing<R>>)
    ensures
        listing_views(listings@) == route_listings(*route),
{
    let paths = expand_optionals(&route.path);
    let ghost views = expanded(route.path@);
    let mut listings: Vec<NtexRouteListing<R>> = Vec::new();
    let mut i: usize = 0;
    proof {
        assert(path_views(paths@).len() == paths@.len());
    }
    while i < paths.len()
        invariant
            i <= paths.len(),
            views == expanded(route.path@),
            path_views(paths@) == views,
            views.len() == paths@.len(),
            listings@.len() == i,
            forall|j: int|
                0 <= j < i ==> (#[trigger] listings@[j])@ == (
                    listing_path(views[j]),
                    route.mode,
                    route.methods@,
                    route.regenerate,
                    false,
                ),
        decreases paths.len() - i,
    {
        proof {
            assert(path_views(paths@)[i as int] == paths@[i as int]@);
        }
        let pattern = to_ntex_path(&paths[i]);
        let path = if pattern.as_str().unicode_len() == 0 {
            text::copy_text("/")
        } else {
            pattern
        };
        let methods = copy_methods(&route.methods);
        listings.push(NtexRouteListing::new(path, route.mode, methods, route.regenerate));
        i = i + 1;
    }
    proof {
        assert(listing_views(listings@) =~= route_listings(*route));
    }
    listings
}

fn copy_methods(methods: &Vec<Method>) -> (copy: Vec<Method>)
    ensures
        copy@ == methods@,
{
    let mut copy: Vec<Method> = Vec::new();
    let mut i: usize = 0;
    while i < methods.len()
        invariant
            i <= methods.len(),
            copy@ == methods@.take(i as int),
        decreases methods.len() - i,
    {
        copy.push(methods[i]);
        proof {
            assert(methods@.take(i + 1) =~= methods@.take(i as int).push(methods@[i as int]));
        }
        i = i + 1;
    }
    proof {
        assert(methods@.take(i as int) =~= methods@);
    }
    copy
}

fn names_path(paths: &Vec<String>, path: &str) -> (found: bool)
    ensures
        found == text::strings(paths@).contains(path@),
{
    let ghost all = text::strings(paths@);
    let mut i: usize = 0;
    while i < paths.len()
        invariant
            i <= paths.len(),
            all == text::strings(paths@),
            forall|j: int| 0 <= j < i ==> #[trigger] all[j] != path@,
        decreases paths.len() - i,
    {
        proof {
            assert(all[i as int] == paths@[i as int]@);
        }
        if same_text(paths[i].as_str(), path) {
            return true;
        }
        i = i + 1;
    }
    false
}

/// Assembles the list of routes from those that the router declares. Excluded paths
/// are left to handlers of the application.
pub fn generate_route_list_with_exclusions<R: Copy>(
    routes: &Vec<DeclaredRoute<R>>,
    excluded: &Vec<String>,
) -> (listings: Vec<NtexRouteListing<R>>)
    ensures
        listing_views(listings@) == route_list(routes@, text::strings(excluded@)),
{
    let mut all: Vec<NtexRouteListing<R>> = Vec::new();
    let ghost names = text::strings(excluded@);
    let mut i: usize = 0;
    proof {
        assert(routes@.take(0) =~= Seq::empty());
        assert(listing_views(all@) =~= Seq::empty());
    }
    while i < routes.len()
        invariant
            i <= routes.len(),
            listing_views(all@) == declared_listings(routes@.take(i as int)),
        decreases routes.len() - i,
    {
        let ghost before = listing_views(all@);
        let mut more = into_route_listing(&routes[i]);
        let ghost added = listing_views(more@);
        all.append(&mut more);
        proof {
            assert(listing_views(all@) =~= before + added);
            assert(routes@.take(i + 1).drop_last() =~= routes@.take(i as int));
            assert(routes@.take(i + 1).last() == routes@[i as int]);
        }
        i = i + 1;
    }
    proof {
        assert(routes@.take(i as int) =~= routes@);
        assert(listing_views(all@).len() == all@.len());
    }
    if all.len() == 0 {
        let mut methods: Vec<Method> = Vec::new();
        methods.push(Method::Get);
        proof {
            assert(methods@ =~= seq![Method::Get]);
        }
        all.push(NtexRouteListing::new(text::copy_text("/"), SsrMode::OutOfOrder, methods, None));
        proof {
            assert(listing_views(all@) =~= seq![root_listing::<R>()]);
        }
    }
    let mut listings = retain(all, excluded);
    let ghost kept = listing_views(listings@);
    let mut k: usize = 0;
    proof {
        assert(kept =~= kept + Seq::new(0, |j: int| excluded_listing::<R>(names[j])));
    }
    while k < excluded.len()
        invariant
            k <= excluded.len(),
            names == text::strings(excluded@),
            names.len() == excluded@.len(),
            listing_views(listings@) == kept + Seq::new(
                k as nat,
                |j: int| excluded_listing::<R>(names[j]),
            ),
        decreases excluded.len() - k,
    {
        let ghost before = listing_views(listings@);
        listings.push(NtexRouteListing::excluded(excluded[k].clone()));
        proof {
            assert(names[k as int] == excluded@[k as int]@);
            assert(listing_views(listings@) =~= before.push(
                excluded_listing::<R>(names[k as int]),
            ));
            assert(listing_views(listings@) =~= kept + Seq::new(
                (k + 1) as nat,
                |j: int| excluded_listing::<R>(names[j]),
            ));
        }
        k = k + 1;
    }
    listings
}

fn retain<R: Copy>(listings: Vec<NtexRouteListing<R>>, excluded: &Vec<String>) -> (kept: Vec<
    NtexRouteListing<R>,
>)
    ensures
        listing_views(kept@) == retained(listing_views(listings@), text::strings(excluded@)),
{
    let ghost all = listing_views(listings@);
    let ghost names = text::strings(excluded@);
    let mut kept: Vec<NtexRouteListing<R>> = Vec::new();
    let mut i: usize = 0;
    proof {
        assert(all.take(0) =~= Seq::empty());
        assert(listing_views(kept@) =~= Seq::empty());
    }
    while i < listings.len()
        invariant
            i <= listings.len(),
            all == listing_views(listings@),
            all.len() == listings@.len(),
            names == text::strings(excluded@),
            listing_views(kept@) == retained(all.take(i as int), names),
        decreases listings.len() - i,
    {
        let listing = &listings[i];
        proof {
            assert(all[i as int] == listing@);
            assert(all.take(i + 1).drop_last() =~= all.take(i as int));
            assert(all.take(i + 1).last() == listing@);
        }
        if !names_path(excluded, listing.path.as_str()) {
            let ghost before = kept@;
            kept.push(
                NtexRouteListing {
                    path: listing.path.clone(),
                    mode: listing.mode,
                    methods: copy_methods(&listing.methods),
                    regenerate: listing.regenerate,
                    exclude: listing.exclude,
                },
            );
            proof {
                assert(listing_views(kept@) =~= listing_views(before).push(listing@));
            }
        }
        i = i + 1;
    }
    proof {
        assert(all.take(i as int) =~= all);
    }
    kept
}

// ---------------------------------------------------------------------------
// Registration
// ---------------------------------------------------------------------------
/// A handler to be registered.
pub enum Registration<R> {
    /// The dispatcher of server functions, at a path for a method.
    ServerFn { path: String, verb: String },
    /// A page, at a path for a method. A mode that is not known is answered with a
    /// failure.
    Page { path: String, method: Method, mode: SsrMode, regenerate: Option<R> },
}

/// What is registered: the path, and the method of a server function or else the
/// method, the mode and the regeneration handle of a page.
pub enum RegistrationView<R> {
    ServerFn(Seq<char>, Seq<char>),
    Page(Seq<char>, Method, SsrMode, Option<R>),
}

impl<R> View for Registration<R> {
    type V = RegistrationView<R>;

    open spec fn view(&self) -> RegistrationView<R> {
        match self {
            Registration::ServerFn { path, verb } => RegistrationView::ServerFn(path@, verb@),
            Registration::Page { path, method, mode, regenerate } => RegistrationView::Page(
                path@,
                *method,
                *mode,
                *regenerate,
            ),
        }
    }
}

pub open spec fn registration_views<R>(plan: Seq<Registration<R>>) -> Seq<RegistrationView<R>> {
    plan.map_values(|entry: Registration<R>| entry@)
}

/// Whether a path is excluded in a list of routes.
pub open spec fn excludes<R>(listings: Seq<ListingView<R>>, path: Seq<char>) -> bool {
    exists|i: int| 0 <= i < listings.len() && #[trigger] excludes_at(listings, path, i)
}

pub open spec fn excludes_at<R>(listings: Seq<ListingView<R>>, path: Seq<char>, i: int) -> bool {
    listings[i].4 && listings[i].0 == path
}

pub open spec fn pair_views(pairs: Seq<(String, String)>) -> Seq<(Seq<char>, Seq<char>)> {
    pairs.map_values(|pair: (String, String)| (pair.0@, pair.1@))
}

/// The server functions at paths that are not excluded.
pub open spec fn server_fn_registrations<R>(
    listings: Seq<ListingView<R>>,
    functions: Seq<(Seq<char>, Seq<char>)>,
) -> Seq<RegistrationView<R>>
    decreases functions.len(),
{
    if functions.len() == 0 {
        Seq::empty()
    } else {
        let rest = server_fn_registrations(listings, functions.drop_last());
        let (path, method) = functions.last();
        if excludes(listings, path) {
            rest
        } else {
            rest.push(RegistrationView::ServerFn(path, method))
        }
    }
}

/// The pages of a listing, one for each method; none if it is excluded.
pub open spec fn listing_registrations<R>(listing: ListingView<R>) -> Seq<RegistrationView<R>> {
    if listing.4 {
        Seq::empty()
    } else {
        Seq::new(
            listing.2.len(),
            |i: int| RegistrationView::Page(listing.0, listing.2[i], listing.1, listing.3),
        )
    }
}

/// The pages of all listings.
pub open spec fn page_registrations<R>(listings: Seq<ListingView<R>>) -> Seq<RegistrationView<R>>
    decreases listings.len(),
{
    if listings.len() == 0 {
        Seq::empty()
    } else {
        page_registrations(listings.drop_last()) + listing_registrations(listings.last())
    }
}

/// All that is registered, in order: server functions first.
pub open spec fn registrations<R>(
    listings: Seq<ListingView<R>>,
    functions: Seq<(Seq<char>, Seq<char>)>,
) -> Seq<RegistrationView<R>> {
    server_fn_registrations(listings, functions) + page_registrations(listings)
}

fn is_excluded_path<R: Copy>(listings: &Vec<NtexRouteListing<R>>, path: &str) -> (excluded: bool)
    ensures
        excluded == excludes(listing_views(listings@), path@),
{
    let ghost all = listing_views(listings@);
    let mut i: usize = 0;
    while i < listings.len()
        invariant
            i <= listings.len(),
            all == listing_views(listings@),
            forall|j: int| 0 <= j < i ==> !#[trigger] excludes_at(all, path@, j),
        decreases listings.len() - i,
    {
        proof {
            assert(all[i as int] == listings@[i as int]@);
        }
        if listings[i].exclude && same_text(listings[i].path.as_str(), path) {
            proof {
                assert(excludes_at(all, path@, i as int));
            }
            return true;
        }
        i = i + 1;
    }
    false
}

fn register_listing<R: Copy>(listing: &NtexRouteListing<R>, plan: &mut Vec<Registration<R>>)
    ensures
        registration_views(final(plan)@) == registration_views(old(plan)@) + listing_registrations(
            listing@,
        ),
{
    let ghost before = registration_views(plan@);
    let ghost all = listing_registrations(listing@);
    if listing.exclude {
        proof {
            assert(before + all =~= before);
        }
        return ;
    }
    let mut i: usize = 0;
    proof {
        assert(before + all.take(0) =~= before);
    }
    while i < listing.methods.len()
        invariant
            i <= listing.methods.len(),
            !listing@.4,
            all == listing_registrations(listing@),
            all.len() == listing.methods@.len(),
            listing@ == (
                listing.path@,
                listing.mode,
                listing.methods@,
                listing.regenerate,
                listing.exclude,
            ),
            registration_views(plan@) == before + all.take(i as int),
        decreases listing.methods.len() - i,
    {
        let ghost sofar = registration_views(plan@);
        plan.push(
            Registration::Page {
                path: listing.path.clone(),
                method: listing.methods[i],
                mode: listing.mode,
                regenerate: listing.regenerate,
            },
        );
        proof {
            assert(registration_views(plan@) =~= sofar.push(all[i as int]));
            assert(all.take(i + 1) =~= all.take(i as int).push(all[i as int]));
            assert(registration_views(plan@) =~= before + all.take(i + 1));
        }
        i = i + 1;
    }
    proof {
        assert(all.take(i as int) =~= all);
    }
}

/// Plans the registration of a list of routes and of the server functions.
pub fn leptos_routes_with_context<R: Copy>(
    listings: &Vec<NtexRouteListing<R>>,
    functions: &Vec<(String, String)>,
) -> (plan: Vec<Registration<R>>)
    ensures
        registration_views(plan@) == registrations(
            listing_views(listings@),
            pair_views(functions@),
        ),
{
    let ghost all = listing_views(listings@);
    let ghost pairs = pair_views(functions@);
    let mut plan: Vec<Registration<R>> = Vec::new();
    let mut i: usize = 0;
    proof {
        assert(pairs.take(0) =~= Seq::empty());
        assert(registration_views(plan@) =~= Seq::empty());
    }
    while i < functions.len()
        invariant
            i <= functions.len(),
            all == listing_views(listings@),
            pairs == pair_views(functions@),
            pairs.len() == functions@.len(),
            registration_views(plan@) == server_fn_registrations(all, pairs.take(i as int)),
        decreases functions.len() - i,
    {
        proof {
            assert(pairs[i as int] == (functions@[i as int].0@, functions@[i as int].1@));
            assert(pairs.take(i + 1).drop_last() =~= pairs.take(i as int));
            assert(pairs.take(i + 1).last() == pairs[i as int]);
        }
        if !is_excluded_path(listings, functions[i].0.as_str()) {
            let ghost before = registration_views(plan@);
            let entry = Registration::ServerFn {
                path: functions[i].0.clone(),
                verb: functions[i].1.clone(),
            };
            plan.push(entry);
            proof {
                assert(registration_views(plan@) =~= before.push(entry@));
            }
        }
        i = i + 1;
    }
    proof {
        assert(pairs.take(i as int) =~= pairs);
    }
    let ghost first = registration_views(plan@);
    let mut k: usize = 0;
    proof {
        assert(all.take(0) =~= Seq::empty());
        assert(first + page_registrations(all.take(0)) =~= first);
    }
    while k < listings.len()
        invariant
            k <= listings.len(),
            all == listing_views(listings@),
            all.len() == listings@.len(),
            registration_views(plan@) == first + page_registrations(all.take(k as int)),
        decreases listings.len() - k,
    {
        proof {
            assert(all[k as int] == listings@[k as int]@);
            assert(all.take(k + 1).drop_last() =~= all.take(k as int));
            assert(all.take(k + 1).last() == all[k as int]);
        }
        let ghost before = registration_views(plan@);
        register_listing(&listings[k], &mut plan);
        proof {
            assert(registration_views(plan@) =~= first + page_registrations(all.take(k + 1)));
        }
        k = k + 1;
    }
    proof {
        assert(all.take(k as int) =~= all);
    }
    plan
}

// ---------------------------------------------------------------------------
// Laws
// ---------------------------------------------------------------------------
/// No expanded path has an optional segment.
pub proof fn expansion_removes_optionals(path: Seq<PathSegment>)
    ensures
        expanded(path).len() > 0,
        forall|i: int, j: int|
            0 <= i < expanded(path).len() && 0 <= j < expanded(path)[i].len() ==> !(#[trigger] expanded(
                path,
            )[i][j] is OptionalParam),
    decreases path.len(),
{
    if path.len() > 0 {
        let rest = expanded(path.skip(1));
        expansion_removes_optionals(path.skip(1));
        assert forall|i: int, j: int|
            0 <= i < expanded(path).len() && 0 <= j < expanded(path)[i].len() implies !(#[trigger] expanded(
            path,
        )[i][j] is OptionalParam) by {
            let one = expanded(path)[i];
            if i < rest.len() {
                if j > 0 {
                    assert(one[j] == rest[i][j - 1]);
                    assert(!(expanded(path.skip(1))[i][j - 1] is OptionalParam));
                }
            } else {
                assert(one == rest[i - rest.len()]);
                assert(!(expanded(path.skip(1))[i - rest.len()][j] is OptionalParam));
            }
        }
    }
}

/// A path without optional segments stands for itself alone.
pub proof fn plain_paths_expand_to_themselves(path: Seq<PathSegment>)
    requires
        forall|i: int| 0 <= i < path.len() ==> !(#[trigger] path[i] is OptionalParam),
    ensures
        expanded(path) == seq![path],
    decreases path.len(),
{
    if path.len() > 0 {
        let tail = path.skip(1);
        assert forall|i: int| 0 <= i < tail.len() implies !(#[trigger] tail[i] is OptionalParam) by {
            assert(tail[i] == path[i + 1]);
        }
        plain_paths_expand_to_themselves(tail);
        assert(!(path[0] is OptionalParam));
        assert(seq![path[0]] + tail =~= path);
        assert(expanded(path) =~= seq![path]);
    } else {
        assert(expanded(path) =~= seq![path]);
    }
}

proof fn lemma_retained<R>(listings: Seq<ListingView<R>>, excluded: Seq<Seq<char>>, i: int)
    requires
        0 <= i < retained(listings, excluded).len(),
    ensures
        !excluded.contains(retained(listings, excluded)[i].0),
        listings.contains(retained(listings, excluded)[i]),
    decreases listings.len(),
{
    if listings.len() > 0 {
        let rest = retained(listings.drop_last(), excluded);
        if i < rest.len() {
            lemma_retained(listings.drop_last(), excluded, i);
            let one = retained(listings, excluded)[i];
            assert(one == rest[i]);
            let k: int = choose|k: int|
                0 <= k < listings.drop_last().len() && listings.drop_last()[k] == one;
            assert(listings[k] == one);
        } else {
            assert(listings[listings.len() - 1] == listings.last());
        }
    }
}

/// A path that the application excludes is never registered, neither for a page nor
/// for a server function, not even where it is the root of an application without
/// routes.
pub proof fn excluded_paths_are_left_free<R>(
    routes: Seq<DeclaredRoute<R>>,
    excluded: Seq<Seq<char>>,
    functions: Seq<(Seq<char>, Seq<char>)>,
    i: int,
)
    requires
        0 <= i < registrations(route_list(routes, excluded), functions).len(),
    ensures
        match registrations(route_list(routes, excluded), functions)[i] {
            RegistrationView::ServerFn(path, _) => !excluded.contains(path),
            RegistrationView::Page(path, _, _, _) => !excluded.contains(path),
        },
{
    let list = route_list(routes, excluded);
    let served = server_fn_registrations(list, functions);
    let pages = page_registrations(list);
    if i < served.len() {
        lemma_served(list, functions, i);
        let path = served[i]->ServerFn_0;
        if excluded.contains(path) {
            let k: int = choose|k: int| 0 <= k < excluded.len() && excluded[k] == path;
            let at: int = list.len() - excluded.len() + k;
            assert(list[at] == excluded_listing::<R>(path));
            assert(excludes_at(list, path, at));
        }
    } else {
        lemma_page(list, i - served.len());
        let page = pages[i - served.len()];
        let k: int = choose|k: int| 0 <= k < list.len() && #[trigger] page_of(list[k], page);
        let declared = declared_listings(routes);
        let all = if declared.len() == 0 {
            seq![root_listing::<R>()]
        } else {
            declared
        };
        let kept = retained(all, excluded);
        if k < kept.len() {
            assert(list[k] == kept[k]);
            lemma_retained(all, excluded, k);
        } else {
            assert(list[k] == excluded_listing::<R>(excluded[k - kept.len()]));
        }
    }
}

spec fn page_of<R>(listing: ListingView<R>, page: RegistrationView<R>) -> bool {
    &&& !listing.4
    &&& page matches RegistrationView::Page(path, _, _, _) && path == listing.0
}

proof fn lemma_served<R>(
    listings: Seq<ListingView<R>>,
    functions: Seq<(Seq<char>, Seq<char>)>,
    i: int,
)
    requires
        0 <= i < server_fn_registrations(listings, functions).len(),
    ensures
        server_fn_registrations(listings, functions)[i] matches RegistrationView::ServerFn(path, _)
            && !excludes(listings, path),
    decreases functions.len(),
{
    if functions.len() > 0 {
        let rest = server_fn_registrations(listings, functions.drop_last());
        if i < rest.len() {
            lemma_served(listings, functions.drop_last(), i);
        }
    }
}

proof fn lemma_page<R>(listings: Seq<ListingView<R>>, i: int)
    requires
        0 <= i < page_registrations(listings).len(),
    ensures
        exists|k: int|
            0 <= k < listings.len() && #[trigger] page_of(
                listings[k],
                page_registrations(listings)[i],
            ),
    decreases listings.len(),
{
    if listings.len() > 0 {
        let rest = page_registrations(listings.drop_last());
        if i < rest.len() {
            lemma_page(listings.drop_last(), i);
            let k: int = choose|k: int|
                0 <= k < listings.drop_last().len() && #[trigger] page_of(
                    listings.drop_last()[k],
                    rest[i],
                );
            assert(page_of(listings[k], page_registrations(listings)[i]));
        } else {
            assert(page_of(listings[listings.len() - 1], page_registrations(listings)[i]));
        }
    }
}

/// How many segments of a path are optional.
pub open spec fn optional_count(path: Seq<PathSegment>) -> nat
    decreases path.len(),
{
    if path.len() == 0 {
        0
    } else if path[0] is OptionalParam {
        1 + optional_count(path.skip(1))
    } else {
        optional_count(path.skip(1))
    }
}

/// A path with those of its optional segments as parameters that are chosen, and
/// without the others.
pub open spec fn chosen_path(path: Seq<PathSegment>, choice: Seq<bool>) -> Seq<PathSegment>
    decreases path.len(),
{
    if path.len() == 0 {
        Seq::empty()
    } else {
        let rest = chosen_path(path.skip(1), choice.skip(1));
        match path[0] {
            PathSegment::OptionalParam(name) => if choice[0] {
                seq![PathSegment::Param(name)] + rest
            } else {
                rest
            },
            segment => seq![segment] + rest,
        }
    }
}

/// A path stands for every way of keeping or leaving out each of its optional
/// segments.
pub proof fn every_choice_is_expanded(path: Seq<PathSegment>, choice: Seq<bool>)
    requires
        choice.len() == path.len(),
    ensures
        expanded(path).contains(chosen_path(path, choice)),
    decreases path.len(),
{
    if path.len() == 0 {
        assert(expanded(path)[0] == path);
        assert(path =~= Seq::<PathSegment>::empty());
    } else {
        every_choice_is_expanded(path.skip(1), choice.skip(1));
        let rest = expanded(path.skip(1));
        let one = chosen_path(path.skip(1), choice.skip(1));
        let k: int = choose|k: int| 0 <= k < rest.len() && rest[k] == one;
        if let PathSegment::OptionalParam(name) = path[0] {
            if choice[0] {
                assert(expanded(path)[k] == seq![PathSegment::Param(name)] + one);
            } else {
                assert(expanded(path)[rest.len() + k] == one);
            }
        } else {
            assert(expanded(path)[k] == seq![path[0]] + one);
        }
    }
}

/// A path stands for nothing else: each expanded path comes of a choice.
pub proof fn every_expansion_is_a_choice(path: Seq<PathSegment>, i: int) -> (choice: Seq<bool>)
    requires
        0 <= i < expanded(path).len(),
    ensures
        choice.len() == path.len(),
        expanded(path)[i] == chosen_path(path, choice),
    decreases path.len(),
{
    if path.len() == 0 {
        assert(expanded(path)[i] =~= Seq::<PathSegment>::empty());
        Seq::empty()
    } else {
        let rest = expanded(path.skip(1));
        let (k, keep) = if i < rest.len() {
            (i, true)
        } else {
            (i - rest.len(), false)
        };
        let tail = every_expansion_is_a_choice(path.skip(1), k);
        let choice = seq![keep] + tail;
        assert(choice.skip(1) =~= tail);
        choice
    }
}

/// A path with `n` optional segments stands for two to the power of `n` paths, of which
/// the first keeps all of them and the last none.
pub proof fn optionals_double_the_paths(path: Seq<PathSegment>)
    ensures
        expanded(path).len() == vstd::arithmetic::power2::pow2(optional_count(path)),
        expanded(path).len() > 0,
        expanded(path)[0] == chosen_path(path, Seq::new(path.len(), |i: int| true)),
        expanded(path).last() == chosen_path(path, Seq::new(path.len(), |i: int| false)),
    decreases path.len(),
{
    if path.len() == 0 {
        vstd::arithmetic::power2::lemma2_to64();
        assert(expanded(path)[0] =~= Seq::<PathSegment>::empty());
    } else {
        let tail = path.skip(1);
        optionals_double_the_paths(tail);
        assert(Seq::new(path.len(), |i: int| true).skip(1) =~= Seq::new(
            tail.len(),
            |i: int| true,
        ));
        assert(Seq::new(path.len(), |i: int| false).skip(1) =~= Seq::new(
            tail.len(),
            |i: int| false,
        ));
        if path[0] is OptionalParam {
            vstd::arithmetic::power2::lemma_pow2_unfold(optional_count(path));
            assert(expanded(path).last() == expanded(tail).last());
        } else {
            assert(expanded(path).last() == seq![path[0]] + expanded(tail).last());
        }
    }
}

/// The pattern of two paths one behind the other is made of both patterns.
pub proof fn patterns_follow_the_path(a: Seq<PathSegment>, b: Seq<PathSegment>)
    ensures
        path_pattern(a + b) == path_pattern(a) + path_pattern(b),
    decreases b.len(),
{
    if b.len() == 0 {
        assert(a + b =~= a);
        assert(path_pattern(a) + path_pattern(b) =~= path_pattern(a));
    } else {
        assert((a + b).drop_last() =~= a + b.drop_last());
        assert((a + b).last() == b.last());
        patterns_follow_the_path(a, b.drop_last());
        assert(path_pattern(a + b) =~= path_pattern(a) + path_pattern(b));
    }
}

/// What a segment looks like in a pattern: fixed text as it is, a parameter in braces,
/// and the rest of a path in braces with a star, each behind a slash unless it brings
/// one or is empty.
pub proof fn segments_have_their_patterns(name: String)
    ensures
        ({
            let slash = if name@.len() > 0 && name@[0] != '/' {
                seq!['/']
            } else {
                Seq::<char>::empty()
            };
            &&& path_pattern(seq![PathSegment::Static(name)]) == slash + name@
            &&& path_pattern(seq![PathSegment::Param(name)]) == slash + seq!['{'] + name@ + seq!['}']
            &&& path_pattern(seq![PathSegment::Splat(name)]) == slash + seq!['{'] + name@ + seq![
                '}',
                '*',
            ]
            &&& path_pattern(seq![PathSegment::Unit]) == Seq::<char>::empty()
        }),
{
    let slash = if name@.len() > 0 && name@[0] != '/' {
        seq!['/']
    } else {
        Seq::<char>::empty()
    };
    lemma_single(PathSegment::Static(name));
    lemma_single(PathSegment::Param(name));
    lemma_single(PathSegment::Splat(name));
    lemma_single(PathSegment::Unit);
    assert(path_pattern(seq![PathSegment::Static(name)]) =~= slash + name@);
    assert(path_pattern(seq![PathSegment::Param(name)]) =~= slash + seq!['{'] + name@ + seq!['}']);
    assert(path_pattern(seq![PathSegment::Splat(name)]) =~= slash + seq!['{'] + name@ + seq![
        '}',
        '*',
    ]);
    assert(path_pattern(seq![PathSegment::Unit]) =~= Seq::<char>::empty());
}

proof fn lemma_single(segment: PathSegment)
    ensures
        path_pattern(seq![segment]) == separator(segment) + segment_pattern(segment),
{
    reveal_with_fuel(path_pattern, 2);
    assert(seq![segment].drop_last() =~= Seq::<PathSegment>::empty());
    assert(path_pattern(seq![segment]) =~= separator(segment) + segment_pattern(segment));
}

proof fn lemma_declared<R>(routes: Seq<DeclaredRoute<R>>, r: int, i: int) -> (at: int)
    requires
        0 <= r < routes.len(),
        0 <= i < expanded(routes[r].path@).len(),
    ensures
        0 <= at < declared_listings(routes).len(),
        declared_listings(routes)[at] == route_listings(routes[r])[i],
    decreases routes.len(),
{
    let rest = declared_listings(routes.drop_last());
    if r < routes.len() - 1 {
        let at: int = lemma_declared(routes.drop_last(), r, i);
        assert(declared_listings(routes)[at] == rest[at]);
        at
    } else {
        let at: int = rest.len() + i;
        assert(declared_listings(routes)[at] == route_listings(routes[r])[i]);
        at
    }
}

proof fn lemma_kept<R>(listings: Seq<ListingView<R>>, excluded: Seq<Seq<char>>, j: int) -> (at: int)
    requires
        0 <= j < listings.len(),
        !excluded.contains(listings[j].0),
    ensures
        0 <= at < retained(listings, excluded).len(),
        retained(listings, excluded)[at] == listings[j],
    decreases listings.len(),
{
    let rest = retained(listings.drop_last(), excluded);
    if j < listings.len() - 1 {
        let at: int = lemma_kept(listings.drop_last(), excluded, j);
        assert(retained(listings, excluded)[at] == rest[at]);
        at
    } else {
        rest.len() as int
    }
}

/// Every path of every declared route that is not excluded is listed, with the mode,
/// the methods and the regeneration functions of its route; an empty pattern is the
/// root.
pub proof fn declared_paths_are_listed<R>(
    routes: Seq<DeclaredRoute<R>>,
    excluded: Seq<Seq<char>>,
    r: int,
    i: int,
)
    requires
        0 <= r < routes.len(),
        0 <= i < expanded(routes[r].path@).len(),
    ensures
        ({
            let pattern = path_pattern(expanded(routes[r].path@)[i]);
            let path = if pattern.len() == 0 {
                seq!['/']
            } else {
                pattern
            };
            !excluded.contains(path) ==> route_list(routes, excluded).contains(
                (path, routes[r].mode, routes[r].methods@, routes[r].regenerate, false),
            )
        }),
{
    reveal_strlit("/");
    assert("/"@ =~= seq!['/']);
    let at: int = lemma_declared(routes, r, i);
    let declared = declared_listings(routes);
    if !excluded.contains(declared[at].0) {
        let k: int = lemma_kept(declared, excluded, at);
        assert(route_list(routes, excluded)[k] == declared[at]);
    }
}

/// An application without routes is listed at its root, for GET, unless that is
/// excluded.
pub proof fn empty_applications_have_a_root<R>(excluded: Seq<Seq<char>>)
    ensures
        !excluded.contains(seq!['/']) ==> route_list::<R>(Seq::empty(), excluded).contains(
            (seq!['/'], SsrMode::OutOfOrder, seq![Method::Get], None::<R>, false),
        ),
{
    reveal_strlit("/");
    assert("/"@ =~= seq!['/']);
    let all = seq![root_listing::<R>()];
    assert(declared_listings::<R>(Seq::empty()).len() == 0);
    if !excluded.contains(seq!['/']) {
        let k: int = lemma_kept(all, excluded, 0);
        assert(route_list::<R>(Seq::empty(), excluded)[k] == all[0]);
    }
}

/// Every excluded path is listed as excluded.
pub proof fn excluded_paths_are_listed<R>(
    routes: Seq<DeclaredRoute<R>>,
    excluded: Seq<Seq<char>>,
    i: int,
)
    requires
        0 <= i < excluded.len(),
    ensures
        excludes(route_list(routes, excluded), excluded[i]),
{
    let list = route_list(routes, excluded);
    let at: int = list.len() - excluded.len() + i;
    assert(list[at] == excluded_listing::<R>(excluded[i]));
    assert(excludes_at(list, excluded[i], at));
}

proof fn lemma_listing_registered<R>(listings: Seq<ListingView<R>>, j: int, m: int) -> (at: int)
    requires
        0 <= j < listings.len(),
        !listings[j].4,
        0 <= m < listings[j].2.len(),
    ensures
        0 <= at < page_registrations(listings).len(),
        page_registrations(listings)[at] == RegistrationView::Page(
            listings[j].0,
            listings[j].2[m],
            listings[j].1,
            listings[j].3,
        ),
    decreases listings.len(),
{
    let rest = page_registrations(listings.drop_last());
    if j < listings.len() - 1 {
        let at: int = lemma_listing_registered(listings.drop_last(), j, m);
        assert(page_registrations(listings)[at] == rest[at]);
        at
    } else {
        let at: int = rest.len() + m;
        assert(page_registrations(listings)[at] == listing_registrations(listings[j])[m]);
        at
    }
}

proof fn lemma_function_registered<R>(
    listings: Seq<ListingView<R>>,
    functions: Seq<(Seq<char>, Seq<char>)>,
    k: int,
) -> (at: int)
    requires
        0 <= k < functions.len(),
        !excludes(listings, functions[k].0),
    ensures
        0 <= at < server_fn_registrations(listings, functions).len(),
        server_fn_registrations(listings, functions)[at] == RegistrationView::<R>::ServerFn(
            functions[k].0,
            functions[k].1,
        ),
    decreases functions.len(),
{
    let rest = server_fn_registrations(listings, functions.drop_last());
    if k < functions.len() - 1 {
        let at: int = lemma_function_registered(listings, functions.drop_last(), k);
        assert(server_fn_registrations(listings, functions)[at] == rest[at]);
        at
    } else {
        rest.len() as int
    }
}

/// Every listed page is registered for each of its methods, with its own mode, unless
/// it is excluded.
pub proof fn listed_pages_are_registered<R>(
    listings: Seq<ListingView<R>>,
    functions: Seq<(Seq<char>, Seq<char>)>,
    j: int,
    m: int,
)
    requires
        0 <= j < listings.len(),
        !listings[j].4,
        0 <= m < listings[j].2.len(),
    ensures
        registrations(listings, functions).contains(
            RegistrationView::Page(
                listings[j].0,
                listings[j].2[m],
                listings[j].1,
                listings[j].3,
            ),
        ),
{
    let at: int = lemma_listing_registered(listings, j, m);
    let k: int = server_fn_registrations(listings, functions).len() + at;
    assert(registrations(listings, functions)[k] == page_registrations(listings)[at]);
}

/// Every server function is registered under its path and method, unless its path is
/// excluded, and in front of every page.
pub proof fn server_functions_are_registered_first<R>(
    listings: Seq<ListingView<R>>,
    functions: Seq<(Seq<char>, Seq<char>)>,
    k: int,
    page: int,
) -> (at: int)
    requires
        0 <= k < functions.len(),
        !excludes(listings, functions[k].0),
        0 <= page < registrations(listings, functions).len(),
        registrations(listings, functions)[page] is Page,
    ensures
        0 <= at < page,
        registrations(listings, functions)[at] == RegistrationView::<R>::ServerFn(
            functions[k].0,
            functions[k].1,
        ),
{
    let served = server_fn_registrations(listings, functions);
    let at: int = lemma_function_registered(listings, functions, k);
    assert(registrations(listings, functions)[at] == served[at]);
    if page < served.len() {
        lemma_served(listings, functions, page);
    }
    at
}

/// Nothing else is registered: each registration is that of a server function, or of a
/// listed page for one of its methods.
pub proof fn registrations_are_asked_for<R>(
    listings: Seq<ListingView<R>>,
    functions: Seq<(Seq<char>, Seq<char>)>,
    i: int,
)
    requires
        0 <= i < registrations(listings, functions).len(),
    ensures
        match registrations(listings, functions)[i] {
            RegistrationView::ServerFn(path, verb) => functions.contains((path, verb)),
            RegistrationView::Page(path, method, mode, regenerate) => exists|j: int|
                0 <= j < listings.len() && !(#[trigger] listings[j]).4 && listings[j].0 == path
                    && listings[j].1 == mode && listings[j].3 == regenerate
                    && listings[j].2.contains(method),
        },
{
    let served = server_fn_registrations(listings, functions);
    if i < served.len() {
        lemma_function_asked(listings, functions, i);
    } else {
        lemma_page_asked(listings, i - served.len());
    }
}

proof fn lemma_function_asked<R>(
    listings: Seq<ListingView<R>>,
    functions: Seq<(Seq<char>, Seq<char>)>,
    i: int,
)
    requires
        0 <= i < server_fn_registrations(listings, functions).len(),
    ensures
        server_fn_registrations(listings, functions)[i] matches RegistrationView::ServerFn(
            path,
            verb,
        ) && functions.contains((path, verb)),
    decreases functions.len(),
{
    if functions.len() > 0 {
        let rest = server_fn_registrations(listings, functions.drop_last());
        let entry = server_fn_registrations(listings, functions)[i];
        if i < rest.len() {
            lemma_function_asked(listings, functions.drop_last(), i);
            let own = (entry->ServerFn_0, entry->ServerFn_1);
            let k: int = choose|k: int|
                0 <= k < functions.drop_last().len() && functions.drop_last()[k] == own;
            assert(functions[k] == own);
        } else {
            assert(functions[functions.len() - 1] == functions.last());
        }
    }
}

proof fn lemma_page_asked<R>(listings: Seq<ListingView<R>>, i: int)
    requires
        0 <= i < page_registrations(listings).len(),
    ensures
        page_registrations(listings)[i] matches RegistrationView::Page(
            path,
            method,
            mode,
            regenerate,
        ) && exists|j: int|
            0 <= j < listings.len() && !(#[trigger] listings[j]).4 && listings[j].0 == path
                && listings[j].1 == mode && listings[j].3 == regenerate
                && listings[j].2.contains(method),
    decreases listings.len(),
{
    if listings.len() > 0 {
        let front = listings.drop_last();
        let rest = page_registrations(front);
        let entry = page_registrations(listings)[i];
        if i < rest.len() {
            lemma_page_asked(front, i);
            assert(entry == rest[i]);
            if let RegistrationView::Page(path, method, mode, regenerate) = entry {
                let j: int = choose|j: int|
                    0 <= j < front.len() && !(#[trigger] front[j]).4 && front[j].0 == path
                        && front[j].1 == mode && front[j].3 == regenerate
                        && front[j].2.contains(method);
                assert(listings[j] == front[j]);
            }
        } else {
            let one = listings.last();
            let m: int = i - rest.len();
            assert(entry == listing_registrations(one)[m]);
            assert(listings[listings.len() - 1] == one);
            assert(one.2[m] == entry->Page_1);
        }
    }
}

/// The paths that are registered for a path are those of every choice of its optional
/// segments, and as many as there are choices.
pub proof fn registered_paths_cover_every_choice(
    path: &Vec<PathSegment>,
    choice: Seq<bool>,
    paths: Vec<Vec<PathSegment>>,
)
    requires
        call_ensures(expand_optionals, (path,), paths),
        choice.len() == path@.len(),
    ensures
        exists|i: int|
            0 <= i < paths@.len() && (#[trigger] paths@[i])@ == chosen_path(path@, choice),
        paths@.len() == vstd::arithmetic::power2::pow2(optional_count(path@)),
{
    every_choice_is_expanded(path@, choice);
    optionals_double_the_paths(path@);
    let all = expanded(path@);
    let i: int = choose|i: int| 0 <= i < all.len() && all[i] == chosen_path(path@, choice);
    assert(path_views(paths@).len() == paths@.len());
    assert(path_views(paths@)[i] == paths@[i]@);
}

/// Every path of every declared route that is not excluded is in the list, with the mode
/// and the methods of its route.
pub proof fn route_lists_hold_every_route<R: Copy>(
    routes: &Vec<DeclaredRoute<R>>,
    excluded: &Vec<String>,
    listings: Vec<NtexRouteListing<R>>,
    r: int,
    i: int,
)
    requires
        call_ensures(generate_route_list_with_exclusions::<R>, (routes, excluded), listings),
        0 <= r < routes@.len(),
        0 <= i < expanded(routes@[r].path@).len(),
        path_pattern(expanded(routes@[r].path@)[i]).len() > 0,
        !text::strings(excluded@).contains(path_pattern(expanded(routes@[r].path@)[i])),
    ensures
        exists|k: int|
            0 <= k < listings@.len() && (#[trigger] listings@[k])@ == (
                path_pattern(expanded(routes@[r].path@)[i]),
                routes@[r].mode,
                routes@[r].methods@,
                routes@[r].regenerate,
                false,
            ),
{
    declared_paths_are_listed(routes@, text::strings(excluded@), r, i);
    let all = route_list(routes@, text::strings(excluded@));
    let wanted = (
        path_pattern(expanded(routes@[r].path@)[i]),
        routes@[r].mode,
        routes@[r].methods@,
        routes@[r].regenerate,
        false,
    );
    let k: int = choose|k: int| 0 <= k < all.len() && all[k] == wanted;
    assert(listing_views(listings@).len() == listings@.len());
    assert(listing_views(listings@)[k] == listings@[k]@);
}

/// Every listed page is registered for each of its methods unless it is excluded.
pub proof fn plans_register_every_page<R: Copy>(
    listings: &Vec<NtexRouteListing<R>>,
    functions: &Vec<(String, String)>,
    plan: Vec<Registration<R>>,
    j: int,
    m: int,
)
    requires
        call_ensures(leptos_routes_with_context::<R>, (listings, functions), plan),
        0 <= j < listings@.len(),
        !listings@[j]@.4,
        0 <= m < listings@[j]@.2.len(),
    ensures
        exists|k: int|
            0 <= k < plan@.len() && (#[trigger] plan@[k])@ == RegistrationView::Page(
                listings@[j]@.0,
                listings@[j]@.2[m],
                listings@[j]@.1,
                listings@[j]@.3,
            ),
{
    let views = listing_views(listings@);
    let pairs = pair_views(functions@);
    assert(views.len() == listings@.len());
    assert(views[j] == listings@[j]@);
    listed_pages_are_registered(views, pairs, j, m);
    let all = registrations(views, pairs);
    let wanted = RegistrationView::Page(
        listings@[j]@.0,
        listings@[j]@.2[m],
        listings@[j]@.1,
        listings@[j]@.3,
    );
    let k: int = choose|k: int| 0 <= k < all.len() && all[k] == wanted;
    assert(registration_views(plan@).len() == plan@.len());
    assert(registration_views(plan@)[k] == plan@[k]@);
}

/// The executor is installed at most once: the first attempt decides, and every later one
/// is answered like it.
pub proof fn the_first_attempt_decides(
    state: &mut ExecutorInitState,
    later: &mut ExecutorInitState,
    attempt: Result<(), ExecutorError>,
    other: Result<(), ExecutorError>,
    r: Result<(), ExecutorError>,
    s: Result<(), ExecutorError>,
    needed: bool,
)
    requires
        *old(state) == ExecutorInitState::Unknown,
        call_ensures(try_init_executor, (state, attempt), r),
        *old(later) == *final(state),
        call_ensures(try_init_executor, (later, other), s),
        call_ensures(needs_install, (*final(state),), needed),
    ensures
        r is Ok <==> attempt is Ok,
        s is Ok <==> r is Ok,
        *final(later) == *final(state),
        !needed,
{
}

/// Routes are listed in the order in which they are declared, each once for each of its
/// paths.
pub proof fn routes_are_listed_in_order<R>(a: Seq<DeclaredRoute<R>>, b: Seq<DeclaredRoute<R>>)
    ensures
        declared_listings(a + b) == declared_listings(a) + declared_listings(b),
        a.len() == 1 ==> declared_listings(a).len() == expanded(a[0].path@).len(),
    decreases b.len(),
{
    reveal_with_fuel(declared_listings, 2);
    if a.len() == 1 {
        assert(a.drop_last().len() == 0);
    }
    if b.len() == 0 {
        assert(a + b =~= a);
        assert(declared_listings(a) + declared_listings(b) =~= declared_listings(a));
    } else {
        assert((a + b).drop_last() =~= a + b.drop_last());
        assert((a + b).last() == b.last());
        routes_are_listed_in_order(a, b.drop_last());
        assert(declared_listings(a + b) =~= declared_listings(a) + declared_listings(b));
    }
}

/// Leaving out what is excluded keeps the order of the rest, and nothing is left out that
/// is not excluded.
pub proof fn exclusion_keeps_the_order<R>(
    a: Seq<ListingView<R>>,
    b: Seq<ListingView<R>>,
    excluded: Seq<Seq<char>>,
)
    ensures
        retained(a + b, excluded) == retained(a, excluded) + retained(b, excluded),
        a.len() == 1 ==> retained(a, excluded) == (if excluded.contains(a[0].0) {
            Seq::empty()
        } else {
            a
        }),
    decreases b.len(),
{
    reveal_with_fuel(retained, 2);
    if a.len() == 1 {
        assert(a.drop_last() =~= Seq::<ListingView<R>>::empty());
        assert(Seq::<ListingView<R>>::empty().push(a[0]) =~= a);
    }
    if b.len() == 0 {
        assert(a + b =~= a);
        assert(retained(a, excluded) + retained(b, excluded) =~= retained(a, excluded));
    } else {
        assert((a + b).drop_last() =~= a + b.drop_last());
        assert((a + b).last() == b.last());
        exclusion_keeps_the_order(a, b.drop_last(), excluded);
        assert(retained(a + b, excluded) =~= retained(a, excluded) + retained(b, excluded));
    }
}

/// Pages are registered in the order in which they are listed, each once for each of its
/// methods.
pub proof fn pages_are_registered_in_order<R>(a: Seq<ListingView<R>>, b: Seq<ListingView<R>>)
    ensures
        page_registrations(a + b) == page_registrations(a) + page_registrations(b),
        a.len() == 1 ==> page_registrations(a).len() == (if a[0].4 {
            0
        } else {
            a[0].2.len()
        }),
    decreases b.len(),
{
    reveal_with_fuel(page_registrations, 2);
    if a.len() == 1 {
        assert(a.drop_last().len() == 0);
    }
    if b.len() == 0 {
        assert(a + b =~= a);
        assert(page_registrations(a) + page_registrations(b) =~= page_registrations(a));
    } else {
        assert((a + b).drop_last() =~= a + b.drop_last());
        assert((a + b).last() == b.last());
        pages_are_registered_in_order(a, b.drop_last());
        assert(page_registrations(a + b) =~= page_registrations(a) + page_registrations(b));
    }
}

/// Server functions are registered in their order, each once unless its path is excluded.
pub proof fn functions_are_registered_in_order<R>(
    listings: Seq<ListingView<R>>,
    a: Seq<(Seq<char>, Seq<char>)>,
    b: Seq<(Seq<char>, Seq<char>)>,
)
    ensures
        server_fn_registrations(listings, a + b) == server_fn_registrations(listings, a)
            + server_fn_registrations(listings, b),
        a.len() == 1 ==> server_fn_registrations(listings, a) == (if excludes(listings, a[0].0) {
            Seq::empty()
        } else {
            seq![RegistrationView::<R>::ServerFn(a[0].0, a[0].1)]
        }),
    decreases b.len(),
{
    reveal_with_fuel(server_fn_registrations, 2);
    if a.len() == 1 {
        assert(a.drop_last() =~= Seq::<(Seq<char>, Seq<char>)>::empty());
        assert(server_fn_registrations(listings, a.drop_last()).len() == 0);
        if !excludes(listings, a[0].0) {
            assert(server_fn_registrations(listings, a) =~= seq![
                RegistrationView::<R>::ServerFn(a[0].0, a[0].1),
            ]);
        }
    }
    if b.len() == 0 {
        assert(a + b =~= a);
        assert(server_fn_registrations(listings, a) + server_fn_registrations(listings, b)
            =~= server_fn_registrations(listings, a));
    } else {
        assert((a + b).drop_last() =~= a + b.drop_last());
        assert((a + b).last() == b.last());
        functions_are_registered_in_order(listings, a, b.drop_last());
        assert(server_fn_registrations(listings, a + b) =~= server_fn_registrations(listings, a)
            + server_fn_registrations(listings, b));
    }
}

/// A path is excluded exactly if it is listed as excluded.
pub proof fn exclusions_are_found<R>(listings: Seq<ListingView<R>>, path: Seq<char>, i: int)
    ensures
        0 <= i < listings.len() && listings[i].4 && listings[i].0 == path ==> excludes(
            listings,
            path,
        ),
        (forall|j: int| 0 <= j < listings.len() && (#[trigger] listings[j]).4 ==> listings[j].0
            != path) ==> !excludes(listings, path),
{
    if 0 <= i < listings.len() && listings[i].4 && listings[i].0 == path {
        assert(excludes_at(listings, path, i));
    }
}

} // verus!
