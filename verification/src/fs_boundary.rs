//! Rules for file operations that must stay below an opened site directory.

use crate::files::paths::{self, is_below};
use crate::text::copy_bytes;
use vstd::prelude::*;

verus! {

/// The failures of file operations that the rules tell apart.
#[derive(Clone, Copy, Debug, PartialEq, Eq, Structural)]
pub enum IoKind {
    NotFound,
    NotADirectory,
    AlreadyExists,
    WouldBlock,
    PermissionDenied,
    InvalidInput,
    InvalidData,
    Other,
}

/// A component of a path.
pub enum PathComponent {
    /// The root or a prefix before it.
    Root,
    Current,
    Parent,
    Normal(Vec<u8>),
}

// ---------------------------------------------------------------------------
// Paths below the root
// ---------------------------------------------------------------------------
/// Why a path does not name an entry below the root.
#[derive(Clone, Copy, Debug, PartialEq, Eq, Structural)]
pub enum BoundaryError {
    /// The existing part of the path is outside of the root.
    Escapes,
    /// The missing part of the path holds `.` or `..`.
    NotPlain,
}

impl BoundaryError {
    pub fn kind(self) -> (kind: IoKind)
        ensures
            kind == (match self {
                BoundaryError::Escapes => IoKind::PermissionDenied,
                BoundaryError::NotPlain => IoKind::InvalidInput,
            }),
    {
        match self {
            BoundaryError::Escapes => IoKind::PermissionDenied,
            BoundaryError::NotPlain => IoKind::InvalidInput,
        }
    }

    /// What the error says.
    pub fn message(self) -> (message: &'static str)
        ensures
            message@ == (match self {
                BoundaryError::Escapes => "file escapes site_root"@,
                BoundaryError::NotPlain => "missing path components must be plain names"@,
            }),
    {
        match self {
            BoundaryError::Escapes => "file escapes site_root",
            BoundaryError::NotPlain => "missing path components must be plain names",
        }
    }
}

/// Whether a name is `.` or `..`.
pub open spec fn is_dots(name: Seq<u8>) -> bool {
    name == seq![0x2eu8] || name == seq![0x2eu8, 0x2eu8]
}

/// Whether every name is plain.
pub open spec fn all_plain(names: Seq<Seq<u8>>) -> bool {
    forall|i: int| 0 <= i < names.len() ==> !is_dots(#[trigger] names[i])
}

/// The path of an entry relative to the root. `canonical` is the existing part of
/// its path, resolved, and `suffix` the names behind that.
pub open spec fn relative_path(
    root: Seq<Seq<u8>>,
    canonical: Seq<Seq<u8>>,
    suffix: Seq<Seq<u8>>,
) -> Result<Seq<Seq<u8>>, BoundaryError> {
    if !root.is_prefix_of(canonical) {
        Err(BoundaryError::Escapes)
    } else if !all_plain(suffix) {
        Err(BoundaryError::NotPlain)
    } else {
        Ok(canonical.skip(root.len() as int) + suffix)
    }
}

fn has_dots(name: &Vec<u8>) -> (b: bool)
    ensures
        b == is_dots(name@),
{
    proof {
        assert(name@.len() == 1 && name@[0] == 0x2e ==> name@ =~= seq![0x2eu8]);
        assert(name@.len() == 2 && name@[0] == 0x2e && name@[1] == 0x2e ==> name@ =~= seq![
            0x2eu8,
            0x2eu8,
        ]);
    }
    (name.len() == 1 && name[0] == 0x2e) || (name.len() == 2 && name[0] == 0x2e && name[1] == 0x2e)
}

/// Finds the path of an entry relative to the root.
pub fn relative(root: &Vec<Vec<u8>>, canonical: &Vec<Vec<u8>>, suffix: &Vec<Vec<u8>>) -> (r: Result<
    Vec<Vec<u8>>,
    BoundaryError,
>)
    ensures
        match r {
            Ok(path) => relative_path(
                paths::component_bytes(root@),
                paths::component_bytes(canonical@),
                paths::component_bytes(suffix@),
            ) == Ok::<Seq<Seq<u8>>, BoundaryError>(paths::component_bytes(path@)),
            Err(error) => relative_path(
                paths::component_bytes(root@),
                paths::component_bytes(canonical@),
                paths::component_bytes(suffix@),
            ) == Err::<Seq<Seq<u8>>, BoundaryError>(error),
        },
{
    let ghost outer = paths::component_bytes(root@);
    let ghost inner = paths::component_bytes(canonical@);
    let ghost names = paths::component_bytes(suffix@);
    if !is_below(root, canonical) {
        return Err(BoundaryError::Escapes);
    }
    let mut path: Vec<Vec<u8>> = Vec::new();
    let mut i: usize = root.len();
    proof {
        assert(paths::component_bytes(path@) =~= inner.subrange(outer.len() as int, i as int));
    }
    while i < canonical.len()
        invariant
            root@.len() <= i <= canonical@.len(),
            outer == paths::component_bytes(root@),
            inner == paths::component_bytes(canonical@),
            paths::component_bytes(path@) == inner.subrange(outer.len() as int, i as int),
        decreases canonical.len() - i,
    {
        let ghost before = path@;
        path.push(copy_bytes(canonical[i].as_slice()));
        proof {
            assert(inner[i as int] == canonical@[i as int]@);
            assert(paths::component_bytes(path@) =~= paths::component_bytes(before).push(
                inner[i as int],
            ));
            assert(inner.subrange(outer.len() as int, i + 1) =~= inner.subrange(
                outer.len() as int,
                i as int,
            ).push(inner[i as int]));
        }
        i = i + 1;
    }
    let ghost below = inner.skip(outer.len() as int);
    proof {
        assert(inner.subrange(outer.len() as int, i as int) =~= below);
        assert(below + names.take(0) =~= below);
    }
    let mut k: usize = 0;
    while k < suffix.len()
        invariant
            k <= suffix.len(),
            outer.is_prefix_of(inner),
            outer == paths::component_bytes(root@),
            inner == paths::component_bytes(canonical@),
            names == paths::component_bytes(suffix@),
            below == inner.skip(outer.len() as int),
            forall|j: int| 0 <= j < k ==> !is_dots(#[trigger] names[j]),
            paths::component_bytes(path@) == below + names.take(k as int),
        decreases suffix.len() - k,
    {
        proof {
            assert(names[k as int] == suffix@[k as int]@);
        }
        if has_dots(&suffix[k]) {
            proof {
                assert(is_dots(names[k as int]));
            }
            return Err(BoundaryError::NotPlain);
        }
        let ghost before = path@;
        path.push(copy_bytes(suffix[k].as_slice()));
        proof {
            assert(paths::component_bytes(path@) =~= paths::component_bytes(before).push(
                names[k as int],
            ));
            assert(names.take(k + 1) =~= names.take(k as int).push(names[k as int]));
            assert(paths::component_bytes(path@) =~= below + names.take(k + 1));
        }
        k = k + 1;
    }
    proof {
        assert(names.take(k as int) =~= names);
    }
    Ok(path)
}

/// Whether a path below the root can be opened as it stands: it is not empty, and
/// all its components are names.
pub fn opens_directly(relative: &Vec<PathComponent>) -> (direct: bool)
    ensures
        direct <==> relative@.len() > 0 && forall|i: int|
            0 <= i < relative@.len() ==> #[trigger] relative@[i] is Normal,
{
    let mut i: usize = 0;
    while i < relative.len()
        invariant
            i <= relative.len(),
            forall|j: int| 0 <= j < i ==> #[trigger] relative@[j] is Normal,
        decreases relative.len() - i,
    {
        match &relative[i] {
            PathComponent::Normal(_) => {},
            _ => {
                proof {
                    assert(!(relative@[i as int] is Normal));
                }
                return false;
            },
        }
        i = i + 1;
    }
    relative.len() > 0
}

// ---------------------------------------------------------------------------
// The existing part of a path
// ---------------------------------------------------------------------------
/// A search for the longest part of a path that can be resolved. Trailing components
/// are set aside while resolving fails.
pub struct PrefixSearch {
    candidate: Vec<PathComponent>,
    aside: Vec<PathComponent>,
}

impl PrefixSearch {
    /// The part that is to be resolved next.
    pub closed spec fn candidate(self) -> Seq<PathComponent> {
        self.candidate@
    }

    /// The components that were set aside, in path order.
    pub closed spec fn suffix(self) -> Seq<PathComponent> {
        self.aside@.reverse()
    }

    /// The path that is searched.
    pub open spec fn path(self) -> Seq<PathComponent> {
        self.candidate() + self.suffix()
    }

    /// Starts with the whole path.
    pub fn canonicalize_existing_prefix(path: Vec<PathComponent>) -> (search: PrefixSearch)
        ensures
            search.candidate() == path@,
            search.path() == path@,
    {
        let search = PrefixSearch { candidate: path, aside: Vec::new() };
        proof {
            assert(search.suffix() =~= Seq::empty());
            assert(search.path() =~= path@);
        }
        search
    }

    /// The part that is to be resolved; an empty one stands for the current
    /// directory.
    pub fn probe(&self) -> (candidate: &Vec<PathComponent>)
        ensures
            candidate@ == self.candidate(),
    {
        &self.candidate
    }

    /// Sets the last component aside after resolving failed. There is none to set
    /// aside at the root, or once nothing is left.
    pub fn step_back(&mut self) -> (more: bool)
        ensures
            final(self).path() == old(self).path(),
            more <==> old(self).candidate().len() > 0 && !(old(self).candidate().last() is Root),
            more ==> final(self).candidate() == old(self).candidate().drop_last(),
            !more ==> final(self).candidate() == old(self).candidate(),
    {
        let ghost before = *self;
        if self.candidate.len() == 0 {
            return false;
        }
        match &self.candidate[self.candidate.len() - 1] {
            PathComponent::Root => {
                return false;
            },
            _ => {},
        }
        if let Some(component) = self.candidate.pop() {
            self.aside.push(component);
            proof {
                assert(self.suffix() =~= seq![component] + before.suffix());
                assert(before.candidate() =~= self.candidate().push(component));
                assert(self.path() =~= before.path());
            }
        }
        true
    }

    /// The components that were set aside, in path order.
    pub fn into_suffix(self) -> (suffix: Vec<PathComponent>)
        ensures
            suffix@ == self.suffix(),
    {
        let mut aside = self.aside;
        let ghost all = aside@;
        let mut suffix: Vec<PathComponent> = Vec::new();
        proof {
            assert(all.take(all.len() as int) =~= all);
        }
        while aside.len() > 0
            invariant
                aside@.len() <= all.len(),
                aside@ == all.take(aside@.len() as int),
                suffix@ == all.skip(aside@.len() as int).reverse(),
            decreases aside.len(),
        {
            let ghost n: int = aside@.len() as int;
            if let Some(component) = aside.pop() {
                proof {
                    assert(component == all[n - 1]);
                    assert(all.skip(n - 1).reverse() =~= suffix@.push(component));
                    assert(all.take(n).drop_last() =~= all.take(n - 1));
                }
                suffix.push(component);
            }
        }
        proof {
            assert(all.skip(0) =~= all);
        }
        suffix
    }
}

/// Why a path does not split into a directory and a name.
#[derive(Clone, Copy, Debug, PartialEq, Eq, Structural)]
pub enum SplitError {
    NoParent,
    NoName,
}

/// Splits a path into its directory and its name.
pub fn parent(path: &Vec<PathComponent>) -> (r: Result<usize, SplitError>)
    ensures
        match r {
            Ok(length) => {
                &&& path@.len() > 0 && path@.last() is Normal
                &&& length == path@.len() - 1
            },
            Err(SplitError::NoParent) => path@.len() == 0 || path@.last() is Root,
            Err(SplitError::NoName) => path@.len() > 0 && (path@.last() is Current
                || path@.last() is Parent),
        },
{
    if path.len() == 0 {
        return Err(SplitError::NoParent);
    }
    match &path[path.len() - 1] {
        PathComponent::Root => Err(SplitError::NoParent),
        PathComponent::Normal(_) => Ok(path.len() - 1),
        _ => Err(SplitError::NoName),
    }
}

// ---------------------------------------------------------------------------
// Lock entries
// ---------------------------------------------------------------------------
/// A lock entry could not be opened as a private regular file.
#[derive(Clone, Copy, Debug, PartialEq, Eq, Structural)]
pub enum LockEntryError {
    /// The entry is no regular file.
    NotRegular,
    /// The file has other names; a lock through it would be a lock on them.
    Aliased,
    /// Any other failure, including a missing entry.
    Io(IoKind),
}

impl LockEntryError {
    pub fn is_not_found(&self) -> (missing: bool)
        ensures
            missing == (*self == LockEntryError::Io(IoKind::NotFound)),
    {
        match self {
            LockEntryError::Io(IoKind::NotFound) => true,
            _ => false,
        }
    }

    /// The failure as one of file operations.
    pub fn kind(self) -> (kind: IoKind)
        ensures
            kind == (match self {
                LockEntryError::Io(kind) => kind,
                _ => IoKind::InvalidData,
            }),
    {
        match self {
            LockEntryError::Io(kind) => kind,
            _ => IoKind::InvalidData,
        }
    }
}

/// What happened last while a lock entry was opened.
#[derive(Clone, Copy, Debug, PartialEq, Eq)]
pub enum LockEvent {
    Start,
    /// Creating the entry.
    Created(Result<(), IoKind>),
    /// Looking the entry up without following links; whether it is a regular file.
    LookedUp(Result<bool, IoKind>),
    /// Opening the entry that is there.
    Opened(Result<(), IoKind>),
    /// Inspecting the open file: whether it is regular, and how many names it has.
    Inspected(Result<(bool, u64), IoKind>),
}

/// What to do next.
#[derive(Clone, Copy, Debug, PartialEq, Eq, Structural)]
pub enum LockAction {
    /// Create the entry, and fail if it exists.
    Create,
    LookUp,
    /// Open the entry that is there, for writing if it may be created.
    Open,
    Inspect,
    /// The open file is the lock.
    Accept,
    Refuse(LockEntryError),
}

/// What comes next on the way to an open lock file.
pub open spec fn lock_action(create: bool, event: LockEvent) -> LockAction {
    match event {
        LockEvent::Start => if create {
            LockAction::Create
        } else {
            LockAction::LookUp
        },
        LockEvent::Created(Ok(())) => LockAction::Inspect,
        LockEvent::Created(Err(IoKind::AlreadyExists)) => LockAction::LookUp,
        LockEvent::Created(Err(kind)) => LockAction::Refuse(LockEntryError::Io(kind)),
        LockEvent::LookedUp(Ok(true)) => LockAction::Open,
        LockEvent::LookedUp(Ok(false)) => LockAction::Refuse(LockEntryError::NotRegular),
        LockEvent::LookedUp(Err(kind)) => LockAction::Refuse(LockEntryError::Io(kind)),
        LockEvent::Opened(Ok(())) => LockAction::Inspect,
        LockEvent::Opened(Err(kind)) => LockAction::Refuse(LockEntryError::Io(kind)),
        LockEvent::Inspected(Ok((regular, names))) => if !regular {
            LockAction::Refuse(LockEntryError::NotRegular)
        } else if names != 1 {
            LockAction::Refuse(LockEntryError::Aliased)
        } else {
            LockAction::Accept
        },
        LockEvent::Inspected(Err(kind)) => LockAction::Refuse(LockEntryError::Io(kind)),
    }
}

/// Whether an open file may be a lock: a regular one with a single name.
pub fn checked_lock_file(regular: bool, names: u64) -> (r: Result<(), LockEntryError>)
    ensures
        match r {
            Ok(()) => regular && names == 1,
            Err(LockEntryError::NotRegular) => !regular,
            Err(LockEntryError::Aliased) => regular && names != 1,
            Err(LockEntryError::Io(_)) => false,
        },
{
    if !regular {
        Err(LockEntryError::NotRegular)
    } else if names != 1 {
        Err(LockEntryError::Aliased)
    } else {
        Ok(())
    }
}

/// Decides the next step on the way to an open lock file.
pub fn open_lock_entry(create: bool, event: LockEvent) -> (action: LockAction)
    ensures
        action == lock_action(create, event),
{
    match event {
        LockEvent::Start => if create {
            LockAction::Create
        } else {
            LockAction::LookUp
        },
        LockEvent::Created(Ok(())) => LockAction::Inspect,
        LockEvent::Created(Err(IoKind::AlreadyExists)) => LockAction::LookUp,
        LockEvent::Created(Err(kind)) => LockAction::Refuse(LockEntryError::Io(kind)),
        LockEvent::LookedUp(Ok(true)) => LockAction::Open,
        LockEvent::LookedUp(Ok(false)) => LockAction::Refuse(LockEntryError::NotRegular),
        LockEvent::LookedUp(Err(kind)) => LockAction::Refuse(LockEntryError::Io(kind)),
        LockEvent::Opened(Ok(())) => LockAction::Inspect,
        LockEvent::Opened(Err(kind)) => LockAction::Refuse(LockEntryError::Io(kind)),
        LockEvent::Inspected(Ok((regular, names))) => match checked_lock_file(regular, names) {
            Ok(()) => LockAction::Accept,
            Err(error) => LockAction::Refuse(error),
        },
        LockEvent::Inspected(Err(kind)) => LockAction::Refuse(LockEntryError::Io(kind)),
    }
}

/// How a lock is held.
#[derive(Clone, Copy, Debug, PartialEq, Eq, Structural)]
pub enum LockMode {
    Shared,
    Exclusive,
}

/// How a reader or a writer holds a lock.
pub fn lock_mode(write: bool) -> (mode: LockMode)
    ensures
        mode == (if write {
            LockMode::Exclusive
        } else {
            LockMode::Shared
        }),
{
    if write {
        LockMode::Exclusive
    } else {
        LockMode::Shared
    }
}

/// A lock was not acquired.
#[derive(Clone, Copy, Debug, PartialEq, Eq, Structural)]
pub enum LockError {
    /// It is held incompatibly, and waiting was not asked for.
    WouldBlock,
    Io(IoKind),
}

/// The outcome of an attempt to lock.
pub fn acquire(attempt: Result<(), IoKind>) -> (r: Result<(), LockError>)
    ensures
        r == (match attempt {
            Ok(()) => Ok::<(), LockError>(()),
            Err(IoKind::WouldBlock) => Err::<(), LockError>(LockError::WouldBlock),
            Err(kind) => Err::<(), LockError>(LockError::Io(kind)),
        }),
{
    match attempt {
        Ok(()) => Ok(()),
        Err(IoKind::WouldBlock) => Err(LockError::WouldBlock),
        Err(kind) => Err(LockError::Io(kind)),
    }
}

// ---------------------------------------------------------------------------
// Laws
// ---------------------------------------------------------------------------
/// A relative path leads from the root to where the whole path leads, and never out
/// of the root: it holds no `.` or `..` if the resolved part holds none.
pub proof fn relative_paths_stay_below(
    root: Seq<Seq<u8>>,
    canonical: Seq<Seq<u8>>,
    suffix: Seq<Seq<u8>>,
)
    requires
        relative_path(root, canonical, suffix) is Ok,
        all_plain(canonical),
    ensures
        root + relative_path(root, canonical, suffix)->Ok_0 == canonical + suffix,
        all_plain(relative_path(root, canonical, suffix)->Ok_0),
{
    let rest = canonical.skip(root.len() as int);
    let path = relative_path(root, canonical, suffix)->Ok_0;
    assert(root + path =~= canonical + suffix);
    assert forall|i: int| 0 <= i < path.len() implies !is_dots(#[trigger] path[i]) by {
        if i < rest.len() {
            assert(path[i] == canonical[root.len() + i]);
        } else {
            assert(path[i] == suffix[i - rest.len()]);
        }
    }
}

/// Only a regular file with a single name is ever accepted as a lock.
pub proof fn only_private_files_are_locks(create: bool, event: LockEvent)
    requires
        lock_action(create, event) == LockAction::Accept,
    ensures
        event == LockEvent::Inspected(Ok::<(bool, u64), IoKind>((true, 1u64))),
{
}

/// A reader never creates a lock.
pub proof fn readers_create_no_locks(event: LockEvent)
    ensures
        lock_action(false, event) != LockAction::Create,
{
}

/// What is below the root has the path that leads there from the root; a plain name that
/// does not exist yet is put behind it.
pub proof fn entries_below_the_root_have_a_path(
    root: Seq<Seq<u8>>,
    below: Seq<Seq<u8>>,
    suffix: Seq<Seq<u8>>,
)
    ensures
        (forall|i: int|
            0 <= i < suffix.len() ==> (#[trigger] suffix[i]) != seq![0x2eu8] && suffix[i] != seq![
                0x2eu8,
                0x2eu8,
            ]) ==> relative_path(root, root + below, suffix) == Ok::<Seq<Seq<u8>>, BoundaryError>(
            below + suffix,
        ),
        suffix.contains(seq![0x2eu8]) || suffix.contains(seq![0x2eu8, 0x2eu8]) ==> relative_path(
            root,
            root + below,
            suffix,
        ) == Err::<Seq<Seq<u8>>, BoundaryError>(BoundaryError::NotPlain),
{
    let canonical = root + below;
    assert(canonical.subrange(0, root.len() as int) =~= root);
    assert(canonical.skip(root.len() as int) =~= below);
    if suffix.contains(seq![0x2eu8]) {
        let i: int = choose|i: int| 0 <= i < suffix.len() && suffix[i] == seq![0x2eu8];
        assert(is_dots(suffix[i]));
    }
    if suffix.contains(seq![0x2eu8, 0x2eu8]) {
        let i: int = choose|i: int| 0 <= i < suffix.len() && suffix[i] == seq![0x2eu8, 0x2eu8];
        assert(is_dots(suffix[i]));
    }
}

/// What is not below the root has no path, whatever is behind it.
pub proof fn entries_outside_the_root_have_no_path(
    root: Seq<Seq<u8>>,
    canonical: Seq<Seq<u8>>,
    suffix: Seq<Seq<u8>>,
    i: int,
)
    requires
        0 <= i < root.len(),
        i >= canonical.len() || canonical[i] != root[i],
    ensures
        relative_path(root, canonical, suffix) == Err::<Seq<Seq<u8>>, BoundaryError>(
            BoundaryError::Escapes,
        ),
{
    if root.is_prefix_of(canonical) {
        assert(canonical.subrange(0, root.len() as int)[i] == canonical[i]);
    }
}

/// A lock is created where it may be, and otherwise looked up and opened; either way it is
/// inspected before it is accepted. What is there and is no regular file is never opened,
/// and a failure is passed on as it is.
pub proof fn locks_are_inspected(create: bool, kind: IoKind, regular: bool, names: u64)
    ensures
        lock_action(true, LockEvent::Start) == LockAction::Create,
        lock_action(false, LockEvent::Start) == LockAction::LookUp,
        lock_action(create, LockEvent::Created(Ok::<(), IoKind>(()))) == LockAction::Inspect,
        lock_action(create, LockEvent::Opened(Ok::<(), IoKind>(()))) == LockAction::Inspect,
        lock_action(create, LockEvent::Created(Err::<(), IoKind>(kind))) == (if kind
            == IoKind::AlreadyExists {
            LockAction::LookUp
        } else {
            LockAction::Refuse(LockEntryError::Io(kind))
        }),
        lock_action(create, LockEvent::LookedUp(Ok::<bool, IoKind>(true))) == LockAction::Open,
        lock_action(create, LockEvent::LookedUp(Ok::<bool, IoKind>(false))) == LockAction::Refuse(
            LockEntryError::NotRegular,
        ),
        lock_action(create, LockEvent::LookedUp(Err::<bool, IoKind>(kind))) == LockAction::Refuse(
            LockEntryError::Io(kind),
        ),
        lock_action(create, LockEvent::Opened(Err::<(), IoKind>(kind))) == LockAction::Refuse(
            LockEntryError::Io(kind),
        ),
        lock_action(create, LockEvent::Inspected(Err::<(bool, u64), IoKind>(kind)))
            == LockAction::Refuse(LockEntryError::Io(kind)),
        regular && names == 1 ==> lock_action(
            create,
            LockEvent::Inspected(Ok::<(bool, u64), IoKind>((regular, names))),
        ) == LockAction::Accept,
        regular && names != 1 ==> lock_action(
            create,
            LockEvent::Inspected(Ok::<(bool, u64), IoKind>((regular, names))),
        ) == LockAction::Refuse(LockEntryError::Aliased),
        !regular ==> lock_action(
            create,
            LockEvent::Inspected(Ok::<(bool, u64), IoKind>((regular, names))),
        ) == LockAction::Refuse(LockEntryError::NotRegular),
{
}

/// What is found below the root keeps the names that lead there, and what is not below it
/// is refused.
pub proof fn found_paths_lead_below_the_root(
    root: &Vec<Vec<u8>>,
    canonical: &Vec<Vec<u8>>,
    suffix: &Vec<Vec<u8>>,
    r: Result<Vec<Vec<u8>>, BoundaryError>,
)
    requires
        call_ensures(relative, (root, canonical, suffix), r),
    ensures
        r matches Ok(path) ==> paths::component_bytes(root@) + paths::component_bytes(path@)
            == paths::component_bytes(canonical@) + paths::component_bytes(suffix@),
        !paths::component_bytes(root@).is_prefix_of(paths::component_bytes(canonical@)) ==> r
            == Err::<Vec<Vec<u8>>, BoundaryError>(BoundaryError::Escapes),
        paths::component_bytes(root@).is_prefix_of(paths::component_bytes(canonical@))
            && suffix@.len() == 0 ==> r is Ok,
{
    if let Ok(path) = r {
        assert(paths::component_bytes(root@) + paths::component_bytes(path@)
            =~= paths::component_bytes(canonical@) + paths::component_bytes(suffix@));
    }
}

/// Stepping back sets one name aside and loses none: the part that is tried and what was
/// set aside are always the whole path.
pub proof fn nothing_is_lost_by_stepping_back(
    path: Vec<PathComponent>,
    search: PrefixSearch,
    changed: &mut PrefixSearch,
    more: bool,
    suffix: Vec<PathComponent>,
)
    requires
        call_ensures(PrefixSearch::canonicalize_existing_prefix, (path,), search),
        *old(changed) == search,
        call_ensures(PrefixSearch::step_back, (changed,), more),
        call_ensures(PrefixSearch::into_suffix, (*final(changed),), suffix),
    ensures
        final(changed).candidate() + suffix@ == path@,
        more ==> suffix@.len() == 1 && suffix@[0] == path@.last(),
        path@.len() > 0 && !(path@.last() is Root) ==> more,
        path@.len() == 0 || path@.last() is Root ==> !more && suffix@.len() == 0,
{
    assert(final(changed).candidate() + suffix@ == path@);
    if more {
        assert((path@.drop_last() + suffix@).len() == path@.len());
        assert((path@.drop_last() + suffix@)[path@.len() - 1] == suffix@[0]);
    } else {
        assert((path@ + suffix@).len() == path@.len());
    }
}

/// A lock that another holds is told from one that cannot be taken at all, and writers
/// keep everybody out.
pub proof fn held_locks_are_told_apart(
    kind: IoKind,
    r: Result<(), LockError>,
    writing: LockMode,
    reading: LockMode,
)
    requires
        call_ensures(acquire, (Err::<(), IoKind>(kind),), r),
        call_ensures(lock_mode, (true,), writing),
        call_ensures(lock_mode, (false,), reading),
    ensures
        r is Err,
        r == Err::<(), LockError>(LockError::WouldBlock) <==> kind == IoKind::WouldBlock,
        kind != IoKind::WouldBlock ==> r == Err::<(), LockError>(LockError::Io(kind)),
        writing == LockMode::Exclusive,
        reading == LockMode::Shared,
{
}

} // verus!
