//! Managed access to native requests that belong to one thread.
//!
//! A scope owns the native requests of its thread. Handles on them can go anywhere,
//! but reach the native request only on the thread of the scope, and only while the
//! scope is open.

use crate::http::{self, StatusCode};
use vstd::prelude::*;

verus! {

/// A request cannot be created or reached here.
#[derive(Clone, Copy, Debug, PartialEq, Eq, Structural)]
pub enum RequestAccessError {
    /// No scope is open on this thread.
    MissingScope,
    /// Access was attempted away from the thread of the request.
    WrongThread,
    /// The scope of the request has closed.
    Closed,
}

impl RequestAccessError {
    /// What the error says.
    pub fn message(self) -> (message: &'static str)
        ensures
            message@ == (match self {
                RequestAccessError::MissingScope => "no active RequestScope on this thread"@,
                RequestAccessError::WrongThread => "request access requires its origin thread"@,
                RequestAccessError::Closed => "request scope is closed"@,
            }),
    {
        match self {
            RequestAccessError::MissingScope => "no active RequestScope on this thread",
            RequestAccessError::WrongThread => "request access requires its origin thread",
            RequestAccessError::Closed => "request scope is closed",
        }
    }
}

/// The status of the empty response to a request for which no handle can be made. The
/// runtime lacks a scope, so the request is not at fault.
pub fn missing_scope_status() -> (status: StatusCode)
    ensures
        status == http::INTERNAL_SERVER_ERROR,
{
    http::INTERNAL_SERVER_ERROR
}

/// A handle on a native request: its scope, its number in the scope, and its thread.
/// Handles go anywhere; what they stand for stays with its scope.
#[derive(Clone, Copy, Debug, PartialEq, Eq, Structural)]
pub struct Request {
    pub scope: usize,
    pub id: usize,
    pub origin: u64,
}

/// A scope: its number, the number that its next request gets, and the requests that
/// it owns, by their numbers.
pub struct ScopeView<N> {
    pub id: usize,
    pub next: usize,
    pub entries: Seq<(usize, N)>,
}

struct Registry<N> {
    id: usize,
    next: usize,
    entries: Vec<(usize, N)>,
}

impl<N> View for Registry<N> {
    type V = ScopeView<N>;

    closed spec fn view(&self) -> ScopeView<N> {
        ScopeView { id: self.id, next: self.next, entries: self.entries@ }
    }
}

/// The open scopes of a thread, in the order in which they were opened.
pub struct Scopes<N> {
    open: Vec<Registry<N>>,
}

impl<N> View for Scopes<N> {
    type V = Seq<ScopeView<N>>;

    closed spec fn view(&self) -> Seq<ScopeView<N>> {
        self.open@.map_values(|scope: Registry<N>| scope@)
    }
}

/// Every request of a scope has a number of its own, below the next one.
pub open spec fn proper_scope<N>(scope: ScopeView<N>) -> bool {
    &&& forall|i: int| 0 <= i < scope.entries.len() ==> (#[trigger] scope.entries[i]).0 < scope.next
    &&& forall|i: int, j: int|
        0 <= i < j < scope.entries.len() ==> (#[trigger] scope.entries[i]).0 != (
        #[trigger] scope.entries[j]).0
}

/// Every scope has a number of its own.
pub open spec fn proper_scopes<N>(scopes: Seq<ScopeView<N>>) -> bool {
    &&& forall|i: int| 0 <= i < scopes.len() ==> proper_scope(#[trigger] scopes[i])
    &&& forall|i: int, j: int|
        0 <= i < j < scopes.len() ==> (#[trigger] scopes[i]).id != (#[trigger] scopes[j]).id
}

/// The request with a number.
pub open spec fn native_of<N>(entries: Seq<(usize, N)>, id: usize) -> Option<N>
    decreases entries.len(),
{
    if entries.len() == 0 {
        None
    } else if entries.last().0 == id {
        Some(entries.last().1)
    } else {
        native_of(entries.drop_last(), id)
    }
}

/// The scope with a number.
pub open spec fn scope_of<N>(scopes: Seq<ScopeView<N>>, id: usize) -> Option<ScopeView<N>>
    decreases scopes.len(),
{
    if scopes.len() == 0 {
        None
    } else if scopes.last().id == id {
        Some(scopes.last())
    } else {
        scope_of(scopes.drop_last(), id)
    }
}

/// The outcome of reaching for a request from a thread.
pub open spec fn access<N>(scopes: Seq<ScopeView<N>>, token: Request, thread: u64) -> Result<
    N,
    RequestAccessError,
> {
    if token.origin != thread {
        Err(RequestAccessError::WrongThread)
    } else {
        match scope_of(scopes, token.scope) {
            None => Err(RequestAccessError::Closed),
            Some(scope) => match native_of(scope.entries, token.id) {
                None => Err(RequestAccessError::Closed),
                Some(native) => Ok(native),
            },
        }
    }
}

/// The requests whose numbers are not among `retired`.
pub open spec fn surviving<N>(entries: Seq<(usize, N)>, retired: Seq<usize>) -> Seq<(usize, N)>
    decreases entries.len(),
{
    if entries.len() == 0 {
        Seq::empty()
    } else {
        let rest = surviving(entries.drop_last(), retired);
        if retired.contains(entries.last().0) {
            rest
        } else {
            rest.push(entries.last())
        }
    }
}

/// The requests whose numbers are among `retired`.
pub open spec fn leaving<N>(entries: Seq<(usize, N)>, retired: Seq<usize>) -> Seq<N>
    decreases entries.len(),
{
    if entries.len() == 0 {
        Seq::empty()
    } else {
        let rest = leaving(entries.drop_last(), retired);
        if retired.contains(entries.last().0) {
            rest.push(entries.last().1)
        } else {
            rest
        }
    }
}

/// The scopes with the retired requests of one of them taken out.
pub open spec fn after_retirement<N>(
    scopes: Seq<ScopeView<N>>,
    id: usize,
    retired: Seq<usize>,
) -> Seq<ScopeView<N>> {
    Seq::new(
        scopes.len(),
        |i: int|
            if scopes[i].id == id {
                ScopeView { entries: surviving(scopes[i].entries, retired), ..scopes[i] }
            } else {
                scopes[i]
            },
    )
}

/// The scopes without one of them.
pub open spec fn after_closing<N>(scopes: Seq<ScopeView<N>>, id: usize) -> Seq<ScopeView<N>>
    decreases scopes.len(),
{
    if scopes.len() == 0 {
        Seq::empty()
    } else if scopes.last().id == id {
        scopes.drop_last()
    } else {
        after_closing(scopes.drop_last(), id).push(scopes.last())
    }
}

/// What the drop of the last handle on a request calls for.
pub enum Retirement<N> {
    /// The request was taken out, and is to be destroyed.
    Removed(N),
    /// The scope or the request is gone already.
    Gone,
    /// The handle was dropped on another thread: the scope is to be marked and its
    /// thread woken, so that it collects the request.
    Elsewhere,
}

impl<N> Scopes<N> {
    pub closed spec fn well_formed(self) -> bool {
        proper_scopes(self@)
    }

    /// A thread without an open scope.
    pub fn new() -> (scopes: Scopes<N>)
        ensures
            scopes.well_formed(),
            scopes@ == Seq::<ScopeView<N>>::empty(),
    {
        let scopes = Scopes { open: Vec::new() };
        proof {
            assert(scopes@ =~= Seq::empty());
        }
        scopes
    }

    fn position(&self, id: usize) -> (index: Option<usize>)
        requires
            self.well_formed(),
        ensures
            match index {
                Some(i) => i < self.open@.len() && self@[i as int].id == id && scope_of(self@, id)
                    == Some(self@[i as int]),
                None => scope_of(self@, id) is None && forall|i: int|
                    0 <= i < self@.len() ==> (#[trigger] self@[i]).id != id,
            },
    {
        let mut i: usize = self.open.len();
        proof {
            assert(self@.take(i as int) =~= self@);
        }
        while i > 0
            invariant
                i <= self.open@.len(),
                self@.len() == self.open@.len(),
                scope_of(self@, id) == scope_of(self@.take(i as int), id),
                forall|j: int| i <= j < self@.len() ==> (#[trigger] self@[j]).id != id,
            decreases i,
        {
            proof {
                assert(self@[i - 1] == self.open@[i - 1]@);
                assert(self@.take(i as int).last() == self@[i - 1]);
                assert(self@.take(i as int).drop_last() =~= self@.take(i - 1));
            }
            if self.open[i - 1].id == id {
                return Some(i - 1);
            }
            i = i - 1;
        }
        None
    }

    fn collect(&mut self, id: usize, retired: &Vec<usize>) -> (natives: Vec<N>)
        requires
            old(self).well_formed(),
        ensures
            final(self).well_formed(),
            final(self)@ == after_retirement(old(self)@, id, retired@),
            match scope_of(old(self)@, id) {
                Some(scope) => natives@ == leaving(scope.entries, retired@),
                None => natives@ == Seq::<N>::empty(),
            },
    {
        let ghost before = self@;
        match self.position(id) {
            None => {
                proof {
                    assert(after_retirement(before, id, retired@) =~= before);
                }
                Vec::new()
            },
            Some(at) => {
                proof {
                    assert(before[at as int] == self.open@[at as int]@);
                }
                let mut entries: Vec<(usize, N)> = Vec::new();
                std::mem::swap(&mut entries, &mut self.open[at].entries);
                let next = self.open[at].next;
                let ghost all = entries@;
                let (kept, natives) = part(entries, retired);
                self.open.set(at, Registry { id, next, entries: kept });
                proof {
                    assert(self@ =~= after_retirement(before, id, retired@)) by {
                        assert forall|i: int| 0 <= i < before.len() implies self@[i]
                            == #[trigger] after_retirement(before, id, retired@)[i] by {
                            if i != at {
                                assert(before[i].id != id) by {
                                    if i < at {
                                        assert(before[i].id != before[at as int].id);
                                    } else {
                                        assert(before[at as int].id != before[i].id);
                                    }
                                }
                                assert(self@[i] == before[i]);
                            }
                        }
                    }
                    lemma_surviving_proper(before[at as int], retired@);
                    assert forall|i: int| 0 <= i < self@.len() implies proper_scope(
                        #[trigger] self@[i],
                    ) by {
                        if i != at {
                            assert(self@[i] == before[i]);
                        }
                    }
                    assert forall|i: int, j: int| 0 <= i < j < self@.len() implies (
                    #[trigger] self@[i]).id != (#[trigger] self@[j]).id by {
                        assert(self@[i].id == before[i].id);
                        assert(self@[j].id == before[j].id);
                    }
                }
                natives
            },
        }
    }

    /// Retires a request whose last handle was dropped on a thread.
    pub fn retire(&mut self, token: &Request, thread: u64) -> (r: Retirement<N>)
        requires
            old(self).well_formed(),
        ensures
            final(self).well_formed(),
            if token.origin != thread {
                r is Elsewhere && final(self)@ == old(self)@
            } else {
                &&& final(self)@ == after_retirement(old(self)@, token.scope, seq![token.id])
                &&& match access(old(self)@, *token, thread) {
                    Ok(native) => r == Retirement::Removed(native),
                    Err(_) => r is Gone,
                }
            },
    {
        if token.origin != thread {
            return Retirement::Elsewhere;
        }
        let ghost before = self@;
        let mut retired: Vec<usize> = Vec::new();
        retired.push(token.id);
        proof {
            assert(retired@ =~= seq![token.id]);
            match scope_of(before, token.scope) {
                Some(scope) => {
                    lemma_scope_of(before, token.scope);
                    lemma_leaving_one(scope, token.id);
                },
                None => {},
            }
        }
        let mut natives = self.collect(token.scope, &retired);
        match natives.pop() {
            Some(native) => Retirement::Removed(native),
            None => Retirement::Gone,
        }
    }

    fn close(&mut self, id: usize) -> (natives: Vec<(usize, N)>)
        requires
            old(self).well_formed(),
        ensures
            final(self).well_formed(),
            final(self)@ == after_closing(old(self)@, id),
            match scope_of(old(self)@, id) {
                Some(scope) => natives@ == scope.entries,
                None => natives@ == Seq::<(usize, N)>::empty(),
            },
    {
        let ghost before = self@;
        match self.position(id) {
            None => {
                proof {
                    lemma_after_closing_none(before, id);
                }
                Vec::new()
            },
            Some(at) => {
                proof {
                    assert(before[at as int] == self.open@[at as int]@);
                }
                let registry = self.open.remove(at);
                proof {
                    lemma_after_closing_at(before, id, at as int);
                    assert(self@ =~= before.remove(at as int));
                    assert forall|i: int| 0 <= i < self@.len() implies proper_scope(
                        #[trigger] self@[i],
                    ) by {
                        assert(self@[i] == before[if i < at {
                            i
                        } else {
                            i + 1
                        }]);
                    }
                    assert forall|i: int, j: int| 0 <= i < j < self@.len() implies (
                    #[trigger] self@[i]).id != (#[trigger] self@[j]).id by {
                        let a: int = if i < at {
                            i
                        } else {
                            i + 1
                        };
                        let b: int = if j < at {
                            j
                        } else {
                            j + 1
                        };
                        assert(self@[i] == before[a]);
                        assert(self@[j] == before[b]);
                    }
                }
                registry.entries
            },
        }
    }

    /// Whether handlers are registered on a thread without a scope, where every
    /// request would fail.
    pub fn check_registration_scope(&self) -> (missing: bool)
        ensures
            missing <==> self@.len() == 0,
    {
        self.open.len() == 0
    }

    /// Whether the current scope has given out every number that a handle can have.
    pub fn is_exhausted(&self) -> (exhausted: bool)
        ensures
            exhausted <==> self@.len() > 0 && self@.last().next == usize::MAX,
    {
        let count: usize = self.open.len();
        count > 0 && self.open[count - 1].next == usize::MAX
    }
}

/// An open scope.
#[derive(Debug)]
pub struct RequestScope {
    id: usize,
}

impl RequestScope {
    /// The number of the scope.
    pub closed spec fn number(self) -> usize {
        self.id
    }

    /// Opens a scope, which is the current one until it is closed or another one is
    /// opened. The number is one that no scope of the process had before.
    pub fn new<N>(scopes: &mut Scopes<N>, id: usize) -> (scope: RequestScope)
        requires
            old(scopes).well_formed(),
            forall|i: int| 0 <= i < old(scopes)@.len() ==> (#[trigger] old(scopes)@[i]).id != id,
        ensures
            scope.number() == id,
            final(scopes).well_formed(),
            final(scopes)@ == old(scopes)@.push(
                ScopeView { id, next: 0, entries: Seq::empty() },
            ),
    {
        let ghost before = scopes@;
        scopes.open.push(Registry { id, next: 0, entries: Vec::new() });
        proof {
            let fresh = ScopeView { id, next: 0, entries: Seq::<(usize, N)>::empty() };
            assert(scopes.open@.last()@.entries =~= fresh.entries);
            assert(scopes@ =~= before.push(fresh));
        }
        RequestScope { id }
    }

    /// Takes out the requests whose last handles are gone, and returns them to be
    /// destroyed.
    pub fn collect<N>(&self, scopes: &mut Scopes<N>, retired: &Vec<usize>) -> (natives: Vec<N>)
        requires
            old(scopes).well_formed(),
        ensures
            final(scopes).well_formed(),
            final(scopes)@ == after_retirement(old(scopes)@, self.number(), retired@),
            match scope_of(old(scopes)@, self.number()) {
                Some(scope) => natives@ == leaving(scope.entries, retired@),
                None => natives@ == Seq::<N>::empty(),
            },
    {
        scopes.collect(self.id, retired)
    }

    /// Closes the scope, and returns its requests to be destroyed. The other scopes
    /// stay as they are.
    pub fn close<N>(self, scopes: &mut Scopes<N>) -> (natives: Vec<(usize, N)>)
        requires
            old(scopes).well_formed(),
        ensures
            final(scopes).well_formed(),
            final(scopes)@ == after_closing(old(scopes)@, self.number()),
            match scope_of(old(scopes)@, self.number()) {
                Some(scope) => natives@ == scope.entries,
                None => natives@ == Seq::<(usize, N)>::empty(),
            },
    {
        scopes.close(self.id)
    }
}

impl Request {
    /// Registers a request in the current scope, the one that was opened last.
    pub fn try_new<N>(scopes: &mut Scopes<N>, native: N, thread: u64) -> (r: Result<Request, RequestAccessError>)
        requires
            old(scopes).well_formed(),
            old(scopes)@.len() > 0 ==> old(scopes)@.last().next < usize::MAX,
        ensures
            final(scopes).well_formed(),
            match r {
                Err(error) => {
                    &&& old(scopes)@.len() == 0
                    &&& error == RequestAccessError::MissingScope
                    &&& final(scopes)@ == old(scopes)@
                },
                Ok(token) => {
                    let current = old(scopes)@.last();
                    &&& old(scopes)@.len() > 0
                    &&& token == (Request { scope: current.id, id: current.next, origin: thread })
                    &&& final(scopes)@ == old(scopes)@.update(
                        old(scopes)@.len() - 1,
                        ScopeView {
                            id: current.id,
                            next: (current.next + 1) as usize,
                            entries: current.entries.push((current.next, native)),
                        },
                    )
                },
            },
    {
        let ghost before = scopes@;
        if scopes.open.len() == 0 {
            return Err(RequestAccessError::MissingScope);
        }
        let last = scopes.open.len() - 1;
        proof {
            assert(before[last as int] == scopes.open@[last as int]@);
        }
        let mut entries: Vec<(usize, N)> = Vec::new();
        std::mem::swap(&mut entries, &mut scopes.open[last].entries);
        let id = scopes.open[last].next;
        let scope = scopes.open[last].id;
        entries.push((id, native));
        scopes.open.set(last, Registry { id: scope, next: id + 1, entries });
        proof {
            let current = before.last();
            let grown = ScopeView {
                id: current.id,
                next: (current.next + 1) as usize,
                entries: current.entries.push((current.next, native)),
            };
            assert(scopes.open@[last as int]@ == grown);
            assert(scopes@ =~= before.update(last as int, grown));
            assert(proper_scope(current));
            assert(proper_scope(grown)) by {
                assert forall|i: int| 0 <= i < grown.entries.len() implies (
                #[trigger] grown.entries[i]).0 < grown.next by {
                    if i < current.entries.len() {
                        assert(grown.entries[i] == current.entries[i]);
                    }
                }
                assert forall|i: int, j: int| 0 <= i < j < grown.entries.len() implies (
                #[trigger] grown.entries[i]).0 != (#[trigger] grown.entries[j]).0 by {
                    assert(grown.entries[i] == current.entries[i]);
                    if j < current.entries.len() {
                        assert(grown.entries[j] == current.entries[j]);
                    }
                }
            }
            assert forall|i: int| 0 <= i < scopes@.len() implies proper_scope(
                #[trigger] scopes@[i],
            ) by {
                if i != last {
                    assert(scopes@[i] == before[i]);
                }
            }
            assert forall|i: int, j: int| 0 <= i < j < scopes@.len() implies (
            #[trigger] scopes@[i]).id != (#[trigger] scopes@[j]).id by {
                assert(scopes@[i].id == before[i].id);
                assert(scopes@[j].id == before[j].id);
            }
        }
        Ok(Request { scope, id, origin: thread })
    }

    /// Registers a request in the current scope. The caller knows that there is one.
    pub fn new<N>(scopes: &mut Scopes<N>, native: N, thread: u64) -> (request: Request)
        requires
            old(scopes).well_formed(),
            old(scopes)@.len() > 0,
            old(scopes)@.last().next < usize::MAX,
        ensures
            final(scopes).well_formed(),
            request == (Request {
                scope: old(scopes)@.last().id,
                id: old(scopes)@.last().next,
                origin: thread,
            }),
            final(scopes)@ == old(scopes)@.update(
                old(scopes)@.len() - 1,
                ScopeView {
                    id: old(scopes)@.last().id,
                    next: (old(scopes)@.last().next + 1) as usize,
                    entries: old(scopes)@.last().entries.push((old(scopes)@.last().next, native)),
                },
            ),
    {
        Request::try_new(scopes, native, thread).unwrap()
    }

    /// Reaches for a request from a thread.
    pub fn with<'a, N>(&self, scopes: &'a Scopes<N>, thread: u64) -> (r: Result<
        &'a N,
        RequestAccessError,
    >)
        requires
            scopes.well_formed(),
        ensures
            match r {
                Ok(native) => access(scopes@, *self, thread) == Ok::<N, RequestAccessError>(*native),
                Err(error) => access(scopes@, *self, thread) == Err::<N, RequestAccessError>(error),
            },
    {
        if self.origin != thread {
            return Err(RequestAccessError::WrongThread);
        }
        match scopes.position(self.scope) {
            None => Err(RequestAccessError::Closed),
            Some(at) => {
                let entries = &scopes.open[at].entries;
                proof {
                    assert(scopes@[at as int] == scopes.open@[at as int]@);
                    assert(entries@.take(entries@.len() as int) =~= entries@);
                }
                let mut i: usize = entries.len();
                while i > 0
                    invariant
                        i <= entries@.len(),
                        native_of(entries@, self.id) == native_of(
                            entries@.take(i as int),
                            self.id,
                        ),
                        access(scopes@, *self, thread) == (match native_of(entries@, self.id) {
                            None => Err::<N, RequestAccessError>(RequestAccessError::Closed),
                            Some(native) => Ok::<N, RequestAccessError>(native),
                        }),
                    decreases i,
                {
                    proof {
                        assert(entries@.take(i as int).last() == entries@[i - 1]);
                        assert(entries@.take(i as int).drop_last() =~= entries@.take(i - 1));
                    }
                    if entries[i - 1].0 == self.id {
                        return Ok(&entries[i - 1].1);
                    }
                    i = i - 1;
                }
                Err(RequestAccessError::Closed)
            },
        }
    }

    /// Gives up this handle for a clone of the request.
    pub fn try_into_inner<N: Clone>(self, scopes: &Scopes<N>, thread: u64) -> (r: Result<
        N,
        RequestAccessError,
    >)
        requires
            scopes.well_formed(),
        ensures
            match access(scopes@, self, thread) {
                Ok(native) => r matches Ok(copy) && cloned(native, copy),
                Err(error) => r matches Err(e) && e == error,
            },
    {
        match self.with(scopes, thread) {
            Ok(native) => Ok(native.clone()),
            Err(error) => Err(error),
        }
    }

    /// Gives up this handle for a clone of the request. The caller knows that it
    /// can be reached.
    pub fn into_inner<N: Clone>(self, scopes: &Scopes<N>, thread: u64) -> (copy: N)
        requires
            scopes.well_formed(),
            access(scopes@, self, thread) is Ok,
        ensures
            cloned(access(scopes@, self, thread)->Ok_0, copy),
    {
        self.try_into_inner(scopes, thread).unwrap()
    }
}

fn contains_id(ids: &Vec<usize>, id: usize) -> (found: bool)
    ensures
        found == ids@.contains(id),
{
    let mut i: usize = 0;
    while i < ids.len()
        invariant
            i <= ids.len(),
            forall|j: int| 0 <= j < i ==> ids@[j] != id,
        decreases ids.len() - i,
    {
        if ids[i] == id {
            return true;
        }
        i = i + 1;
    }
    false
}

/// Parts requests into those that survive and those that leave.
fn part<N>(entries: Vec<(usize, N)>, retired: &Vec<usize>) -> (parted: (Vec<(usize, N)>, Vec<N>))
    ensures
        parted.0@ == surviving(entries@, retired@),
        parted.1@ == leaving(entries@, retired@),
{
    let ghost all = entries@;
    let mut rest = entries;
    let mut kept: Vec<(usize, N)> = Vec::new();
    let mut gone: Vec<N> = Vec::new();
    let mut done: usize = 0;
    let total = rest.len();
    proof {
        assert(all.take(0) =~= Seq::empty());
        assert(rest@ =~= all.skip(0));
    }
    while done < total
        invariant
            done <= total,
            total == all.len(),
            rest@ == all.skip(done as int),
            kept@ == surviving(all.take(done as int), retired@),
            gone@ == leaving(all.take(done as int), retired@),
        decreases total - done,
    {
        let (id, native) = rest.remove(0);
        proof {
            assert(all.skip(done as int)[0] == all[done as int]);
            assert(rest@ =~= all.skip(done + 1));
            assert(all.take(done + 1).drop_last() =~= all.take(done as int));
            assert(all.take(done + 1).last() == all[done as int]);
        }
        if contains_id(retired, id) {
            gone.push(native);
        } else {
            kept.push((id, native));
        }
        done = done + 1;
    }
    proof {
        assert(all.take(done as int) =~= all);
    }
    (kept, gone)
}

proof fn lemma_surviving<N>(entries: Seq<(usize, N)>, retired: Seq<usize>, i: int)
    requires
        0 <= i < surviving(entries, retired).len(),
    ensures
        exists|k: int| 0 <= k < entries.len() && #[trigger] entries[k] == surviving(entries, retired)[i],
        !retired.contains(surviving(entries, retired)[i].0),
    decreases entries.len(),
{
    if entries.len() > 0 {
        let rest = surviving(entries.drop_last(), retired);
        if i < rest.len() {
            lemma_surviving(entries.drop_last(), retired, i);
            let k: int = choose|k: int|
                0 <= k < entries.drop_last().len() && #[trigger] entries.drop_last()[k] == rest[i];
            assert(entries[k] == surviving(entries, retired)[i]);
        } else {
            assert(entries[entries.len() - 1] == surviving(entries, retired)[i]);
        }
    }
}

proof fn lemma_surviving_proper<N>(scope: ScopeView<N>, retired: Seq<usize>)
    requires
        proper_scope(scope),
    ensures
        proper_scope(ScopeView { entries: surviving(scope.entries, retired), ..scope }),
    decreases scope.entries.len(),
{
    if scope.entries.len() > 0 {
        let shorter = ScopeView { entries: scope.entries.drop_last(), ..scope };
        assert(proper_scope(shorter)) by {
            assert forall|i: int, j: int| 0 <= i < j < shorter.entries.len() implies (
            #[trigger] shorter.entries[i]).0 != (#[trigger] shorter.entries[j]).0 by {
                assert(scope.entries[i].0 != scope.entries[j].0);
            }
            assert forall|i: int| 0 <= i < shorter.entries.len() implies (
            #[trigger] shorter.entries[i]).0 < scope.next by {
                assert(scope.entries[i].0 < scope.next);
            }
        }
        lemma_surviving_proper(shorter, retired);
        let rest = surviving(shorter.entries, retired);
        let all = surviving(scope.entries, retired);
        let kept = ScopeView { entries: rest, ..shorter };
        assert(proper_scope(kept));
        assert forall|i: int, j: int| 0 <= i < j < all.len() implies (#[trigger] all[i]).0 != (
        #[trigger] all[j]).0 by {
            if j < rest.len() {
                assert(kept.entries[i].0 != kept.entries[j].0);
            } else {
                lemma_surviving(shorter.entries, retired, i);
                let k: int = choose|k: int|
                    0 <= k < shorter.entries.len() && #[trigger] shorter.entries[k] == rest[i];
                assert(scope.entries[k].0 != scope.entries[scope.entries.len() - 1].0);
            }
        }
        assert forall|i: int| 0 <= i < all.len() implies (#[trigger] all[i]).0 < scope.next by {
            if i < rest.len() {
                assert(kept.entries[i].0 < scope.next);
            } else {
                assert(scope.entries[scope.entries.len() - 1].0 < scope.next);
            }
        }
    }
}

proof fn lemma_scope_of<N>(scopes: Seq<ScopeView<N>>, id: usize)
    requires
        scope_of(scopes, id) is Some,
    ensures
        exists|i: int|
            0 <= i < scopes.len() && #[trigger] scopes[i] == scope_of(scopes, id)->0,
        scope_of(scopes, id)->0.id == id,
        proper_scopes(scopes) ==> proper_scope(scope_of(scopes, id)->0),
    decreases scopes.len(),
{
    if scopes.last().id == id {
        assert(scopes[scopes.len() - 1] == scopes.last());
    } else {
        lemma_scope_of(scopes.drop_last(), id);
        let i: int = choose|i: int|
            0 <= i < scopes.drop_last().len() && #[trigger] scopes.drop_last()[i] == scope_of(
                scopes.drop_last(),
                id,
            )->0;
        assert(scopes[i] == scope_of(scopes, id)->0);
    }
}

proof fn lemma_leaving_one<N>(scope: ScopeView<N>, id: usize)
    requires
        proper_scope(scope),
    ensures
        leaving(scope.entries, seq![id]) == (match native_of(scope.entries, id) {
            Some(native) => seq![native],
            None => Seq::empty(),
        }),
    decreases scope.entries.len(),
{
    let one = seq![id];
    assert forall|x: usize| #[trigger] one.contains(x) <==> x == id by {
        if x == id {
            assert(one[0] == x);
        }
    }
    if scope.entries.len() > 0 {
        let shorter = ScopeView { entries: scope.entries.drop_last(), ..scope };
        assert(proper_scope(shorter)) by {
            assert forall|i: int, j: int| 0 <= i < j < shorter.entries.len() implies (
            #[trigger] shorter.entries[i]).0 != (#[trigger] shorter.entries[j]).0 by {
                assert(scope.entries[i].0 != scope.entries[j].0);
            }
            assert forall|i: int| 0 <= i < shorter.entries.len() implies (
            #[trigger] shorter.entries[i]).0 < scope.next by {
                assert(scope.entries[i].0 < scope.next);
            }
        }
        lemma_leaving_one(shorter, id);
        let last = scope.entries.last();
        if last.0 == id {
            lemma_absent(shorter.entries, id, scope.entries);
            assert(leaving(scope.entries, one) =~= seq![last.1]);
        }
    }
}

proof fn lemma_absent<N>(entries: Seq<(usize, N)>, id: usize, all: Seq<(usize, N)>)
    requires
        entries.len() < all.len(),
        forall|i: int| 0 <= i < entries.len() ==> #[trigger] entries[i] == all[i],
        all.last().0 == id,
        forall|i: int, j: int|
            0 <= i < j < all.len() ==> (#[trigger] all[i]).0 != (#[trigger] all[j]).0,
    ensures
        native_of(entries, id) is None,
    decreases entries.len(),
{
    if entries.len() > 0 {
        let k: int = entries.len() - 1;
        assert(entries[k] == all[k]);
        assert(all[k].0 != all[all.len() - 1].0);
        lemma_absent(entries.drop_last(), id, all);
    }
}

proof fn lemma_after_closing_none<N>(scopes: Seq<ScopeView<N>>, id: usize)
    requires
        forall|i: int| 0 <= i < scopes.len() ==> (#[trigger] scopes[i]).id != id,
    ensures
        after_closing(scopes, id) == scopes,
    decreases scopes.len(),
{
    if scopes.len() > 0 {
        assert(scopes[scopes.len() - 1].id != id);
        assert forall|i: int| 0 <= i < scopes.drop_last().len() implies (
        #[trigger] scopes.drop_last()[i]).id != id by {
            assert(scopes[i].id != id);
        }
        lemma_after_closing_none(scopes.drop_last(), id);
        assert(scopes.drop_last().push(scopes.last()) =~= scopes);
    } else {
        assert(after_closing(scopes, id) =~= scopes);
    }
}

proof fn lemma_after_closing_at<N>(scopes: Seq<ScopeView<N>>, id: usize, at: int)
    requires
        0 <= at < scopes.len(),
        scopes[at].id == id,
        forall|i: int, j: int|
            0 <= i < j < scopes.len() ==> (#[trigger] scopes[i]).id != (#[trigger] scopes[j]).id,
    ensures
        after_closing(scopes, id) == scopes.remove(at),
    decreases scopes.len(),
{
    if at == scopes.len() - 1 {
        assert(scopes.remove(at) =~= scopes.drop_last());
    } else {
        assert(scopes[at].id != scopes[scopes.len() - 1].id);
        let shorter = scopes.drop_last();
        assert forall|i: int, j: int| 0 <= i < j < shorter.len() implies (#[trigger] shorter[i]).id
            != (#[trigger] shorter[j]).id by {
            assert(scopes[i].id != scopes[j].id);
        }
        lemma_after_closing_at(shorter, id, at);
        assert(shorter.remove(at).push(scopes.last()) =~= scopes.remove(at));
    }
}

/// A runtime that opens a scope round the work of another one.
#[derive(Debug)]
pub struct RequestRuntime<R> {
    inner: R,
}

impl<R: Copy> Clone for RequestRuntime<R> {
    fn clone(&self) -> (copy: Self)
        ensures
            copy == *self,
    {
        RequestRuntime { inner: self.inner }
    }
}

impl<R: Copy> Copy for RequestRuntime<R> {

}

impl<R> RequestRuntime<R> {
    pub closed spec fn runtime(self) -> R {
        self.inner
    }

    /// Wraps a runtime without changing it.
    pub fn new(inner: R) -> (runtime: RequestRuntime<R>)
        ensures
            runtime.runtime() == inner,
    {
        RequestRuntime { inner }
    }

    /// The runtime that does the work.
    pub fn inner(&self) -> (inner: &R)
        ensures
            *inner == self.runtime(),
    {
        &self.inner
    }
}

// ---------------------------------------------------------------------------
// Laws
// ---------------------------------------------------------------------------
/// Away from its thread a request is never reached, whatever is open.
pub proof fn requests_stay_on_their_thread<N>(
    scopes: Seq<ScopeView<N>>,
    token: Request,
    thread: u64,
)
    requires
        token.origin != thread,
    ensures
        access(scopes, token, thread) == Err::<N, RequestAccessError>(
            RequestAccessError::WrongThread,
        ),
{
}

proof fn lemma_scope_absent<N>(scopes: Seq<ScopeView<N>>, id: usize)
    requires
        forall|i: int| 0 <= i < scopes.len() ==> (#[trigger] scopes[i]).id != id,
    ensures
        scope_of(scopes, id) is None,
    decreases scopes.len(),
{
    if scopes.len() > 0 {
        assert(scopes[scopes.len() - 1].id != id);
        assert forall|i: int| 0 <= i < scopes.drop_last().len() implies (
        #[trigger] scopes.drop_last()[i]).id != id by {
            assert(scopes[i].id != id);
        }
        lemma_scope_absent(scopes.drop_last(), id);
    }
}

/// Once a scope has closed, no handle of it reaches a request.
pub proof fn closing_cuts_off_handles<N>(scopes: Seq<ScopeView<N>>, token: Request)
    requires
        proper_scopes(scopes),
    ensures
        access(after_closing(scopes, token.scope), token, token.origin) == Err::<
            N,
            RequestAccessError,
        >(RequestAccessError::Closed),
{
    let id = token.scope;
    if exists|i: int| 0 <= i < scopes.len() && (#[trigger] scopes[i]).id == id {
        let at: int = choose|i: int| 0 <= i < scopes.len() && (#[trigger] scopes[i]).id == id;
        lemma_after_closing_at(scopes, id, at);
        let rest = scopes.remove(at);
        assert forall|i: int| 0 <= i < rest.len() implies (#[trigger] rest[i]).id != id by {
            if i < at {
                assert(scopes[i].id != scopes[at].id);
            } else {
                assert(scopes[at].id != scopes[i + 1].id);
            }
        }
        lemma_scope_absent(rest, id);
    } else {
        lemma_after_closing_none(scopes, id);
        lemma_scope_absent(scopes, id);
    }
}

/// Closing a scope, in whatever order, leaves the handles of the others as they
/// were.
pub proof fn closing_keeps_other_scopes<N>(scopes: Seq<ScopeView<N>>, id: usize, token: Request, thread: u64)
    requires
        token.scope != id,
    ensures
        access(after_closing(scopes, id), token, thread) == access(scopes, token, thread),
{
    lemma_scope_kept(scopes, id, token.scope);
}

proof fn lemma_scope_kept<N>(scopes: Seq<ScopeView<N>>, closed: usize, id: usize)
    requires
        closed != id,
    ensures
        scope_of(after_closing(scopes, closed), id) == scope_of(scopes, id),
    decreases scopes.len(),
{
    if scopes.len() > 0 {
        let shorter = scopes.drop_last();
        if scopes.last().id != closed {
            lemma_scope_kept(shorter, closed, id);
            let rest = after_closing(shorter, closed);
            assert(rest.push(scopes.last()).drop_last() =~= rest);
        }
    }
}

proof fn lemma_scope_retired<N>(
    scopes: Seq<ScopeView<N>>,
    changed: usize,
    retired: Seq<usize>,
    id: usize,
)
    ensures
        match scope_of(scopes, id) {
            None => scope_of(after_retirement(scopes, changed, retired), id) is None,
            Some(scope) => scope_of(after_retirement(scopes, changed, retired), id) == Some(
                if id == changed {
                    ScopeView { entries: surviving(scope.entries, retired), ..scope }
                } else {
                    scope
                },
            ),
        },
    decreases scopes.len(),
{
    if scopes.len() > 0 {
        let after = after_retirement(scopes, changed, retired);
        assert(after.drop_last() =~= after_retirement(scopes.drop_last(), changed, retired));
        lemma_scope_retired(scopes.drop_last(), changed, retired, id);
    }
}

proof fn lemma_native_survives<N>(entries: Seq<(usize, N)>, retired: Seq<usize>, id: usize)
    ensures
        native_of(surviving(entries, retired), id) == (if retired.contains(id) {
            None
        } else {
            native_of(entries, id)
        }),
    decreases entries.len(),
{
    if entries.len() > 0 {
        let rest = surviving(entries.drop_last(), retired);
        lemma_native_survives(entries.drop_last(), retired, id);
        if !retired.contains(entries.last().0) {
            assert(rest.push(entries.last()).drop_last() =~= rest);
        }
    }
}

/// A request that was retired is reached no more; every other one still is.
pub proof fn retirement_is_exact<N>(
    scopes: Seq<ScopeView<N>>,
    id: usize,
    retired: Seq<usize>,
    token: Request,
    thread: u64,
)
    ensures
        access(after_retirement(scopes, id, retired), token, thread) == (if token.origin == thread
            && token.scope == id && retired.contains(token.id) {
            Err(RequestAccessError::Closed)
        } else {
            access(scopes, token, thread)
        }),
{
    lemma_scope_retired(scopes, id, retired, token.scope);
    if let Some(scope) = scope_of(scopes, token.scope) {
        lemma_native_survives(scope.entries, retired, token.id);
    }
}

/// A fresh handle reaches the request that it was made for, and disturbs no other
/// handle.
pub proof fn fresh_handles_reach_their_request<N>(
    scopes: Seq<ScopeView<N>>,
    native: N,
    thread: u64,
    other: Request,
)
    requires
        proper_scopes(scopes),
        scopes.len() > 0,
        scopes.last().next < usize::MAX,
        other.scope != scopes.last().id || other.id != scopes.last().next,
    ensures
        ({
            let current = scopes.last();
            let after = scopes.update(
                scopes.len() - 1,
                ScopeView {
                    id: current.id,
                    next: (current.next + 1) as usize,
                    entries: current.entries.push((current.next, native)),
                },
            );
            let token = Request { scope: current.id, id: current.next, origin: thread };
            &&& access(after, token, thread) == Ok::<N, RequestAccessError>(native)
            &&& access(after, other, thread) == access(scopes, other, thread)
        }),
{
    let current = scopes.last();
    let entries = current.entries.push((current.next, native));
    let after = scopes.update(
        scopes.len() - 1,
        ScopeView { id: current.id, next: (current.next + 1) as usize, entries },
    );
    assert(after.last().entries == entries);
    assert(entries.drop_last() =~= current.entries);
    assert(after.drop_last() =~= scopes.drop_last());
}

/// A request that is held in an open scope is reached by its handle.
pub proof fn held_requests_are_reached<N>(scopes: Seq<ScopeView<N>>, s: int, e: int, thread: u64)
    requires
        proper_scopes(scopes),
        0 <= s < scopes.len(),
        0 <= e < scopes[s].entries.len(),
        forall|j: int|
            e < j < scopes[s].entries.len() ==> (#[trigger] scopes[s].entries[j]).0
                != scopes[s].entries[e].0,
    ensures
        access(
            scopes,
            Request { scope: scopes[s].id, id: scopes[s].entries[e].0, origin: thread },
            thread,
        ) == Ok::<N, RequestAccessError>(scopes[s].entries[e].1),
{
    lemma_scope_at(scopes, s);
    lemma_native_at(scopes[s].entries, e);
}

proof fn lemma_scope_at<N>(scopes: Seq<ScopeView<N>>, s: int)
    requires
        forall|i: int, j: int|
            0 <= i < j < scopes.len() ==> (#[trigger] scopes[i]).id != (#[trigger] scopes[j]).id,
        0 <= s < scopes.len(),
    ensures
        scope_of(scopes, scopes[s].id) == Some(scopes[s]),
    decreases scopes.len(),
{
    if s < scopes.len() - 1 {
        assert(scopes[s].id != scopes[scopes.len() - 1].id);
        let front = scopes.drop_last();
        assert forall|i: int, j: int| 0 <= i < j < front.len() implies (#[trigger] front[i]).id != (
        #[trigger] front[j]).id by {
            assert(scopes[i].id != scopes[j].id);
        }
        lemma_scope_at(front, s);
    }
}

proof fn lemma_native_at<N>(entries: Seq<(usize, N)>, e: int)
    requires
        0 <= e < entries.len(),
        forall|j: int| e < j < entries.len() ==> (#[trigger] entries[j]).0 != entries[e].0,
    ensures
        native_of(entries, entries[e].0) == Some(entries[e].1),
    decreases entries.len(),
{
    if e < entries.len() - 1 {
        assert(entries[entries.len() - 1].0 != entries[e].0);
        let front = entries.drop_last();
        assert forall|j: int| e < j < front.len() implies (#[trigger] front[j]).0
            != front[e].0 by {
            assert(entries[j].0 != entries[e].0);
        }
        lemma_native_at(front, e);
    }
}

/// Every request either stays or leaves, in order: those that were retired leave, and all
/// others stay.
pub proof fn requests_stay_or_leave<N>(a: Seq<(usize, N)>, b: Seq<(usize, N)>, retired: Seq<usize>)
    ensures
        surviving(a, retired).len() + leaving(a, retired).len() == a.len(),
        surviving(a + b, retired) == surviving(a, retired) + surviving(b, retired),
        leaving(a + b, retired) == leaving(a, retired) + leaving(b, retired),
        a.len() == 1 && retired.contains(a[0].0) ==> leaving(a, retired) == seq![a[0].1],
        a.len() == 1 && !retired.contains(a[0].0) ==> surviving(a, retired) == a,
    decreases b.len(), a.len(),
{
    if a.len() > 0 {
        let none = Seq::<(usize, N)>::empty();
        if b.len() == 0 {
            requests_stay_or_leave(a.drop_last(), none, retired);
        } else {
            requests_stay_or_leave(a, none, retired);
        }
        if a.len() == 1 {
            assert(a.drop_last() =~= none);
            assert(leaving(none, retired).len() == 0);
            assert(surviving(none, retired).len() == 0);
            assert(leaving(none, retired).push(a[0].1) =~= seq![a[0].1]);
            assert(surviving(none, retired).push(a[0]) =~= a);
        }
    }
    if b.len() == 0 {
        assert(a + b =~= a);
        assert(surviving(a, retired) + surviving(b, retired) =~= surviving(a, retired));
        assert(leaving(a, retired) + leaving(b, retired) =~= leaving(a, retired));
    } else {
        assert((a + b).drop_last() =~= a + b.drop_last());
        assert((a + b).last() == b.last());
        requests_stay_or_leave(a, b.drop_last(), retired);
        assert(surviving(a + b, retired) =~= surviving(a, retired) + surviving(b, retired));
        assert(leaving(a + b, retired) =~= leaving(a, retired) + leaving(b, retired));
    }
}

/// A handle that was made reaches its request on its own thread, and on no other; where no
/// scope is open none is made.
pub proof fn handles_reach_what_they_were_made_for<N>(
    scopes: &mut Scopes<N>,
    native: N,
    thread: u64,
    other: u64,
    r: Result<Request, RequestAccessError>,
)
    requires
        old(scopes).well_formed(),
        old(scopes)@.len() > 0 ==> old(scopes)@.last().next < usize::MAX,
        call_ensures(Request::try_new::<N>, (scopes, native, thread), r),
    ensures
        r is Ok <==> old(scopes)@.len() > 0,
        r is Err ==> r->Err_0 == RequestAccessError::MissingScope,
        r matches Ok(token) ==> access(final(scopes)@, token, thread) == Ok::<
            N,
            RequestAccessError,
        >(native),
        r matches Ok(token) ==> other != thread ==> access(final(scopes)@, token, other) == Err::<
            N,
            RequestAccessError,
        >(RequestAccessError::WrongThread),
{
    if let Ok(token) = r {
        let before = old(scopes)@;
        assert(proper_scopes(before));
        let away = Request { scope: token.scope, id: 0, origin: thread };
        let elsewhere = if token.id == 0 {
            Request { id: 1, ..away }
        } else {
            away
        };
        fresh_handles_reach_their_request(before, native, thread, elsewhere);
    }
}

/// A request that is retired is handed over once, and is reached no more; retired from
/// another thread it stays.
pub proof fn retired_requests_are_handed_over_once<N>(
    scopes: &mut Scopes<N>,
    later: &mut Scopes<N>,
    token: &Request,
    thread: u64,
    r: Retirement<N>,
    s: Retirement<N>,
)
    requires
        old(scopes).well_formed(),
        call_ensures(Scopes::<N>::retire, (scopes, token, thread), r),
        *old(later) == *final(scopes),
        call_ensures(Scopes::<N>::retire, (later, token, thread), s),
    ensures
        token.origin != thread ==> r is Elsewhere && final(scopes)@ == old(scopes)@,
        token.origin == thread ==> s is Gone && access(final(scopes)@, *token, thread) == Err::<
            N,
            RequestAccessError,
        >(RequestAccessError::Closed),
        token.origin == thread && access(old(scopes)@, *token, thread) is Ok ==> r
            == Retirement::Removed(access(old(scopes)@, *token, thread)->Ok_0),
{
    let gone = seq![token.id];
    assert(gone[0] == token.id);
    assert(gone.contains(token.id));
    retirement_is_exact(old(scopes)@, token.scope, gone, *token, thread);
}

/// Closing a scope hands over every request in it, and cuts its handles off.
pub proof fn closed_scopes_hand_everything_over<N>(
    scopes: &mut Scopes<N>,
    scope: RequestScope,
    s: int,
    natives: Vec<(usize, N)>,
    token: Request,
)
    requires
        old(scopes).well_formed(),
        call_ensures(RequestScope::close::<N>, (scope, scopes), natives),
        0 <= s < old(scopes)@.len(),
        old(scopes)@[s].id == scope.number(),
        token.scope == scope.number(),
    ensures
        natives@ == old(scopes)@[s].entries,
        access(final(scopes)@, token, token.origin) == Err::<N, RequestAccessError>(
            RequestAccessError::Closed,
        ),
{
    assert(proper_scopes(old(scopes)@));
    lemma_scope_at(old(scopes)@, s);
    closing_cuts_off_handles(old(scopes)@, token);
}

} // verus!
