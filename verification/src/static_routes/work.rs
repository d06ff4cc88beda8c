//! Generation work that requests share: who waits for it, what it renders next, and
//! which requests find it.

use crate::static_routes::names;
use crate::text::{copy_bytes, same_bytes};
use vstd::prelude::*;

verus! {

// ---------------------------------------------------------------------------
// The state of one piece of work
// ---------------------------------------------------------------------------
/// The state of a piece of work. `T` is what is rendered, `W` a caller that waits,
/// and `R` a result.
pub struct WorkState<T, W, R> {
    /// The callers that wait for the next result.
    pub waiters: Vec<W>,
    /// What the next render is asked for.
    pub requested: Option<T>,
    /// Whether a render is under way.
    pub running: bool,
    /// Whether callers are refused because there is no room for a render.
    pub blocked_render: bool,
    /// The last result. Work that has one takes no more callers.
    pub terminal: Option<R>,
}

/// What became of a caller.
pub enum Admission<T, W> {
    /// The work is over. The caller is to look for other work.
    Over(W, Option<T>),
    /// There is no room for a render.
    Blocked(W, Option<T>),
    /// The caller waits. What it would have rendered is handed back where the work
    /// goes on with something else.
    Waiting(Option<T>),
}

/// The callers that still wait.
pub open spec fn live_waiters<W>(waiters: Seq<W>, live: Seq<bool>) -> Seq<W>
    decreases waiters.len(),
{
    if waiters.len() == 0 {
        Seq::empty()
    } else {
        let rest = live_waiters(waiters.drop_last(), live);
        if live[waiters.len() - 1] {
            rest.push(waiters.last())
        } else {
            rest
        }
    }
}

fn retain_live<W>(waiters: Vec<W>, live: &Vec<bool>) -> (kept: Vec<W>)
    requires
        live@.len() == waiters@.len(),
    ensures
        kept@ == live_waiters(waiters@, live@),
{
    let ghost all = waiters@;
    let mut rest = waiters;
    let mut kept: Vec<W> = Vec::new();
    let mut done: usize = 0;
    let total = rest.len();
    proof {
        assert(all.take(0) =~= Seq::empty());
        assert(rest@ =~= all.skip(0));
    }
    while done < total
        invariant
            done <= total,
            total == all.len(),
            live@.len() == total,
            rest@ == all.skip(done as int),
            kept@ == live_waiters(all.take(done as int), live@),
        decreases total - done,
    {
        let waiter = rest.remove(0);
        proof {
            assert(all.skip(done as int)[0] == all[done as int]);
            assert(rest@ =~= all.skip(done + 1));
            assert(all.take(done + 1).drop_last() =~= all.take(done as int));
            assert(all.take(done + 1).last() == all[done as int]);
        }
        if live[done] {
            kept.push(waiter);
        }
        done = done + 1;
    }
    proof {
        assert(all.take(done as int) =~= all);
    }
    kept
}

impl<T, W, R> WorkState<T, W, R> {
    /// Work that nobody waits for yet.
    pub fn new() -> (state: WorkState<T, W, R>)
        ensures
            state.waiters@ == Seq::<W>::empty(),
            state.requested is None,
            !state.running,
            !state.blocked_render,
            state.terminal is None,
    {
        WorkState {
            waiters: Vec::new(),
            requested: None,
            running: false,
            blocked_render: false,
            terminal: None,
        }
    }

    /// Takes a caller in. `live` tells which of those that wait still do.
    pub fn render(&mut self, live: &Vec<bool>, waiter: W, template: Option<T>) -> (r: Admission<
        T,
        W,
    >)
        requires
            live@.len() == old(self).waiters@.len(),
        ensures
            if old(self).terminal is Some {
                r == Admission::Over(waiter, template) && *final(self) == *old(self)
            } else if old(self).blocked_render {
                r == Admission::Blocked(waiter, template) && *final(self) == *old(self)
            } else {
                &&& final(self).waiters@ == live_waiters(old(self).waiters@, live@).push(waiter)
                &&& final(self).running == old(self).running
                &&& !final(self).blocked_render
                &&& final(self).terminal is None
                &&& if !old(self).running && old(self).requested is None {
                    final(self).requested == template && r == Admission::<T, W>::Waiting(None)
                } else {
                    final(self).requested == old(self).requested && r == Admission::<T, W>::Waiting(
                        template,
                    )
                }
            },
    {
        if self.terminal.is_some() {
            return Admission::Over(waiter, template);
        }
        if self.blocked_render {
            return Admission::Blocked(waiter, template);
        }
        let mut waiters: Vec<W> = Vec::new();
        std::mem::swap(&mut waiters, &mut self.waiters);
        let mut kept = retain_live(waiters, live);
        kept.push(waiter);
        self.waiters = kept;
        if !self.running && self.requested.is_none() {
            self.requested = template;
            Admission::Waiting(None)
        } else {
            Admission::Waiting(template)
        }
    }

    /// Closes the work to callers for want of room: those that wait leave, and so
    /// does what they asked for.
    pub fn refuse(&mut self) -> (left: (Option<T>, Vec<W>))
        ensures
            left.0 == old(self).requested,
            left.1@ == old(self).waiters@,
            final(self).waiters@ == Seq::<W>::empty(),
            final(self).requested is None,
            !final(self).running,
            final(self).blocked_render,
            final(self).terminal == old(self).terminal,
    {
        self.blocked_render = true;
        self.running = false;
        let mut waiters: Vec<W> = Vec::new();
        std::mem::swap(&mut waiters, &mut self.waiters);
        let mut requested: Option<T> = None;
        std::mem::swap(&mut requested, &mut self.requested);
        (requested, waiters)
    }

    /// Opens the work to callers again.
    pub fn reopen(&mut self)
        ensures
            *final(self) == (WorkState { blocked_render: false, ..*old(self) }),
    {
        self.blocked_render = false;
    }

    /// Begins a render, and takes what a caller newly asked for.
    pub fn begin_render(&mut self) -> (template: Option<T>)
        ensures
            template == old(self).requested,
            *final(self) == (WorkState {
                blocked_render: false,
                running: true,
                requested: None,
                ..*old(self)
            }),
    {
        self.blocked_render = false;
        self.running = true;
        let mut requested: Option<T> = None;
        std::mem::swap(&mut requested, &mut self.requested);
        requested
    }

    /// Ends a render, and hands out those that wait for its result. `terminal` is the
    /// result where the work is over with it.
    pub fn finish_static_work(&mut self, terminal: Option<R>) -> (waiters: Vec<W>)
        ensures
            waiters@ == old(self).waiters@,
            final(self).waiters@ == Seq::<W>::empty(),
            !final(self).running,
            final(self).requested == old(self).requested,
            final(self).blocked_render == old(self).blocked_render,
            final(self).terminal == (match terminal {
                Some(result) => Some(result),
                None => old(self).terminal,
            }),
    {
        self.running = false;
        if terminal.is_some() {
            self.terminal = terminal;
        }
        let mut waiters: Vec<W> = Vec::new();
        std::mem::swap(&mut waiters, &mut self.waiters);
        waiters
    }

    /// The task behind the work is gone. Whoever still waits gets the last result, or
    /// `ended` where there is none.
    pub fn end_task(&mut self, ended: R) -> (waiters: Vec<W>)
        ensures
            waiters@ == old(self).waiters@,
            final(self).waiters@ == Seq::<W>::empty(),
            final(self).terminal == (if old(self).terminal is Some {
                old(self).terminal
            } else {
                Some(ended)
            }),
            final(self).requested == old(self).requested,
            final(self).running == old(self).running,
            final(self).blocked_render == old(self).blocked_render,
    {
        if self.terminal.is_none() {
            self.terminal = Some(ended);
        }
        let mut waiters: Vec<W> = Vec::new();
        std::mem::swap(&mut waiters, &mut self.waiters);
        waiters
    }

    /// Whether a render that nobody else keeps alive is abandoned: it is, once nobody
    /// waits for it, and the work is then over.
    pub fn abandon(&mut self, live: &Vec<bool>, abandoned: R) -> (gone: bool)
        requires
            live@.len() == old(self).waiters@.len(),
        ensures
            final(self).waiters@ == live_waiters(old(self).waiters@, live@),
            gone <==> final(self).waiters@.len() == 0,
            final(self).terminal == (if gone {
                Some(abandoned)
            } else {
                old(self).terminal
            }),
            final(self).requested == old(self).requested,
            final(self).running == old(self).running,
            final(self).blocked_render == old(self).blocked_render,
    {
        let mut waiters: Vec<W> = Vec::new();
        std::mem::swap(&mut waiters, &mut self.waiters);
        self.waiters = retain_live(waiters, live);
        if self.waiters.len() == 0 {
            self.terminal = Some(abandoned);
            true
        } else {
            false
        }
    }

    /// The subscriptions have ended. The work is over, unless a caller asked for a
    /// render meanwhile.
    pub fn end_subscriptions(&mut self, ended: R) -> (over: bool)
        ensures
            over <==> old(self).requested is None,
            *final(self) == (if over {
                WorkState { terminal: Some(ended), ..*old(self) }
            } else {
                *old(self)
            }),
    {
        if self.requested.is_none() {
            self.terminal = Some(ended);
            true
        } else {
            false
        }
    }
}

/// What is said of work whose task ended early.
pub const TASK_ENDED: &'static str = "static render task ended before completion";

/// What is said of work whose subscriptions ended.
pub const SUBSCRIPTION_ENDED: &'static str = "static regeneration subscription ended";

/// What is said of work that nobody waits for.
pub const NO_WAITERS: &'static str = "static render has no remaining waiters";

/// What is said to a caller whose work vanished.
pub const RENDER_CANCELLED: &'static str = "static render was cancelled";

// ---------------------------------------------------------------------------
// Finding work
// ---------------------------------------------------------------------------
/// The pieces of work by the paths of the entries that they replace.
pub struct StaticRuntime {
    entries: Vec<(Vec<u8>, u64)>,
}

spec fn holds(entries: Seq<(Vec<u8>, u64)>, key: Seq<u8>, i: int) -> bool {
    0 <= i < entries.len() && entries[i].0@ == key
}

spec fn entry_map(entries: Seq<(Vec<u8>, u64)>) -> Map<Seq<u8>, u64> {
    Map::new(
        |key: Seq<u8>| exists|i: int| holds(entries, key, i),
        |key: Seq<u8>| entries[choose|i: int| holds(entries, key, i)].1,
    )
}

spec fn unique_keys(entries: Seq<(Vec<u8>, u64)>) -> bool {
    forall|i: int, j: int|
        0 <= i < entries.len() && 0 <= j < entries.len() && i != j ==> (#[trigger] entries[i]).0@
            != (#[trigger] entries[j]).0@
}

proof fn lemma_entry_at(entries: Seq<(Vec<u8>, u64)>, key: Seq<u8>, i: int)
    requires
        unique_keys(entries),
        holds(entries, key, i),
    ensures
        entry_map(entries).contains_key(key),
        entry_map(entries)[key] == entries[i].1,
{
    let j: int = choose|j: int| holds(entries, key, j);
    if j != i {
        assert(entries[i].0@ != entries[j].0@);
    }
}

impl View for StaticRuntime {
    type V = Map<Seq<u8>, u64>;

    closed spec fn view(&self) -> Map<Seq<u8>, u64> {
        entry_map(self.entries@)
    }
}

/// The work under the first of the keys that has work which still takes callers.
pub open spec fn joinable_work(
    works: Map<Seq<u8>, u64>,
    keys: Seq<Seq<u8>>,
    joinable: Seq<u64>,
) -> Option<u64>
    decreases keys.len(),
{
    if keys.len() == 0 {
        None
    } else if works.contains_key(keys[0]) && joinable.contains(works[keys[0]]) {
        Some(works[keys[0]])
    } else {
        joinable_work(works, keys.skip(1), joinable)
    }
}

/// The table with work under every one of the keys.
pub open spec fn registered(works: Map<Seq<u8>, u64>, keys: Seq<Seq<u8>>, work: u64) -> Map<
    Seq<u8>,
    u64,
>
    decreases keys.len(),
{
    if keys.len() == 0 {
        works
    } else {
        registered(works, keys.drop_last(), work).insert(keys.last(), work)
    }
}

/// The table without the keys that lead to the work.
pub open spec fn released(works: Map<Seq<u8>, u64>, keys: Seq<Seq<u8>>, work: u64) -> Map<
    Seq<u8>,
    u64,
>
    decreases keys.len(),
{
    if keys.len() == 0 {
        works
    } else {
        let rest = released(works, keys.drop_last(), work);
        if rest.contains_key(keys.last()) && rest[keys.last()] == work {
            rest.remove(keys.last())
        } else {
            rest
        }
    }
}

fn contains_work(works: &Vec<u64>, work: u64) -> (found: bool)
    ensures
        found == works@.contains(work),
{
    let mut i: usize = 0;
    while i < works.len()
        invariant
            i <= works.len(),
            forall|j: int| 0 <= j < i ==> works@[j] != work,
        decreases works.len() - i,
    {
        if works[i] == work {
            return true;
        }
        i = i + 1;
    }
    false
}

impl StaticRuntime {
    #[verifier::type_invariant]
    spec fn well_formed(self) -> bool {
        unique_keys(self.entries@)
    }

    /// No work is known.
    pub fn new() -> (runtime: StaticRuntime)
        ensures
            runtime@ == Map::<Seq<u8>, u64>::empty(),
    {
        let runtime = StaticRuntime { entries: Vec::new() };
        proof {
            assert(runtime@ =~= Map::<Seq<u8>, u64>::empty());
        }
        runtime
    }

    fn position(&self, key: &[u8]) -> (index: Option<usize>)
        ensures
            match index {
                Some(i) => holds(self.entries@, key@, i as int) && self@.contains_key(key@)
                    && self@[key@] == self.entries@[i as int].1,
                None => !self@.contains_key(key@),
            },
    {
        proof {
            use_type_invariant(self);
        }
        let mut i: usize = 0;
        while i < self.entries.len()
            invariant
                i <= self.entries.len(),
                unique_keys(self.entries@),
                forall|j: int| 0 <= j < i ==> !holds(self.entries@, key@, j),
            decreases self.entries.len() - i,
        {
            if same_bytes(self.entries[i].0.as_slice(), key) {
                proof {
                    lemma_entry_at(self.entries@, key@, i as int);
                }
                return Some(i);
            }
            i = i + 1;
        }
        None
    }

    fn insert(&mut self, key: &Vec<u8>, work: u64)
        ensures
            final(self)@ == old(self)@.insert(key@, work),
    {
        proof {
            use_type_invariant(&*self);
        }
        let at = self.position(key.as_slice());
        let ghost before = self.entries@;
        let mut entries: Vec<(Vec<u8>, u64)> = Vec::new();
        std::mem::swap(&mut entries, &mut self.entries);
        match at {
            Some(i) => {
                entries.set(i, (copy_bytes(key.as_slice()), work));
                proof {
                    assert forall|a: int, b: int|
                        0 <= a < entries@.len() && 0 <= b < entries@.len() && a != b implies (
                    #[trigger] entries@[a]).0@ != (#[trigger] entries@[b]).0@ by {
                        assert(before[a].0@ == entries@[a].0@);
                        assert(before[b].0@ == entries@[b].0@);
                    }
                    assert forall|k: Seq<u8>| #[trigger]
                        entry_map(entries@).contains_key(k) == entry_map(before).insert(
                            key@,
                            work,
                        ).contains_key(k) && (entry_map(entries@).contains_key(k) ==> entry_map(
                            entries@,
                        )[k] == entry_map(before).insert(key@, work)[k]) by {
                        assert(holds(entries@, key@, i as int));
                        lemma_entry_at(entries@, key@, i as int);
                        if exists|j: int| holds(entries@, k, j) {
                            let j: int = choose|j: int| holds(entries@, k, j);
                            assert(holds(before, k, j));
                            lemma_entry_at(entries@, k, j);
                            lemma_entry_at(before, k, j);
                        }
                        if exists|j: int| holds(before, k, j) {
                            let j: int = choose|j: int| holds(before, k, j);
                            assert(holds(entries@, k, j));
                        }
                    }
                    assert(entry_map(entries@) =~= entry_map(before).insert(key@, work));
                }
            },
            None => {
                entries.push((copy_bytes(key.as_slice()), work));
                proof {
                    let n: int = before.len() as int;
                    assert forall|a: int, b: int|
                        0 <= a < entries@.len() && 0 <= b < entries@.len() && a != b implies (
                    #[trigger] entries@[a]).0@ != (#[trigger] entries@[b]).0@ by {
                        if a == n {
                            assert(!holds(before, key@, b));
                        } else if b == n {
                            assert(!holds(before, key@, a));
                        } else {
                            assert(before[a].0@ != before[b].0@);
                        }
                    }
                    assert forall|k: Seq<u8>| #[trigger]
                        entry_map(entries@).contains_key(k) == entry_map(before).insert(
                            key@,
                            work,
                        ).contains_key(k) && (entry_map(entries@).contains_key(k) ==> entry_map(
                            entries@,
                        )[k] == entry_map(before).insert(key@, work)[k]) by {
                        assert(holds(entries@, key@, n));
                        lemma_entry_at(entries@, key@, n);
                        if exists|j: int| holds(entries@, k, j) {
                            let j: int = choose|j: int| holds(entries@, k, j);
                            lemma_entry_at(entries@, k, j);
                            if j < n {
                                assert(holds(before, k, j));
                                lemma_entry_at(before, k, j);
                            }
                        }
                        if exists|j: int| holds(before, k, j) {
                            let j: int = choose|j: int| holds(before, k, j);
                            assert(holds(entries@, k, j));
                        }
                    }
                    assert(entry_map(entries@) =~= entry_map(before).insert(key@, work));
                }
            },
        }
        self.entries = entries;
    }

    fn remove_if(&mut self, key: &Vec<u8>, work: u64)
        ensures
            final(self)@ == (if old(self)@.contains_key(key@) && old(self)@[key@] == work {
                old(self)@.remove(key@)
            } else {
                old(self)@
            }),
    {
        proof {
            use_type_invariant(&*self);
        }
        let at = self.position(key.as_slice());
        if let Some(i) = at {
            if self.entries[i].1 == work {
                let ghost before = self.entries@;
                let mut entries: Vec<(Vec<u8>, u64)> = Vec::new();
                std::mem::swap(&mut entries, &mut self.entries);
                let _ = entries.remove(i);
                proof {
                    let after = entries@;
                    assert forall|a: int, b: int|
                        0 <= a < after.len() && 0 <= b < after.len() && a != b implies (
                    #[trigger] after[a]).0@ != (#[trigger] after[b]).0@ by {
                        let x: int = if a < i {
                            a
                        } else {
                            a + 1
                        };
                        let y: int = if b < i {
                            b
                        } else {
                            b + 1
                        };
                        assert(after[a] == before[x]);
                        assert(after[b] == before[y]);
                    }
                    assert forall|k: Seq<u8>| #[trigger]
                        entry_map(after).contains_key(k) == entry_map(before).remove(
                            key@,
                        ).contains_key(k) && (entry_map(after).contains_key(k) ==> entry_map(
                            after,
                        )[k] == entry_map(before).remove(key@)[k]) by {
                        if exists|j: int| holds(after, k, j) {
                            let j: int = choose|j: int| holds(after, k, j);
                            let x: int = if j < i {
                                j
                            } else {
                                j + 1
                            };
                            assert(after[j] == before[x]);
                            assert(holds(before, k, x));
                            lemma_entry_at(after, k, j);
                            lemma_entry_at(before, k, x);
                            assert(before[x].0@ != before[i as int].0@);
                        }
                        if k != key@ && exists|j: int| holds(before, k, j) {
                            let j: int = choose|j: int| holds(before, k, j);
                            let x: int = if j < i {
                                j
                            } else {
                                j - 1
                            };
                            assert(after[x] == before[j]);
                            assert(holds(after, k, x));
                        }
                    }
                    assert(entry_map(after) =~= entry_map(before).remove(key@));
                }
                self.entries = entries;
            }
        }
    }

    /// Finds the work that a request joins, or registers `fresh` work under every key
    /// of the request. `joinable` is the work that still takes callers.
    pub fn join_or_register(&mut self, keys: &Vec<Vec<u8>>, joinable: &Vec<u64>, fresh: u64) -> (r:
        (u64, bool))
        ensures
            match joinable_work(old(self)@, names::byte_views(keys@), joinable@) {
                Some(work) => r == (work, false) && final(self)@ == old(self)@,
                None => r == (fresh, true) && final(self)@ == registered(
                    old(self)@,
                    names::byte_views(keys@),
                    fresh,
                ),
            },
    {
        let ghost all = names::byte_views(keys@);
        let ghost before = self@;
        let mut i: usize = 0;
        proof {
            assert(all.skip(0) =~= all);
        }
        while i < keys.len()
            invariant
                i <= keys.len(),
                all == names::byte_views(keys@),
                all.len() == keys@.len(),
                self@ == before,
                before == old(self)@,
                joinable_work(before, all, joinable@) == joinable_work(
                    before,
                    all.skip(i as int),
                    joinable@,
                ),
            decreases keys.len() - i,
        {
            proof {
                assert(all[i as int] == keys@[i as int]@);
                assert(all.skip(i as int)[0] == all[i as int]);
                assert(all.skip(i as int).skip(1) =~= all.skip(i + 1));
            }
            if let Some(at) = self.position(keys[i].as_slice()) {
                let work = self.entries[at].1;
                if contains_work(joinable, work) {
                    return (work, false);
                }
            }
            i = i + 1;
        }
        proof {
            assert(all.skip(i as int) =~= Seq::empty());
            assert(all.take(0) =~= Seq::empty());
        }
        let mut k: usize = 0;
        while k < keys.len()
            invariant
                k <= keys.len(),
                all == names::byte_views(keys@),
                all.len() == keys@.len(),
                self@ == registered(before, all.take(k as int), fresh),
            decreases keys.len() - k,
        {
            self.insert(&keys[k], fresh);
            proof {
                assert(all[k as int] == keys@[k as int]@);
                assert(all.take(k + 1).drop_last() =~= all.take(k as int));
                assert(all.take(k + 1).last() == all[k as int]);
            }
            k = k + 1;
        }
        proof {
            assert(all.take(k as int) =~= all);
        }
        (fresh, true)
    }

    /// Forgets work that is over, under those of its keys that still lead to it.
    pub fn release(&mut self, keys: &Vec<Vec<u8>>, work: u64)
        ensures
            final(self)@ == released(old(self)@, names::byte_views(keys@), work),
    {
        let ghost all = names::byte_views(keys@);
        let ghost before = self@;
        let mut k: usize = 0;
        proof {
            assert(all.take(0) =~= Seq::empty());
        }
        while k < keys.len()
            invariant
                k <= keys.len(),
                all == names::byte_views(keys@),
                all.len() == keys@.len(),
                self@ == released(before, all.take(k as int), work),
            decreases keys.len() - k,
        {
            self.remove_if(&keys[k], work);
            proof {
                assert(all[k as int] == keys@[k as int]@);
                assert(all.take(k + 1).drop_last() =~= all.take(k as int));
                assert(all.take(k + 1).last() == all[k as int]);
            }
            k = k + 1;
        }
        proof {
            assert(all.take(k as int) =~= all);
        }
    }
}

// ---------------------------------------------------------------------------
// Laws
// ---------------------------------------------------------------------------
proof fn lemma_registered(works: Map<Seq<u8>, u64>, keys: Seq<Seq<u8>>, work: u64, key: Seq<u8>)
    ensures
        keys.contains(key) ==> registered(works, keys, work).contains_key(key) && registered(
            works,
            keys,
            work,
        )[key] == work,
        !keys.contains(key) ==> registered(works, keys, work).contains_key(key)
            == works.contains_key(key) && (works.contains_key(key) ==> registered(
            works,
            keys,
            work,
        )[key] == works[key]),
    decreases keys.len(),
{
    if keys.len() > 0 {
        lemma_registered(works, keys.drop_last(), work, key);
        if keys.contains(key) && keys.last() != key {
            let i: int = choose|i: int| 0 <= i < keys.len() && keys[i] == key;
            assert(keys.drop_last()[i] == key);
        }
        if !keys.contains(key) {
            assert forall|i: int| 0 <= i < keys.drop_last().len() implies keys.drop_last()[i]
                != key by {
                assert(keys[i] != key);
            }
            assert(keys.last() == keys[keys.len() - 1]);
        }
    }
}

proof fn lemma_joins(
    works: Map<Seq<u8>, u64>,
    keys: Seq<Seq<u8>>,
    joinable: Seq<u64>,
    key: Seq<u8>,
)
    requires
        keys.contains(key),
        works.contains_key(key),
        joinable.contains(works[key]),
    ensures
        joinable_work(works, keys, joinable) is Some,
    decreases keys.len(),
{
    if keys[0] != key {
        let i: int = choose|i: int| 0 <= i < keys.len() && keys[i] == key;
        assert(keys.skip(1)[i - 1] == key);
        lemma_joins(works, keys.skip(1), joinable, key);
    }
}

/// A request that has one of the keys of work that still takes callers begins no work
/// of its own, and joins that work if it asks for this key first. So all spellings of
/// an entry share one generation.
pub proof fn aliases_join_one_generation(
    works: Map<Seq<u8>, u64>,
    keys: Seq<Seq<u8>>,
    work: u64,
    joinable: Seq<u64>,
    request: Seq<Seq<u8>>,
    key: Seq<u8>,
)
    requires
        keys.contains(key),
        joinable.contains(work),
        request.contains(key),
    ensures
        joinable_work(registered(works, keys, work), request, joinable) is Some,
        request[0] == key ==> joinable_work(registered(works, keys, work), request, joinable)
            == Some(work),
{
    lemma_registered(works, keys, work, key);
    lemma_joins(registered(works, keys, work), request, joinable, key);
}

proof fn lemma_joinable(works: Map<Seq<u8>, u64>, keys: Seq<Seq<u8>>, joinable: Seq<u64>)
    ensures
        joinable_work(works, keys, joinable) matches Some(work) ==> joinable.contains(work),
    decreases keys.len(),
{
    if keys.len() > 0 {
        lemma_joinable(works, keys.skip(1), joinable);
    }
}

/// A request never joins work that is over: what such work produced belongs to those
/// who waited for it.
pub proof fn finished_work_is_not_joined(
    works: Map<Seq<u8>, u64>,
    keys: Seq<Seq<u8>>,
    joinable: Seq<u64>,
    finished: u64,
)
    requires
        !joinable.contains(finished),
    ensures
        joinable_work(works, keys, joinable) != Some(finished),
{
    lemma_joinable(works, keys, joinable);
}

/// Forgetting work leaves all other work where it is, also under keys that it took
/// over.
pub proof fn release_keeps_other_work(
    works: Map<Seq<u8>, u64>,
    keys: Seq<Seq<u8>>,
    work: u64,
    key: Seq<u8>,
)
    requires
        works.contains_key(key),
        works[key] != work,
    ensures
        released(works, keys, work).contains_key(key),
        released(works, keys, work)[key] == works[key],
    decreases keys.len(),
{
    if keys.len() > 0 {
        release_keeps_other_work(works, keys.drop_last(), work, key);
    }
}

/// Those who still wait stay, in their order, and only those.
pub proof fn live_waiters_stay_in_order<W>(
    a: Seq<W>,
    b: Seq<W>,
    live_a: Seq<bool>,
    live_b: Seq<bool>,
)
    requires
        live_a.len() == a.len(),
        live_b.len() == b.len(),
    ensures
        live_waiters(a + b, live_a + live_b) == live_waiters(a, live_a) + live_waiters(b, live_b),
        a.len() == 1 ==> live_waiters(a, live_a) == (if live_a[0] {
            a
        } else {
            Seq::empty()
        }),
    decreases b.len(),
{
    reveal_with_fuel(live_waiters, 2);
    if a.len() == 1 {
        assert(a.drop_last() =~= Seq::<W>::empty());
        assert(Seq::<W>::empty().push(a[0]) =~= a);
    }
    if b.len() == 0 {
        assert(a + b =~= a);
        assert(live_a + live_b =~= live_a);
        assert(live_waiters(a, live_a) + live_waiters(b, live_b) =~= live_waiters(a, live_a));
    } else {
        let front = live_b.drop_last();
        assert((a + b).drop_last() =~= a + b.drop_last());
        assert((a + b).last() == b.last());
        live_waiters_stay_in_order(a, b.drop_last(), live_a, front);
        lemma_live_prefix(a + b.drop_last(), live_a + front, live_a + live_b);
        lemma_live_prefix(b.drop_last(), front, live_b);
        assert((live_a + live_b)[(a + b).len() - 1] == live_b[b.len() - 1]);
        assert(live_waiters(a + b, live_a + live_b) =~= live_waiters(a, live_a) + live_waiters(
            b,
            live_b,
        ));
    }
}

proof fn lemma_live_prefix<W>(waiters: Seq<W>, live: Seq<bool>, longer: Seq<bool>)
    requires
        forall|i: int| 0 <= i < waiters.len() ==> live[i] == longer[i],
    ensures
        live_waiters(waiters, live) == live_waiters(waiters, longer),
    decreases waiters.len(),
{
    if waiters.len() > 0 {
        lemma_live_prefix(waiters.drop_last(), live, longer);
    }
}

/// A request joins the work under the first of its keys that still takes callers, and
/// begins its own exactly if there is none.
pub proof fn requests_join_the_first_work(
    works: Map<Seq<u8>, u64>,
    keys: Seq<Seq<u8>>,
    joinable: Seq<u64>,
    i: int,
)
    requires
        0 <= i <= keys.len(),
        forall|j: int|
            0 <= j < i ==> !(works.contains_key(#[trigger] keys[j]) && joinable.contains(
                works[keys[j]],
            )),
        i < keys.len() ==> works.contains_key(keys[i]) && joinable.contains(works[keys[i]]),
    ensures
        joinable_work(works, keys, joinable) == (if i < keys.len() {
            Some(works[keys[i]])
        } else {
            None
        }),
    decreases i,
{
    if i > 0 {
        let rest = keys.skip(1);
        assert(!(works.contains_key(keys[0]) && joinable.contains(works[keys[0]])));
        assert forall|j: int| 0 <= j < i - 1 implies !(works.contains_key(#[trigger] rest[j])
            && joinable.contains(works[rest[j]])) by {
            assert(rest[j] == keys[j + 1]);
        }
        requests_join_the_first_work(works, rest, joinable, i - 1);
    }
}

/// Work is found under every one of its keys, and takes nothing else over.
pub proof fn work_is_found_under_every_key(
    works: Map<Seq<u8>, u64>,
    keys: Seq<Seq<u8>>,
    work: u64,
    key: Seq<u8>,
)
    ensures
        ({
            let after = registered(works, keys, work);
            &&& keys.contains(key) ==> after.contains_key(key) && after[key] == work
            &&& !keys.contains(key) ==> after.contains_key(key) == works.contains_key(key)
            &&& !keys.contains(key) && works.contains_key(key) ==> after[key] == works[key]
        }),
{
    lemma_registered(works, keys, work, key);
}

/// Work that was released is found under none of its keys, and nothing appears.
pub proof fn released_work_is_gone(
    works: Map<Seq<u8>, u64>,
    keys: Seq<Seq<u8>>,
    work: u64,
    key: Seq<u8>,
)
    ensures
        ({
            let after = released(works, keys, work);
            &&& keys.contains(key) && after.contains_key(key) ==> after[key] != work
            &&& after.contains_key(key) ==> works.contains_key(key) && after[key] == works[key]
            &&& !keys.contains(key) && works.contains_key(key) ==> after.contains_key(key)
        }),
    decreases keys.len(),
{
    if keys.len() > 0 {
        let front = keys.drop_last();
        released_work_is_gone(works, front, work, key);
        assert(keys[keys.len() - 1] == keys.last());
        if keys.contains(key) && keys.last() != key {
            let i: int = choose|i: int| 0 <= i < keys.len() && keys[i] == key;
            assert(front[i] == key);
        }
        if front.contains(key) {
            let i: int = choose|i: int| 0 <= i < front.len() && front[i] == key;
            assert(keys[i] == key);
        }
    }
}

/// Releasing work right after it was registered leaves no trace of it, where its keys
/// were free.
pub proof fn release_undoes_registration(
    works: Map<Seq<u8>, u64>,
    keys: Seq<Seq<u8>>,
    work: u64,
)
    requires
        forall|i: int| 0 <= i < keys.len() ==> !works.contains_key(#[trigger] keys[i]),
    ensures
        released(registered(works, keys, work), keys, work) == works,
{
    let held = registered(works, keys, work);
    let after = released(held, keys, work);
    assert forall|key: Seq<u8>| #[trigger] after.contains_key(key) == works.contains_key(key) && (
    works.contains_key(key) ==> after[key] == works[key]) by {
        lemma_registered(works, keys, work, key);
        released_work_is_gone(held, keys, work, key);
        if keys.contains(key) {
            let i: int = choose|i: int| 0 <= i < keys.len() && keys[i] == key;
            assert(!works.contains_key(keys[i]));
        }
    }
    assert(after =~= works);
}

/// A caller who waits is handed the next result, behind those who were there before and
/// still wait, and only once.
pub proof fn waiters_get_the_next_result<T, W, R>(
    state: &mut WorkState<T, W, R>,
    later: &mut WorkState<T, W, R>,
    last: &mut WorkState<T, W, R>,
    live: &Vec<bool>,
    waiter: W,
    template: Option<T>,
    r: Admission<T, W>,
    terminal: Option<R>,
    served: Vec<W>,
    again: Vec<W>,
)
    requires
        live@.len() == old(state).waiters@.len(),
        call_ensures(WorkState::<T, W, R>::render, (state, live, waiter, template), r),
        r is Waiting,
        *old(later) == *final(state),
        call_ensures(WorkState::<T, W, R>::finish_static_work, (later, terminal), served),
        *old(last) == *final(later),
        call_ensures(WorkState::<T, W, R>::finish_static_work, (last, terminal), again),
    ensures
        served@ == live_waiters(old(state).waiters@, live@).push(waiter),
        again@.len() == 0,
{
}

/// Where nobody renders yet, what a caller asks for is what is rendered next; while a
/// render runs, or one is asked for, it is handed back.
pub proof fn the_first_request_is_rendered<T, W, R>(
    state: &mut WorkState<T, W, R>,
    later: &mut WorkState<T, W, R>,
    live: &Vec<bool>,
    waiter: W,
    template: Option<T>,
    r: Admission<T, W>,
    taken: Option<T>,
)
    requires
        live@.len() == old(state).waiters@.len(),
        call_ensures(WorkState::<T, W, R>::render, (state, live, waiter, template), r),
        r is Waiting,
        *old(later) == *final(state),
        call_ensures(WorkState::<T, W, R>::begin_render, (later,), taken),
    ensures
        !old(state).running && old(state).requested is None ==> taken == template && r
            == Admission::<T, W>::Waiting(None),
        old(state).running || old(state).requested is Some ==> taken == old(state).requested && r
            == Admission::<T, W>::Waiting(template),
        final(later).running,
        final(later).requested is None,
        final(later).waiters@.len() > 0,
{
}

/// Work that is over takes nobody, and keeps the first result that ended it; what the
/// caller brought is handed back.
pub proof fn finished_work_takes_nobody<T, W, R>(
    state: &mut WorkState<T, W, R>,
    later: &mut WorkState<T, W, R>,
    result: R,
    served: Vec<W>,
    live: &Vec<bool>,
    waiter: W,
    template: Option<T>,
    r: Admission<T, W>,
)
    requires
        call_ensures(WorkState::<T, W, R>::finish_static_work, (state, Some(result)), served),
        *old(later) == *final(state),
        live@.len() == old(later).waiters@.len(),
        call_ensures(WorkState::<T, W, R>::render, (later, live, waiter, template), r),
    ensures
        served@ == old(state).waiters@,
        final(state).terminal == Some(result),
        r == Admission::Over(waiter, template),
        final(later).terminal == Some(result),
{
}

/// Refusing a render sends everybody away; nobody is taken until the work is open again.
pub proof fn refused_work_is_closed_until_reopened<T, W, R>(
    state: &mut WorkState<T, W, R>,
    later: &mut WorkState<T, W, R>,
    opened: &mut WorkState<T, W, R>,
    last: &mut WorkState<T, W, R>,
    left: (Option<T>, Vec<W>),
    live: &Vec<bool>,
    waiter: W,
    template: Option<T>,
    r: Admission<T, W>,
    s: Admission<T, W>,
)
    requires
        call_ensures(WorkState::<T, W, R>::refuse, (state,), left),
        old(state).terminal is None,
        *old(later) == *final(state),
        live@.len() == old(later).waiters@.len(),
        call_ensures(WorkState::<T, W, R>::render, (later, live, waiter, template), r),
        *old(opened) == *final(later),
        call_ensures(WorkState::<T, W, R>::reopen, (opened,), ()),
        *old(last) == *final(opened),
        call_ensures(WorkState::<T, W, R>::render, (last, live, waiter, template), s),
    ensures
        left.1@ == old(state).waiters@,
        left.0 == old(state).requested,
        r == Admission::Blocked(waiter, template),
        s is Waiting,
        final(last).requested == template,
{
}

/// Work is over for want of callers exactly if all of them have gone.
pub proof fn abandoned_work_ends<T, W, R>(
    state: &mut WorkState<T, W, R>,
    live: &Vec<bool>,
    abandoned: R,
    gone: bool,
)
    requires
        live@.len() == old(state).waiters@.len(),
        call_ensures(WorkState::<T, W, R>::abandon, (state, live, abandoned), gone),
    ensures
        gone ==> final(state).terminal == Some(abandoned) && final(state).waiters@.len() == 0,
        !gone ==> final(state).terminal == old(state).terminal,
        (forall|i: int| 0 <= i < live@.len() ==> !(#[trigger] live@[i])) ==> gone,
        (exists|i: int| 0 <= i < live@.len() && #[trigger] live@[i]) ==> !gone,
{
    lemma_live_count(old(state).waiters@, live@);
}

proof fn lemma_live_count<W>(waiters: Seq<W>, live: Seq<bool>)
    requires
        waiters.len() <= live.len(),
    ensures
        live_waiters(waiters, live).len() == 0 <==> forall|i: int|
            0 <= i < waiters.len() ==> !(#[trigger] live[i]),
    decreases waiters.len(),
{
    if waiters.len() > 0 {
        lemma_live_count(waiters.drop_last(), live);
    }
}

/// Work that was registered is joined by whoever asks for one of its keys first, as long
/// as it takes callers; there is then no second work.
pub proof fn registered_work_is_joined(
    runtime: &mut StaticRuntime,
    later: &mut StaticRuntime,
    keys: &Vec<Vec<u8>>,
    request: &Vec<Vec<u8>>,
    joinable: &Vec<u64>,
    still: &Vec<u64>,
    fresh: u64,
    other: u64,
    r: (u64, bool),
    s: (u64, bool),
)
    requires
        call_ensures(StaticRuntime::join_or_register, (runtime, keys, joinable, fresh), r),
        r.1,
        old(later)@ == final(runtime)@,
        call_ensures(StaticRuntime::join_or_register, (later, request, still, other), s),
        still@.contains(fresh),
        request@.len() > 0,
        names::byte_views(keys@).contains(request@[0]@),
    ensures
        r.0 == fresh,
        s == (fresh, false),
        final(later)@ == old(later)@,
{
    let key = request@[0]@;
    assert(names::byte_views(request@)[0] == key);
    aliases_join_one_generation(
        old(runtime)@,
        names::byte_views(keys@),
        fresh,
        still@,
        names::byte_views(request@),
        key,
    );
}

/// The first result that ends the work stands, whatever ends its task later; and the end of
/// the subscriptions ends the work exactly if nobody asked for a render.
pub proof fn the_first_end_stands<T, W, R>(
    state: &mut WorkState<T, W, R>,
    later: &mut WorkState<T, W, R>,
    ended: R,
    other: R,
    over: bool,
    waiters: Vec<W>,
)
    requires
        call_ensures(WorkState::<T, W, R>::end_subscriptions, (state, ended), over),
        *old(later) == *final(state),
        call_ensures(WorkState::<T, W, R>::end_task, (later, other), waiters),
    ensures
        over <==> old(state).requested is None,
        over ==> final(later).terminal == Some(ended),
        !over && old(state).terminal is None ==> final(later).terminal == Some(other),
        !over && old(state).terminal is Some ==> final(later).terminal == old(state).terminal,
        waiters@ == old(state).waiters@,
        final(later).waiters@.len() == 0,
{
}

} // verus!
