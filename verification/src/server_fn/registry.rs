//! The registry of server functions: which function answers a path and a method.

use crate::text::{self, same_text};
use vstd::prelude::*;

verus! {

/// One method of a path, and the function that answers it.
pub struct Entry<F> {
    pub method: String,
    pub function: F,
}

/// The functions of one path.
pub struct PathEntries<F> {
    pub path: String,
    pub entries: Vec<Entry<F>>,
}

/// The methods and functions of several entries.
pub open spec fn pairs<F>(entries: Seq<Entry<F>>) -> Seq<(Seq<char>, F)> {
    entries.map_values(|entry: Entry<F>| (entry.method@, entry.function))
}

/// No method occurs twice.
pub open spec fn distinct_methods<F>(entries: Seq<(Seq<char>, F)>) -> bool {
    forall|i: int, j: int|
        0 <= i < entries.len() && 0 <= j < entries.len() && i != j ==> (#[trigger] entries[i]).0 != (
        #[trigger] entries[j]).0
}

/// Where a method stands among the entries.
pub open spec fn holds_method<F>(entries: Seq<(Seq<char>, F)>, method: Seq<char>, i: int) -> bool {
    0 <= i < entries.len() && entries[i].0 == method
}

/// The entries with `function` as the one that answers `method`: it takes the
/// place of the function that did, or comes last.
pub open spec fn upserted<F>(
    entries: Seq<(Seq<char>, F)>,
    method: Seq<char>,
    function: F,
) -> Seq<(Seq<char>, F)> {
    if exists|i: int| holds_method(entries, method, i) {
        let i: int = choose|i: int| holds_method(entries, method, i);
        entries.update(i, (method, function))
    } else {
        entries.push((method, function))
    }
}

/// The function that answers a method.
pub open spec fn answering<F>(entries: Seq<(Seq<char>, F)>, method: Seq<char>) -> Option<F> {
    if exists|i: int| holds_method(entries, method, i) {
        Some(entries[choose|i: int| holds_method(entries, method, i)].1)
    } else {
        None
    }
}

/// The methods that are answered, in order.
pub open spec fn methods_of<F>(entries: Seq<(Seq<char>, F)>) -> Seq<Seq<char>> {
    entries.map_values(|entry: (Seq<char>, F)| entry.0)
}

proof fn lemma_only_index<F>(entries: Seq<(Seq<char>, F)>, method: Seq<char>, i: int)
    requires
        distinct_methods(entries),
        holds_method(entries, method, i),
    ensures
        (choose|j: int| holds_method(entries, method, j)) == i,
{
    let j: int = choose|j: int| holds_method(entries, method, j);
    if j != i {
        assert(entries[i].0 != entries[j].0);
    }
}

/// Inserts or replaces the function that answers a method.
pub fn upsert<F>(entries: &mut Vec<Entry<F>>, method: String, function: F)
    requires
        distinct_methods(pairs(old(entries)@)),
    ensures
        pairs(final(entries)@) == upserted(pairs(old(entries)@), method@, function),
        distinct_methods(pairs(final(entries)@)),
{
    let ghost before = pairs(entries@);
    let mut i: usize = 0;
    while i < entries.len()
        invariant
            i <= entries.len(),
            before == pairs(entries@),
            before == pairs(old(entries)@),
            distinct_methods(before),
            forall|j: int| 0 <= j < i ==> !holds_method(before, method@, j),
        decreases entries.len() - i,
    {
        proof {
            assert(before[i as int].0 == entries@[i as int].method@);
        }
        if same_text(entries[i].method.as_str(), method.as_str()) {
            proof {
                assert(holds_method(before, method@, i as int));
                lemma_only_index(before, method@, i as int);
            }
            let ghost name = method@;
            entries.set(i, Entry { method, function });
            proof {
                assert(pairs(entries@) =~= before.update(i as int, (name, function)));
            }
            return ;
        }
        i = i + 1;
    }
    let ghost name = method@;
    proof {
        assert(!exists|j: int| holds_method(before, name, j));
    }
    entries.push(Entry { method, function });
    proof {
        let after = pairs(entries@);
        assert(after =~= before.push((name, function)));
        assert forall|a: int, b: int|
            0 <= a < after.len() && 0 <= b < after.len() && a != b implies (#[trigger] after[a]).0
            != (#[trigger] after[b]).0 by {
            assert(!holds_method(before, name, a));
            assert(!holds_method(before, name, b));
        }
    }
}

/// The registry of server functions.
pub struct ServerFnRegistry<F> {
    paths: Vec<PathEntries<F>>,
}

impl<F> ServerFnRegistry<F> {
    /// What is registered: for each path its methods and functions.
    pub closed spec fn table(self) -> Map<Seq<char>, Seq<(Seq<char>, F)>> {
        table_of(self.paths@)
    }

    /// Each path is listed once, and so is each of its methods.
    pub closed spec fn well_formed(self) -> bool {
        proper_paths(self.paths@)
    }

    /// What is registered at a path.
    pub open spec fn at(self, path: Seq<char>) -> Seq<(Seq<char>, F)> {
        if self.table().contains_key(path) {
            self.table()[path]
        } else {
            Seq::empty()
        }
    }

    /// An empty registry.
    pub fn new() -> (registry: ServerFnRegistry<F>)
        ensures
            registry.well_formed(),
            registry.table() == Map::<Seq<char>, Seq<(Seq<char>, F)>>::empty(),
    {
        let registry = ServerFnRegistry { paths: Vec::new() };
        proof {
            assert(registry.table() =~= Map::<Seq<char>, Seq<(Seq<char>, F)>>::empty());
        }
        registry
    }

    fn position(&self, path: &str) -> (index: Option<usize>)
        requires
            self.well_formed(),
        ensures
            match index {
                Some(i) => holds_path(self.paths@, path@, i as int),
                None => !self.table().contains_key(path@),
            },
            index is Some <==> self.table().contains_key(path@),
    {
        let mut i: usize = 0;
        while i < self.paths.len()
            invariant
                i <= self.paths.len(),
                forall|j: int| 0 <= j < i ==> !holds_path(self.paths@, path@, j),
            decreases self.paths.len() - i,
        {
            if same_text(self.paths[i].path.as_str(), path) {
                proof {
                    assert(holds_path(self.paths@, path@, i as int));
                }
                return Some(i);
            }
            i = i + 1;
        }
        None
    }

    /// Registers a function. The last registration of a path and a method wins.
    pub fn register_explicit(&mut self, path: String, method: String, function: F)
        requires
            old(self).well_formed(),
        ensures
            final(self).well_formed(),
            final(self).table() == old(self).table().insert(
                path@,
                upserted(old(self).at(path@), method@, function),
            ),
    {
        let ghost before = self.paths@;
        match self.position(path.as_str()) {
            Some(i) => {
                proof {
                    lemma_table_at(before, path@, i as int);
                }
                let mut entries: Vec<Entry<F>> = Vec::new();
                std::mem::swap(&mut entries, &mut self.paths[i].entries);
                upsert(&mut entries, method, function);
                self.paths.set(i, PathEntries { path, entries });
                proof {
                    assert forall|a: int, b: int|
                        0 <= a < self.paths@.len() && 0 <= b < self.paths@.len() && a
                            != b implies (#[trigger] self.paths@[a]).path@ != (
                    #[trigger] self.paths@[b]).path@ by {
                        assert(self.paths@[a].path@ == before[a].path@);
                        assert(self.paths@[b].path@ == before[b].path@);
                    }
                    lemma_table_update(before, self.paths@, i as int);
                }
            },
            None => {
                let mut entries: Vec<Entry<F>> = Vec::new();
                proof {
                    assert(pairs(entries@) =~= Seq::empty());
                }
                upsert(&mut entries, method, function);
                self.paths.push(PathEntries { path, entries });
                proof {
                    assert(self.paths@.drop_last() =~= before);
                    lemma_table_push(before, self.paths@);
                }
            },
        }
    }

    /// The function that answers a path and a method.
    pub fn lookup_server_fn(&self, path: &str, method: &str) -> (function: Option<&F>)
        requires
            self.well_formed(),
        ensures
            match function {
                Some(f) => answering(self.at(path@), method@) == Some(*f),
                None => answering(self.at(path@), method@) is None,
            },
    {
        match self.position(path) {
            None => {
                proof {
                    assert(!exists|i: int| holds_method(self.at(path@), method@, i));
                }
                None
            },
            Some(p) => {
                let entries = &self.paths[p].entries;
                let ghost at = pairs(entries@);
                proof {
                    lemma_table_at(self.paths@, path@, p as int);
                    assert(at == self.at(path@));
                }
                let mut i: usize = 0;
                while i < entries.len()
                    invariant
                        i <= entries.len(),
                        at == pairs(entries@),
                        at == self.at(path@),
                        distinct_methods(at),
                        forall|j: int| 0 <= j < i ==> !holds_method(at, method@, j),
                    decreases entries.len() - i,
                {
                    proof {
                        assert(at[i as int] == (
                            entries@[i as int].method@,
                            entries@[i as int].function,
                        ));
                    }
                    if same_text(entries[i].method.as_str(), method) {
                        proof {
                            assert(holds_method(at, method@, i as int));
                            lemma_only_index(at, method@, i as int);
                        }
                        return Some(&entries[i].function);
                    }
                    i = i + 1;
                }
                proof {
                    assert(!exists|j: int| holds_method(at, method@, j));
                }
                None
            },
        }
    }

    /// The methods that a path takes, in the order of their registration.
    pub fn server_fn_methods(&self, path: &str) -> (methods: Vec<String>)
        requires
            self.well_formed(),
        ensures
            text::strings(methods@) == methods_of(self.at(path@)),
            text::strings(methods@).no_duplicates(),
    {
        let mut methods: Vec<String> = Vec::new();
        match self.position(path) {
            None => {
                proof {
                    assert(text::strings(methods@) =~= methods_of(self.at(path@)));
                }
            },
            Some(p) => {
                let entries = &self.paths[p].entries;
                let ghost at = pairs(entries@);
                proof {
                    lemma_table_at(self.paths@, path@, p as int);
                }
                let mut i: usize = 0;
                proof {
                    assert(text::strings(methods@) =~= methods_of(at.take(0)));
                }
                while i < entries.len()
                    invariant
                        i <= entries.len(),
                        at == pairs(entries@),
                        text::strings(methods@) == methods_of(at.take(i as int)),
                    decreases entries.len() - i,
                {
                    let ghost before = methods@;
                    methods.push(entries[i].method.clone());
                    proof {
                        assert(text::strings(methods@) =~= text::strings(before).push(
                            entries@[i as int].method@,
                        ));
                        assert(methods_of(at.take(i + 1)) =~= methods_of(at.take(i as int)).push(
                            at[i as int].0,
                        ));
                    }
                    i = i + 1;
                }
                proof {
                    assert(at.take(i as int) =~= at);
                    let names = methods_of(at);
                    assert forall|a: int, b: int|
                        0 <= a < names.len() && 0 <= b < names.len() && a != b implies names[a]
                        != names[b] by {
                        assert(at[a].0 != at[b].0);
                    }
                }
            },
        }
        methods
    }

    /// Every path with every method that it takes.
    pub fn server_fn_paths(&self) -> (listed: Vec<(String, String)>)
        requires
            self.well_formed(),
        ensures
            forall|path: Seq<char>, method: Seq<char>|
                #![trigger answering(self.at(path), method)]
                (exists|k: int| lists(listed@, path, method, k)) <==> answering(
                    self.at(path),
                    method,
                ) is Some,
            forall|a: int, b: int|
                0 <= a < b < listed@.len() ==> (#[trigger] listed@[a]).0@ != (
                #[trigger] listed@[b]).0@ || listed@[a].1@ != listed@[b].1@,
    {
        let mut listed: Vec<(String, String)> = Vec::new();
        let mut p: usize = 0;
        while p < self.paths.len()
            invariant
                p <= self.paths.len(),
                self.well_formed(),
                forall|k: int| 0 <= k < listed@.len() ==> listed_from(self.paths@, p as int, 0, #[trigger] listed@[k]),
                forall|q: int, e: int|
                    0 <= q < p && 0 <= e < self.paths@[q].entries@.len() ==> in_list(
                        listed@,
                        self.paths@[q].path@,
                        #[trigger] self.paths@[q].entries@[e].method@,
                    ),
                forall|a: int, b: int|
                    0 <= a < b < listed@.len() ==> (#[trigger] listed@[a]).0@ != (
                    #[trigger] listed@[b]).0@ || listed@[a].1@ != listed@[b].1@,
            decreases self.paths.len() - p,
        {
            let item = &self.paths[p];
            let mut e: usize = 0;
            while e < item.entries.len()
                invariant
                    p < self.paths@.len(),
                    item == self.paths@[p as int],
                    e <= item.entries.len(),
                    self.well_formed(),
                    forall|k: int|
                        0 <= k < listed@.len() ==> listed_from(self.paths@, p as int, e as int, #[trigger] listed@[k]),
                    forall|q: int, d: int|
                        0 <= q < p && 0 <= d < self.paths@[q].entries@.len() ==> in_list(
                            listed@,
                            self.paths@[q].path@,
                            #[trigger] self.paths@[q].entries@[d].method@,
                        ),
                    forall|d: int|
                        0 <= d < e ==> in_list(
                            listed@,
                            item.path@,
                            #[trigger] item.entries@[d].method@,
                        ),
                    forall|a: int, b: int|
                        0 <= a < b < listed@.len() ==> (#[trigger] listed@[a]).0@ != (
                        #[trigger] listed@[b]).0@ || listed@[a].1@ != listed@[b].1@,
                decreases item.entries.len() - e,
            {
                let ghost before = listed@;
                listed.push((item.path.clone(), item.entries[e].method.clone()));
                proof {
                    let fresh = listed@[before.len() as int];
                    let at = pairs(item.entries@);
                    assert(distinct_methods(at));
                    assert forall|k: int| 0 <= k < before.len() implies (#[trigger] listed@[k]).0@
                        != fresh.0@ || listed@[k].1@ != fresh.1@ by {
                        assert(listed_from(self.paths@, p as int, e as int, before[k]));
                        let (q, d) = choose|q: int, d: int|
                            from_entry(self.paths@, p as int, e as int, before[k], q, d);
                        if q < p {
                            assert(self.paths@[q].path@ != self.paths@[p as int].path@);
                        } else {
                            assert(at[d].0 != at[e as int].0);
                        }
                    }
                    assert forall|k: int| 0 <= k < listed@.len() implies listed_from(
                        self.paths@,
                        p as int,
                        e + 1,
                        #[trigger] listed@[k],
                    ) by {
                        if k < before.len() {
                            let (q, d) = choose|q: int, d: int|
                                from_entry(self.paths@, p as int, e as int, before[k], q, d);
                            assert(from_entry(self.paths@, p as int, e + 1, listed@[k], q, d));
                        } else {
                            assert(from_entry(
                                self.paths@,
                                p as int,
                                e + 1,
                                listed@[k],
                                p as int,
                                e as int,
                            ));
                        }
                    }
                    lemma_in_list_grows(before, listed@);
                    assert(lists(
                        listed@,
                        item.path@,
                        item.entries@[e as int].method@,
                        before.len() as int,
                    ));
                }
                e = e + 1;
            }
            proof {
                assert forall|k: int| 0 <= k < listed@.len() implies listed_from(
                    self.paths@,
                    p + 1,
                    0,
                    #[trigger] listed@[k],
                ) by {
                    let (q, d) = choose|q: int, d: int|
                        from_entry(self.paths@, p as int, e as int, listed@[k], q, d);
                    assert(from_entry(self.paths@, p + 1, 0, listed@[k], q, d));
                }
            }
            p = p + 1;
        }
        proof {
            assert forall|path: Seq<char>, method: Seq<char>|
                #![trigger answering(self.at(path), method)]
                (exists|k: int| lists(listed@, path, method, k)) <==> answering(
                    self.at(path),
                    method,
                ) is Some by {
                if exists|k: int| lists(listed@, path, method, k) {
                    let k: int = choose|k: int| lists(listed@, path, method, k);
                    let (q, d) = choose|q: int, d: int|
                        from_entry(self.paths@, p as int, 0, listed@[k], q, d);
                    assert(holds_path(self.paths@, path, q));
                    lemma_table_at(self.paths@, path, q);
                    assert(holds_method(self.at(path), method, d));
                }
                if answering(self.at(path), method) is Some {
                    let d: int = choose|d: int| holds_method(self.at(path), method, d);
                    let q: int = choose|q: int| holds_path(self.paths@, path, q);
                    assert(self.table().contains_key(path));
                    lemma_table_at(self.paths@, path, q);
                    assert(self.at(path)[d].0 == self.paths@[q].entries@[d].method@);
                    assert(in_list(
                        listed@,
                        self.paths@[q].path@,
                        self.paths@[q].entries@[d].method@,
                    ));
                }
            }
        }
        listed
    }
}

/// Whether the `k`-th listed pair is this one.
pub open spec fn lists(
    listed: Seq<(String, String)>,
    path: Seq<char>,
    method: Seq<char>,
    k: int,
) -> bool {
    0 <= k < listed.len() && listed[k].0@ == path && listed[k].1@ == method
}

spec fn in_list(listed: Seq<(String, String)>, path: Seq<char>, method: Seq<char>) -> bool {
    exists|k: int| lists(listed, path, method, k)
}

proof fn lemma_in_list_grows(before: Seq<(String, String)>, after: Seq<(String, String)>)
    requires
        before.is_prefix_of(after),
    ensures
        forall|path: Seq<char>, method: Seq<char>|
            in_list(before, path, method) ==> #[trigger] in_list(after, path, method),
{
    assert forall|path: Seq<char>, method: Seq<char>|
        in_list(before, path, method) implies #[trigger] in_list(after, path, method) by {
        let k: int = choose|k: int| lists(before, path, method, k);
        assert(before[k] == after[k]);
        assert(lists(after, path, method, k));
    }
}

spec fn from_entry<F>(
    paths: Seq<PathEntries<F>>,
    p: int,
    e: int,
    pair: (String, String),
    q: int,
    d: int,
) -> bool {
    &&& 0 <= q < paths.len()
    &&& 0 <= d < paths[q].entries@.len()
    &&& q < p || (q == p && d < e)
    &&& pair.0@ == paths[q].path@
    &&& pair.1@ == paths[q].entries@[d].method@
}

spec fn listed_from<F>(paths: Seq<PathEntries<F>>, p: int, e: int, pair: (String, String)) -> bool {
    exists|q: int, d: int| from_entry(paths, p, e, pair, q, d)
}

spec fn holds_path<F>(paths: Seq<PathEntries<F>>, path: Seq<char>, i: int) -> bool {
    0 <= i < paths.len() && paths[i].path@ == path
}

spec fn table_of<F>(paths: Seq<PathEntries<F>>) -> Map<Seq<char>, Seq<(Seq<char>, F)>> {
    Map::new(
        |path: Seq<char>| exists|i: int| holds_path(paths, path, i),
        |path: Seq<char>| pairs(paths[choose|i: int| holds_path(paths, path, i)].entries@),
    )
}

spec fn proper_paths<F>(paths: Seq<PathEntries<F>>) -> bool {
    &&& forall|i: int, j: int|
        0 <= i < paths.len() && 0 <= j < paths.len() && i != j ==> (#[trigger] paths[i]).path@ != (
        #[trigger] paths[j]).path@
    &&& forall|i: int|
        0 <= i < paths.len() ==> distinct_methods(pairs((#[trigger] paths[i]).entries@))
}

proof fn lemma_table_at<F>(paths: Seq<PathEntries<F>>, path: Seq<char>, i: int)
    requires
        proper_paths(paths),
        holds_path(paths, path, i),
    ensures
        table_of(paths).contains_key(path),
        table_of(paths)[path] == pairs(paths[i].entries@),
{
    let j: int = choose|j: int| holds_path(paths, path, j);
    if j != i {
        assert(paths[i].path@ != paths[j].path@);
    }
}

proof fn lemma_table_update<F>(before: Seq<PathEntries<F>>, after: Seq<PathEntries<F>>, i: int)
    requires
        proper_paths(before),
        proper_paths(after),
        0 <= i < before.len(),
        after.len() == before.len(),
        after[i].path@ == before[i].path@,
        forall|j: int| 0 <= j < before.len() && j != i ==> after[j] == before[j],
    ensures
        table_of(after) == table_of(before).insert(before[i].path@, pairs(after[i].entries@)),
{
    let updated = table_of(before).insert(before[i].path@, pairs(after[i].entries@));
    assert forall|path: Seq<char>| #[trigger]
        table_of(after).contains_key(path) == updated.contains_key(path) && (updated.contains_key(
            path,
        ) ==> table_of(after)[path] == updated[path]) by {
        assert(holds_path(before, before[i].path@, i));
        assert(holds_path(after, before[i].path@, i));
        lemma_table_at(after, before[i].path@, i);
        if exists|j: int| holds_path(before, path, j) {
            let j: int = choose|j: int| holds_path(before, path, j);
            assert(holds_path(after, path, j));
            lemma_table_at(before, path, j);
            lemma_table_at(after, path, j);
        }
        if exists|j: int| holds_path(after, path, j) {
            let j: int = choose|j: int| holds_path(after, path, j);
            assert(holds_path(before, path, j));
        }
    }
    assert(table_of(after) =~= updated);
}

proof fn lemma_table_push<F>(before: Seq<PathEntries<F>>, after: Seq<PathEntries<F>>)
    requires
        proper_paths(before),
        after.len() == before.len() + 1,
        after.drop_last() == before,
        !table_of(before).contains_key(after.last().path@),
        distinct_methods(pairs(after.last().entries@)),
    ensures
        proper_paths(after),
        table_of(after) == table_of(before).insert(
            after.last().path@,
            pairs(after.last().entries@),
        ),
{
    let n: int = before.len() as int;
    assert forall|i: int| 0 <= i < n implies after[i] == before[i] by {
        assert(after.drop_last()[i] == after[i]);
    }
    assert forall|i: int, j: int|
        0 <= i < after.len() && 0 <= j < after.len() && i != j implies (#[trigger] after[i]).path@
        != (#[trigger] after[j]).path@ by {
        if i == n {
            assert(!holds_path(before, after.last().path@, j));
        } else if j == n {
            assert(!holds_path(before, after.last().path@, i));
        }
    }
    assert forall|i: int| 0 <= i < after.len() implies distinct_methods(
        pairs((#[trigger] after[i]).entries@),
    ) by {
        if i < n {
            assert(after[i] == before[i]);
        }
    }
    let grown = table_of(before).insert(after.last().path@, pairs(after.last().entries@));
    assert forall|path: Seq<char>| #[trigger]
        table_of(after).contains_key(path) == grown.contains_key(path) && (grown.contains_key(path)
            ==> table_of(after)[path] == grown[path]) by {
        assert(holds_path(after, after.last().path@, n));
        lemma_table_at(after, after.last().path@, n);
        if exists|j: int| holds_path(before, path, j) {
            let j: int = choose|j: int| holds_path(before, path, j);
            assert(holds_path(after, path, j));
            lemma_table_at(before, path, j);
            lemma_table_at(after, path, j);
        }
        if exists|j: int| holds_path(after, path, j) {
            let j: int = choose|j: int| holds_path(after, path, j);
            if j < n {
                assert(holds_path(before, path, j));
            }
        }
    }
    assert(table_of(after) =~= grown);
}

// ---------------------------------------------------------------------------
// Laws
// ---------------------------------------------------------------------------
/// The last registration of a method wins.
pub proof fn last_registration_wins<F>(entries: Seq<(Seq<char>, F)>, method: Seq<char>, function: F)
    requires
        distinct_methods(entries),
    ensures
        answering(upserted(entries, method, function), method) == Some(function),
{
    let after = upserted(entries, method, function);
    let i: int = if exists|i: int| holds_method(entries, method, i) {
        choose|i: int| holds_method(entries, method, i)
    } else {
        entries.len() as int
    };
    assert(holds_method(after, method, i));
    lemma_upserted_distinct(entries, method, function);
    lemma_only_index(after, method, i);
}

/// A registration leaves the other methods of its path alone.
pub proof fn registration_keeps_other_methods<F>(
    entries: Seq<(Seq<char>, F)>,
    method: Seq<char>,
    function: F,
    other: Seq<char>,
)
    requires
        distinct_methods(entries),
        other != method,
    ensures
        answering(upserted(entries, method, function), other) == answering(entries, other),
{
    let after = upserted(entries, method, function);
    lemma_upserted_distinct(entries, method, function);
    if exists|i: int| holds_method(entries, other, i) {
        let i: int = choose|i: int| holds_method(entries, other, i);
        assert(holds_method(after, other, i));
        lemma_only_index(after, other, i);
    } else {
        if exists|i: int| holds_method(after, other, i) {
            let i: int = choose|i: int| holds_method(after, other, i);
            assert(holds_method(entries, other, i));
        }
    }
}

/// Registering a function again changes nothing.
pub proof fn registration_is_idempotent<F>(
    entries: Seq<(Seq<char>, F)>,
    method: Seq<char>,
    function: F,
)
    requires
        distinct_methods(entries),
    ensures
        upserted(upserted(entries, method, function), method, function) == upserted(
            entries,
            method,
            function,
        ),
{
    let after = upserted(entries, method, function);
    lemma_upserted_distinct(entries, method, function);
    let i: int = if exists|i: int| holds_method(entries, method, i) {
        choose|i: int| holds_method(entries, method, i)
    } else {
        entries.len() as int
    };
    assert(holds_method(after, method, i));
    lemma_only_index(after, method, i);
    assert(after.update(i, (method, function)) =~= after);
}

/// A registration never lists a method twice.
pub proof fn lemma_upserted_distinct<F>(
    entries: Seq<(Seq<char>, F)>,
    method: Seq<char>,
    function: F,
)
    requires
        distinct_methods(entries),
    ensures
        distinct_methods(upserted(entries, method, function)),
{
    let after = upserted(entries, method, function);
    assert forall|a: int, b: int|
        0 <= a < after.len() && 0 <= b < after.len() && a != b implies (#[trigger] after[a]).0 != (
    #[trigger] after[b]).0 by {
        if exists|i: int| holds_method(entries, method, i) {
            assert(after[a].0 == entries[a].0);
            assert(after[b].0 == entries[b].0);
        } else {
            assert(!holds_method(entries, method, a));
            assert(!holds_method(entries, method, b));
        }
    }
}

/// A function that was registered answers its path and method; every other path and
/// method is answered as before.
pub proof fn registered_functions_are_found<F>(
    registry: &mut ServerFnRegistry<F>,
    path: String,
    method: String,
    function: F,
    asked_path: &str,
    asked_method: &str,
    before: Option<&F>,
    found: Option<&F>,
)
    requires
        old(registry).well_formed(),
        call_ensures(
            ServerFnRegistry::<F>::register_explicit,
            (registry, path, method, function),
            (),
        ),
        call_ensures(
            ServerFnRegistry::<F>::lookup_server_fn,
            (old(registry), asked_path, asked_method),
            before,
        ),
        call_ensures(
            ServerFnRegistry::<F>::lookup_server_fn,
            (final(registry), asked_path, asked_method),
            found,
        ),
        distinct_methods(old(registry).at(path@)),
    ensures
        asked_path@ == path@ && asked_method@ == method@ ==> (found matches Some(f) && *f
            == function),
        asked_path@ != path@ || asked_method@ != method@ ==> (found matches Some(f)
            ==> before == Some(f)) && (found is None ==> before is None),
{
    let entries = old(registry).at(path@);
    last_registration_wins(entries, method@, function);
    if asked_method@ != method@ {
        registration_keeps_other_methods(entries, method@, function, asked_method@);
    }
}

/// The methods of a path are those under which functions were registered at it: a new one
/// comes last, and one that is registered again stays in its place.
pub proof fn registered_methods_are_listed<F>(
    registry: &mut ServerFnRegistry<F>,
    path: String,
    method: String,
    function: F,
    asked: &str,
    methods: Vec<String>,
    before: Vec<String>,
)
    requires
        old(registry).well_formed(),
        call_ensures(
            ServerFnRegistry::<F>::register_explicit,
            (registry, path, method, function),
            (),
        ),
        asked@ == path@,
        call_ensures(ServerFnRegistry::<F>::server_fn_methods, (old(registry), asked), before),
        call_ensures(ServerFnRegistry::<F>::server_fn_methods, (final(registry), asked), methods),
    ensures
        text::strings(methods@).contains(method@),
        text::strings(before@).contains(method@) ==> text::strings(methods@) == text::strings(
            before@,
        ),
        !text::strings(before@).contains(method@) ==> text::strings(methods@) == text::strings(
            before@,
        ).push(method@),
{
    let entries = old(registry).at(path@);
    let after = upserted(entries, method@, function);
    let (names, others) = (methods_of(entries), methods_of(after));
    assert(names.len() == entries.len());
    if exists|i: int| holds_method(entries, method@, i) {
        let i: int = choose|i: int| holds_method(entries, method@, i);
        assert(names[i] == method@);
        assert(others =~= names);
    } else {
        assert(others =~= names.push(method@));
        assert(others[names.len() as int] == method@);
        if names.contains(method@) {
            let i: int = choose|i: int| 0 <= i < names.len() && names[i] == method@;
            assert(holds_method(entries, method@, i));
        }
    }
}

} // verus!
