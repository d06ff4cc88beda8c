//! Which directory entry a page replaces, however its name is spelled.
//!
//! Generation work is keyed by the entry that publication replaces. Where a
//! directory takes names without regard to ASCII case, spellings that differ only
//! in case name one entry, and must find one piece of work.

use crate::text::{self, copy_bytes, same_bytes};
use vstd::prelude::*;

verus! {

/// Whether a directory takes the ASCII letters of a name regardless of case.
#[derive(Clone, Copy, Debug, PartialEq, Eq, Structural)]
pub enum CaseRule {
    Folds,
    Distinct,
    Unknown,
}

pub open spec fn lowered(name: Seq<u8>) -> Seq<u8> {
    name.map_values(|b: u8| text::lower_byte(b))
}

/// A name as the rule compares it.
pub open spec fn folded(rule: CaseRule, name: Seq<u8>) -> Seq<u8> {
    if rule == CaseRule::Folds {
        lowered(name)
    } else {
        name
    }
}

/// The other case of an ASCII letter; any other byte is kept.
pub open spec fn swapped_byte(b: u8) -> u8 {
    if text::is_ascii_upper(b) {
        text::lower_byte(b)
    } else {
        text::upper_byte(b)
    }
}

pub open spec fn swapped(name: Seq<u8>) -> Seq<u8> {
    name.map_values(|b: u8| swapped_byte(b))
}

pub open spec fn holds_letter(name: Seq<u8>) -> bool {
    exists|i: int| 0 <= i < name.len() && text::is_ascii_letter(#[trigger] name[i])
}

impl CaseRule {
    /// A name as this rule compares it.
    pub fn fold(self, name: &Vec<u8>) -> (name_folded: Vec<u8>)
        ensures
            name_folded@ == folded(self, name@),
    {
        match self {
            CaseRule::Folds => lower_case(name),
            _ => copy_bytes(name.as_slice()),
        }
    }
}

fn lower_case(name: &Vec<u8>) -> (lower: Vec<u8>)
    ensures
        lower@ == lowered(name@),
{
    let mut lower: Vec<u8> = Vec::new();
    let mut i: usize = 0;
    while i < name.len()
        invariant
            i <= name.len(),
            lower@ == lowered(name@.take(i as int)),
        decreases name.len() - i,
    {
        let b = name[i];
        lower.push(
            if b >= 0x41 && b <= 0x5a {
                b + 32
            } else {
                b
            },
        );
        proof {
            assert(lower@ =~= lowered(name@.take(i + 1)));
        }
        i = i + 1;
    }
    proof {
        assert(name@.take(i as int) =~= name@);
    }
    lower
}

/// Whether a name holds an ASCII letter.
pub fn has_ascii_letter(name: &Vec<u8>) -> (b: bool)
    ensures
        b == holds_letter(name@),
{
    let mut i: usize = 0;
    while i < name.len()
        invariant
            i <= name.len(),
            forall|j: int| 0 <= j < i ==> !text::is_ascii_letter(#[trigger] name@[j]),
        decreases name.len() - i,
    {
        let b = name[i];
        if (b >= 0x41 && b <= 0x5a) || (b >= 0x61 && b <= 0x7a) {
            proof {
                assert(text::is_ascii_letter(name@[i as int]));
            }
            return true;
        }
        i = i + 1;
    }
    false
}

/// The name in the opposite case, if it has any.
pub fn swap_ascii_case(name: &Vec<u8>) -> (other: Option<Vec<u8>>)
    ensures
        match other {
            Some(other) => holds_letter(name@) && other@ == swapped(name@),
            None => !holds_letter(name@),
        },
{
    if !has_ascii_letter(name) {
        return None;
    }
    let mut other: Vec<u8> = Vec::new();
    let mut i: usize = 0;
    while i < name.len()
        invariant
            i <= name.len(),
            other@ == swapped(name@.take(i as int)),
        decreases name.len() - i,
    {
        let b = name[i];
        other.push(
            if b >= 0x41 && b <= 0x5a {
                b + 32
            } else if b >= 0x61 && b <= 0x7a {
                b - 32
            } else {
                b
            },
        );
        proof {
            assert(other@ =~= swapped(name@.take(i + 1)));
        }
        i = i + 1;
    }
    proof {
        assert(name@.take(i as int) =~= name@);
    }
    Some(other)
}

// ---------------------------------------------------------------------------
// Transient names
// ---------------------------------------------------------------------------
/// `.leptos-`
pub open spec fn temp_prefix() -> Seq<u8> {
    seq![0x2eu8, 0x6c, 0x65, 0x70, 0x74, 0x6f, 0x73, 0x2d]
}

/// `.tmp.`
pub open spec fn temp_mark() -> Seq<u8> {
    seq![0x2eu8, 0x74, 0x6d, 0x70, 0x2e]
}

/// Whether `part` stands in `name` at a place.
pub open spec fn stands_at(name: Seq<u8>, part: Seq<u8>, i: int) -> bool {
    &&& 0 <= i <= name.len() - part.len()
    &&& name.subrange(i, i + part.len()) == part
}

/// Whether a name is one of a temporary file of a publisher, which is renamed away
/// at any moment.
pub open spec fn is_transient(name: Seq<u8>) -> bool {
    &&& temp_prefix().is_prefix_of(name)
    &&& exists|i: int| stands_at(name, temp_mark(), i)
}

/// Whether a name is one of a temporary file of a publisher.
pub fn is_transient_publication_name(name: &Vec<u8>) -> (transient: bool)
    ensures
        transient == is_transient(name@),
{
    if name.len() < 8 || !(name[0] == 0x2e && name[1] == 0x6c && name[2] == 0x65 && name[3] == 0x70
        && name[4] == 0x74 && name[5] == 0x6f && name[6] == 0x73 && name[7] == 0x2d) {
        proof {
            if temp_prefix().is_prefix_of(name@) {
                let head = name@.subrange(0, 8);
                assert(head == temp_prefix());
                assert forall|k: int| 0 <= k < 8 implies name@[k] == #[trigger] temp_prefix()[k] by {
                    assert(head[k] == name@[k]);
                }
                assert(name@[0] == 0x2e && name@[1] == 0x6c && name@[2] == 0x65 && name@[3] == 0x70);
                assert(name@[4] == 0x74 && name@[5] == 0x6f && name@[6] == 0x73 && name@[7] == 0x2d);
            }
        }
        return false;
    }
    proof {
        assert(name@.subrange(0, 8) =~= temp_prefix());
    }
    let mut i: usize = 0;
    while i < name.len() - 4
        invariant
            name@.len() >= 8,
            i <= name.len(),
            temp_prefix().is_prefix_of(name@),
            forall|j: int| 0 <= j < i ==> !stands_at(name@, temp_mark(), j),
        decreases name.len() - i,
    {
        let ghost window = name@.subrange(i as int, i + 5);
        if name[i] == 0x2e && name[i + 1] == 0x74 && name[i + 2] == 0x6d && name[i + 3] == 0x70
            && name[i + 4] == 0x2e {
            proof {
                assert(window =~= temp_mark());
                assert(stands_at(name@, temp_mark(), i as int));
            }
            return true;
        }
        proof {
            if stands_at(name@, temp_mark(), i as int) {
                assert(window == temp_mark());
                assert(window[0] == 0x2e && window[1] == 0x74 && window[2] == 0x6d && window[3]
                    == 0x70 && window[4] == 0x2e);
                assert(window[0] == name@[i as int] && window[1] == name@[i + 1] && window[2]
                    == name@[i + 2] && window[3] == name@[i + 3] && window[4] == name@[i + 4]);
            }
        }
        i = i + 1;
    }
    proof {
        assert forall|j: int| !stands_at(name@, temp_mark(), j) by {
            if stands_at(name@, temp_mark(), j) {
                assert(j <= name@.len() - 5);
            }
        }
    }
    false
}

// ---------------------------------------------------------------------------
// Observing the rule
// ---------------------------------------------------------------------------
/// What identifies a file: its device and its number on it.
pub type EntryIdentity = (u64, u64);

/// The name under which a listed entry is looked up a second time, in the opposite
/// case. Entries that are about to go away, or have no case, show nothing.
pub fn probe_name(name: &Vec<u8>) -> (other: Option<Vec<u8>>)
    ensures
        match other {
            Some(other) => !is_transient(name@) && holds_letter(name@) && other@ == swapped(name@),
            None => is_transient(name@) || !holds_letter(name@),
        },
{
    if is_transient_publication_name(name) {
        return None;
    }
    swap_ascii_case(name)
}

/// What looking a listed entry up showed.
pub struct Observation {
    /// The entry itself: what identifies it, and whether it has no other names.
    pub original: Option<(EntryIdentity, bool)>,
    /// The entry of the opposite case; an error says whether there is none.
    pub swapped: Result<EntryIdentity, bool>,
    /// The entry itself once more, after that.
    pub retained: Option<EntryIdentity>,
}

/// The rule that an observation shows. It shows none where the entry has other names,
/// or did not last until both lookups were done.
pub open spec fn shown_rule(seen: Observation) -> Option<CaseRule> {
    match (seen.original, seen.retained) {
        (Some((identity, single)), Some(retained)) => if !single || retained != identity {
            None
        } else {
            match seen.swapped {
                Ok(other) => if other == identity {
                    Some(CaseRule::Folds)
                } else {
                    Some(CaseRule::Distinct)
                },
                Err(missing) => if missing {
                    Some(CaseRule::Distinct)
                } else {
                    None
                },
            }
        },
        _ => None,
    }
}

/// The rule that an observation shows, if any.
pub fn observe_case_rule(seen: &Observation) -> (rule: Option<CaseRule>)
    ensures
        rule == shown_rule(*seen),
{
    match (seen.original, seen.retained) {
        (Some((identity, single)), Some(retained)) => {
            if !single || retained.0 != identity.0 || retained.1 != identity.1 {
                return None;
            }
            match seen.swapped {
                Ok(other) => if other.0 == identity.0 && other.1 == identity.1 {
                    Some(CaseRule::Folds)
                } else {
                    Some(CaseRule::Distinct)
                },
                Err(missing) => if missing {
                    Some(CaseRule::Distinct)
                } else {
                    None
                },
            }
        },
        _ => None,
    }
}

/// A search for the rule of a directory, up through its ancestors on one device.
#[derive(Clone, Copy, Debug, PartialEq, Eq)]
pub struct CaseSearch {
    pub device: Option<u64>,
}

/// What an ancestor turned out to be.
#[derive(Clone, Copy, Debug, PartialEq, Eq, Structural)]
pub enum Ancestor {
    /// A directory on a device.
    Directory(u64),
    /// Something else.
    Other,
    /// It could not be looked up.
    Missing,
}

/// What the search does next.
#[derive(Clone, Copy, Debug, PartialEq, Eq, Structural)]
pub enum SearchStep {
    /// Look at the entries of the directory. Go on upwards if they show no rule.
    Observe,
    /// Go on upwards. At the top the rule is unknown.
    Up,
    /// The rule is unknown.
    Stop,
}

impl CaseSearch {
    /// Takes in what the next ancestor is. A directory on another device follows
    /// another rule.
    pub fn ascii_case_rule(&mut self, ancestor: Ancestor) -> (step: SearchStep)
        ensures
            match ancestor {
                Ancestor::Directory(device) => if old(self).device is Some && old(self).device
                    != Some(device) {
                    step == SearchStep::Stop && final(self).device == old(self).device
                } else {
                    step == SearchStep::Observe && final(self).device == Some(device)
                },
                Ancestor::Other => step == SearchStep::Stop && final(self).device == old(
                    self,
                ).device,
                Ancestor::Missing => step == SearchStep::Up && final(self).device == old(
                    self,
                ).device,
            },
    {
        match ancestor {
            Ancestor::Directory(device) => {
                if let Some(first) = self.device {
                    if first != device {
                        return SearchStep::Stop;
                    }
                }
                self.device = Some(device);
                SearchStep::Observe
            },
            Ancestor::Other => SearchStep::Stop,
            Ancestor::Missing => SearchStep::Up,
        }
    }
}

// ---------------------------------------------------------------------------
// The stored spelling
// ---------------------------------------------------------------------------
pub open spec fn byte_views(names: Seq<Vec<u8>>) -> Seq<Seq<u8>> {
    names.map_values(|name: Vec<u8>| name@)
}

/// The names that the rule does not tell from `name`.
pub open spec fn alike(names: Seq<Seq<u8>>, name: Seq<u8>, rule: CaseRule) -> Seq<Seq<u8>>
    decreases names.len(),
{
    if names.len() == 0 {
        Seq::empty()
    } else {
        let rest = alike(names.drop_last(), name, rule);
        if folded(rule, names.last()) == folded(rule, name) {
            rest.push(names.last())
        } else {
            rest
        }
    }
}

/// The stored spelling of an entry, out of the listed entries that are the same file;
/// none if there are none, and the lookup is to be repeated. Where the file has
/// several names, the requested spelling selects one of them, or stands for itself.
pub open spec fn stored_spelling(
    candidates: Seq<Seq<u8>>,
    name: Seq<u8>,
    rule: CaseRule,
) -> Option<Seq<u8>> {
    if candidates.len() == 0 {
        None
    } else if candidates.len() == 1 {
        Some(candidates[0])
    } else if candidates.contains(name) {
        Some(name)
    } else if alike(candidates, name, rule).len() == 1 {
        Some(alike(candidates, name, rule)[0])
    } else {
        Some(name)
    }
}

/// The stored spelling of an entry, out of the listed entries that are the same file.
pub fn stored_entry_name(candidates: &Vec<Vec<u8>>, name: &Vec<u8>, rule: CaseRule) -> (spelling:
    Option<Vec<u8>>)
    ensures
        match spelling {
            Some(s) => stored_spelling(byte_views(candidates@), name@, rule) == Some(s@),
            None => stored_spelling(byte_views(candidates@), name@, rule) is None,
        },
{
    let ghost all = byte_views(candidates@);
    if candidates.len() == 0 {
        return None;
    }
    if candidates.len() == 1 {
        proof {
            assert(all[0] == candidates@[0]@);
        }
        return Some(copy_bytes(candidates[0].as_slice()));
    }
    let fold = rule.fold(name);
    let mut count: usize = 0;
    let mut found: usize = 0;
    let mut i: usize = 0;
    proof {
        assert(all.take(0) =~= Seq::empty());
    }
    while i < candidates.len()
        invariant
            i <= candidates.len(),
            all == byte_views(candidates@),
            all.len() == candidates@.len(),
            candidates@.len() > 1,
            fold@ == folded(rule, name@),
            forall|j: int| 0 <= j < i ==> #[trigger] all[j] != name@,
            alike(all.take(i as int), name@, rule).len() == count,
            count <= i,
            count > 0 ==> found < i && alike(all.take(i as int), name@, rule)[0] == all[found as int],
        decreases candidates.len() - i,
    {
        proof {
            assert(all[i as int] == candidates@[i as int]@);
            assert(all.take(i + 1).drop_last() =~= all.take(i as int));
            assert(all.take(i + 1).last() == all[i as int]);
        }
        if same_bytes(candidates[i].as_slice(), name.as_slice()) {
            proof {
                assert(all.contains(name@));
            }
            return Some(copy_bytes(name.as_slice()));
        }
        let other = rule.fold(&candidates[i]);
        if same_bytes(other.as_slice(), fold.as_slice()) {
            if count == 0 {
                found = i;
            }
            count = count + 1;
        }
        i = i + 1;
    }
    proof {
        assert(all.take(i as int) =~= all);
    }
    if count == 1 {
        Some(copy_bytes(candidates[found].as_slice()))
    } else {
        Some(copy_bytes(name.as_slice()))
    }
}

/// How often an entry is looked up. One that is replaced between the lookup and the
/// listing is looked up again.
pub const LOOKUPS: usize = 2;

/// What comes after a lookup.
#[derive(Debug)]
pub enum LookupStep {
    /// There is no such entry, or it cannot be seen.
    Absent,
    /// Look the entry up once more.
    Again,
    /// The entry has this spelling.
    Found(Vec<u8>),
}

/// The step with the bytes of the spelling.
pub enum LookupView {
    Absent,
    Again,
    Found(Seq<u8>),
}

impl View for LookupStep {
    type V = LookupView;

    open spec fn view(&self) -> LookupView {
        match *self {
            LookupStep::Absent => LookupView::Absent,
            LookupStep::Again => LookupView::Again,
            LookupStep::Found(spelling) => LookupView::Found(spelling@),
        }
    }
}

/// What comes after a lookup. `earlier` counts the lookups before it, and `listed` is
/// what it found: none where the entry or its directory could not be read. After the
/// last lookup the requested spelling stands for itself.
pub open spec fn lookup_step(
    earlier: int,
    listed: Option<Seq<Seq<u8>>>,
    name: Seq<u8>,
    rule: CaseRule,
) -> LookupView {
    match listed {
        None => LookupView::Absent,
        Some(candidates) => match stored_spelling(candidates, name, rule) {
            Some(spelling) => LookupView::Found(spelling),
            None => if earlier + 1 < LOOKUPS {
                LookupView::Again
            } else {
                LookupView::Found(name)
            },
        },
    }
}

/// Decides what comes after a lookup of an entry.
pub fn next_lookup(
    earlier: usize,
    listed: &Option<Vec<Vec<u8>>>,
    name: &Vec<u8>,
    rule: CaseRule,
) -> (step: LookupStep)
    ensures
        step@ == lookup_step(
            earlier as int,
            match *listed {
                Some(candidates) => Some(byte_views(candidates@)),
                None => None,
            },
            name@,
            rule,
        ),
{
    match listed {
        None => LookupStep::Absent,
        Some(candidates) => match stored_entry_name(candidates, name, rule) {
            Some(spelling) => LookupStep::Found(spelling),
            None => if earlier < LOOKUPS - 1 {
                LookupStep::Again
            } else {
                LookupStep::Found(copy_bytes(name.as_slice()))
            },
        },
    }
}

// ---------------------------------------------------------------------------
// Keys
// ---------------------------------------------------------------------------
/// What generation work is known by: a directory, the entry in it that publication
/// replaces, and the spelling that the work publishes under where that differs.
pub struct StaticWorkKey {
    pub namespace: Vec<u8>,
    pub entry: Vec<u8>,
    pub published: Option<Vec<u8>>,
}

/// The path of an entry of a directory.
pub open spec fn entry_path(namespace: Seq<u8>, name: Seq<u8>) -> Seq<u8> {
    if namespace.len() > 0 && namespace.last() == 0x2f {
        namespace + name
    } else {
        namespace + seq![0x2fu8] + name
    }
}

/// The paths of a key.
pub open spec fn key_paths(key: StaticWorkKey) -> Seq<Seq<u8>> {
    let entry = entry_path(key.namespace@, key.entry@);
    match key.published {
        Some(published) => seq![entry, entry_path(key.namespace@, published@)],
        None => seq![entry],
    }
}

fn join(namespace: &Vec<u8>, name: &Vec<u8>) -> (path: Vec<u8>)
    ensures
        path@ == entry_path(namespace@, name@),
{
    let mut path = copy_bytes(namespace.as_slice());
    if namespace.len() == 0 || namespace[namespace.len() - 1] != 0x2f {
        path.push(0x2f);
    }
    let mut tail = copy_bytes(name.as_slice());
    path.append(&mut tail);
    proof {
        assert(path@ =~= entry_path(namespace@, name@));
    }
    path
}

/// The entry that a request for `name` replaces. `stored` is its stored spelling,
/// absent where there is no such entry yet.
pub open spec fn entry_name(name: Seq<u8>, stored: Option<Seq<u8>>, rule: CaseRule) -> Seq<u8> {
    match stored {
        Some(stored) => folded(rule, stored),
        None => folded(rule, name),
    }
}

pub open spec fn optional_bytes(name: Option<Vec<u8>>) -> Option<Seq<u8>> {
    match name {
        Some(name) => Some(name@),
        None => None,
    }
}

impl StaticWorkKey {
    /// Every path under which the work is found.
    pub fn keys(&self) -> (paths: Vec<Vec<u8>>)
        ensures
            byte_views(paths@) == key_paths(*self),
    {
        let mut paths: Vec<Vec<u8>> = Vec::new();
        paths.push(join(&self.namespace, &self.entry));
        if let Some(published) = &self.published {
            paths.push(join(&self.namespace, published));
        }
        proof {
            assert(byte_views(paths@) =~= key_paths(*self));
        }
        paths
    }
}

/// The key of the work for an entry of a directory.
pub fn static_work_key(
    namespace: Vec<u8>,
    name: &Vec<u8>,
    stored: Option<Vec<u8>>,
    rule: CaseRule,
) -> (key: StaticWorkKey)
    ensures
        key.namespace == namespace,
        key.entry@ == entry_name(name@, optional_bytes(stored), rule),
        optional_bytes(key.published) == (if folded(rule, name@) != key.entry@ {
            Some(folded(rule, name@))
        } else {
            None
        }),
{
    let published = rule.fold(name);
    let entry = match &stored {
        Some(stored) => rule.fold(stored),
        None => rule.fold(name),
    };
    let published = if same_bytes(published.as_slice(), entry.as_slice()) {
        None
    } else {
        Some(published)
    };
    StaticWorkKey { namespace, entry, published }
}

/// A directory with one more component of a path behind it, as far as names alone
/// tell.
pub open spec fn extended(namespace: Seq<Seq<u8>>, component: Seq<u8>) -> Seq<Seq<u8>> {
    if component == seq![0x2eu8, 0x2eu8] {
        if namespace.len() > 0 {
            namespace.drop_last()
        } else {
            namespace
        }
    } else if component == seq![0x2eu8] {
        namespace
    } else {
        namespace.push(component)
    }
}

/// Extends a directory that does not exist yet by one more component.
pub fn static_namespace(namespace: &mut Vec<Vec<u8>>, component: &Vec<u8>)
    ensures
        byte_views(final(namespace)@) == extended(byte_views(old(namespace)@), component@),
{
    let ghost before = byte_views(namespace@);
    proof {
        assert(component@.len() == 1 && component@[0] == 0x2e ==> component@ =~= seq![0x2eu8]);
        assert(component@.len() == 2 && component@[0] == 0x2e && component@[1] == 0x2e
            ==> component@ =~= seq![0x2eu8, 0x2eu8]);
        assert(seq![0x2eu8, 0x2eu8].len() == 2);
    }
    if component.len() == 2 && component[0] == 0x2e && component[1] == 0x2e {
        let _ = namespace.pop();
        proof {
            if before.len() > 0 {
                assert(byte_views(namespace@) =~= before.drop_last());
            } else {
                assert(byte_views(namespace@) =~= before);
            }
        }
    } else if component.len() == 1 && component[0] == 0x2e {
    } else {
        namespace.push(copy_bytes(component.as_slice()));
        proof {
            assert(byte_views(namespace@) =~= before.push(component@));
        }
    }
}

// ---------------------------------------------------------------------------
// Laws
// ---------------------------------------------------------------------------
/// Where case does not count, spellings that differ only in case have the key of one
/// entry, whether it exists or not.
pub proof fn case_aliases_share_work(a: Seq<u8>, b: Seq<u8>, stored: Option<Seq<u8>>)
    requires
        lowered(a) == lowered(b),
    ensures
        entry_name(a, stored, CaseRule::Folds) == entry_name(b, stored, CaseRule::Folds),
{
}

/// Where case counts, or may count, the key of a new entry is its own spelling.
pub proof fn distinct_spellings_stay_apart(a: Seq<u8>, b: Seq<u8>, rule: CaseRule)
    requires
        rule != CaseRule::Folds,
        a != b,
    ensures
        entry_name(a, None, rule) != entry_name(b, None, rule),
{
}

/// Looking a name up in the opposite case asks for another spelling of a name that
/// is the same without regard to case.
pub proof fn probes_differ_in_case_only(name: Seq<u8>)
    requires
        holds_letter(name),
    ensures
        swapped(name) != name,
        lowered(swapped(name)) == lowered(name),
        swapped(swapped(name)) == name,
{
    let i: int = choose|i: int| 0 <= i < name.len() && text::is_ascii_letter(#[trigger] name[i]);
    assert(swapped(name)[i] != name[i]);
    assert(lowered(swapped(name)) =~= lowered(name));
    assert(swapped(swapped(name)) =~= name);
}

/// The lookups of an entry come to an end, and an entry that was seen always gets a
/// spelling.
pub proof fn lookups_end(
    earlier: int,
    candidates: Seq<Seq<u8>>,
    name: Seq<u8>,
    rule: CaseRule,
)
    ensures
        earlier >= LOOKUPS - 1 ==> lookup_step(earlier, Some(candidates), name, rule) is Found,
        lookup_step(earlier, Some(candidates), name, rule) != LookupView::Absent,
{
}

/// A selected spelling is one of the listed ones or the requested one.
pub proof fn stored_spellings_are_listed_or_requested(
    candidates: Seq<Seq<u8>>,
    name: Seq<u8>,
    rule: CaseRule,
)
    requires
        stored_spelling(candidates, name, rule) is Some,
    ensures
        ({
            let spelling = stored_spelling(candidates, name, rule)->0;
            spelling == name || candidates.contains(spelling)
        }),
{
    if candidates.len() == 1 {
        assert(candidates.contains(candidates[0]));
    } else if alike(candidates, name, rule).len() == 1 {
        lemma_alike(candidates, name, rule, 0);
    }
}

proof fn lemma_alike(names: Seq<Seq<u8>>, name: Seq<u8>, rule: CaseRule, i: int)
    requires
        0 <= i < alike(names, name, rule).len(),
    ensures
        names.contains(alike(names, name, rule)[i]),
    decreases names.len(),
{
    if names.len() > 0 {
        let rest = alike(names.drop_last(), name, rule);
        if i < rest.len() {
            lemma_alike(names.drop_last(), name, rule, i);
            let k: int = choose|k: int|
                0 <= k < names.drop_last().len() && names.drop_last()[k] == rest[i];
            assert(names[k] == rest[i]);
        } else {
            assert(names[names.len() - 1] == names.last());
        }
    }
}

/// A directory is taken to fold case only where an entry that has no other name, and that
/// lasted, was found under its other case too; it is taken to tell cases apart only where
/// that was found to be another entry or none. Anything else shows nothing.
pub proof fn rules_are_shown_by_lasting_entries(seen: Observation)
    ensures
        ({
            let (own, single) = seen.original->0;
            let lasted = seen.original is Some && single && seen.retained == Some(own);
            &&& shown_rule(seen) == Some(CaseRule::Folds) <==> lasted && seen.swapped == Ok::<
                EntryIdentity,
                bool,
            >(own)
            &&& shown_rule(seen) == Some(CaseRule::Distinct) <==> lasted && (seen.swapped == Err::<
                EntryIdentity,
                bool,
            >(true) || (seen.swapped is Ok && seen.swapped->Ok_0 != own))
            &&& shown_rule(seen) != Some(CaseRule::Unknown)
        }),
{
}

/// A spelling is found exactly if an entry is listed. The only entry is the one; of
/// several the requested spelling is taken where it is listed.
pub proof fn listed_spellings_are_selected(
    candidates: Seq<Seq<u8>>,
    name: Seq<u8>,
    rule: CaseRule,
)
    ensures
        stored_spelling(candidates, name, rule) is Some <==> candidates.len() > 0,
        candidates.len() == 1 ==> stored_spelling(candidates, name, rule) == Some(candidates[0]),
        candidates.contains(name) ==> stored_spelling(candidates, name, rule) == Some(name),
        candidates.len() > 1 && rule != CaseRule::Folds ==> stored_spelling(candidates, name, rule)
            == Some(name),
{
    if candidates.contains(name) && candidates.len() == 1 {
        assert(candidates[0] == name);
    }
    if rule != CaseRule::Folds && !candidates.contains(name) {
        lemma_alike_absent(candidates, name, rule);
    }
}

proof fn lemma_alike_absent(names: Seq<Seq<u8>>, name: Seq<u8>, rule: CaseRule)
    requires
        forall|i: int|
            0 <= i < names.len() ==> folded(rule, #[trigger] names[i]) != folded(rule, name),
    ensures
        alike(names, name, rule).len() == 0,
    decreases names.len(),
{
    if names.len() > 0 {
        assert(names[names.len() - 1] == names.last());
        let front = names.drop_last();
        assert forall|i: int| 0 <= i < front.len() implies folded(rule, #[trigger] front[i])
            != folded(rule, name) by {
            assert(front[i] == names[i]);
        }
        lemma_alike_absent(front, name, rule);
    }
}

proof fn lemma_alike_single(names: Seq<Seq<u8>>, name: Seq<u8>, rule: CaseRule, i: int)
    requires
        0 <= i < names.len(),
        folded(rule, names[i]) == folded(rule, name),
        forall|j: int|
            0 <= j < names.len() && j != i ==> folded(rule, #[trigger] names[j]) != folded(
                rule,
                name,
            ),
    ensures
        alike(names, name, rule) == seq![names[i]],
    decreases names.len(),
{
    let front = names.drop_last();
    if i == names.len() - 1 {
        assert forall|j: int| 0 <= j < front.len() implies folded(rule, #[trigger] front[j])
            != folded(rule, name) by {
            assert(front[j] == names[j]);
        }
        lemma_alike_absent(front, name, rule);
        assert(alike(names, name, rule) =~= seq![names[i]]);
    } else {
        assert(names[names.len() - 1] == names.last());
        assert forall|j: int| 0 <= j < front.len() && j != i implies folded(
            rule,
            #[trigger] front[j],
        ) != folded(rule, name) by {
            assert(front[j] == names[j]);
        }
        lemma_alike_single(front, name, rule, i);
    }
}

/// Where case does not count and the requested spelling is not listed, the one entry that
/// differs from it only in case is taken; several of them leave it as it was requested.
pub proof fn case_selects_the_spelling(candidates: Seq<Seq<u8>>, name: Seq<u8>, i: int)
    requires
        candidates.len() > 1,
        0 <= i < candidates.len(),
        lowered(candidates[i]) == lowered(name),
        forall|j: int|
            0 <= j < candidates.len() && j != i ==> lowered(#[trigger] candidates[j]) != lowered(
                name,
            ),
    ensures
        stored_spelling(candidates, name, CaseRule::Folds) == Some(candidates[i]),
{
    assert forall|j: int| 0 <= j < candidates.len() && j != i implies folded(
        CaseRule::Folds,
        #[trigger] candidates[j],
    ) != folded(CaseRule::Folds, name) by {
        assert(lowered(candidates[j]) != lowered(name));
    }
    lemma_alike_single(candidates, name, CaseRule::Folds, i);
    if candidates.contains(name) {
        let k: int = choose|k: int| 0 <= k < candidates.len() && candidates[k] == name;
        assert(k == i);
    }
}

/// A lookup that could not be made finds nothing. One that lists nothing is made once
/// more, and after that the requested spelling stands for itself.
pub proof fn lookups_are_repeated_once(earlier: int, name: Seq<u8>, rule: CaseRule)
    requires
        earlier >= 0,
    ensures
        lookup_step(earlier, None, name, rule) == LookupView::Absent,
        lookup_step(earlier, Some(Seq::empty()), name, rule) == (if earlier == 0 {
            LookupView::Again
        } else {
            LookupView::Found(name)
        }),
        forall|candidates: Seq<Seq<u8>>|
            candidates.len() > 0 ==> #[trigger] lookup_step(earlier, Some(candidates), name, rule)
                == LookupView::Found(stored_spelling(candidates, name, rule)->0),
{
}

/// The stored spelling names the entry, and where there is none the requested one does;
/// only a directory that folds case changes it, and only in case.
pub proof fn entries_go_by_their_stored_names(name: Seq<u8>, stored: Seq<u8>, rule: CaseRule)
    ensures
        rule != CaseRule::Folds ==> entry_name(name, Some(stored), rule) == stored && entry_name(
            name,
            None,
            rule,
        ) == name,
        rule == CaseRule::Folds ==> entry_name(name, Some(stored), rule) == lowered(stored)
            && entry_name(name, None, rule) == lowered(name),
        lowered(entry_name(name, Some(stored), rule)) == lowered(stored),
        lowered(entry_name(name, None, rule)) == lowered(name),
{
    assert(lowered(lowered(stored)) =~= lowered(stored));
    assert(lowered(lowered(name)) =~= lowered(name));
}

/// Lowering a name changes its capital letters, and nothing else.
pub proof fn lowering_changes_capitals_only(name: Seq<u8>, i: int)
    requires
        0 <= i < name.len(),
    ensures
        lowered(name).len() == name.len(),
        0x41 <= name[i] <= 0x5a ==> lowered(name)[i] == name[i] + 0x20,
        !(0x41 <= name[i] <= 0x5a) ==> lowered(name)[i] == name[i],
{
}

/// The path of an entry is the directory, one slash, and the name: the name stands at its
/// end behind the slash, whether or not the directory was written with one.
pub proof fn entry_paths_end_in_the_name(namespace: Seq<u8>, name: Seq<u8>, other: Seq<u8>)
    ensures
        ({
            let path = entry_path(namespace, name);
            let at = path.len() - name.len();
            &&& at >= 1
            &&& path.skip(at) == name
            &&& path[at - 1] == 0x2f
            &&& namespace.is_prefix_of(path)
            &&& at <= namespace.len() + 1
        }),
        namespace.len() > 0 && namespace.last() != 0x2f ==> entry_path(
            namespace + seq![0x2fu8],
            name,
        ) == entry_path(namespace, name),
        entry_path(namespace, name) == entry_path(namespace, other) ==> name == other,
{
    let path = entry_path(namespace, name);
    let at: int = path.len() - name.len();
    assert(path.skip(at) =~= name);
    assert(path.subrange(0, namespace.len() as int) =~= namespace);
    assert((namespace + seq![0x2fu8]).last() == 0x2f);
    if entry_path(namespace, name) == entry_path(namespace, other) {
        let second = entry_path(namespace, other);
        assert(second.skip(second.len() - other.len()) =~= other);
        assert(name.len() == other.len());
    }
}

/// Work is known by the path of its entry, and by that of the spelling that it publishes
/// under where there is one; by nothing else.
pub proof fn work_is_known_by_its_paths(key: StaticWorkKey, path: Seq<u8>)
    ensures
        key_paths(key).contains(path) <==> path == entry_path(key.namespace@, key.entry@) || (
        key.published is Some && path == entry_path(key.namespace@, key.published->0@)),
{
    let paths = key_paths(key);
    assert(paths[0] == entry_path(key.namespace@, key.entry@));
    if key.published is Some {
        assert(paths[1] == entry_path(key.namespace@, key.published->0@));
    }
}

/// Going down and up again leads back, a dot leads nowhere, and every other component
/// leads one step down.
pub proof fn components_lead_down_and_up(namespace: Seq<Seq<u8>>, component: Seq<u8>)
    ensures
        extended(namespace, seq![0x2eu8]) == namespace,
        component != seq![0x2eu8] && component != seq![0x2eu8, 0x2eu8] ==> extended(
            namespace,
            component,
        ) == namespace + seq![component] && extended(
            extended(namespace, component),
            seq![0x2eu8, 0x2eu8],
        ) == namespace,
        namespace.len() == 0 ==> extended(namespace, seq![0x2eu8, 0x2eu8]) == namespace,
{
    assert(seq![0x2eu8].len() != seq![0x2eu8, 0x2eu8].len());
    assert(namespace.push(component) =~= namespace + seq![component]);
    assert(namespace.push(component).drop_last() =~= namespace);
}

/// A name is transient exactly if it begins and goes on as those of publishers do; a name
/// that does not begin with a dot never is.
pub proof fn transient_names_begin_with_a_dot(name: Seq<u8>)
    ensures
        name.len() == 0 || name[0] != 0x2e ==> !is_transient(name),
        is_transient(name) ==> name.len() >= 8 && name.take(8) == seq![
            0x2eu8, 0x6c, 0x65, 0x70, 0x74, 0x6f, 0x73, 0x2d,
        ],
{
    if is_transient(name) {
        assert(name.subrange(0, 8) == temp_prefix());
        assert(name.take(8) =~= name.subrange(0, 8));
        assert(name.take(8)[0] == name[0]);
    }
}

/// Requests for names that are the same as the directory compares them have the same key,
/// and are known by the entry that publication replaces. The requested spelling is a key
/// too where it differs from that.
pub proof fn work_keys_follow_the_entry(
    namespace: Vec<u8>,
    name: &Vec<u8>,
    stored: Option<Vec<u8>>,
    rule: CaseRule,
    key: StaticWorkKey,
    paths: Vec<Vec<u8>>,
)
    requires
        call_ensures(static_work_key, (namespace, name, stored, rule), key),
        call_ensures(StaticWorkKey::keys, (&key,), paths),
    ensures
        byte_views(paths@).contains(
            entry_path(
                namespace@,
                if rule == CaseRule::Folds {
                    lowered(name@)
                } else {
                    name@
                },
            ),
        ),
        stored matches Some(spelling) ==> byte_views(paths@).contains(
            entry_path(
                namespace@,
                if rule == CaseRule::Folds {
                    lowered(spelling@)
                } else {
                    spelling@
                },
            ),
        ),
        stored is None ==> paths@.len() == 1,
        1 <= paths@.len() <= 2,
{
    let all = byte_views(paths@);
    assert(all.len() == paths@.len());
    assert(all[0] == entry_path(namespace@, key.entry@));
    if key.published is Some {
        assert(all[1] == entry_path(namespace@, key.published->0@));
    }
}

/// A directory is asked for its rule only on the device of the first that was found, and
/// a missing one leads further up.
pub proof fn rules_are_sought_on_one_device(
    search: &mut CaseSearch,
    later: &mut CaseSearch,
    device: u64,
    other: u64,
    first: SearchStep,
    second: SearchStep,
)
    requires
        old(search).device is None,
        call_ensures(CaseSearch::ascii_case_rule, (search, Ancestor::Directory(device)), first),
        *old(later) == *final(search),
        call_ensures(CaseSearch::ascii_case_rule, (later, Ancestor::Directory(other)), second),
    ensures
        first == SearchStep::Observe,
        other == device ==> second == SearchStep::Observe,
        other != device ==> second == SearchStep::Stop,
{
}

/// An entry is probed under its other case exactly if it has one and is not transient.
pub proof fn probes_ask_for_the_other_case(name: &Vec<u8>, other: Option<Vec<u8>>)
    requires
        call_ensures(probe_name, (name,), other),
    ensures
        other matches Some(probe) ==> probe@ != name@ && lowered(probe@) == lowered(name@)
            && !is_transient(name@),
        !is_transient(name@) && holds_letter(name@) ==> other is Some,
{
    if other is Some {
        probes_differ_in_case_only(name@);
    }
}

} // verus!
