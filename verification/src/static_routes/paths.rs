//! From the path of a static route to the file that holds its page.

use crate::files::paths::{self, is_blocked_dot_segment, percent_decode};
use crate::text::{
    self, contains_char, copy_text, ends_with_char, same_text, split_on, trim_leading,
};
use vstd::prelude::*;

verus! {

/// The path with an index name behind a trailing slash.
pub open spec fn indexed(path: Seq<char>) -> Seq<char> {
    if path != "/"@ && path.len() > 0 && path.last() == '/' {
        path + "index"@
    } else {
        path
    }
}

/// The path below the root that a route path stands for; that of the root route is
/// its index.
pub open spec fn logical_path(path: Seq<char>) -> Seq<char> {
    let below = text::without_leading(indexed(path), '/');
    if below.len() == 0 {
        "index"@
    } else {
        below
    }
}

/// The entries that segments spell, or none where one of them may not be written.
/// Empty segments are passed over.
pub open spec fn route_entries(segments: Seq<Seq<char>>) -> Option<Seq<Seq<char>>>
    decreases segments.len(),
{
    if segments.len() == 0 {
        Some(Seq::empty())
    } else {
        match route_entries(segments.drop_last()) {
            None => None,
            Some(entries) => {
                let segment = segments.last();
                if segment.len() == 0 {
                    Some(entries)
                } else {
                    match paths::decoded_segment(segment) {
                        None => None,
                        Some(decoded) => if paths::proper_entry(decoded) {
                            Some(entries.push(decoded))
                        } else {
                            None
                        },
                    }
                }
            },
        }
    }
}

/// The name of the file of an entry.
pub open spec fn html_name(entry: Seq<char>) -> Seq<char> {
    entry + ".html"@
}

/// The entries, from the site root down, of the file that holds a page.
pub open spec fn page_entries(path: Seq<char>) -> Option<Seq<Seq<char>>> {
    match route_entries(text::split(logical_path(path), '/')) {
        None => None,
        Some(entries) => if entries.len() == 0 || paths::blocked(html_name(entries.last())) {
            None
        } else {
            Some(entries.drop_last().push(html_name(entries.last())))
        },
    }
}

proof fn lemma_entries_prefix(segments: Seq<Seq<char>>, n: int)
    requires
        0 <= n <= segments.len(),
        route_entries(segments.take(n)) is None,
    ensures
        route_entries(segments) is None,
    decreases segments.len(),
{
    if n == segments.len() {
        assert(segments.take(n) =~= segments);
    } else {
        assert(segments.drop_last().take(n) =~= segments.take(n));
        lemma_entries_prefix(segments.drop_last(), n);
    }
}

fn read_entries(logical: &str) -> (r: Option<Vec<String>>)
    ensures
        match r {
            Some(entries) => route_entries(text::split(logical@, '/')) == Some(
                text::strings(entries@),
            ),
            None => route_entries(text::split(logical@, '/')) is None,
        },
{
    let parts = split_on(logical, '/');
    let ghost segments = text::split(logical@, '/');
    let mut entries: Vec<String> = Vec::new();
    let mut i: usize = 0;
    proof {
        assert(text::strings(entries@) =~= Seq::empty());
        assert(text::views(parts@).len() == parts@.len());
    }
    while i < parts.len()
        invariant
            i <= parts.len(),
            segments == text::split(logical@, '/'),
            text::views(parts@) == segments,
            segments.len() == parts@.len(),
            route_entries(segments.take(i as int)) == Some(text::strings(entries@)),
        decreases parts.len() - i,
    {
        let segment = parts[i];
        proof {
            assert(text::views(parts@)[i as int] == segment@);
            assert(segments.take(i + 1).drop_last() =~= segments.take(i as int));
            assert(segments.take(i + 1).last() == segment@);
        }
        if segment.unicode_len() > 0 {
            match percent_decode(segment) {
                None => {
                    proof {
                        lemma_entries_prefix(segments, i + 1);
                    }
                    return None;
                },
                Some(decoded) => {
                    let entry = decoded.as_str();
                    if is_blocked_dot_segment(entry) || contains_char(entry, '\0')
                        || contains_char(entry, '/') || contains_char(entry, '\\') {
                        proof {
                            lemma_entries_prefix(segments, i + 1);
                        }
                        return None;
                    }
                    let ghost before = entries@;
                    entries.push(copy_text(entry));
                    proof {
                        assert(text::strings(entries@) =~= text::strings(before).push(entry@));
                    }
                },
            }
        }
        i = i + 1;
    }
    proof {
        assert(segments.take(i as int) =~= segments);
    }
    Some(entries)
}

/// The entries, from the site root down, of the file that holds the page of a route
/// path, or none if the path may not be written.
pub fn static_path(path: &str) -> (r: Option<Vec<String>>)
    ensures
        match r {
            Some(entries) => page_entries(path@) == Some(text::strings(entries@)),
            None => page_entries(path@) is None,
        },
{
    let mut normalized = copy_text(path);
    if !same_text(path, "/") && ends_with_char(path, '/') {
        normalized.append("index");
    }
    let below = trim_leading(normalized.as_str(), '/');
    let logical = if below.unicode_len() == 0 {
        "index"
    } else {
        below
    };
    match read_entries(logical) {
        None => None,
        Some(entries) => {
            let mut entries = entries;
            let ghost all = text::strings(entries@);
            match entries.pop() {
                None => None,
                Some(last) => {
                    let mut name = last;
                    proof {
                        assert(all.last() == name@);
                        assert(text::strings(entries@) =~= all.drop_last());
                    }
                    name.append(".html");
                    if is_blocked_dot_segment(name.as_str()) {
                        return None;
                    }
                    let ghost before = entries@;
                    entries.push(name);
                    proof {
                        assert(text::strings(entries@) =~= text::strings(before).push(name@));
                    }
                    Some(entries)
                },
            }
        },
    }
}

// ---------------------------------------------------------------------------
// Laws
// ---------------------------------------------------------------------------
/// A route path with a trailing slash and the same path with an index name share one
/// file.
pub proof fn index_aliases_share_a_file(path: Seq<char>)
    ensures
        page_entries(path + "/"@) == page_entries(path + "/index"@),
{
    reveal_strlit("/");
    reveal_strlit("/index");
    reveal_strlit("index");
    let slashed = path + "/"@;
    let named = path + "/index"@;
    assert(named.last() == 'x');
    assert(slashed.last() == '/');
    if path.len() == 0 {
        assert(slashed =~= "/"@);
        assert(named =~= "/index"@);
        assert("/"@.skip(1) =~= Seq::<char>::empty());
        assert("/index"@.skip(1) =~= "index"@);
        reveal_with_fuel(text::without_leading, 3);
        assert(text::without_leading("/"@, '/') =~= Seq::<char>::empty());
        assert(text::without_leading("/index"@, '/') =~= "index"@);
    } else {
        assert(slashed.len() > 1);
        assert(slashed != "/"@);
        assert(slashed + "index"@ =~= named);
    }
}

proof fn lemma_entries_proper(segments: Seq<Seq<char>>, i: int)
    requires
        route_entries(segments) is Some,
        0 <= i < route_entries(segments)->0.len(),
    ensures
        paths::proper_entry(route_entries(segments)->0[i]),
    decreases segments.len(),
{
    if segments.len() > 0 {
        let before = route_entries(segments.drop_last())->0;
        if i < before.len() {
            lemma_entries_proper(segments.drop_last(), i);
        }
    }
}

/// A page is written below the site root: none of the entries of its file is hidden,
/// or holds a separator or a NUL. Its file is an HTML file.
pub proof fn pages_stay_below_the_root(path: Seq<char>)
    requires
        page_entries(path) is Some,
    ensures
        page_entries(path)->0.len() > 0,
        forall|i: int|
            0 <= i < page_entries(path)->0.len() ==> paths::proper_entry(
                #[trigger] page_entries(path)->0[i],
            ),
        exists|stem: Seq<char>| page_entries(path)->0.last() == #[trigger] html_name(stem),
{
    reveal_strlit(".html");
    let segments = text::split(logical_path(path), '/');
    let entries = route_entries(segments)->0;
    let page = page_entries(path)->0;
    assert(page.last() == html_name(entries.last()));
    assert forall|i: int| 0 <= i < page.len() implies paths::proper_entry(#[trigger] page[i]) by {
        lemma_entries_proper(segments, i);
        if i < entries.len() - 1 {
            assert(page[i] == entries[i]);
        } else {
            let stem = entries[i];
            let name = page[i];
            assert forall|c: char| c == '\0' || c == '/' || c == '\\' implies !#[trigger] name.contains(
                c,
            ) by {
                if name.contains(c) {
                    let k: int = choose|k: int| 0 <= k < name.len() && name[k] == c;
                    if k < stem.len() {
                        assert(stem[k] == c);
                    } else {
                        assert(name[k] == ".html"@[k - stem.len()]);
                    }
                }
            }
        }
    }
}

/// The names along a route path: its segments that are not empty, and an index name
/// where it is empty or ends in a slash.
pub open spec fn page_names(path: Seq<char>) -> Seq<Seq<char>> {
    let given = text::split(path, '/').filter(|segment: Seq<char>| segment.len() > 0);
    if path.len() == 0 || path.last() == '/' {
        given.push("index"@)
    } else {
        given
    }
}

/// Whether every name decodes to one that may be written.
pub open spec fn writable(names: Seq<Seq<char>>) -> bool {
    forall|i: int|
        0 <= i < names.len() ==> (paths::decoded_segment(#[trigger] names[i]) matches Some(
            name,
        ) && paths::proper_entry(name))
}

proof fn lemma_entries(segments: Seq<Seq<char>>)
    ensures
        ({
            let names = segments.filter(|segment: Seq<char>| segment.len() > 0);
            &&& route_entries(segments) is Some <==> writable(names)
            &&& writable(names) ==> route_entries(segments)->0 == names.map_values(
                |name: Seq<char>| paths::decoded_segment(name)->0,
            )
        }),
    decreases segments.len(),
{
    reveal(Seq::filter);
    let named = |segment: Seq<char>| segment.len() > 0;
    let read = |name: Seq<char>| paths::decoded_segment(name)->0;
    let names = segments.filter(named);
    if segments.len() == 0 {
        assert(names.map_values(read) =~= Seq::empty());
    } else {
        let before = segments.drop_last().filter(named);
        lemma_entries(segments.drop_last());
        let segment = segments.last();
        if segment.len() > 0 {
            assert(names == before.push(segment));
            if writable(names) {
                assert forall|i: int| 0 <= i < before.len() implies (paths::decoded_segment(
                    #[trigger] before[i],
                ) matches Some(name) && paths::proper_entry(name)) by {
                    assert(names[i] == before[i]);
                }
                assert(names[names.len() - 1] == segment);
                assert(names.map_values(read) =~= before.map_values(read).push(read(segment)));
            } else if writable(before) && route_entries(segments) is Some {
                assert forall|i: int| 0 <= i < names.len() implies (paths::decoded_segment(
                    #[trigger] names[i],
                ) matches Some(name) && paths::proper_entry(name)) by {
                    if i < before.len() {
                        assert(names[i] == before[i]);
                    }
                }
            }
        }
    }
}

proof fn lemma_single_piece(piece: Seq<char>)
    requires
        !piece.contains('/'),
    ensures
        text::split(piece, '/').filter(|segment: Seq<char>| segment.len() > 0) == (if piece.len()
            > 0 {
            seq![piece]
        } else {
            Seq::<Seq<char>>::empty()
        }),
{
    reveal(Seq::filter);
    reveal_with_fuel(Seq::filter, 2);
    text::lemma_split_none(piece, '/');
    assert(seq![piece].drop_last() =~= Seq::<Seq<char>>::empty());
    assert(seq![piece].last() == piece);
    assert(Seq::<Seq<char>>::empty().push(piece) =~= seq![piece]);
}

proof fn lemma_sides_named(a: Seq<char>, b: Seq<char>)
    ensures
        ({
            let named = |segment: Seq<char>| segment.len() > 0;
            text::split(a + seq!['/'] + b, '/').filter(named) == text::split(a, '/').filter(named)
                + text::split(b, '/').filter(named)
        }),
{
    text::split_sides(a, b, '/');
    let named = |segment: Seq<char>| segment.len() > 0;
    Seq::filter_distributes_over_add(text::split(a, '/'), text::split(b, '/'), named);
}

proof fn lemma_leading_slashes(s: Seq<char>)
    ensures
        ({
            let named = |segment: Seq<char>| segment.len() > 0;
            text::split(text::without_leading(s, '/'), '/').filter(named) == text::split(
                s,
                '/',
            ).filter(named)
        }),
        s.len() > 0 && s.last() != '/' ==> text::without_leading(s, '/').len() > 0,
    decreases s.len(),
{
    let named = |segment: Seq<char>| segment.len() > 0;
    if s.len() > 0 && s[0] == '/' {
        let rest = s.skip(1);
        lemma_leading_slashes(rest);
        assert(Seq::<char>::empty() + seq!['/'] + rest =~= s);
        lemma_sides_named(Seq::<char>::empty(), rest);
        lemma_single_piece(Seq::<char>::empty());
        assert(Seq::<Seq<char>>::empty() + text::split(rest, '/').filter(named) =~= text::split(
            rest,
            '/',
        ).filter(named));
        if s.len() > 1 {
            assert(rest.last() == s.last());
        }
    }
}

/// The pieces of a path that are not empty.
#[verifier::opaque]
spec fn named_pieces(s: Seq<char>) -> Seq<Seq<char>> {
    text::split(s, '/').filter(|segment: Seq<char>| segment.len() > 0)
}

proof fn lemma_named_pieces(a: Seq<char>, b: Seq<char>)
    ensures
        named_pieces(a + seq!['/'] + b) == named_pieces(a) + named_pieces(b),
        named_pieces(a) == named_pieces(text::without_leading(a, '/')),
        !a.contains('/') && a.len() > 0 ==> named_pieces(a) == seq![a],
        a.len() == 0 ==> named_pieces(a) == Seq::<Seq<char>>::empty(),
        a.len() > 0 && a.last() != '/' ==> named_pieces(a).len() > 0,
{
    reveal(named_pieces);
    lemma_sides_named(a, b);
    lemma_leading_slashes(a);
    if !a.contains('/') {
        lemma_single_piece(a);
    }
    if a.len() > 0 && a.last() != '/' {
        lemma_last_piece(a);
    }
}

proof fn lemma_names_behind_a_slash(path: Seq<char>)
    requires
        path.len() > 0,
        path.last() == '/',
    ensures
        named_pieces(logical_path(path)) == named_pieces(path).push("index"@),
{
    reveal_strlit("/");
    reveal_strlit("index");
    let front = path.drop_last();
    let none = Seq::<char>::empty();
    lemma_named_pieces(front, "index"@);
    lemma_named_pieces(front, none);
    lemma_named_pieces("index"@, none);
    lemma_named_pieces(none, none);
    assert(front + seq!['/'] + "index"@ =~= path + "index"@);
    assert(front + seq!['/'] + none =~= path);
    assert(named_pieces(path) =~= named_pieces(front));
    assert(named_pieces(front) + seq!["index"@] =~= named_pieces(front).push("index"@));
    if path == "/"@ {
        assert(front =~= none);
        assert(path.skip(1) =~= none);
        reveal_with_fuel(text::without_leading, 3);
        assert(text::without_leading(path, '/').len() == 0);
    } else {
        let whole = path + "index"@;
        assert(whole.last() == 'x');
        lemma_named_pieces(whole, none);
        lemma_leading_slashes(whole);
    }
}

proof fn lemma_page_names(path: Seq<char>)
    ensures
        text::split(logical_path(path), '/').filter(|segment: Seq<char>| segment.len() > 0)
            == page_names(path),
        page_names(path).len() > 0,
{
    reveal_strlit("index");
    reveal(named_pieces);
    let none = Seq::<char>::empty();
    if path.len() > 0 && path.last() == '/' {
        lemma_names_behind_a_slash(path);
    } else if path.len() == 0 {
        lemma_named_pieces(path, none);
        lemma_named_pieces("index"@, none);
        assert(named_pieces(path).push("index"@) =~= seq!["index"@]);
    } else {
        lemma_named_pieces(path, none);
        lemma_leading_slashes(path);
    }
}

proof fn lemma_last_piece(path: Seq<char>)
    requires
        path.len() > 0,
        path.last() != '/',
    ensures
        text::split(path, '/').filter(|segment: Seq<char>| segment.len() > 0).len() > 0,
    decreases path.len(),
{
    let named = |segment: Seq<char>| segment.len() > 0;
    if path.contains('/') {
        let i: int = choose|i: int| 0 <= i < path.len() && path[i] == '/';
        let a = path.take(i);
        let b = path.skip(i + 1);
        assert(a + seq!['/'] + b =~= path);
        assert(b.last() == path.last());
        lemma_sides_named(a, b);
        lemma_last_piece(b);
    } else {
        lemma_single_piece(path);
    }
}

/// The file of a page has an entry for every name along the route path, in order: each
/// is the decoded name, and the last has `.html` behind it. There is no file exactly if
/// one of the names may not be written, or the last is empty or begins with a dot.
pub proof fn pages_have_an_entry_for_each_name(path: Seq<char>)
    ensures
        ({
            let names = page_names(path);
            let last = paths::decoded_segment(names.last())->0;
            &&& page_entries(path) is Some <==> writable(names) && last.len() > 0 && last[0] != '.'
            &&& page_entries(path) matches Some(entries) ==> {
                &&& entries.len() == names.len()
                &&& entries.len() > 0
                &&& forall|i: int|
                    0 <= i < entries.len() - 1 ==> Some(#[trigger] entries[i])
                        == paths::decoded_segment(names[i])
                &&& entries.last() == last + ".html"@
                &&& paths::decoded_segment(names.last()) is Some
            }
        }),
{
    reveal_strlit(".html");
    reveal_strlit(".well-known");
    let segments = text::split(logical_path(path), '/');
    let names = page_names(path);
    lemma_page_names(path);
    lemma_entries(segments);
    let last = paths::decoded_segment(names.last())->0;
    assert(names[names.len() - 1] == names.last());
    if writable(names) {
        let entries = route_entries(segments)->0;
        assert(entries.last() == last);
        let name = html_name(last);
        assert(name.last() == 'l');
        assert(".well-known"@.last() == 'n');
        assert(name != ".well-known"@);
        if last.len() > 0 {
            assert(name[0] == last[0]);
        } else {
            assert(name[0] == '.');
        }
        if page_entries(path) is Some {
            let page = page_entries(path)->0;
            assert forall|i: int| 0 <= i < page.len() - 1 implies Some(#[trigger] page[i])
                == paths::decoded_segment(names[i]) by {
                assert(page[i] == entries[i]);
            }
        }
    }
}

/// Pages share a file only where the names along their route paths decode to the same
/// texts.
pub proof fn pages_do_not_collide(a: Seq<char>, b: Seq<char>)
    requires
        page_entries(a) is Some,
        page_entries(a) == page_entries(b),
    ensures
        page_names(a).len() == page_names(b).len(),
        forall|i: int|
            0 <= i < page_names(a).len() ==> paths::decoded_segment(#[trigger] page_names(a)[i])
                == paths::decoded_segment(page_names(b)[i]),
{
    pages_have_an_entry_for_each_name(a);
    pages_have_an_entry_for_each_name(b);
    let entries = page_entries(a)->0;
    let (names, others) = (page_names(a), page_names(b));
    assert forall|i: int| 0 <= i < names.len() implies paths::decoded_segment(#[trigger] names[i])
        == paths::decoded_segment(others[i]) by {
        if i < entries.len() - 1 {
            assert(Some(entries[i]) == paths::decoded_segment(names[i]));
            assert(Some(entries[i]) == paths::decoded_segment(others[i]));
        } else {
            let one = paths::decoded_segment(names.last())->0;
            let other = paths::decoded_segment(others.last())->0;
            assert(one + ".html"@ == other + ".html"@);
            assert(one.len() == other.len());
            assert(one =~= other) by {
                assert forall|k: int| 0 <= k < one.len() implies one[k] == other[k] by {
                    assert((one + ".html"@)[k] == (other + ".html"@)[k]);
                }
            }
        }
    }
}

/// A slash more or less between two names, or in front of the first, changes nothing.
pub proof fn extra_slashes_change_no_page(a: Seq<char>, b: Seq<char>)
    requires
        b.len() > 0,
        a.len() > 0 || b != "/"@,
    ensures
        page_entries(a + seq!['/'] + b) == page_entries(a + seq!['/', '/'] + b),
        page_entries(b) == page_entries(seq!['/'] + b),
{
    let named = |segment: Seq<char>| segment.len() > 0;
    let none = Seq::<char>::empty();
    let inner = seq!['/'] + b;
    lemma_single_piece(none);
    lemma_sides_named(none, b);
    assert(none + seq!['/'] + b =~= inner);
    lemma_sides_named(a, b);
    lemma_sides_named(a, inner);
    assert(a + seq!['/'] + inner =~= a + seq!['/', '/'] + b);
    assert(Seq::<Seq<char>>::empty() + text::split(b, '/').filter(named) =~= text::split(
        b,
        '/',
    ).filter(named));
    assert(inner.last() == b.last());
    assert((a + seq!['/'] + b).last() == b.last());
    assert((a + seq!['/', '/'] + b).last() == b.last());
    lemma_same_names(a + seq!['/'] + b, a + seq!['/', '/'] + b);
    lemma_same_names(b, inner);
}

proof fn lemma_same_names(a: Seq<char>, b: Seq<char>)
    requires
        page_names(a) == page_names(b),
    ensures
        page_entries(a) == page_entries(b),
{
    pages_have_an_entry_for_each_name(a);
    pages_have_an_entry_for_each_name(b);
    if page_entries(a) is Some {
        let (one, other) = (page_entries(a)->0, page_entries(b)->0);
        assert forall|i: int| 0 <= i < one.len() implies one[i] == other[i] by {
            if i < one.len() - 1 {
                assert(Some(one[i]) == paths::decoded_segment(page_names(a)[i]));
                assert(Some(other[i]) == paths::decoded_segment(page_names(a)[i]));
            } else {
                assert(one[i] == one.last());
                assert(other[i] == other.last());
            }
        }
        assert(one =~= other);
    }
}

/// The file of a page has an entry for every name along the route path: the decoded names,
/// in order, the last with `.html` behind it.
pub proof fn page_files_follow_the_route(path: &str, r: Option<Vec<String>>)
    requires
        call_ensures(static_path, (path,), r),
    ensures
        ({
            let names = page_names(path@);
            let last = paths::decoded_segment(names.last())->0;
            &&& r is Some <==> writable(names) && last.len() > 0 && last[0] != '.'
            &&& r matches Some(entries) ==> {
                &&& entries@.len() == names.len()
                &&& entries@.len() > 0
                &&& forall|i: int|
                    0 <= i < entries@.len() - 1 ==> Some((#[trigger] entries@[i])@)
                        == paths::decoded_segment(names[i])
                &&& entries@.last()@ == last + ".html"@
            }
        }),
{
    pages_have_an_entry_for_each_name(path@);
    if let Some(entries) = r {
        let all = text::strings(entries@);
        let names = page_names(path@);
        assert(all.len() == entries@.len());
        assert forall|i: int| 0 <= i < entries@.len() - 1 implies Some((#[trigger] entries@[i])@)
            == paths::decoded_segment(names[i]) by {
            assert(all[i] == entries@[i]@);
        }
        assert(all.last() == entries@.last()@);
    }
}

} // verus!
