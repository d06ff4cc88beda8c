//! From the path of a request to a file below the served directory.

use crate::text::{self, contains_char, copy_text, same_text, split_on, starts_with_char};
use vstd::prelude::*;

verus! {

/// The prefix of well-known URIs (RFC 8615), the one segment with a leading dot
/// that is served.
pub const WELL_KNOWN_SEGMENT: &'static str = ".well-known";

/// Whether a decoded segment is hidden: it begins with a dot and is not the
/// well-known prefix. `.` and `..` are hidden too.
pub open spec fn blocked(segment: Seq<char>) -> bool {
    segment.len() > 0 && segment[0] == '.' && segment != WELL_KNOWN_SEGMENT@
}

/// Whether a decoded segment must be rejected by the dotfile guard.
pub fn is_blocked_dot_segment(segment: &str) -> (b: bool)
    ensures
        b == blocked(segment@),
{
    starts_with_char(segment, '.') && !same_text(segment, WELL_KNOWN_SEGMENT)
}

// ---------------------------------------------------------------------------
// Percent decoding
// ---------------------------------------------------------------------------
pub open spec fn is_hex_digit(b: u8) -> bool {
    0x30 <= b <= 0x39 || 0x41 <= b <= 0x46 || 0x61 <= b <= 0x66
}

pub open spec fn hex_value(b: u8) -> int {
    if b <= 0x39 {
        b - 0x30
    } else if b <= 0x46 {
        b - 0x41 + 10
    } else {
        b - 0x61 + 10
    }
}

/// The bytes with every `%` and two hex digits read as the byte that they spell.
/// Any other `%` stands for itself.
pub open spec fn percent_decoded(bytes: Seq<u8>) -> Seq<u8>
    decreases bytes.len(),
{
    if bytes.len() == 0 {
        Seq::empty()
    } else if bytes[0] == 0x25 && bytes.len() >= 3 && is_hex_digit(bytes[1]) && is_hex_digit(
        bytes[2],
    ) {
        seq![(16 * hex_value(bytes[1]) + hex_value(bytes[2])) as u8] + percent_decoded(
            bytes.skip(3),
        )
    } else {
        seq![bytes[0]] + percent_decoded(bytes.skip(1))
    }
}

/// The text that a segment of a request path spells, if its bytes are UTF-8.
pub open spec fn decoded_segment(segment: Seq<char>) -> Option<Seq<char>> {
    let bytes = percent_decoded(vstd::utf8::encode_utf8(segment));
    if vstd::utf8::valid_utf8(bytes) {
        Some(vstd::utf8::decode_utf8(bytes))
    } else {
        None
    }
}

/// `percent_encoding::percent_decode_str` and the `decode_utf8` of what it yields:
/// the text that the decoded bytes spell, and a failure exactly if they are not
/// UTF-8.
#[verifier::external_body]
pub(crate) fn percent_decode(segment: &str) -> (decoded: Option<String>)
    ensures
        match decoded {
            Some(s) => decoded_segment(segment@) == Some(s@),
            None => decoded_segment(segment@) is None,
        },
{
    percent_encoding::percent_decode_str(segment).decode_utf8().ok().map(|s| s.into_owned())
}

// ---------------------------------------------------------------------------
// Paths below the root
// ---------------------------------------------------------------------------
/// Whether a decoded segment may name an entry of a directory.
pub open spec fn proper_entry(segment: Seq<char>) -> bool {
    !blocked(segment) && !segment.contains('\0') && !segment.contains('/') && !segment.contains(
        '\\',
    )
}

/// The path below the root that raw segments name, or none where one of them may
/// not be served. Empty segments and those that spell `.` are passed over.
pub open spec fn subpath(segments: Seq<Seq<char>>) -> Option<Seq<Seq<char>>>
    decreases segments.len(),
{
    if segments.len() == 0 {
        Some(Seq::empty())
    } else {
        match subpath(segments.drop_last()) {
            None => None,
            Some(path) => {
                let segment = segments.last();
                if segment.len() == 0 {
                    Some(path)
                } else {
                    match decoded_segment(segment) {
                        None => None,
                        Some(decoded) => if decoded == "."@ {
                            Some(path)
                        } else if proper_entry(decoded) {
                            Some(path.push(decoded))
                        } else {
                            None
                        },
                    }
                }
            },
        }
    }
}

proof fn lemma_subpath_prefix(segments: Seq<Seq<char>>, n: int)
    requires
        0 <= n <= segments.len(),
        subpath(segments.take(n)) is None,
    ensures
        subpath(segments) is None,
    decreases segments.len(),
{
    if n == segments.len() {
        assert(segments.take(n) =~= segments);
    } else {
        assert(segments.drop_last().take(n) =~= segments.take(n));
        lemma_subpath_prefix(segments.drop_last(), n);
    }
}

/// The entries, from the served directory down, that a request path names, or none
/// if the path asks for something hidden or outside.
pub fn safe_subpath(raw_path: &str) -> (path: Option<Vec<String>>)
    ensures
        match path {
            Some(entries) => subpath(text::split(raw_path@, '/')) == Some(text::strings(entries@)),
            None => subpath(text::split(raw_path@, '/')) is None,
        },
{
    let parts = split_on(raw_path, '/');
    let ghost segments = text::split(raw_path@, '/');
    let mut entries: Vec<String> = Vec::new();
    let mut i: usize = 0;
    proof {
        assert(text::strings(entries@) =~= Seq::empty());
        assert(text::views(parts@).len() == parts@.len());
    }
    while i < parts.len()
        invariant
            i <= parts.len(),
            segments == text::split(raw_path@, '/'),
            text::views(parts@) == segments,
            segments.len() == parts@.len(),
            subpath(segments.take(i as int)) == Some(text::strings(entries@)),
        decreases parts.len() - i,
    {
        let segment = parts[i];
        proof {
            assert(text::views(parts@)[i as int] == segment@);
            assert(segments.take(i + 1).drop_last() =~= segments.take(i as int));
            assert(segments.take(i + 1).last() == segment@);
        }
        if segment.unicode_len() > 0 {
            match percent_decode(segment) {
                None => {
                    proof {
                        lemma_subpath_prefix(segments, i + 1);
                    }
                    return None;
                },
                Some(decoded) => {
                    let entry = decoded.as_str();
                    if !same_text(entry, ".") {
                        if is_blocked_dot_segment(entry) || contains_char(entry, '\0')
                            || contains_char(entry, '/') || contains_char(entry, '\\') {
                            proof {
                                lemma_subpath_prefix(segments, i + 1);
                            }
                            return None;
                        }
                        let ghost before = entries@;
                        entries.push(copy_text(entry));
                        proof {
                            assert(text::strings(entries@) =~= text::strings(before).push(entry@));
                        }
                    }
                },
            }
        }
        i = i + 1;
    }
    proof {
        assert(segments.take(i as int) =~= segments);
    }
    Some(entries)
}

/// Whether a resolved target may be served: it is a file, and its components begin
/// with those of the root.
pub fn admits_target(root: &Vec<Vec<u8>>, target: &Vec<Vec<u8>>, is_file: bool) -> (admitted: bool)
    ensures
        admitted <==> is_file && component_bytes(root@).is_prefix_of(component_bytes(target@)),
{
    if !is_file {
        return false;
    }
    is_below(root, target)
}

/// The bytes of every component of a path.
pub open spec fn component_bytes(components: Seq<Vec<u8>>) -> Seq<Seq<u8>> {
    components.map_values(|component: Vec<u8>| component@)
}

/// Whether the components of `path` begin with those of `root`.
pub fn is_below(root: &Vec<Vec<u8>>, path: &Vec<Vec<u8>>) -> (below: bool)
    ensures
        below <==> component_bytes(root@).is_prefix_of(component_bytes(path@)),
{
    let ghost outer = component_bytes(root@);
    let ghost inner = component_bytes(path@);
    if root.len() > path.len() {
        return false;
    }
    let mut i: usize = 0;
    while i < root.len()
        invariant
            i <= root.len() <= path.len(),
            outer == component_bytes(root@),
            inner == component_bytes(path@),
            forall|j: int| 0 <= j < i ==> #[trigger] outer[j] == inner[j],
        decreases root.len() - i,
    {
        proof {
            assert(outer[i as int] == root@[i as int]@);
            assert(inner[i as int] == path@[i as int]@);
        }
        if !text::same_bytes(root[i].as_slice(), path[i].as_slice()) {
            proof {
                assert(inner.subrange(0, outer.len() as int)[i as int] == inner[i as int]);
            }
            return false;
        }
        i = i + 1;
    }
    proof {
        assert(outer =~= inner.subrange(0, outer.len() as int));
    }
    true
}

/// The name of a precompressed sibling: the path, a dot, and the extension.
pub fn compressed_path(path: &[u8], extension: &str) -> (sibling: Vec<u8>)
    ensures
        sibling@ == path@ + seq![0x2eu8] + vstd::utf8::encode_utf8(extension@),
{
    let mut sibling = text::copy_bytes(path);
    sibling.push(0x2e);
    let mut tail = text::copy_bytes(extension.as_bytes());
    sibling.append(&mut tail);
    proof {
        assert(sibling@ =~= path@ + seq![0x2eu8] + vstd::utf8::encode_utf8(extension@));
    }
    sibling
}

// ---------------------------------------------------------------------------
// The media type
// ---------------------------------------------------------------------------
/// Where the last dot of a name is; -1 if it has none.
pub open spec fn last_dot(name: Seq<u8>) -> int
    decreases name.len(),
{
    if name.len() == 0 {
        -1
    } else if name.last() == 0x2e {
        name.len() - 1
    } else {
        last_dot(name.drop_last())
    }
}

/// The extension of a file name: what follows its last dot. A dot at the front begins
/// no extension.
pub open spec fn extension(name: Seq<u8>) -> Option<Seq<u8>> {
    if last_dot(name) > 0 && name != seq![0x2eu8, 0x2eu8] {
        Some(name.skip(last_dot(name) + 1))
    } else {
        None
    }
}

/// The extension of a file name, if it is text.
pub open spec fn extension_text(name: Seq<u8>) -> Option<Seq<char>> {
    match extension(name) {
        Some(bytes) => if vstd::utf8::valid_utf8(bytes) {
            Some(vstd::utf8::decode_utf8(bytes))
        } else {
            None
        },
        None => None,
    }
}

/// The extension of a file name, if it is text.
pub fn file_extension(name: &[u8]) -> (found: Option<String>)
    ensures
        text::optional_text(found) == extension_text(name@),
{
    let mut end: usize = name.len();
    proof {
        assert(name@.take(end as int) =~= name@);
    }
    while end > 0 && name[end - 1] != 0x2e
        invariant
            end <= name@.len(),
            last_dot(name@) == last_dot(name@.take(end as int)),
        decreases end,
    {
        proof {
            assert(name@.take(end as int).drop_last() =~= name@.take(end - 1));
            assert(name@.take(end as int).last() == name@[end - 1]);
        }
        end = end - 1;
    }
    proof {
        if end > 0 {
            assert(name@.take(end as int).last() == name@[end - 1]);
            assert(last_dot(name@) == end - 1);
        }
        assert(name@.len() == 2 && name@[0] == 0x2e && name@[1] == 0x2e ==> name@ =~= seq![
            0x2eu8,
            0x2eu8,
        ]);
    }
    if end < 2 || (name.len() == 2 && name[0] == 0x2e && name[1] == 0x2e) {
        return None;
    }
    let mut bytes = text::copy_bytes(name);
    let tail = bytes.split_off(end);
    proof {
        assert(tail@ =~= name@.skip(end as int));
    }
    match text::string_from_utf8(tail) {
        Ok(found) => Some(found),
        Err(_) => None,
    }
}

/// The media type that files with an extension have.
pub uninterp spec fn extension_type(extension: Seq<char>) -> Seq<char>;

/// `ntex_files::file_extension_to_mime`: a media type that depends on the extension
/// alone, given as it is written. An empty extension has the type of plain bytes.
#[verifier::external_body]
fn extension_media_type(extension: &str) -> (media: String)
    ensures
        media@ == extension_type(extension@),
        extension@.len() == 0 ==> media@ == "application/octet-stream"@,
{
    ntex_files::file_extension_to_mime(extension).to_string()
}

/// The media type of a file, which its precompressed siblings are served under too;
/// none if its name has no extension that is text.
pub fn media_type(name: &[u8]) -> (media: Option<String>)
    ensures
        text::optional_text(media) == (match extension_text(name@) {
            Some(extension) => Some(extension_type(extension)),
            None => None,
        }),
        extension(name@) matches Some(bytes) && bytes.len() == 0 ==> (media matches Some(m) && m@
            == "application/octet-stream"@),
{
    match file_extension(name) {
        Some(extension) => Some(extension_media_type(extension.as_str())),
        None => None,
    }
}

// ---------------------------------------------------------------------------
// The package directory
// ---------------------------------------------------------------------------
/// The directory of the package assets, relative to the site root.
pub fn pkg_segment<'a>(site_pkg_dir: &'a str) -> (segment: &'a str)
    ensures
        segment@ == text::without_leading(site_pkg_dir@, '/'),
{
    text::trim_leading(site_pkg_dir, '/')
}

/// The URL prefix under which the package assets are served.
pub fn pkg_prefix(site_pkg_dir: &str) -> (prefix: String)
    ensures
        prefix@ == seq!['/'] + text::without_leading(site_pkg_dir@, '/'),
{
    let mut prefix = String::new();
    prefix.push('/');
    prefix.append(pkg_segment(site_pkg_dir));
    proof {
        assert(prefix@ =~= seq!['/'] + text::without_leading(site_pkg_dir@, '/'));
    }
    prefix
}

/// The part of a request path below the prefix; `/` for a path that is not.
pub fn pkg_relative<'a>(path: &'a str, prefix: &str) -> (rest: &'a str)
    ensures
        rest@ == (match text::after_prefix(path@, prefix@) {
            Some(rest) => rest,
            None => "/"@,
        }),
{
    match text::strip_prefix(path, prefix) {
        Some(rest) => rest,
        None => "/",
    }
}

/// The served root, opened at most once. `opened` is the root that this call
/// opened, where none was stored yet. The first root to be stored is kept, and
/// every caller sees it.
pub fn cached_site_root<R>(cache: &mut Option<R>, opened: Option<R>) -> (stored: bool)
    ensures
        match *old(cache) {
            Some(root) => *final(cache) == Some(root),
            None => *final(cache) == opened,
        },
        stored == (*final(cache) is Some),
{
    if cache.is_some() {
        return true;
    }
    *cache = opened;
    cache.is_some()
}

// ---------------------------------------------------------------------------
// Laws
// ---------------------------------------------------------------------------
/// A path that is admitted stays below the root and names nothing hidden: none of
/// its entries is `.` or `..` or any other dotfile, and none holds a separator or a
/// NUL.
pub proof fn subpaths_stay_below_the_root(segments: Seq<Seq<char>>)
    requires
        subpath(segments) is Some,
    ensures
        forall|i: int|
            0 <= i < subpath(segments)->0.len() ==> proper_entry(
                #[trigger] subpath(segments)->0[i],
            ) && subpath(segments)->0[i] != "."@ && subpath(segments)->0[i] != ".."@,
        subpath(segments)->0.len() <= segments.len(),
    decreases segments.len(),
{
    reveal_strlit(".");
    reveal_strlit("..");
    reveal_strlit(".well-known");
    if segments.len() > 0 {
        subpaths_stay_below_the_root(segments.drop_last());
        let before = subpath(segments.drop_last())->0;
        let path = subpath(segments)->0;
        assert forall|i: int| 0 <= i < path.len() implies proper_entry(#[trigger] path[i])
            && path[i] != "."@ && path[i] != ".."@ by {
            if i < before.len() {
                assert(path[i] == before[i]);
            }
        }
    }
}

/// However a segment is encoded, one that spells something hidden or holds a
/// separator is refused, wherever in the path it stands.
pub proof fn encoded_escapes_are_refused(segments: Seq<Seq<char>>, i: int)
    requires
        0 <= i < segments.len(),
        segments[i].len() > 0,
        decoded_segment(segments[i]) matches Some(decoded) && decoded != "."@ && !proper_entry(
            decoded,
        ),
    ensures
        subpath(segments) is None,
{
    let head = segments.take(i + 1);
    assert(head.drop_last() =~= segments.take(i));
    assert(head.last() == segments[i]);
    assert(subpath(head) is None);
    lemma_subpath_prefix(segments, i + 1);
}

/// An entry may be named exactly if it holds no separator and no NUL, and does not begin
/// with a dot unless it is the well-known prefix.
pub proof fn hidden_entries_are_not_served(entry: Seq<char>)
    ensures
        entry.contains('/') || entry.contains('\\') || entry.contains('\0') ==> !proper_entry(
            entry,
        ),
        entry.len() > 0 && entry[0] == '.' && entry != seq![
            '.', 'w', 'e', 'l', 'l', '-', 'k', 'n', 'o', 'w', 'n',
        ] ==> !proper_entry(entry),
        !entry.contains('/') && !entry.contains('\\') && !entry.contains('\0') && (entry.len() == 0
            || entry[0] != '.' || entry == seq![
            '.', 'w', 'e', 'l', 'l', '-', 'k', 'n', 'o', 'w', 'n',
        ]) ==> proper_entry(entry),
{
    reveal_strlit(".well-known");
    assert(".well-known"@ =~= seq!['.', 'w', 'e', 'l', 'l', '-', 'k', 'n', 'o', 'w', 'n']);
}

/// What one segment of a request path adds: nothing where it is empty or spells a dot,
/// and otherwise its decoded text, if that may be served.
pub proof fn segments_name_their_entries(segment: Seq<char>)
    ensures
        ({
            let path = subpath(seq![segment]);
            let decoded = decoded_segment(segment);
            &&& segment.len() == 0 ==> path == Some(Seq::<Seq<char>>::empty())
            &&& segment.len() > 0 && decoded is None ==> path is None
            &&& segment.len() > 0 && decoded == Some(seq!['.']) ==> path == Some(
                Seq::<Seq<char>>::empty(),
            )
            &&& segment.len() > 0 && decoded is Some && decoded->0 != seq!['.'] ==> path == (
            if proper_entry(decoded->0) {
                Some(seq![decoded->0])
            } else {
                None
            })
        }),
{
    reveal_strlit(".");
    assert("."@ =~= seq!['.']);
    reveal_with_fuel(subpath, 2);
    assert(seq![segment].drop_last() =~= Seq::<Seq<char>>::empty());
    if let Some(decoded) = decoded_segment(segment) {
        assert(Seq::<Seq<char>>::empty().push(decoded) =~= seq![decoded]);
    }
}

/// The entries of two request paths one behind the other are those of the first and then
/// those of the second; there are none where either has none.
pub proof fn entries_follow_the_request_path(a: Seq<Seq<char>>, b: Seq<Seq<char>>)
    ensures
        subpath(a + b) == (match (subpath(a), subpath(b)) {
            (Some(x), Some(y)) => Some(x + y),
            _ => None,
        }),
    decreases b.len(),
{
    if b.len() == 0 {
        assert(a + b =~= a);
        if let Some(x) = subpath(a) {
            assert(x + Seq::<Seq<char>>::empty() =~= x);
        }
    } else {
        assert((a + b).drop_last() =~= a + b.drop_last());
        assert((a + b).last() == b.last());
        entries_follow_the_request_path(a, b.drop_last());
        if subpath(a) is Some && subpath(b.drop_last()) is Some {
            let (x, y) = (subpath(a)->0, subpath(b.drop_last())->0);
            if let Some(decoded) = decoded_segment(b.last()) {
                assert((x + y).push(decoded) =~= x + y.push(decoded));
            }
        }
    }
}

/// Bytes without a percent sign are read as they are.
pub proof fn plain_bytes_are_read_as_they_are(bytes: Seq<u8>)
    requires
        !bytes.contains(0x25),
    ensures
        percent_decoded(bytes) == bytes,
    decreases bytes.len(),
{
    if bytes.len() > 0 {
        let rest = bytes.skip(1);
        assert(bytes.contains(bytes[0]));
        if rest.contains(0x25) {
            let i: int = choose|i: int| 0 <= i < rest.len() && rest[i] == 0x25;
            assert(bytes[i + 1] == 0x25);
        }
        plain_bytes_are_read_as_they_are(rest);
        assert(seq![bytes[0]] + rest =~= bytes);
    } else {
        assert(percent_decoded(bytes) =~= bytes);
    }
}

/// A name with its last dot behind something has what follows as its extension; a name
/// without a dot, or with none but at its front, has none. The parent directory has none
/// either.
pub proof fn extensions_follow_the_last_dot(stem: Seq<u8>, tail: Seq<u8>)
    requires
        !tail.contains(0x2e),
    ensures
        stem.len() > 0 && !(stem == seq![0x2eu8] && tail.len() == 0) ==> extension(
            stem + seq![0x2eu8] + tail,
        ) == Some(tail),
        extension(tail) is None,
        extension(seq![0x2eu8] + tail) is None,
        extension(seq![0x2eu8, 0x2eu8]) is None,
{
    let name = stem + seq![0x2eu8] + tail;
    lemma_last_dot(stem, tail);
    lemma_no_dot(tail);
    lemma_last_dot(Seq::<u8>::empty(), tail);
    assert(Seq::<u8>::empty() + seq![0x2eu8] + tail =~= seq![0x2eu8] + tail);
    assert(name.skip(stem.len() as int + 1) =~= tail);
    if name == seq![0x2eu8, 0x2eu8] {
        assert(name[0] == 0x2e && name[1] == 0x2e);
        if stem.len() == 1 {
            assert(stem =~= seq![0x2eu8]);
        }
    }
}

proof fn lemma_no_dot(name: Seq<u8>)
    requires
        !name.contains(0x2e),
    ensures
        last_dot(name) == -1,
    decreases name.len(),
{
    if name.len() > 0 {
        assert(name.contains(name.last()));
        if name.drop_last().contains(0x2e) {
            let i: int = choose|i: int| 0 <= i < name.len() - 1 && name.drop_last()[i] == 0x2e;
            assert(name[i] == 0x2e);
        }
        lemma_no_dot(name.drop_last());
    }
}

proof fn lemma_last_dot(stem: Seq<u8>, tail: Seq<u8>)
    requires
        !tail.contains(0x2e),
    ensures
        last_dot(stem + seq![0x2eu8] + tail) == stem.len(),
    decreases tail.len(),
{
    let name = stem + seq![0x2eu8] + tail;
    if tail.len() > 0 {
        assert(name.last() == tail.last());
        assert(tail.contains(tail.last()));
        if tail.drop_last().contains(0x2e) {
            let i: int = choose|i: int| 0 <= i < tail.len() - 1 && tail.drop_last()[i] == 0x2e;
            assert(tail[i] == 0x2e);
        }
        lemma_last_dot(stem, tail.drop_last());
        assert(name.drop_last() =~= stem + seq![0x2eu8] + tail.drop_last());
    }
}

/// The entries that a request path names are below the served directory: none of them is
/// hidden, leads up, or holds a separator. A path that begins with a hidden segment names
/// none.
pub proof fn requested_entries_are_below_the_root(raw_path: &str, path: Option<Vec<String>>)
    requires
        call_ensures(safe_subpath, (raw_path,), path),
    ensures
        path matches Some(entries) ==> forall|i: int|
            0 <= i < entries@.len() ==> {
                let entry = (#[trigger] entries@[i])@;
                &&& !entry.contains('/') && !entry.contains('\\') && !entry.contains('\0')
                &&& entry.len() > 0 && entry[0] == '.' ==> entry == WELL_KNOWN_SEGMENT@
            },
        raw_path@.len() == 0 ==> (path matches Some(entries) && entries@.len() == 0),
{
    let segments = text::split(raw_path@, '/');
    if let Some(entries) = path {
        subpaths_stay_below_the_root(segments);
        let all = text::strings(entries@);
        assert(all.len() == entries@.len());
        assert forall|i: int| 0 <= i < entries@.len() implies {
            let entry = (#[trigger] entries@[i])@;
            &&& !entry.contains('/') && !entry.contains('\\') && !entry.contains('\0')
            &&& entry.len() > 0 && entry[0] == '.' ==> entry == WELL_KNOWN_SEGMENT@
        } by {
            assert(all[i] == entries@[i]@);
            assert(proper_entry(subpath(segments)->0[i]));
        }
    }
    if raw_path@.len() == 0 {
        assert(raw_path@ =~= Seq::<char>::empty());
        text::lemma_split_none(raw_path@, '/');
        assert(segments =~= seq![raw_path@]);
        segments_name_their_entries(raw_path@);
        if let Some(entries) = path {
            assert(text::strings(entries@).len() == entries@.len());
        }
    }
}

/// A path is admitted exactly if it is a file and its components begin with those of the
/// root; the root itself, and everything that is put behind it, does.
pub proof fn targets_are_admitted_below_the_root(
    root: &Vec<Vec<u8>>,
    target: &Vec<Vec<u8>>,
    file: bool,
    directory: bool,
)
    requires
        call_ensures(admits_target, (root, target, true), file),
        call_ensures(admits_target, (root, target, false), directory),
    ensures
        !directory,
        target@.len() < root@.len() ==> !file,
        (target@.len() >= root@.len() && forall|i: int|
            0 <= i < root@.len() ==> (#[trigger] target@[i])@ == root@[i]@) ==> file,
        (exists|i: int|
            0 <= i < root@.len() && i < target@.len() && (#[trigger] target@[i])@ != root@[i]@)
            ==> !file,
{
    let outer = component_bytes(root@);
    let inner = component_bytes(target@);
    assert(outer.len() == root@.len() && inner.len() == target@.len());
    if target@.len() >= root@.len() && forall|i: int|
        0 <= i < root@.len() ==> (#[trigger] target@[i])@ == root@[i]@ {
        assert forall|i: int| 0 <= i < outer.len() implies outer[i] == inner[i] by {
            assert(target@[i]@ == root@[i]@);
        }
        assert(outer =~= inner.subrange(0, outer.len() as int));
    }
    if exists|i: int|
        0 <= i < root@.len() && i < target@.len() && (#[trigger] target@[i])@ != root@[i]@ {
        let i: int = choose|i: int|
            0 <= i < root@.len() && i < target@.len() && (#[trigger] target@[i])@ != root@[i]@;
        assert(outer[i] == root@[i]@ && inner[i] == target@[i]@);
        if outer.is_prefix_of(inner) {
            assert(inner.subrange(0, outer.len() as int)[i] == inner[i]);
        }
    }
}

/// The package directory is served under itself, with one slash in front however it was
/// configured, and what is below it is found by the rest of the path.
pub proof fn package_paths_follow_the_prefix(
    dir: &str,
    prefix: String,
    shown: &str,
    path: &str,
    rest: &str,
)
    requires
        call_ensures(pkg_prefix, (dir,), prefix),
        shown@ == prefix@,
        call_ensures(pkg_relative, (path, shown), rest),
    ensures
        prefix@.len() > 0 && prefix@[0] == '/',
        prefix@.len() > 1 ==> prefix@[1] != '/',
        prefix@.is_prefix_of(path@) ==> path@ == prefix@ + rest@,
        !prefix@.is_prefix_of(path@) ==> rest@ == seq!['/'],
{
    reveal_strlit("/");
    assert("/"@ =~= seq!['/']);
    text::leading_characters_are_dropped(dir@, '/');
    if prefix@.is_prefix_of(path@) {
        assert(path@ =~= prefix@ + path@.skip(prefix@.len() as int));
    }
}

/// A sibling of a file has its name, a dot and the ending.
pub proof fn siblings_are_named_after_the_file(
    path: &[u8],
    other: &[u8],
    extension: &str,
    first: Vec<u8>,
    second: Vec<u8>,
)
    requires
        call_ensures(compressed_path, (path, extension), first),
        call_ensures(compressed_path, (other, extension), second),
    ensures
        path@.is_prefix_of(first@),
        first@[path@.len() as int] == 0x2e,
        first@.skip(path@.len() as int + 1) == vstd::utf8::encode_utf8(extension@),
        first@ == second@ ==> path@ == other@,
{
    let tail = vstd::utf8::encode_utf8(extension@);
    assert(first@.subrange(0, path@.len() as int) =~= path@);
    assert(second@.subrange(0, other@.len() as int) =~= other@);
    assert(first@.skip(path@.len() as int + 1) =~= tail);
}

/// The first root that was opened is kept, and every later call sees it.
pub proof fn the_first_root_is_kept<R>(
    cache: &mut Option<R>,
    later: &mut Option<R>,
    first: R,
    second: Option<R>,
    r: bool,
    s: bool,
)
    requires
        *old(cache) is None,
        call_ensures(cached_site_root::<R>, (cache, Some(first)), r),
        *old(later) == *final(cache),
        call_ensures(cached_site_root::<R>, (later, second), s),
    ensures
        r && s,
        *final(later) == Some(first),
{
}

} // verus!
