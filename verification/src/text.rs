//! Text as sequences of characters: splitting, trimming, ASCII case and
//! decimal numbers.

use vstd::prelude::*;

verus! {

/// The characters of every piece of `parts`.
pub open spec fn views(parts: Seq<&str>) -> Seq<Seq<char>> {
    parts.map_values(|part: &str| part@)
}

/// The characters of every string of `parts`.
pub open spec fn strings(parts: Seq<String>) -> Seq<Seq<char>> {
    parts.map_values(|part: String| part@)
}

/// The characters of an optional text.
pub open spec fn optional_text(s: Option<String>) -> Option<Seq<char>> {
    match s {
        Some(s) => Some(s@),
        None => None,
    }
}

/// `String::push` appends one character at the end.
pub assume_specification[ String::push ](s: &mut String, c: char)
    ensures
        final(s)@ == old(s)@.push(c),
;

/// What `String::from_utf8` says of bytes that are not well-formed UTF-8.
pub uninterp spec fn utf8_fault(bytes: Seq<u8>) -> Seq<char>;

/// `String::from_utf8` succeeds exactly on well-formed UTF-8, and then holds the
/// characters that the bytes encode. Its error says where the bytes go wrong, by
/// the bytes alone.
#[verifier::external_body]
pub(crate) fn string_from_utf8(bytes: Vec<u8>) -> (text: Result<String, String>)
    ensures
        match text {
            Ok(s) => vstd::utf8::valid_utf8(bytes@) && s@ == vstd::utf8::decode_utf8(bytes@),
            Err(fault) => !vstd::utf8::valid_utf8(bytes@) && fault@ == utf8_fault(bytes@),
        },
{
    String::from_utf8(bytes).map_err(|error| error.to_string())
}

/// The text that `String::from_utf8_lossy` makes of bytes.
pub uninterp spec fn lossy_text(bytes: Seq<u8>) -> Seq<char>;

/// `String::from_utf8_lossy` reads well-formed UTF-8 as what it encodes, and
/// otherwise puts replacement characters in place of what is malformed, by the
/// bytes alone.
#[verifier::external_body]
pub(crate) fn string_from_utf8_lossy(bytes: &[u8]) -> (text: String)
    ensures
        text@ == lossy_text(bytes@),
        vstd::utf8::valid_utf8(bytes@) ==> text@ == vstd::utf8::decode_utf8(bytes@),
{
    String::from_utf8_lossy(bytes).into_owned()
}

/// `std::str::from_utf8` accepts exactly well-formed UTF-8.
#[verifier::external_body]
pub(crate) fn is_utf8(bytes: &[u8]) -> (valid: bool)
    ensures
        valid == vstd::utf8::valid_utf8(bytes@),
{
    std::str::from_utf8(bytes).is_ok()
}

// ---------------------------------------------------------------------------
// Characters
// ---------------------------------------------------------------------------
/// The characters with the Unicode `White_Space` property.
pub open spec fn is_whitespace(c: char) -> bool {
    let n: int = c as int;
    ||| 9 <= n <= 13
    ||| n == 32
    ||| n == 0x85
    ||| n == 0xa0
    ||| n == 0x1680
    ||| 0x2000 <= n <= 0x200a
    ||| n == 0x2028
    ||| n == 0x2029
    ||| n == 0x202f
    ||| n == 0x205f
    ||| n == 0x3000
}

pub fn whitespace(c: char) -> (b: bool)
    ensures
        b == is_whitespace(c),
{
    let n: u32 = c as u32;
    (9 <= n && n <= 13) || n == 32 || n == 0x85 || n == 0xa0 || n == 0x1680 || (0x2000 <= n && n
        <= 0x200a) || n == 0x2028 || n == 0x2029 || n == 0x202f || n == 0x205f || n == 0x3000
}

/// Space and horizontal tab, the optional whitespace of HTTP lists.
pub open spec fn is_blank(c: char) -> bool {
    c == ' ' || c == '\t'
}

pub open spec fn is_digit(c: char) -> bool {
    '0' <= c <= '9'
}

pub open spec fn is_ascii_upper(b: u8) -> bool {
    0x41 <= b <= 0x5a
}

pub open spec fn is_ascii_lower(b: u8) -> bool {
    0x61 <= b <= 0x7a
}

pub open spec fn is_ascii_letter(b: u8) -> bool {
    is_ascii_upper(b) || is_ascii_lower(b)
}

/// ASCII lower case of one byte.
pub open spec fn lower_byte(b: u8) -> u8 {
    if is_ascii_upper(b) {
        (b + 0x20) as u8
    } else {
        b
    }
}

/// ASCII upper case of one byte.
pub open spec fn upper_byte(b: u8) -> u8 {
    if is_ascii_lower(b) {
        (b - 0x20) as u8
    } else {
        b
    }
}

/// ASCII lower case of one character; every other character is kept.
pub open spec fn lower_char(c: char) -> char {
    if 'A' <= c <= 'Z' {
        ((c as u8) + 0x20) as char
    } else {
        c
    }
}

pub open spec fn lowercase(s: Seq<char>) -> Seq<char> {
    s.map_values(|c: char| lower_char(c))
}

/// Equality up to the case of ASCII letters.
pub open spec fn same_ignoring_case(a: Seq<char>, b: Seq<char>) -> bool {
    lowercase(a) == lowercase(b)
}

pub fn to_lower_char(c: char) -> (r: char)
    ensures
        r == lower_char(c),
{
    if 'A' <= c && c <= 'Z' {
        ((c as u8) + 0x20) as char
    } else {
        c
    }
}

/// Collects the characters of `s`.
pub fn chars_of(s: &str) -> (chars: Vec<char>)
    ensures
        chars@ == s@,
{
    let mut chars: Vec<char> = Vec::new();
    for c in it: s.chars()
        invariant
            chars@ == s@.take(it.index() as int),
            it.seq() == s@,
    {
        chars.push(c);
    }
    chars
}

/// Whether two texts are the same characters.
pub fn same_text(a: &str, b: &str) -> (same: bool)
    ensures
        same == (a@ == b@),
{
    let x = chars_of(a);
    let y = chars_of(b);
    if x.len() != y.len() {
        return false;
    }
    let mut i: usize = 0;
    while i < x.len()
        invariant
            x@ == a@,
            y@ == b@,
            x@.len() == y@.len(),
            i <= x.len(),
            x@.take(i as int) == y@.take(i as int),
        decreases x.len() - i,
    {
        if x[i] != y[i] {
            return false;
        }
        proof {
            assert(x@.take(i + 1) =~= x@.take(i as int).push(x@[i as int]));
            assert(y@.take(i + 1) =~= y@.take(i as int).push(y@[i as int]));
        }
        i = i + 1;
    }
    proof {
        assert(x@.take(i as int) =~= x@);
        assert(y@.take(i as int) =~= y@);
    }
    true
}

/// Whether two texts are equal up to the case of ASCII letters.
pub fn eq_ignore_ascii_case(a: &str, b: &str) -> (same: bool)
    ensures
        same == same_ignoring_case(a@, b@),
{
    let x = chars_of(a);
    let y = chars_of(b);
    if x.len() != y.len() {
        proof {
            assert(lowercase(a@).len() != lowercase(b@).len());
        }
        return false;
    }
    let mut i: usize = 0;
    while i < x.len()
        invariant
            x@ == a@,
            y@ == b@,
            x@.len() == y@.len(),
            i <= x.len(),
            forall|j: int| 0 <= j < i ==> lower_char(x@[j]) == lower_char(y@[j]),
        decreases x.len() - i,
    {
        if to_lower_char(x[i]) != to_lower_char(y[i]) {
            proof {
                assert(lowercase(a@)[i as int] != lowercase(b@)[i as int]);
            }
            return false;
        }
        i = i + 1;
    }
    proof {
        assert(lowercase(a@) =~= lowercase(b@));
    }
    true
}

/// Whether two byte strings are equal.
pub fn same_bytes(a: &[u8], b: &[u8]) -> (same: bool)
    ensures
        same == (a@ == b@),
{
    if a.len() != b.len() {
        return false;
    }
    let mut i: usize = 0;
    while i < a.len()
        invariant
            a@.len() == b@.len(),
            i <= a.len(),
            forall|j: int| 0 <= j < i ==> a@[j] == b@[j],
        decreases a.len() - i,
    {
        if a[i] != b[i] {
            return false;
        }
        i = i + 1;
    }
    proof {
        assert(a@ =~= b@);
    }
    true
}

/// Copies a byte string.
pub fn copy_bytes(bytes: &[u8]) -> (copy: Vec<u8>)
    ensures
        copy@ == bytes@,
{
    let mut copy: Vec<u8> = Vec::new();
    let mut i: usize = 0;
    while i < bytes.len()
        invariant
            i <= bytes.len(),
            copy@ == bytes@.take(i as int),
        decreases bytes.len() - i,
    {
        copy.push(bytes[i]);
        proof {
            assert(bytes@.take(i + 1) =~= bytes@.take(i as int).push(bytes@[i as int]));
        }
        i = i + 1;
    }
    proof {
        assert(bytes@.take(i as int) =~= bytes@);
    }
    copy
}

/// Copies a text.
pub fn copy_text(s: &str) -> (copy: String)
    ensures
        copy@ == s@,
{
    s.to_owned()
}

// ---------------------------------------------------------------------------
// Splitting
// ---------------------------------------------------------------------------
/// The pieces of `s` between the occurrences of `sep`, in order. A text without
/// `sep` is its own only piece.
pub open spec fn split(s: Seq<char>, sep: char) -> Seq<Seq<char>>
    decreases s.len(),
{
    if s.contains(sep) {
        let i: int = s.index_of_first(sep)->0;
        if 0 <= i < s.len() {
            seq![s.take(i)] + split(s.skip(i + 1), sep)
        } else {
            seq![s]
        }
    } else {
        seq![s]
    }
}

/// `split` at the first separator.
pub proof fn lemma_split_at(s: Seq<char>, sep: char, i: int)
    requires
        0 <= i < s.len(),
        s[i] == sep,
        forall|j: int| 0 <= j < i ==> s[j] != sep,
    ensures
        split(s, sep) == seq![s.take(i)] + split(s.skip(i + 1), sep),
{
    assert(s.contains(sep));
    s.index_of_first_ensures(sep);
    let k: int = s.index_of_first(sep)->0;
    assert(k == i) by {
        if k < i {
            assert(s[k] == sep);
        } else if i < k {
            assert(s[i] != sep);
        }
    }
}

/// `split` without a separator.
pub proof fn lemma_split_none(s: Seq<char>, sep: char)
    requires
        forall|j: int| 0 <= j < s.len() ==> s[j] != sep,
    ensures
        split(s, sep) == seq![s],
{
    assert(!s.contains(sep));
}

/// No piece of a split holds the separator.
pub proof fn lemma_split_pieces(s: Seq<char>, sep: char)
    ensures
        split(s, sep).len() > 0,
        forall|k: int, j: int|
            0 <= k < split(s, sep).len() && 0 <= j < split(s, sep)[k].len() ==> (#[trigger] split(
                s,
                sep,
            )[k][j]) != sep,
    decreases s.len(),
{
    if s.contains(sep) {
        s.index_of_first_ensures(sep);
        let i: int = s.index_of_first(sep)->0;
        lemma_split_at(s, sep, i);
        lemma_split_pieces(s.skip(i + 1), sep);
        let rest = split(s.skip(i + 1), sep);
        let all = split(s, sep);
        assert forall|k: int, j: int|
            0 <= k < all.len() && 0 <= j < all[k].len() implies (#[trigger] all[k][j]) != sep by {
            if k == 0 {
                assert(all[0] == s.take(i));
            } else {
                assert(all[k] == rest[k - 1]);
                assert(rest[k - 1][j] != sep);
            }
        }
    } else {
        lemma_split_none(s, sep);
    }
}

/// The pieces of `s` between the occurrences of `sep`.
pub fn split_on<'a>(s: &'a str, sep: char) -> (parts: Vec<&'a str>)
    ensures
        views(parts@) == split(s@, sep),
{
    let chars = chars_of(s);
    let mut parts: Vec<&'a str> = Vec::new();
    let mut start: usize = 0;
    let mut i: usize = 0;
    proof {
        assert(s@.skip(0) =~= s@);
        assert(views(parts@) + split(s@, sep) =~= split(s@, sep));
    }
    while i < chars.len()
        invariant
            chars@ == s@,
            start <= i <= chars.len(),
            forall|j: int| start <= j < i ==> s@[j] != sep,
            split(s@, sep) == views(parts@) + split(s@.skip(start as int), sep),
        decreases chars.len() - i,
    {
        if chars[i] == sep {
            let piece = s.substring_char(start, i);
            let ghost before = parts@;
            parts.push(piece);
            proof {
                let tail = s@.skip(start as int);
                lemma_split_at(tail, sep, i - start);
                assert(tail.take(i - start) =~= piece@);
                assert(tail.skip(i - start + 1) =~= s@.skip(i + 1));
                assert(views(parts@) =~= views(before).push(piece@));
                assert(split(s@, sep) =~= views(parts@) + split(s@.skip(i + 1), sep));
            }
            start = i + 1;
        }
        i = i + 1;
    }
    let last = s.substring_char(start, chars.len());
    let ghost before = parts@;
    parts.push(last);
    proof {
        let tail = s@.skip(start as int);
        assert(tail =~= last@);
        lemma_split_none(tail, sep);
        assert(views(parts@) =~= views(before).push(last@));
    }
    parts
}

/// Where `sep` first occurs in `s`, if it does.
pub open spec fn first_index(s: Seq<char>, sep: char) -> Option<int> {
    if s.contains(sep) {
        s.index_of_first(sep)
    } else {
        None
    }
}

/// The text before and after the first `sep`.
pub open spec fn split_once_at(s: Seq<char>, sep: char) -> Option<(Seq<char>, Seq<char>)> {
    match first_index(s, sep) {
        Some(i) => Some((s.take(i), s.skip(i + 1))),
        None => None,
    }
}

pub fn split_once<'a>(s: &'a str, sep: char) -> (r: Option<(&'a str, &'a str)>)
    ensures
        match r {
            Some((a, b)) => split_once_at(s@, sep) == Some((a@, b@)),
            None => split_once_at(s@, sep) is None,
        },
{
    let chars = chars_of(s);
    let mut i: usize = 0;
    while i < chars.len()
        invariant
            chars@ == s@,
            i <= chars.len(),
            forall|j: int| 0 <= j < i ==> s@[j] != sep,
        decreases chars.len() - i,
    {
        if chars[i] == sep {
            proof {
                assert(s@.contains(sep));
                s@.index_of_first_ensures(sep);
                let k: int = s@.index_of_first(sep)->0;
                assert(k == i) by {
                    if k < i {
                        assert(s@[k] == sep);
                    } else if i < k {
                        assert(s@[i as int] != sep);
                    }
                }
                assert(s@.subrange(0, i as int) =~= s@.take(i as int));
                assert(s@.subrange(i + 1, s@.len() as int) =~= s@.skip(i + 1));
            }
            return Some((s.substring_char(0, i), s.substring_char(i + 1, chars.len())));
        }
        i = i + 1;
    }
    proof {
        assert(!s@.contains(sep));
    }
    None
}

// ---------------------------------------------------------------------------
// Trimming
// ---------------------------------------------------------------------------
/// Drops the leading characters that satisfy `p`.
pub open spec fn trim_start_by(s: Seq<char>, p: spec_fn(char) -> bool) -> Seq<char>
    decreases s.len(),
{
    if s.len() > 0 && p(s[0]) {
        trim_start_by(s.skip(1), p)
    } else {
        s
    }
}

/// Drops the trailing characters that satisfy `p`.
pub open spec fn trim_end_by(s: Seq<char>, p: spec_fn(char) -> bool) -> Seq<char>
    decreases s.len(),
{
    if s.len() > 0 && p(s.last()) {
        trim_end_by(s.drop_last(), p)
    } else {
        s
    }
}

/// Drops leading and trailing whitespace.
pub open spec fn trimmed(s: Seq<char>) -> Seq<char> {
    trim_end_by(trim_start_by(s, |c: char| is_whitespace(c)), |c: char| is_whitespace(c))
}

/// Drops leading and trailing spaces and tabs.
pub open spec fn unpadded(s: Seq<char>) -> Seq<char> {
    trim_end_by(trim_start_by(s, |c: char| is_blank(c)), |c: char| is_blank(c))
}

/// Drops the leading occurrences of `c`.
pub open spec fn without_leading(s: Seq<char>, c: char) -> Seq<char>
    decreases s.len(),
{
    if s.len() > 0 && s[0] == c {
        without_leading(s.skip(1), c)
    } else {
        s
    }
}

proof fn lemma_without_leading(s: Seq<char>, c: char, n: int)
    requires
        0 <= n <= s.len(),
        forall|j: int| 0 <= j < n ==> s[j] == c,
        n < s.len() ==> s[n] != c,
    ensures
        without_leading(s, c) == s.skip(n),
    decreases n,
{
    if n == 0 {
        assert(s.skip(0) =~= s);
    } else {
        lemma_without_leading(s.skip(1), c, n - 1);
        assert(s.skip(1).skip(n - 1) =~= s.skip(n));
    }
}

proof fn lemma_trim_start(s: Seq<char>, p: spec_fn(char) -> bool, n: int)
    requires
        0 <= n <= s.len(),
        forall|j: int| 0 <= j < n ==> p(#[trigger] s[j]),
        n < s.len() ==> !p(s[n]),
    ensures
        trim_start_by(s, p) == s.skip(n),
    decreases n,
{
    if n == 0 {
        assert(s.skip(0) =~= s);
    } else {
        assert(p(s[0]));
        let t = s.skip(1);
        assert forall|j: int| 0 <= j < n - 1 implies p(#[trigger] t[j]) by {
            assert(t[j] == s[j + 1]);
        }
        lemma_trim_start(t, p, n - 1);
        assert(t.skip(n - 1) =~= s.skip(n));
    }
}

proof fn lemma_trim_end(s: Seq<char>, p: spec_fn(char) -> bool, n: int)
    requires
        0 <= n <= s.len(),
        forall|j: int| n <= j < s.len() ==> p(#[trigger] s[j]),
        n > 0 ==> !p(s[n - 1]),
    ensures
        trim_end_by(s, p) == s.take(n),
    decreases s.len() - n,
{
    if n == s.len() {
        assert(s.take(n) =~= s);
    } else {
        assert(p(s[s.len() - 1]));
        let t = s.drop_last();
        assert forall|j: int| n <= j < t.len() implies p(#[trigger] t[j]) by {
            assert(t[j] == s[j]);
        }
        lemma_trim_end(t, p, n);
        assert(t.take(n) =~= s.take(n));
    }
}

/// Drops leading and trailing whitespace.
pub fn trim<'a>(s: &'a str) -> (t: &'a str)
    ensures
        t@ == trimmed(s@),
{
    let chars = chars_of(s);
    let ghost p = |c: char| is_whitespace(c);
    let mut a: usize = 0;
    while a < chars.len() && whitespace(chars[a])
        invariant
            chars@ == s@,
            a <= chars.len(),
            p == (|c: char| is_whitespace(c)),
            forall|j: int| 0 <= j < a ==> p(#[trigger] s@[j]),
        decreases chars.len() - a,
    {
        a = a + 1;
    }
    let mut b: usize = chars.len();
    while b > a && whitespace(chars[b - 1])
        invariant
            chars@ == s@,
            a <= b <= chars.len(),
            p == (|c: char| is_whitespace(c)),
            forall|j: int| b <= j < s@.len() ==> p(#[trigger] s@[j]),
        decreases b,
    {
        b = b - 1;
    }
    proof {
        lemma_trim_start(s@, p, a as int);
        let t = s@.skip(a as int);
        assert forall|j: int| b - a <= j < t.len() implies p(#[trigger] t[j]) by {
            assert(t[j] == s@[j + a]);
        }
        lemma_trim_end(t, p, b - a);
        assert(t.take(b - a) =~= s@.subrange(a as int, b as int));
    }
    s.substring_char(a, b)
}

/// Drops leading and trailing spaces and tabs.
pub fn unpad<'a>(s: &'a str) -> (t: &'a str)
    ensures
        t@ == unpadded(s@),
{
    let chars = chars_of(s);
    let ghost p = |c: char| is_blank(c);
    let mut a: usize = 0;
    while a < chars.len() && (chars[a] == ' ' || chars[a] == '\t')
        invariant
            chars@ == s@,
            a <= chars.len(),
            p == (|c: char| is_blank(c)),
            forall|j: int| 0 <= j < a ==> p(#[trigger] s@[j]),
        decreases chars.len() - a,
    {
        a = a + 1;
    }
    let mut b: usize = chars.len();
    while b > a && (chars[b - 1] == ' ' || chars[b - 1] == '\t')
        invariant
            chars@ == s@,
            a <= b <= chars.len(),
            p == (|c: char| is_blank(c)),
            forall|j: int| b <= j < s@.len() ==> p(#[trigger] s@[j]),
        decreases b,
    {
        b = b - 1;
    }
    proof {
        lemma_trim_start(s@, p, a as int);
        let t = s@.skip(a as int);
        assert forall|j: int| b - a <= j < t.len() implies p(#[trigger] t[j]) by {
            assert(t[j] == s@[j + a]);
        }
        lemma_trim_end(t, p, b - a);
        assert(t.take(b - a) =~= s@.subrange(a as int, b as int));
    }
    s.substring_char(a, b)
}

/// Drops the leading occurrences of `c`.
pub fn trim_leading<'a>(s: &'a str, c: char) -> (t: &'a str)
    ensures
        t@ == without_leading(s@, c),
{
    let chars = chars_of(s);
    let mut a: usize = 0;
    while a < chars.len() && chars[a] == c
        invariant
            chars@ == s@,
            a <= chars.len(),
            forall|j: int| 0 <= j < a ==> s@[j] == c,
        decreases chars.len() - a,
    {
        a = a + 1;
    }
    proof {
        lemma_without_leading(s@, c, a as int);
        assert(s@.skip(a as int) =~= s@.subrange(a as int, s@.len() as int));
    }
    s.substring_char(a, chars.len())
}

// ---------------------------------------------------------------------------
// Searching
// ---------------------------------------------------------------------------
pub fn contains_char(s: &str, c: char) -> (b: bool)
    ensures
        b == s@.contains(c),
{
    let chars = chars_of(s);
    let mut i: usize = 0;
    while i < chars.len()
        invariant
            chars@ == s@,
            i <= chars.len(),
            forall|j: int| 0 <= j < i ==> s@[j] != c,
        decreases chars.len() - i,
    {
        if chars[i] == c {
            proof {
                assert(s@[i as int] == c);
            }
            return true;
        }
        i = i + 1;
    }
    false
}

pub fn starts_with_char(s: &str, c: char) -> (b: bool)
    ensures
        b == (s@.len() > 0 && s@[0] == c),
{
    let chars = chars_of(s);
    chars.len() > 0 && chars[0] == c
}

pub fn ends_with_char(s: &str, c: char) -> (b: bool)
    ensures
        b == (s@.len() > 0 && s@.last() == c),
{
    let chars = chars_of(s);
    chars.len() > 0 && chars[chars.len() - 1] == c
}

/// What follows `prefix` in `s`, if `s` begins with it.
pub open spec fn after_prefix(s: Seq<char>, prefix: Seq<char>) -> Option<Seq<char>> {
    if prefix.is_prefix_of(s) {
        Some(s.skip(prefix.len() as int))
    } else {
        None
    }
}

pub fn strip_prefix<'a>(s: &'a str, prefix: &str) -> (r: Option<&'a str>)
    ensures
        match r {
            Some(rest) => after_prefix(s@, prefix@) == Some(rest@),
            None => after_prefix(s@, prefix@) is None,
        },
{
    let n = prefix.unicode_len();
    let m = s.unicode_len();
    if n > m {
        return None;
    }
    let head = s.substring_char(0, n);
    if same_text(head, prefix) {
        let rest = s.substring_char(n, m);
        proof {
            assert(s@.subrange(0, n as int) =~= prefix@);
            assert(rest@ =~= s@.skip(prefix@.len() as int));
        }
        Some(rest)
    } else {
        None
    }
}

/// `s` without one trailing `c`, if it ends with `c`.
pub open spec fn before_suffix(s: Seq<char>, c: char) -> Option<Seq<char>> {
    if s.len() > 0 && s.last() == c {
        Some(s.drop_last())
    } else {
        None
    }
}

pub fn strip_last<'a>(s: &'a str, c: char) -> (r: Option<&'a str>)
    ensures
        match r {
            Some(rest) => before_suffix(s@, c) == Some(rest@),
            None => before_suffix(s@, c) is None,
        },
{
    let n = s.unicode_len();
    if n > 0 && s.get_char(n - 1) == c {
        let rest = s.substring_char(0, n - 1);
        proof {
            assert(rest@ =~= s@.drop_last());
        }
        Some(rest)
    } else {
        None
    }
}

// ---------------------------------------------------------------------------
// Decimal numbers
// ---------------------------------------------------------------------------
pub open spec fn digit_value(c: char) -> nat {
    ((c as int) - 0x30) as nat
}

/// The number that a text of decimal digits denotes.
pub open spec fn decimal_value(s: Seq<char>) -> nat
    decreases s.len(),
{
    if s.len() == 0 {
        0
    } else {
        decimal_value(s.drop_last()) * 10 + digit_value(s.last())
    }
}

pub open spec fn all_digits(s: Seq<char>) -> bool {
    forall|i: int| 0 <= i < s.len() ==> is_digit(#[trigger] s[i])
}

/// The digits of an unsigned decimal literal: an optional `+`, then digits.
pub open spec fn unsigned_digits(s: Seq<char>) -> Seq<char> {
    if s.len() > 0 && s[0] == '+' {
        s.skip(1)
    } else {
        s
    }
}

/// The value of an unsigned decimal literal that fits in `usize`.
pub open spec fn parsed_usize(s: Seq<char>) -> Option<usize> {
    let digits = unsigned_digits(s);
    if digits.len() > 0 && all_digits(digits) && decimal_value(digits) <= usize::MAX {
        Some(decimal_value(digits) as usize)
    } else {
        None
    }
}

proof fn lemma_decimal_prefix(s: Seq<char>, n: int)
    requires
        0 <= n <= s.len(),
    ensures
        decimal_value(s.take(n)) <= decimal_value(s),
    decreases s.len(),
{
    if n == s.len() {
        assert(s.take(n) =~= s);
    } else {
        lemma_decimal_prefix(s.drop_last(), n);
        assert(s.drop_last().take(n) =~= s.take(n));
    }
}

/// Reads an unsigned decimal literal.
pub fn parse_usize(s: &str) -> (r: Option<usize>)
    ensures
        r == parsed_usize(s@),
{
    let chars = chars_of(s);
    let start: usize = if chars.len() > 0 && chars[0] == '+' {
        1
    } else {
        0
    };
    let ghost digits = unsigned_digits(s@);
    proof {
        assert(digits =~= s@.skip(start as int));
    }
    if chars.len() == start {
        return None;
    }
    let mut value: usize = 0;
    let mut i: usize = start;
    while i < chars.len()
        invariant
            chars@ == s@,
            start <= i <= chars.len(),
            digits == s@.skip(start as int),
            digits == unsigned_digits(s@),
            forall|j: int| 0 <= j < i - start ==> is_digit(#[trigger] digits[j]),
            value == decimal_value(digits.take(i - start)),
        decreases chars.len() - i,
    {
        let c = chars[i];
        let ghost n: int = i - start;
        proof {
            assert(digits[n] == c);
            assert(digits.take(n + 1).drop_last() =~= digits.take(n));
            lemma_decimal_prefix(digits, n + 1);
        }
        if !('0' <= c && c <= '9') {
            proof {
                assert(!is_digit(digits[n]));
            }
            return None;
        }
        let d: usize = (c as u32 - 0x30) as usize;
        match value.checked_mul(10) {
            None => {
                return None;
            },
            Some(tens) => match tens.checked_add(d) {
                None => {
                    return None;
                },
                Some(next) => {
                    value = next;
                },
            },
        }
        i = i + 1;
    }
    proof {
        assert(digits.take(i - start) =~= digits);
    }
    Some(value)
}

/// The decimal digits of a number.
pub open spec fn decimal(n: nat) -> Seq<char>
    decreases n,
{
    if n < 10 {
        seq![(0x30 + n) as char]
    } else {
        decimal(n / 10).push((0x30 + n % 10) as char)
    }
}

/// Writes a number in decimal.
pub fn format_decimal(n: u64) -> (s: String)
    ensures
        s@ == decimal(n as nat),
    decreases n,
{
    if n < 10 {
        let mut s = String::new();
        s.push((0x30 + n as u8) as char);
        proof {
            assert(s@ =~= decimal(n as nat));
        }
        s
    } else {
        let mut s = format_decimal(n / 10);
        s.push((0x30 + (n % 10) as u8) as char);
        s
    }
}

/// Reading back what was written gives the number.
pub proof fn lemma_decimal_roundtrip(n: nat)
    ensures
        all_digits(decimal(n)),
        decimal(n).len() > 0,
        decimal_value(decimal(n)) == n,
    decreases n,
{
    if n < 10 {
        reveal_with_fuel(decimal_value, 2);
        assert(decimal(n).drop_last() =~= Seq::<char>::empty());
    } else {
        lemma_decimal_roundtrip(n / 10);
        let s = decimal(n);
        assert(s.drop_last() =~= decimal(n / 10));
        assert forall|i: int| 0 <= i < s.len() implies is_digit(#[trigger] s[i]) by {
            if i < s.len() - 1 {
                assert(s[i] == decimal(n / 10)[i]);
            }
        }
    }
}

/// Joins three texts.
pub fn concat3(a: &str, b: &str, c: &str) -> (s: String)
    ensures
        s@ == a@ + b@ + c@,
{
    let mut s = a.to_owned();
    s.append(b);
    s.append(c);
    s
}

// ---------------------------------------------------------------------------
// Laws
// ---------------------------------------------------------------------------
/// The pieces with a separator between each two.
pub open spec fn rejoined(pieces: Seq<Seq<char>>, sep: char) -> Seq<char>
    decreases pieces.len(),
{
    if pieces.len() == 0 {
        Seq::empty()
    } else if pieces.len() == 1 {
        pieces[0]
    } else {
        pieces[0] + seq![sep] + rejoined(pieces.skip(1), sep)
    }
}

/// Splitting loses nothing: the pieces with the separator between them are the text
/// again, and none of them holds the separator.
pub proof fn split_text_joins_again(s: Seq<char>, sep: char)
    ensures
        rejoined(split(s, sep), sep) == s,
        forall|k: int|
            0 <= k < split(s, sep).len() ==> !(#[trigger] split(s, sep)[k]).contains(sep),
    decreases s.len(),
{
    lemma_split_pieces(s, sep);
    assert forall|k: int| 0 <= k < split(s, sep).len() implies !(#[trigger] split(
        s,
        sep,
    )[k]).contains(sep) by {
        let piece = split(s, sep)[k];
        if piece.contains(sep) {
            let j: int = choose|j: int| 0 <= j < piece.len() && piece[j] == sep;
            assert(split(s, sep)[k][j] != sep);
        }
    }
    if s.contains(sep) {
        s.index_of_first_ensures(sep);
        let i: int = s.index_of_first(sep)->0;
        lemma_split_at(s, sep, i);
        split_text_joins_again(s.skip(i + 1), sep);
        lemma_split_pieces(s.skip(i + 1), sep);
        let rest = split(s.skip(i + 1), sep);
        assert(split(s, sep).skip(1) =~= rest);
        assert(s.take(i) + seq![sep] + s.skip(i + 1) =~= s);
    } else {
        lemma_split_none(s, sep);
    }
}

/// Splitting a text at one of its separators splits both sides of it.
pub proof fn split_sides(a: Seq<char>, b: Seq<char>, sep: char)
    ensures
        split(a + seq![sep] + b, sep) == split(a, sep) + split(b, sep),
    decreases a.len(),
{
    let s = a + seq![sep] + b;
    if a.contains(sep) {
        a.index_of_first_ensures(sep);
        let i: int = a.index_of_first(sep)->0;
        lemma_split_at(a, sep, i);
        assert forall|j: int| 0 <= j < i implies s[j] != sep by {
            assert(s[j] == a[j]);
        }
        lemma_split_at(s, sep, i);
        let tail = a.skip(i + 1);
        assert(s.skip(i + 1) =~= tail + seq![sep] + b);
        assert(s.take(i) =~= a.take(i));
        split_sides(tail, b, sep);
        assert(split(s, sep) =~= split(a, sep) + split(b, sep));
    } else {
        assert forall|j: int| 0 <= j < a.len() implies a[j] != sep by {
            if a[j] == sep {
                assert(a.contains(sep));
            }
        }
        lemma_split_none(a, sep);
        assert forall|j: int| 0 <= j < a.len() implies s[j] != sep by {
            assert(s[j] == a[j]);
        }
        lemma_split_at(s, sep, a.len() as int);
        assert(s.take(a.len() as int) =~= a);
        assert(s.skip(a.len() as int + 1) =~= b);
    }
}

/// What is cut off at the first separator: neither more nor less than the separator
/// stands between the two sides, and the first side does not hold it.
pub proof fn split_once_is_at_the_first(s: Seq<char>, sep: char)
    ensures
        match split_once_at(s, sep) {
            Some((a, b)) => s == a + seq![sep] + b && !a.contains(sep),
            None => !s.contains(sep),
        },
{
    if s.contains(sep) {
        s.index_of_first_ensures(sep);
        let i: int = s.index_of_first(sep)->0;
        assert(s.take(i) + seq![sep] + s.skip(i + 1) =~= s);
        if s.take(i).contains(sep) {
            let j: int = choose|j: int| 0 <= j < i && s.take(i)[j] == sep;
            assert(s[j] == sep);
        }
    }
}

proof fn lemma_start(s: Seq<char>, p: spec_fn(char) -> bool) -> (n: int)
    ensures
        0 <= n <= s.len(),
        trim_start_by(s, p) == s.skip(n),
        forall|j: int| 0 <= j < n ==> p(#[trigger] s[j]),
        n < s.len() ==> !p(s[n]),
    decreases s.len(),
{
    if s.len() > 0 && p(s[0]) {
        let m: int = lemma_start(s.skip(1), p);
        assert(s.skip(1).skip(m) =~= s.skip(m + 1));
        assert forall|j: int| 0 <= j < m + 1 implies p(#[trigger] s[j]) by {
            if j > 0 {
                assert(s.skip(1)[j - 1] == s[j]);
            }
        }
        if m + 1 < s.len() {
            assert(s.skip(1)[m] == s[m + 1]);
        }
        m + 1
    } else {
        assert(s.skip(0) =~= s);
        0
    }
}

proof fn lemma_end(s: Seq<char>, p: spec_fn(char) -> bool) -> (n: int)
    ensures
        0 <= n <= s.len(),
        trim_end_by(s, p) == s.take(n),
        forall|j: int| n <= j < s.len() ==> p(#[trigger] s[j]),
        n > 0 ==> !p(s[n - 1]),
    decreases s.len(),
{
    if s.len() > 0 && p(s.last()) {
        let m: int = lemma_end(s.drop_last(), p);
        assert(s.drop_last().take(m) =~= s.take(m));
        assert forall|j: int| m <= j < s.len() implies p(#[trigger] s[j]) by {
            if j < s.len() - 1 {
                assert(s.drop_last()[j] == s[j]);
            }
        }
        if m > 0 {
            assert(s.drop_last()[m - 1] == s[m - 1]);
        }
        m
    } else {
        assert(s.take(s.len() as int) =~= s);
        s.len() as int
    }
}

/// Whether `t` is a text of which only characters that satisfy `p` are missing at both
/// ends of `s`, and all of those.
pub open spec fn cut_out(s: Seq<char>, t: Seq<char>, p: spec_fn(char) -> bool) -> bool {
    &&& exists|a: int, b: int|
        #![trigger s.subrange(a, b)]
        {
            &&& 0 <= a <= b <= s.len()
            &&& t == s.subrange(a, b)
            &&& forall|j: int| 0 <= j < a ==> p(#[trigger] s[j])
            &&& forall|j: int| b <= j < s.len() ==> p(#[trigger] s[j])
        }
    &&& t.len() > 0 ==> !p(t[0]) && !p(t.last())
}

proof fn lemma_cut_out(s: Seq<char>, p: spec_fn(char) -> bool)
    ensures
        cut_out(s, trim_end_by(trim_start_by(s, p), p), p),
{
    let a: int = lemma_start(s, p);
    let tail = s.skip(a);
    let n: int = lemma_end(tail, p);
    let b: int = a + n;
    assert(tail.take(n) =~= s.subrange(a, b));
    assert forall|j: int| b <= j < s.len() implies p(#[trigger] s[j]) by {
        assert(tail[j - a] == s[j]);
    }
    if n > 0 {
        assert(s.subrange(a, b)[0] == s[a]);
        assert(s.subrange(a, b).last() == tail[n - 1]);
    }
}

/// Trimming cuts whitespace off both ends, all of it, and nothing else.
pub proof fn trimming_cuts_whitespace_only(s: Seq<char>)
    ensures
        cut_out(s, trimmed(s), |c: char| is_whitespace(c)),
{
    lemma_cut_out(s, |c: char| is_whitespace(c));
}

/// Unpadding cuts spaces and tabs off both ends, all of them, and nothing else.
pub proof fn unpadding_cuts_blanks_only(s: Seq<char>)
    ensures
        cut_out(s, unpadded(s), |c: char| c == ' ' || c == '\t'),
{
    let p = |c: char| is_blank(c);
    let q = |c: char| c == ' ' || c == '\t';
    lemma_cut_out(s, p);
    let t = unpadded(s);
    let (a, b) = choose|a: int, b: int|
        #![trigger s.subrange(a, b)]
        {
            &&& 0 <= a <= b <= s.len()
            &&& t == s.subrange(a, b)
            &&& forall|j: int| 0 <= j < a ==> p(#[trigger] s[j])
            &&& forall|j: int| b <= j < s.len() ==> p(#[trigger] s[j])
        };
    assert(t == s.subrange(a, b));
    assert forall|j: int| 0 <= j < a implies q(#[trigger] s[j]) by {
        assert(p(s[j]));
    }
    assert forall|j: int| b <= j < s.len() implies q(#[trigger] s[j]) by {
        assert(p(s[j]));
    }
    if t.len() > 0 {
        assert(!p(t[0]));
        assert(!p(t.last()));
    }
}

/// Leading characters are dropped, all of them, and nothing else.
pub proof fn leading_characters_are_dropped(s: Seq<char>, c: char)
    ensures
        exists|n: int|
            #![trigger s.skip(n)]
            {
                &&& 0 <= n <= s.len()
                &&& without_leading(s, c) == s.skip(n)
                &&& forall|j: int| 0 <= j < n ==> #[trigger] s[j] == c
            },
        without_leading(s, c).len() > 0 ==> without_leading(s, c)[0] != c,
    decreases s.len(),
{
    if s.len() > 0 && s[0] == c {
        let t = s.skip(1);
        leading_characters_are_dropped(t, c);
        let m: int = choose|m: int|
            #![trigger t.skip(m)]
            {
                &&& 0 <= m <= t.len()
                &&& without_leading(t, c) == t.skip(m)
                &&& forall|j: int| 0 <= j < m ==> #[trigger] t[j] == c
            };
        assert(t.skip(m) =~= s.skip(m + 1));
        assert forall|j: int| 0 <= j < m + 1 implies #[trigger] s[j] == c by {
            if j > 0 {
                assert(t[j - 1] == s[j]);
            }
        }
    } else {
        assert(s.skip(0) =~= s);
    }
}

/// Two texts are the same without regard to case exactly if they have the same length
/// and each two characters at one place are the same, or the two cases of one ASCII
/// letter.
pub proof fn case_is_all_that_may_differ(a: Seq<char>, b: Seq<char>)
    ensures
        same_ignoring_case(a, b) <==> a.len() == b.len() && forall|i: int|
            0 <= i < a.len() ==> {
                ||| #[trigger] a[i] == b[i]
                ||| 'A' <= a[i] <= 'Z' && b[i] as int == a[i] as int + 32
                ||| 'A' <= b[i] <= 'Z' && a[i] as int == b[i] as int + 32
            },
{
    if same_ignoring_case(a, b) {
        assert(lowercase(a).len() == lowercase(b).len());
        assert forall|i: int| 0 <= i < a.len() implies {
            ||| #[trigger] a[i] == b[i]
            ||| 'A' <= a[i] <= 'Z' && b[i] as int == a[i] as int + 32
            ||| 'A' <= b[i] <= 'Z' && a[i] as int == b[i] as int + 32
        } by {
            assert(lowercase(a)[i] == lowercase(b)[i]);
            lemma_lower(a[i]);
            lemma_lower(b[i]);
        }
    }
    if a.len() == b.len() && (forall|i: int|
        0 <= i < a.len() ==> {
            ||| #[trigger] a[i] == b[i]
            ||| 'A' <= a[i] <= 'Z' && b[i] as int == a[i] as int + 32
            ||| 'A' <= b[i] <= 'Z' && a[i] as int == b[i] as int + 32
        }) {
        assert forall|i: int| 0 <= i < a.len() implies lowercase(a)[i] == lowercase(b)[i] by {
            lemma_lower(a[i]);
            lemma_lower(b[i]);
            assert(a[i] == b[i] || ('A' <= a[i] <= 'Z' && b[i] as int == a[i] as int + 32) || (
            'A' <= b[i] <= 'Z' && a[i] as int == b[i] as int + 32));
        }
        assert(lowercase(a) =~= lowercase(b));
    }
}

proof fn lemma_lower(c: char)
    ensures
        'A' <= c <= 'Z' ==> lower_char(c) as int == c as int + 32,
        !('A' <= c <= 'Z') ==> lower_char(c) == c,
{
}

/// A number in decimal has no leading zero, and two numbers are never written alike.
pub proof fn decimals_are_canonical(n: nat, m: nat)
    ensures
        n > 0 ==> decimal(n)[0] != '0',
        n == 0 ==> decimal(n) == seq!['0'],
        decimal(n) == decimal(m) ==> n == m,
    decreases n,
{
    lemma_decimal_roundtrip(n);
    lemma_decimal_roundtrip(m);
    if n >= 10 {
        decimals_are_canonical(n / 10, m);
        lemma_decimal_roundtrip(n / 10);
        assert(decimal(n)[0] == decimal(n / 10)[0]);
    }
}

/// An unsigned number is read as what its digits say, with or without a plus sign, and
/// as nothing where there is anything but digits, or where it does not fit.
pub proof fn numbers_are_read_as_written(n: nat)
    ensures
        n <= usize::MAX ==> parsed_usize(decimal(n)) == Some(n as usize) && parsed_usize(
            seq!['+'] + decimal(n),
        ) == Some(n as usize),
        n > usize::MAX ==> parsed_usize(decimal(n)) is None,
{
    lemma_decimal_roundtrip(n);
    let s = decimal(n);
    assert(is_digit(s[0]));
    assert((seq!['+'] + s).skip(1) =~= s);
}

/// A text that is no decimal literal is no number.
pub proof fn other_texts_are_no_numbers(s: Seq<char>, i: int)
    requires
        0 <= i < s.len(),
        !('0' <= s[i] <= '9'),
        i > 0 || s[i] != '+' || s.len() == 1,
    ensures
        parsed_usize(s) is None,
        parsed_usize(Seq::empty()) is None,
{
    let digits = unsigned_digits(s);
    if s[0] == '+' {
        if i > 0 {
            assert(digits[i - 1] == s[i]);
        }
    } else {
        assert(digits[i] == s[i]);
    }
}

/// Spaces, tabs and line breaks are whitespace, and of them spaces and tabs are blanks; no
/// other ASCII character is either.
pub proof fn whitespace_is_not_printed(c: char)
    ensures
        c == ' ' || c == '\t' || c == '\n' || c == '\r' ==> is_whitespace(c),
        '!' <= c && c <= '~' ==> !is_whitespace(c),
        c as int == 0x0b || c as int == 0x0c ==> is_whitespace(c),
        is_whitespace(c) && (c as int) < 0x80 ==> c == ' ' || (9 <= c as int && c as int <= 13),
        is_blank(c) ==> is_whitespace(c),
        is_blank(c) <==> c as int == 32 || c as int == 9,
{
}

/// Trimming leaves what lies between the first and the last character that is no
/// whitespace; unpadding does the same for blanks.
pub proof fn trimmed_texts_lose_only_their_ends(s: &str, t: &str, u: &str)
    requires
        call_ensures(trim, (s,), t),
        call_ensures(unpad, (s,), u),
    ensures
        cut_out(s@, t@, |c: char| is_whitespace(c)),
        cut_out(s@, u@, |c: char| is_blank(c)),
{
    trimming_cuts_whitespace_only(s@);
    unpadding_cuts_blanks_only(s@);
}

/// A text that is split is the pieces with the separator between any two, and no piece
/// holds it.
pub proof fn split_texts_are_their_pieces(s: &str, sep: char, parts: Vec<&str>)
    requires
        call_ensures(split_on, (s, sep), parts),
    ensures
        rejoined(views(parts@), sep) == s@,
        parts@.len() >= 1,
        forall|i: int| 0 <= i < parts@.len() ==> !(#[trigger] parts@[i])@.contains(sep),
{
    split_text_joins_again(s@, sep);
    lemma_split_pieces(s@, sep);
    assert(views(parts@).len() == parts@.len());
    assert forall|i: int| 0 <= i < parts@.len() implies !(#[trigger] parts@[i])@.contains(sep) by {
        assert(views(parts@)[i] == parts@[i]@);
    }
}

/// What was put behind a prefix, or in front of a last character, is found again; a text
/// without that prefix or last character has neither.
pub proof fn ends_are_taken_off(s: Seq<char>, end: Seq<char>, c: char)
    ensures
        after_prefix(end + s, end) == Some(s),
        after_prefix(s, end) matches Some(rest) ==> s == end + rest,
        s.len() < end.len() ==> after_prefix(s, end) is None,
        before_suffix(s.push(c), c) == Some(s),
        before_suffix(s, c) matches Some(rest) ==> s == rest.push(c),
        s.len() == 0 || s.last() != c ==> before_suffix(s, c) is None,
{
    let whole = end + s;
    assert(whole.subrange(0, end.len() as int) =~= end);
    assert(whole.skip(end.len() as int) =~= s);
    assert(s.push(c).drop_last() =~= s);
    if end.is_prefix_of(s) {
        assert(s =~= end + s.skip(end.len() as int));
    }
    if s.len() > 0 && s.last() == c {
        assert(s =~= s.drop_last().push(c));
    }
}

/// What is written in decimal is read as the same number.
pub proof fn numbers_are_written_and_read(n: u64, s: String, t: &str, r: Option<usize>)
    requires
        call_ensures(format_decimal, (n,), s),
        t@ == s@,
        call_ensures(parse_usize, (t,), r),
    ensures
        n <= usize::MAX ==> r == Some(n as usize),
        n > usize::MAX ==> r is None,
        s@.len() > 0,
        n > 0 ==> s@[0] != '0',
        forall|i: int| 0 <= i < s@.len() ==> '0' <= #[trigger] s@[i] && s@[i] <= '9',
{
    numbers_are_read_as_written(n as nat);
    lemma_decimal_roundtrip(n as nat);
    decimals_are_canonical(n as nat, n as nat);
    assert forall|i: int| 0 <= i < s@.len() implies '0' <= #[trigger] s@[i] && s@[i] <= '9' by {
        assert(is_digit(decimal(n as nat)[i]));
    }
}

/// A digit that is put behind a number makes it ten times as large, and adds itself.
pub proof fn digits_have_their_place(n: nat, d: nat)
    requires
        n > 0,
        d < 10,
    ensures
        decimal(10 * n + d).drop_last() == decimal(n),
        decimal(10 * n + d).last() as int == 0x30 + d,
        decimal(d).len() == 1,
        decimal(d)[0] as int == 0x30 + d,
{
    assert((10 * n + d) / 10 == n);
    assert((10 * n + d) % 10 == d);
    assert(decimal(10 * n + d).drop_last() =~= decimal(n));
    assert((0x30 + d) as char as int == 0x30 + d);
}

} // verus!
