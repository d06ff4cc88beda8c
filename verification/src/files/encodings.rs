//! Which stored encoding of a file answers a request.

use crate::http::{self, header_values, HeaderValue};
use crate::response::Weight;
use crate::text::{self, eq_ignore_ascii_case, same_text, split_on, split_once, trim};
use ntex::http::HeaderMap;
use vstd::prelude::*;

verus! {

/// The weight of a coding that is listed without one: that of the quality value 1.
pub const FULL_WEIGHT: Weight = 0x3f80_0000;

// ---------------------------------------------------------------------------
// Reading `Accept-Encoding`
// ---------------------------------------------------------------------------
/// A member of an `Accept-Encoding` list: its coding, and the texts of its `q`
/// parameters, in order.
pub struct EncodingMember {
    pub token: String,
    pub weights: Vec<String>,
}

/// The text of a `q` parameter, none if the parameter is another one.
pub open spec fn weight_text(parameter: Seq<char>) -> Option<Seq<char>> {
    match text::split_once_at(text::trimmed(parameter), '=') {
        Some((name, value)) => if text::same_ignoring_case(text::trimmed(name), "q"@) {
            Some(value)
        } else {
            None
        },
        None => None,
    }
}

/// The texts of the `q` parameters among `parameters`.
pub open spec fn weight_texts(parameters: Seq<Seq<char>>) -> Seq<Seq<char>>
    decreases parameters.len(),
{
    if parameters.len() == 0 {
        Seq::empty()
    } else {
        let rest = weight_texts(parameters.drop_last());
        match weight_text(parameters.last()) {
            Some(value) => rest.push(value),
            None => rest,
        }
    }
}

/// The coding of a list member and the texts of its `q` parameters.
pub open spec fn member(item: Seq<char>) -> (Seq<char>, Seq<Seq<char>>) {
    let parts = text::split(item, ';');
    (text::trimmed(parts[0]), weight_texts(parts.skip(1)))
}

pub open spec fn member_view(entry: EncodingMember) -> (Seq<char>, Seq<Seq<char>>) {
    (entry.token@, text::strings(entry.weights@))
}

pub open spec fn member_views(members: Seq<EncodingMember>) -> Seq<(Seq<char>, Seq<Seq<char>>)> {
    members.map_values(|entry: EncodingMember| member_view(entry))
}

/// The members of every line that can be read as text.
pub open spec fn listed_members(lines: Seq<Seq<u8>>) -> Seq<(Seq<char>, Seq<Seq<char>>)>
    decreases lines.len(),
{
    if lines.len() == 0 {
        Seq::empty()
    } else {
        let rest = listed_members(lines.drop_last());
        match http::value_text(lines.last()) {
            Some(line) => rest + text::split(line, ',').map_values(|item: Seq<char>| member(item)),
            None => rest,
        }
    }
}

fn read_weight_text(parameter: &str) -> (value: Option<String>)
    ensures
        text::optional_text(value) == weight_text(parameter@),
{
    match split_once(trim(parameter), '=') {
        Some((name, value)) => if eq_ignore_ascii_case(trim(name), "q") {
            Some(text::copy_text(value))
        } else {
            None
        },
        None => None,
    }
}

fn read_member(item: &str) -> (entry: EncodingMember)
    ensures
        member_view(entry) == member(item@),
{
    let parts = split_on(item, ';');
    let ghost pieces = text::split(item@, ';');
    let ghost parameters = pieces.skip(1);
    proof {
        assert(text::views(parts@).len() == parts@.len());
        assert(text::views(parts@)[0] == parts@[0]@);
    }
    let token = text::copy_text(trim(parts[0]));
    let mut weights: Vec<String> = Vec::new();
    let mut i: usize = 1;
    proof {
        assert(parameters.take(0) =~= Seq::empty());
        assert(text::strings(weights@) =~= Seq::empty());
    }
    while i < parts.len()
        invariant
            1 <= i <= parts.len(),
            pieces == text::split(item@, ';'),
            parameters == pieces.skip(1),
            text::views(parts@) == pieces,
            pieces.len() == parts@.len(),
            text::strings(weights@) == weight_texts(parameters.take(i - 1)),
        decreases parts.len() - i,
    {
        let ghost before = weights@;
        proof {
            assert(text::views(parts@)[i as int] == parts@[i as int]@);
            assert(parameters.take(i as int).drop_last() =~= parameters.take(i - 1));
            assert(parameters.take(i as int).last() == parts@[i as int]@);
        }
        if let Some(value) = read_weight_text(parts[i]) {
            weights.push(value);
            proof {
                assert(text::strings(weights@) =~= text::strings(before).push(value@));
            }
        }
        i = i + 1;
    }
    proof {
        assert(parameters.take(i - 1) =~= parameters);
    }
    EncodingMember { token, weights }
}

/// The members of every `Accept-Encoding` line of a request, in order. Lines that
/// cannot be read as text are passed over.
pub fn encoding_members(headers: &HeaderMap) -> (members: Vec<EncodingMember>)
    ensures
        member_views(members@) == listed_members(http::values_of(*headers, "accept-encoding"@)),
{
    let fields = header_values(headers, "accept-encoding");
    let ghost lines = http::values_of(*headers, "accept-encoding"@);
    let mut members: Vec<EncodingMember> = Vec::new();
    let mut i: usize = 0;
    proof {
        assert(http::value_bytes(fields@).len() == fields@.len());
        assert(lines.take(0) =~= Seq::empty());
        assert(member_views(members@) =~= Seq::empty());
    }
    while i < fields.len()
        invariant
            i <= fields.len(),
            http::value_bytes(fields@) == lines,
            lines.len() == fields@.len(),
            member_views(members@) == listed_members(lines.take(i as int)),
        decreases fields.len() - i,
    {
        proof {
            assert(http::value_bytes(fields@)[i as int] == fields@[i as int]@);
            assert(lines.take(i + 1).drop_last() =~= lines.take(i as int));
            assert(lines.take(i + 1).last() == fields@[i as int]@);
        }
        if let Some(line) = fields[i].to_text() {
            read_members(line.as_str(), &mut members);
        }
        i = i + 1;
    }
    proof {
        assert(lines.take(i as int) =~= lines);
    }
    members
}

fn read_members(line: &str, members: &mut Vec<EncodingMember>)
    ensures
        member_views(final(members)@) == member_views(old(members)@) + text::split(
            line@,
            ',',
        ).map_values(|item: Seq<char>| member(item)),
{
    let items = split_on(line, ',');
    let ghost pieces = text::split(line@, ',');
    let ghost before = member_views(members@);
    let mut i: usize = 0;
    proof {
        assert(text::views(items@).len() == items@.len());
        assert(member_views(members@) =~= before + pieces.take(0).map_values(
            |item: Seq<char>| member(item),
        ));
    }
    while i < items.len()
        invariant
            i <= items.len(),
            text::views(items@) == pieces,
            pieces.len() == items@.len(),
            member_views(members@) == before + pieces.take(i as int).map_values(
                |item: Seq<char>| member(item),
            ),
        decreases items.len() - i,
    {
        let ghost sofar = members@;
        proof {
            assert(text::views(items@)[i as int] == items@[i as int]@);
        }
        let entry = read_member(items[i]);
        members.push(entry);
        proof {
            assert(member_views(members@) =~= member_views(sofar).push(member(pieces[i as int])));
            assert(pieces.take(i + 1).map_values(|item: Seq<char>| member(item)) =~= pieces.take(
                i as int,
            ).map_values(|item: Seq<char>| member(item)).push(member(pieces[i as int])));
        }
        i = i + 1;
    }
    proof {
        assert(pieces.take(i as int) =~= pieces);
    }
}

// ---------------------------------------------------------------------------
// What is accepted
// ---------------------------------------------------------------------------
/// A coding of an `Accept-Encoding` list, with what each of its `q` parameters
/// denotes; one that is no quality value denotes nothing.
pub struct Coding {
    pub token: String,
    pub weights: Vec<Option<Weight>>,
}

/// The codings that a request accepts. A weight is present only where it is above
/// zero.
#[derive(Clone, Copy, Debug, PartialEq, Eq)]
pub struct AcceptedEncodings {
    pub br: Option<Weight>,
    pub gzip: Option<Weight>,
    /// Whether the plain file is acceptable.
    pub identity: bool,
    /// The weight that the request gives the plain file, where it gives one.
    pub identity_q: Option<Weight>,
}

/// What a coding weighs: its last quality value, or the full weight.
pub open spec fn weight_of(weights: Seq<Option<Weight>>) -> Weight
    decreases weights.len(),
{
    if weights.len() == 0 {
        FULL_WEIGHT
    } else {
        match weights.last() {
            Some(weight) => weight,
            None => weight_of(weights.drop_last()),
        }
    }
}

/// The codings that this server knows. Names are compared without regard to case.
#[derive(Clone, Copy, Debug, PartialEq, Eq, Structural)]
pub enum CodingName {
    Br,
    Gzip,
    Identity,
    /// `*`
    Any,
    Unknown,
}

pub open spec fn coding_name(token: Seq<char>) -> CodingName {
    if text::same_ignoring_case(token, "br"@) {
        CodingName::Br
    } else if text::same_ignoring_case(token, "gzip"@) {
        CodingName::Gzip
    } else if text::same_ignoring_case(token, "identity"@) {
        CodingName::Identity
    } else if token == "*"@ {
        CodingName::Any
    } else {
        CodingName::Unknown
    }
}

/// The weight of a coding among `codings`. The last member that names it counts.
pub open spec fn listed_weight(codings: Seq<Coding>, name: CodingName) -> Option<Weight>
    decreases codings.len(),
{
    if codings.len() == 0 {
        None
    } else if coding_name(codings.last().token@) == name {
        Some(weight_of(codings.last().weights@))
    } else {
        listed_weight(codings.drop_last(), name)
    }
}

/// The weight of a stored encoding: its own or that of `*`, where above zero.
pub open spec fn effective_weight(own: Option<Weight>, any: Option<Weight>) -> Option<Weight> {
    let weight = match own {
        Some(weight) => Some(weight),
        None => any,
    };
    if weight == Some(0u32) {
        None
    } else {
        weight
    }
}

/// What a list of codings accepts.
pub open spec fn accepted(codings: Seq<Coding>) -> AcceptedEncodings {
    let any = listed_weight(codings, CodingName::Any);
    let identity_q = listed_weight(codings, CodingName::Identity);
    AcceptedEncodings {
        br: effective_weight(listed_weight(codings, CodingName::Br), any),
        gzip: effective_weight(listed_weight(codings, CodingName::Gzip), any),
        identity: match identity_q {
            Some(weight) => weight > 0,
            None => any != Some(0u32),
        },
        identity_q,
    }
}

fn read_coding_name(token: &str) -> (name: CodingName)
    ensures
        name == coding_name(token@),
{
    if eq_ignore_ascii_case(token, "br") {
        CodingName::Br
    } else if eq_ignore_ascii_case(token, "gzip") {
        CodingName::Gzip
    } else if eq_ignore_ascii_case(token, "identity") {
        CodingName::Identity
    } else if same_text(token, "*") {
        CodingName::Any
    } else {
        CodingName::Unknown
    }
}

fn read_weight(weights: &Vec<Option<Weight>>) -> (weight: Weight)
    ensures
        weight == weight_of(weights@),
{
    let mut weight: Weight = FULL_WEIGHT;
    let mut i: usize = 0;
    proof {
        assert(weights@.take(0) =~= Seq::empty());
    }
    while i < weights.len()
        invariant
            i <= weights.len(),
            weight == weight_of(weights@.take(i as int)),
        decreases weights.len() - i,
    {
        proof {
            assert(weights@.take(i + 1).drop_last() =~= weights@.take(i as int));
            assert(weights@.take(i + 1).last() == weights@[i as int]);
        }
        if let Some(parsed) = weights[i] {
            weight = parsed;
        }
        i = i + 1;
    }
    proof {
        assert(weights@.take(i as int) =~= weights@);
    }
    weight
}

fn positive(own: Option<Weight>, any: Option<Weight>) -> (weight: Option<Weight>)
    ensures
        weight == effective_weight(own, any),
{
    let weight = match own {
        Some(weight) => Some(weight),
        None => any,
    };
    match weight {
        Some(0) => None,
        other => other,
    }
}

/// The codings that a request accepts.
pub fn accepted_encodings(codings: &Vec<Coding>) -> (encodings: AcceptedEncodings)
    ensures
        encodings == accepted(codings@),
{
    let mut br: Option<Weight> = None;
    let mut gzip: Option<Weight> = None;
    let mut any: Option<Weight> = None;
    let mut identity_q: Option<Weight> = None;
    let mut i: usize = 0;
    proof {
        assert(codings@.take(0) =~= Seq::empty());
    }
    while i < codings.len()
        invariant
            i <= codings.len(),
            br == listed_weight(codings@.take(i as int), CodingName::Br),
            gzip == listed_weight(codings@.take(i as int), CodingName::Gzip),
            any == listed_weight(codings@.take(i as int), CodingName::Any),
            identity_q == listed_weight(codings@.take(i as int), CodingName::Identity),
        decreases codings.len() - i,
    {
        proof {
            assert(codings@.take(i + 1).drop_last() =~= codings@.take(i as int));
            assert(codings@.take(i + 1).last() == codings@[i as int]);
        }
        let weight = read_weight(&codings[i].weights);
        match read_coding_name(codings[i].token.as_str()) {
            CodingName::Br => {
                br = Some(weight);
            },
            CodingName::Gzip => {
                gzip = Some(weight);
            },
            CodingName::Identity => {
                identity_q = Some(weight);
            },
            CodingName::Any => {
                any = Some(weight);
            },
            CodingName::Unknown => {},
        }
        i = i + 1;
    }
    proof {
        assert(codings@.take(i as int) =~= codings@);
    }
    let identity = match identity_q {
        Some(weight) => weight > 0,
        None => match any {
            Some(0) => false,
            _ => true,
        },
    };
    AcceptedEncodings { br: positive(br, any), gzip: positive(gzip, any), identity, identity_q }
}

// ---------------------------------------------------------------------------
// Stored encodings
// ---------------------------------------------------------------------------
/// A precompressed sibling of a file.
#[derive(Clone, Copy, Debug, PartialEq, Eq, Structural)]
pub enum Precompressed {
    Br,
    Gzip,
}

impl Precompressed {
    /// The extension of the sibling.
    pub fn extension(self) -> (extension: &'static str)
        ensures
            extension@ == (match self {
                Precompressed::Br => "br"@,
                Precompressed::Gzip => "gz"@,
            }),
    {
        match self {
            Precompressed::Br => "br",
            Precompressed::Gzip => "gz",
        }
    }

    /// The `Content-Encoding` of the sibling.
    pub open spec fn coding(self) -> Seq<char> {
        match self {
            Precompressed::Br => "br"@,
            Precompressed::Gzip => "gzip"@,
        }
    }

    /// The `Content-Encoding` that is sent with the sibling.
    pub fn header_value(self) -> (value: &'static str)
        ensures
            value@ == self.coding(),
    {
        match self {
            Precompressed::Br => "br",
            Precompressed::Gzip => "gzip",
        }
    }

    /// The weight that a request gives the encoding.
    pub open spec fn weight(self, encodings: AcceptedEncodings) -> Option<Weight> {
        match self {
            Precompressed::Br => encodings.br,
            Precompressed::Gzip => encodings.gzip,
        }
    }
}

/// The accepted encodings, most preferred first. At an equal weight brotli goes
/// first, which is the smaller transfer.
pub open spec fn preference(encodings: AcceptedEncodings) -> Seq<Precompressed> {
    match (encodings.br, encodings.gzip) {
        (None, None) => seq![],
        (Some(_), None) => seq![Precompressed::Br],
        (None, Some(_)) => seq![Precompressed::Gzip],
        (Some(br), Some(gzip)) => if gzip > br {
            seq![Precompressed::Gzip, Precompressed::Br]
        } else {
            seq![Precompressed::Br, Precompressed::Gzip]
        },
    }
}

/// The accepted precompressed variants, most preferred first.
pub fn precompressed_preference(encodings: AcceptedEncodings) -> (variants: Vec<Precompressed>)
    ensures
        variants@ == preference(encodings),
{
    let mut variants: Vec<Precompressed> = Vec::new();
    match (encodings.br, encodings.gzip) {
        (None, None) => {},
        (Some(_), None) => {
            variants.push(Precompressed::Br);
        },
        (None, Some(_)) => {
            variants.push(Precompressed::Gzip);
        },
        (Some(br), Some(gzip)) => {
            if gzip > br {
                variants.push(Precompressed::Gzip);
                variants.push(Precompressed::Br);
            } else {
                variants.push(Precompressed::Br);
                variants.push(Precompressed::Gzip);
            }
        },
    }
    proof {
        assert(variants@ =~= preference(encodings));
    }
    variants
}

/// One way to answer a request for a file. They are tried in order until one works.
#[derive(Clone, Copy, Debug, PartialEq, Eq, Structural)]
pub enum Attempt {
    /// Serve the precompressed sibling, if it opens.
    Variant(Precompressed),
    /// Serve the plain file, if it opens.
    Plain,
    /// Refuse: nothing that is stored is acceptable.
    Refuse,
}

/// Whether a request wants the plain file rather than this encoding.
pub open spec fn outweighed(encodings: AcceptedEncodings, variant: Precompressed) -> bool {
    match encodings.identity_q {
        Some(identity) => identity > (match variant.weight(encodings) {
            Some(weight) => weight,
            None => 0,
        }),
        None => false,
    }
}

/// The preferred encodings that the plain file does not outweigh.
pub open spec fn competing(
    encodings: AcceptedEncodings,
    variants: Seq<Precompressed>,
) -> Seq<Attempt>
    decreases variants.len(),
{
    if variants.len() == 0 {
        Seq::empty()
    } else {
        let rest = competing(encodings, variants.drop_last());
        if outweighed(encodings, variants.last()) {
            rest
        } else {
            rest.push(Attempt::Variant(variants.last()))
        }
    }
}

/// The ways to answer a request for a file, in order.
pub open spec fn attempts(encodings: AcceptedEncodings) -> Seq<Attempt> {
    competing(encodings, preference(encodings)).push(
        if encodings.identity {
            Attempt::Plain
        } else {
            Attempt::Refuse
        },
    )
}

/// Plans how a file is opened: the acceptable siblings, and then the plain file or
/// a refusal. A request is answered by the first attempt that works.
pub fn open_static_file(encodings: AcceptedEncodings) -> (plan: Vec<Attempt>)
    ensures
        plan@ == attempts(encodings),
{
    let variants = precompressed_preference(encodings);
    let mut plan: Vec<Attempt> = Vec::new();
    let mut i: usize = 0;
    proof {
        assert(variants@.take(0) =~= Seq::empty());
    }
    while i < variants.len()
        invariant
            i <= variants.len(),
            plan@ == competing(encodings, variants@.take(i as int)),
        decreases variants.len() - i,
    {
        proof {
            assert(variants@.take(i + 1).drop_last() =~= variants@.take(i as int));
            assert(variants@.take(i + 1).last() == variants@[i as int]);
        }
        let variant = variants[i];
        let weight: Weight = match variant {
            Precompressed::Br => encodings.br,
            Precompressed::Gzip => encodings.gzip,
        }.unwrap_or(0);
        let plain_first = match encodings.identity_q {
            Some(identity) => identity > weight,
            None => false,
        };
        if !plain_first {
            plan.push(Attempt::Variant(variant));
        }
        i = i + 1;
    }
    proof {
        assert(variants@.take(i as int) =~= variants@);
    }
    plan.push(
        if encodings.identity {
            Attempt::Plain
        } else {
            Attempt::Refuse
        },
    );
    plan
}

// ---------------------------------------------------------------------------
// Response fields
// ---------------------------------------------------------------------------
/// What answers a request for a file, as far as it is known.
#[derive(Clone, Copy, Debug, PartialEq, Eq, Structural)]
pub enum Answer {
    /// Nothing yet: this attempt is to be made.
    Try(Attempt),
    /// The file that was opened, and the encoding that it has.
    File(Option<Precompressed>),
    /// A refusal.
    Refused,
    /// There is no such file.
    Missing,
}

/// What answers a request: the first attempt of the plan that is a refusal or has
/// opened its file. `opened` tells of the attempts that were made, in order, whether
/// they did. Where every attempt was made and none did, there is no such file.
pub open spec fn answer(plan: Seq<Attempt>, opened: Seq<bool>) -> Answer
    decreases plan.len(),
{
    if plan.len() == 0 {
        Answer::Missing
    } else if plan[0] == Attempt::Refuse {
        Answer::Refused
    } else if opened.len() == 0 {
        Answer::Try(plan[0])
    } else if opened[0] {
        Answer::File(
            match plan[0] {
                Attempt::Variant(variant) => Some(variant),
                _ => None,
            },
        )
    } else {
        answer(plan.skip(1), opened.skip(1))
    }
}

/// Tells what answers a request, or which attempt is to be made next.
pub fn answered(plan: &Vec<Attempt>, opened: &Vec<bool>) -> (result: Answer)
    ensures
        result == answer(plan@, opened@),
{
    let mut i: usize = 0;
    proof {
        assert(plan@.skip(0) =~= plan@);
        assert(opened@.skip(0) =~= opened@);
    }
    while i < plan.len()
        invariant
            i <= plan@.len(),
            i <= opened@.len(),
            answer(plan@, opened@) == answer(plan@.skip(i as int), opened@.skip(i as int)),
        decreases plan.len() - i,
    {
        proof {
            assert(plan@.skip(i as int)[0] == plan@[i as int]);
            assert(plan@.skip(i as int).skip(1) =~= plan@.skip(i + 1));
        }
        let attempt = plan[i];
        if attempt == Attempt::Refuse {
            return Answer::Refused;
        }
        if i >= opened.len() {
            return Answer::Try(attempt);
        }
        proof {
            assert(opened@.skip(i as int)[0] == opened@[i as int]);
            assert(opened@.skip(i as int).skip(1) =~= opened@.skip(i + 1));
        }
        if opened[i] {
            return match attempt {
                Attempt::Variant(variant) => Answer::File(Some(variant)),
                _ => Answer::File(None),
            };
        }
        i = i + 1;
    }
    Answer::Missing
}

/// Records the encoding of a precompressed response.
pub fn ensure_precompressed_headers(headers: &mut HeaderMap, variant: Precompressed)
    ensures
        http::header_fields(*final(headers)) == http::header_fields(*old(headers)).insert(
            "content-encoding"@,
            seq![vstd::utf8::encode_utf8(variant.coding())],
        ),
{
    proof {
        http::lemma_known_names();
        reveal_strlit("br");
        reveal_strlit("gzip");
        http::lemma_visible_text(variant.coding());
    }
    if let Some(value) = HeaderValue::from_text(variant.header_value()) {
        http::insert_field(headers, "content-encoding", &value);
    }
}

/// Whether a member of a `Vary` list covers the encoding.
pub open spec fn covers_encoding(member: Seq<char>) -> bool {
    text::trimmed(member) == "*"@ || text::same_ignoring_case(
        text::trimmed(member),
        "accept-encoding"@,
    )
}

pub open spec fn list_covers_encoding(members: Seq<Seq<char>>) -> bool {
    exists|i: int| 0 <= i < members.len() && covers_encoding(#[trigger] members[i])
}

pub open spec fn line_covers_encoding(line: Seq<u8>) -> bool {
    http::value_text(line) matches Some(s) && list_covers_encoding(text::split(s, ','))
}

/// Whether `Vary` already says that the response depends on the encoding.
pub open spec fn varies_by_encoding(lines: Seq<Seq<u8>>) -> bool {
    exists|i: int| 0 <= i < lines.len() && line_covers_encoding(#[trigger] lines[i])
}

/// The fields with a `Vary` that covers the encoding.
pub open spec fn with_encoding_vary(fields: Map<Seq<char>, Seq<Seq<u8>>>) -> Map<
    Seq<char>,
    Seq<Seq<u8>>,
> {
    let lines = http::field_values(fields, "vary"@);
    if varies_by_encoding(lines) {
        fields
    } else {
        fields.insert("vary"@, lines.push(vstd::utf8::encode_utf8("Accept-Encoding"@)))
    }
}

fn covers(line: &str) -> (covered: bool)
    ensures
        covered == list_covers_encoding(text::split(line@, ',')),
{
    let items = split_on(line, ',');
    let ghost pieces = text::split(line@, ',');
    let mut i: usize = 0;
    proof {
        assert(text::views(items@).len() == items@.len());
    }
    while i < items.len()
        invariant
            i <= items.len(),
            pieces == text::split(line@, ','),
            text::views(items@) == pieces,
            pieces.len() == items@.len(),
            forall|j: int| 0 <= j < i ==> !covers_encoding(#[trigger] pieces[j]),
        decreases items.len() - i,
    {
        proof {
            assert(text::views(items@)[i as int] == items@[i as int]@);
        }
        let item = trim(items[i]);
        if same_text(item, "*") || eq_ignore_ascii_case(item, "accept-encoding") {
            proof {
                assert(covers_encoding(pieces[i as int]));
            }
            return true;
        }
        i = i + 1;
    }
    false
}

/// Says once that a response depends on `Accept-Encoding`.
pub fn ensure_encoding_vary(headers: &mut HeaderMap)
    ensures
        http::header_fields(*final(headers)) == with_encoding_vary(
            http::header_fields(*old(headers)),
        ),
{
    let fields = header_values(headers, "vary");
    let ghost lines = http::values_of(*headers, "vary"@);
    let mut i: usize = 0;
    proof {
        assert(http::value_bytes(fields@).len() == fields@.len());
    }
    while i < fields.len()
        invariant
            i <= fields.len(),
            *headers == *old(headers),
            lines == http::values_of(*headers, "vary"@),
            http::value_bytes(fields@) == lines,
            lines.len() == fields@.len(),
            forall|j: int| 0 <= j < i ==> !line_covers_encoding(#[trigger] lines[j]),
        decreases fields.len() - i,
    {
        proof {
            assert(http::value_bytes(fields@)[i as int] == fields@[i as int]@);
        }
        if let Some(line) = fields[i].to_text() {
            if covers(line.as_str()) {
                proof {
                    assert(line_covers_encoding(lines[i as int]));
                }
                return ;
            }
        }
        i = i + 1;
    }
    proof {
        http::lemma_known_names();
        reveal_strlit("Accept-Encoding");
        http::lemma_visible_text("Accept-Encoding"@);
    }
    if let Some(value) = HeaderValue::from_text("Accept-Encoding") {
        http::append_field(headers, "vary", &value);
    }
}

// ---------------------------------------------------------------------------
// Laws
// ---------------------------------------------------------------------------
/// Encodings are tried in the order of their weights, and none that the request
/// refuses, or leaves unmentioned, is tried. The last attempt, and only that, is
/// the plain file or the refusal.
pub proof fn attempts_follow_the_weights(encodings: AcceptedEncodings)
    ensures
        forall|i: int|
            0 <= i < attempts(encodings).len() - 1 ==> (#[trigger] attempts(encodings)[i] matches Attempt::Variant(
            v,
        ) && v.weight(encodings) is Some && !outweighed(encodings, v)),
        forall|i: int, j: int|
            0 <= i < j < attempts(encodings).len() - 1 ==> (#[trigger] attempts(
                encodings,
            )[i])->Variant_0.weight(encodings)->0 >= (#[trigger] attempts(
                encodings,
            )[j])->Variant_0.weight(encodings)->0,
        attempts(encodings).last() == (if encodings.identity {
            Attempt::Plain
        } else {
            Attempt::Refuse
        }),
        1 <= attempts(encodings).len() <= 3,
{
    let wanted = preference(encodings);
    reveal_with_fuel(competing, 3);
    assert(wanted.len() <= 2);
    if wanted.len() == 1 {
        assert(wanted.drop_last() =~= seq![]);
    } else if wanted.len() == 2 {
        assert(wanted.drop_last() =~= seq![wanted[0]]);
        assert(seq![wanted[0]].drop_last() =~= seq![]);
    }
}

/// The first attempt that opens its file answers, if no refusal comes before it.
pub proof fn first_opened_attempt_answers(plan: Seq<Attempt>, opened: Seq<bool>, i: int)
    requires
        0 <= i < plan.len(),
        i < opened.len(),
        opened[i],
        plan[i] != Attempt::Refuse,
        forall|j: int| 0 <= j < i ==> !(#[trigger] opened[j]),
        forall|j: int| 0 <= j < i ==> #[trigger] plan[j] != Attempt::Refuse,
    ensures
        answer(plan, opened) == Answer::File(
            match plan[i] {
                Attempt::Variant(variant) => Some(variant),
                _ => None,
            },
        ),
    decreases i,
{
    if i > 0 {
        assert(!opened[0]);
        assert(plan[0] != Attempt::Refuse);
        assert forall|j: int| 0 <= j < i - 1 implies !(#[trigger] opened.skip(1)[j]) by {
            assert(opened.skip(1)[j] == opened[j + 1]);
        }
        assert forall|j: int| 0 <= j < i - 1 implies #[trigger] plan.skip(1)[j]
            != Attempt::Refuse by {
            assert(plan.skip(1)[j] == plan[j + 1]);
        }
        first_opened_attempt_answers(plan.skip(1), opened.skip(1), i - 1);
    }
}

proof fn lemma_unopened(plan: Seq<Attempt>, opened: Seq<bool>)
    requires
        plan.len() > 0,
        opened.len() >= plan.len(),
        forall|j: int| 0 <= j < plan.len() ==> !(#[trigger] opened[j]),
        forall|j: int| 0 <= j < plan.len() - 1 ==> #[trigger] plan[j] != Attempt::Refuse,
    ensures
        answer(plan, opened) == (if plan.last() == Attempt::Refuse {
            Answer::Refused
        } else {
            Answer::Missing
        }),
    decreases plan.len(),
{
    assert(!opened[0]);
    if plan.len() == 1 {
        assert(plan.last() == plan[0]);
        assert(plan.skip(1).len() == 0);
    } else {
        assert(plan[0] != Attempt::Refuse);
        assert forall|j: int| 0 <= j < plan.len() - 1 implies !(#[trigger] opened.skip(1)[j]) by {
            assert(opened.skip(1)[j] == opened[j + 1]);
        }
        assert forall|j: int| 0 <= j < plan.len() - 2 implies #[trigger] plan.skip(1)[j]
            != Attempt::Refuse by {
            assert(plan.skip(1)[j] == plan[j + 1]);
        }
        lemma_unopened(plan.skip(1), opened.skip(1));
        assert(plan.skip(1).last() == plan.last());
    }
}

/// Where nothing opens, the request is refused if the plain file is not acceptable,
/// and else there is no such file.
pub proof fn unopened_files_are_missing_or_refused(
    encodings: AcceptedEncodings,
    opened: Seq<bool>,
)
    requires
        opened.len() >= attempts(encodings).len(),
        forall|j: int| 0 <= j < attempts(encodings).len() ==> !(#[trigger] opened[j]),
    ensures
        answer(attempts(encodings), opened) == (if encodings.identity {
            Answer::Missing
        } else {
            Answer::Refused
        }),
{
    attempts_follow_the_weights(encodings);
    let plan = attempts(encodings);
    assert forall|j: int| 0 <= j < plan.len() - 1 implies #[trigger] plan[j]
        != Attempt::Refuse by {
        assert(attempts(encodings)[j] is Variant);
    }
    lemma_unopened(plan, opened);
}

/// A coding with the weight zero is never accepted, and `*` stands for the codings
/// that the list does not name.
pub proof fn refused_codings_are_not_accepted(codings: Seq<Coding>)
    ensures
        listed_weight(codings, CodingName::Br) == Some(0u32) ==> accepted(codings).br is None,
        listed_weight(codings, CodingName::Gzip) == Some(0u32) ==> accepted(codings).gzip is None,
        listed_weight(codings, CodingName::Identity) == Some(0u32) ==> !accepted(codings).identity,
        accepted(codings).br != Some(0u32) && accepted(codings).gzip != Some(0u32),
        listed_weight(codings, CodingName::Br) is None && listed_weight(codings, CodingName::Any)
            != Some(0u32) ==> accepted(codings).br == listed_weight(codings, CodingName::Any),
        listed_weight(codings, CodingName::Gzip) is None && listed_weight(codings, CodingName::Any)
            != Some(0u32) ==> accepted(codings).gzip == listed_weight(codings, CodingName::Any),
{
}

/// A request that lists no coding is served the plain file.
pub proof fn silence_accepts_the_plain_file()
    ensures
        attempts(accepted(Seq::empty())) == seq![Attempt::Plain],
{
    assert(attempts(accepted(Seq::empty())) =~= seq![Attempt::Plain]);
}

/// Once `Vary` covers the encoding it is left alone, so saying it twice is saying
/// it once.
pub proof fn encoding_vary_is_said_once(fields: Map<Seq<char>, Seq<Seq<u8>>>)
    ensures
        with_encoding_vary(with_encoding_vary(fields)) == with_encoding_vary(fields),
        varies_by_encoding(http::field_values(with_encoding_vary(fields), "vary"@)),
{
    http::lemma_known_names();
    let lines = http::field_values(fields, "vary"@);
    let after = with_encoding_vary(fields);
    if !varies_by_encoding(lines) {
        let said = vstd::utf8::encode_utf8("Accept-Encoding"@);
        reveal_strlit("Accept-Encoding");
        reveal_strlit("accept-encoding");
        http::lemma_visible_text("Accept-Encoding"@);
        let words = "Accept-Encoding"@;
        text::lemma_split_none(words, ',');
        assert(text::split(words, ',')[0] == words);
        assert(!text::is_whitespace(words[0]));
        assert(!text::is_whitespace(words.last()));
        assert(text::trimmed(words) == words);
        assert(text::lowercase(words) =~= "accept-encoding"@);
        assert(text::lowercase("accept-encoding"@) =~= "accept-encoding"@);
        assert(covers_encoding(text::split(words, ',')[0]));
        assert(line_covers_encoding(said));
        let lines2 = http::field_values(after, "vary"@);
        assert(lines2 == lines.push(said));
        assert(lines2[lines.len() as int] == said);
    }
}

/// The members of two sets of lines one behind the other are those of the first and then
/// those of the second. A line that is no text has none, and any other one for each
/// comma and one more.
pub proof fn members_follow_the_lines(a: Seq<Seq<u8>>, b: Seq<Seq<u8>>, line: Seq<u8>)
    ensures
        listed_members(a + b) == listed_members(a) + listed_members(b),
        !http::visible(line) ==> listed_members(seq![line]).len() == 0,
        http::visible(line) ==> listed_members(seq![line]).len() == text::split(
            http::ascii_text(line),
            ',',
        ).len(),
        http::visible(line) ==> forall|i: int|
            0 <= i < text::split(http::ascii_text(line), ',').len() ==> (#[trigger] listed_members(
                seq![line],
            )[i]) == member(text::split(http::ascii_text(line), ',')[i]),
    decreases b.len(),
{
    reveal_with_fuel(listed_members, 2);
    assert(seq![line].drop_last() =~= Seq::<Seq<u8>>::empty());
    if b.len() == 0 {
        assert(a + b =~= a);
        assert(listed_members(a) + listed_members(b) =~= listed_members(a));
    } else {
        assert((a + b).drop_last() =~= a + b.drop_last());
        assert((a + b).last() == b.last());
        members_follow_the_lines(a, b.drop_last(), line);
        assert(listed_members(a + b) =~= listed_members(a) + listed_members(b));
    }
}

/// A member is named by what stands before its first semicolon, without the whitespace
/// around it, and its weights are those of the parameters behind.
pub proof fn members_are_named_in_front(token: Seq<char>, parameters: Seq<char>)
    requires
        !token.contains(';'),
    ensures
        member(token) == (text::trimmed(token), Seq::<Seq<char>>::empty()),
        member(token + seq![';'] + parameters) == (
            text::trimmed(token),
            weight_texts(text::split(parameters, ';')),
        ),
{
    text::lemma_split_none(token, ';');
    text::split_sides(token, parameters, ';');
    let parts = text::split(token + seq![';'] + parameters, ';');
    assert(text::split(token, ';') =~= seq![token]);
    assert(text::split(token, ';').skip(1) =~= Seq::<Seq<char>>::empty());
    assert(parts.skip(1) =~= text::split(parameters, ';'));
}

/// The weights of parameters come in their order: each parameter named `q`, in either
/// case, has what follows its first equals sign, and every other one has none.
pub proof fn weights_follow_the_parameters(a: Seq<Seq<char>>, b: Seq<Seq<char>>)
    ensures
        weight_texts(a + b) == weight_texts(a) + weight_texts(b),
        weight_texts(a).len() <= a.len(),
    decreases b.len(), a.len(),
{
    if a.len() > 0 {
        lemma_weight_count(a);
    }
    if b.len() == 0 {
        assert(a + b =~= a);
        assert(weight_texts(a) + weight_texts(b) =~= weight_texts(a));
    } else {
        assert((a + b).drop_last() =~= a + b.drop_last());
        assert((a + b).last() == b.last());
        weights_follow_the_parameters(a, b.drop_last());
        assert(weight_texts(a + b) =~= weight_texts(a) + weight_texts(b));
    }
}

proof fn lemma_weight_count(a: Seq<Seq<char>>)
    ensures
        weight_texts(a).len() <= a.len(),
    decreases a.len(),
{
    if a.len() > 0 {
        lemma_weight_count(a.drop_last());
    }
}

/// A parameter is a weight exactly if its name, up to whitespace and case, is `q`.
pub proof fn weights_are_named_q(name: Seq<char>, value: Seq<char>)
    requires
        !name.contains('='),
        text::trimmed(name + seq!['='] + value) == name + seq!['='] + value,
    ensures
        text::trimmed(name) == seq!['q'] || text::trimmed(name) == seq!['Q'] ==> weight_text(
            name + seq!['='] + value,
        ) == Some(value),
        text::trimmed(name) != seq!['q'] && text::trimmed(name) != seq!['Q'] ==> weight_text(
            name + seq!['='] + value,
        ) is None,
{
    reveal_strlit("q");
    let line = name + seq!['='] + value;
    let own = text::trimmed(name);
    text::split_once_is_at_the_first(line, '=');
    assert(line[name.len() as int] == '=');
    let (a, b) = text::split_once_at(line, '=')->0;
    if a.len() < name.len() {
        assert(line[a.len() as int] == '=');
        assert(name[a.len() as int] == '=');
    }
    if a.len() > name.len() {
        assert(a[name.len() as int] == line[name.len() as int]);
    }
    assert(a =~= name) by {
        assert forall|i: int| 0 <= i < a.len() implies a[i] == name[i] by {
            assert(line[i] == a[i]);
        }
    }
    assert(b =~= value) by {
        assert forall|i: int| 0 <= i < b.len() implies b[i] == value[i] by {
            assert(line[a.len() + 1 + i] == b[i]);
        }
    }
    assert(text::lowercase("q"@) =~= seq!['q']);
    if text::lowercase(own) == seq!['q'] {
        assert(own.len() == 1);
        assert(text::lowercase(own)[0] == 'q');
        assert(own[0] == 'q' || own[0] == 'Q');
        assert(own =~= seq![own[0]]);
    }
    if own == seq!['q'] || own == seq!['Q'] {
        assert(text::lowercase(own) =~= seq!['q']);
    }
}

/// The last weight that can be read counts; without one the weight is full.
pub proof fn the_last_weight_counts(weights: Seq<Option<Weight>>, i: int)
    ensures
        0 <= i < weights.len() && weights[i] is Some && (forall|j: int|
            i < j < weights.len() ==> (#[trigger] weights[j]) is None) ==> weight_of(weights)
            == weights[i]->0,
        (forall|j: int| 0 <= j < weights.len() ==> (#[trigger] weights[j]) is None) ==> weight_of(
            weights,
        ) == FULL_WEIGHT,
    decreases weights.len(),
{
    if weights.len() > 0 {
        let front = weights.drop_last();
        the_last_weight_counts(front, i);
        assert(weights.last() == weights[weights.len() - 1]);
        assert(forall|j: int| 0 <= j < front.len() ==> front[j] == weights[j]);
    }
}

/// The last member of a name counts; a name that is not listed has no weight.
pub proof fn the_last_member_counts(codings: Seq<Coding>, name: CodingName, i: int)
    ensures
        0 <= i < codings.len() && coding_name(codings[i].token@) == name && (forall|j: int|
            i < j < codings.len() ==> coding_name((#[trigger] codings[j]).token@) != name)
            ==> listed_weight(codings, name) == Some(weight_of(codings[i].weights@)),
        (forall|j: int|
            0 <= j < codings.len() ==> coding_name((#[trigger] codings[j]).token@) != name)
            ==> listed_weight(codings, name) is None,
    decreases codings.len(),
{
    if codings.len() > 0 {
        let front = codings.drop_last();
        the_last_member_counts(front, name, i);
        assert(codings.last() == codings[codings.len() - 1]);
        assert(forall|j: int| 0 <= j < front.len() ==> front[j] == codings[j]);
    }
}

/// Codings are told apart by their names, in whatever case; a name that is none of
/// theirs is of no consequence.
pub proof fn codings_are_told_apart(token: Seq<char>)
    ensures
        coding_name(token) is Br <==> text::lowercase(token) == seq!['b', 'r'],
        coding_name(token) is Gzip <==> text::lowercase(token) == seq!['g', 'z', 'i', 'p'],
        coding_name(token) is Identity <==> text::lowercase(token) == seq![
            'i', 'd', 'e', 'n', 't', 'i', 't', 'y',
        ],
        coding_name(token) is Any <==> token == seq!['*'],
{
    reveal_strlit("br");
    reveal_strlit("gzip");
    reveal_strlit("identity");
    reveal_strlit("*");
    assert("*"@ =~= seq!['*']);
    assert(text::lowercase("br"@) =~= seq!['b', 'r']);
    assert(text::lowercase("gzip"@) =~= seq!['g', 'z', 'i', 'p']);
    assert(text::lowercase("identity"@) =~= seq!['i', 'd', 'e', 'n', 't', 'i', 't', 'y']);
    if token == seq!['*'] {
        assert(text::lowercase(token).len() == 1);
    }
}

/// A coding that is listed with a weight above zero is accepted with that weight, also
/// where everything else is refused. The plain file is acceptable unless it is refused by
/// its own weight, or by that of everything that is not listed.
pub proof fn listed_codings_are_accepted(codings: Seq<Coding>, weight: Weight)
    requires
        weight > 0,
    ensures
        listed_weight(codings, CodingName::Br) == Some(weight) ==> accepted(codings).br == Some(
            weight,
        ),
        listed_weight(codings, CodingName::Gzip) == Some(weight) ==> accepted(codings).gzip == Some(
            weight,
        ),
        listed_weight(codings, CodingName::Identity) == Some(weight) ==> accepted(codings).identity
            && accepted(codings).identity_q == Some(weight),
        listed_weight(codings, CodingName::Br) is None && listed_weight(codings, CodingName::Any)
            is None ==> accepted(codings).br is None,
        listed_weight(codings, CodingName::Gzip) is None && listed_weight(codings, CodingName::Any)
            is None ==> accepted(codings).gzip is None,
        listed_weight(codings, CodingName::Identity) is None ==> (accepted(codings).identity
            <==> listed_weight(codings, CodingName::Any) != Some(0u32))
            && accepted(codings).identity_q is None,
{
}

/// Every accepted coding that the plain file does not outweigh is tried, once, and before
/// the plain file; Brotli goes before gzip unless gzip weighs more.
pub proof fn accepted_codings_are_tried(encodings: AcceptedEncodings)
    ensures
        ({
            let plan = attempts(encodings);
            let plain = match encodings.identity_q {
                Some(weight) => weight as int,
                None => -1,
            };
            let br = encodings.br is Some && encodings.br->0 >= plain;
            let gzip = encodings.gzip is Some && encodings.gzip->0 >= plain;
            let last = if encodings.identity {
                Attempt::Plain
            } else {
                Attempt::Refuse
            };
            &&& !br && !gzip ==> plan == seq![last]
            &&& br && !gzip ==> plan == seq![Attempt::Variant(Precompressed::Br), last]
            &&& !br && gzip ==> plan == seq![Attempt::Variant(Precompressed::Gzip), last]
            &&& br && gzip && encodings.br->0 >= encodings.gzip->0 ==> plan == seq![
                Attempt::Variant(Precompressed::Br),
                Attempt::Variant(Precompressed::Gzip),
                last,
            ]
            &&& br && gzip && encodings.br->0 < encodings.gzip->0 ==> plan == seq![
                Attempt::Variant(Precompressed::Gzip),
                Attempt::Variant(Precompressed::Br),
                last,
            ]
        }),
{
    let wanted = preference(encodings);
    let plan = attempts(encodings);
    reveal_with_fuel(competing, 3);
    let last = if encodings.identity {
        Attempt::Plain
    } else {
        Attempt::Refuse
    };
    if wanted.len() == 1 {
        assert(wanted.drop_last() =~= seq![]);
    } else if wanted.len() == 2 {
        assert(wanted.drop_last() =~= seq![wanted[0]]);
        assert(seq![wanted[0]].drop_last() =~= seq![]);
    }
    assert(plan.len() == 1 ==> plan =~= seq![last]);
    assert(plan.len() == 2 ==> plan =~= seq![plan[0], last]);
    assert(plan.len() == 3 ==> plan =~= seq![plan[0], plan[1], last]);
}

/// As long as nothing was opened, the next attempt of the plan is made, and a refusal
/// needs no attempt.
pub proof fn the_plan_is_followed(plan: Seq<Attempt>, opened: Seq<bool>)
    requires
        opened.len() < plan.len(),
        forall|j: int| 0 <= j < opened.len() ==> !(#[trigger] opened[j]),
        forall|j: int| 0 <= j < opened.len() ==> #[trigger] plan[j] != Attempt::Refuse,
    ensures
        answer(plan, opened) == (if plan[opened.len() as int] == Attempt::Refuse {
            Answer::Refused
        } else {
            Answer::Try(plan[opened.len() as int])
        }),
    decreases plan.len(),
{
    if opened.len() > 0 {
        assert(!opened[0]);
        assert(plan[0] != Attempt::Refuse);
        assert forall|j: int| 0 <= j < opened.len() - 1 implies !(#[trigger] opened.skip(1)[j]) by {
            assert(opened.skip(1)[j] == opened[j + 1]);
        }
        assert forall|j: int| 0 <= j < opened.len() - 1 implies #[trigger] plan.skip(1)[j]
            != Attempt::Refuse by {
            assert(plan.skip(1)[j] == plan[j + 1]);
        }
        the_plan_is_followed(plan.skip(1), opened.skip(1));
    }
}

/// Saying that a response varies by encoding keeps every field, and every line that was
/// there.
pub proof fn encoding_vary_only_adds(fields: Map<Seq<char>, Seq<Seq<u8>>>, name: Seq<char>)
    ensures
        ({
            let after = with_encoding_vary(fields);
            &&& name != "vary"@ ==> after.contains_key(name) == fields.contains_key(name)
            &&& name != "vary"@ && fields.contains_key(name) ==> after[name] == fields[name]
            &&& after.contains_key("vary"@)
            &&& fields.contains_key("vary"@) ==> fields["vary"@].is_prefix_of(after["vary"@])
                && after["vary"@].len() <= fields["vary"@].len() + 1
            &&& !fields.contains_key("vary"@) ==> after["vary"@].len() == 1
        }),
{
    http::lemma_known_names();
    let lines = http::field_values(fields, "vary"@);
    let after = with_encoding_vary(fields);
    if fields.contains_key("vary"@) {
        assert(lines == fields["vary"@]);
        assert(fields["vary"@].is_prefix_of(fields["vary"@]));
        if !varies_by_encoding(lines) {
            let said = vstd::utf8::encode_utf8("Accept-Encoding"@);
            assert(lines.push(said).subrange(0, lines.len() as int) =~= lines);
        }
    }
}

/// Lines vary by encoding exactly if one of their members is `*` or, in whatever case and
/// up to whitespace, the name of the field. A line more never takes that back.
pub proof fn encoding_vary_is_recognized(lines: Seq<Seq<u8>>, more: Seq<Seq<u8>>)
    ensures
        varies_by_encoding(lines) <==> exists|i: int, k: int|
            0 <= i < lines.len() && http::visible(lines[i]) && 0 <= k < text::split(
                http::ascii_text(lines[i]),
                ',',
            ).len() && ({
                let one = text::trimmed(#[trigger] text::split(http::ascii_text(lines[i]), ',')[k]);
                one == seq!['*'] || text::lowercase(one) == text::lowercase("accept-encoding"@)
            }),
        varies_by_encoding(lines + more) <==> varies_by_encoding(lines) || varies_by_encoding(more),
{
    reveal_strlit("*");
    assert("*"@ =~= seq!['*']);
    if varies_by_encoding(lines) {
        let i: int = choose|i: int| 0 <= i < lines.len() && line_covers_encoding(
            #[trigger] lines[i],
        );
        let members = text::split(http::ascii_text(lines[i]), ',');
        let k: int = choose|k: int| 0 <= k < members.len() && covers_encoding(#[trigger] members[k]);
        let one = text::trimmed(text::split(http::ascii_text(lines[i]), ',')[k]);
        assert(one == seq!['*'] || text::lowercase(one) == text::lowercase("accept-encoding"@));
        assert((lines + more)[i] == lines[i]);
    }
    if exists|i: int, k: int|
        0 <= i < lines.len() && http::visible(lines[i]) && 0 <= k < text::split(
            http::ascii_text(lines[i]),
            ',',
        ).len() && ({
            let one = text::trimmed(#[trigger] text::split(http::ascii_text(lines[i]), ',')[k]);
            one == seq!['*'] || text::lowercase(one) == text::lowercase("accept-encoding"@)
        }) {
        let (i, k) = choose|i: int, k: int|
            0 <= i < lines.len() && http::visible(lines[i]) && 0 <= k < text::split(
                http::ascii_text(lines[i]),
                ',',
            ).len() && ({
                let one = text::trimmed(#[trigger] text::split(http::ascii_text(lines[i]), ',')[k]);
                one == seq!['*'] || text::lowercase(one) == text::lowercase("accept-encoding"@)
            });
        let members = text::split(http::ascii_text(lines[i]), ',');
        assert(covers_encoding(members[k]));
        assert(line_covers_encoding(lines[i]));
    }
    if varies_by_encoding(more) {
        let i: int = choose|i: int| 0 <= i < more.len() && line_covers_encoding(#[trigger] more[i]);
        assert((lines + more)[lines.len() + i] == more[i]);
    }
    if varies_by_encoding(lines + more) {
        let all = lines + more;
        let i: int = choose|i: int| 0 <= i < all.len() && line_covers_encoding(#[trigger] all[i]);
        if i < lines.len() {
            assert(all[i] == lines[i]);
        } else {
            assert(all[i] == more[i - lines.len()]);
        }
    }
}

/// The file that answers is the first of the plan that could be opened: the one that the
/// request prefers among those that are there.
pub proof fn the_preferred_file_answers(
    encodings: AcceptedEncodings,
    plan: Vec<Attempt>,
    opened: &Vec<bool>,
    result: Answer,
)
    requires
        call_ensures(open_static_file, (encodings,), plan),
        call_ensures(answered, (&plan, opened), result),
        encodings.br is Some,
        encodings.identity_q is None,
        opened@.len() > 0,
        opened@[0],
    ensures
        encodings.gzip is None || encodings.gzip->0 <= encodings.br->0 ==> result == Answer::File(
            Some(Precompressed::Br),
        ),
        encodings.gzip is Some && encodings.gzip->0 > encodings.br->0 ==> result == Answer::File(
            Some(Precompressed::Gzip),
        ),
{
    accepted_codings_are_tried(encodings);
    first_opened_attempt_answers(plan@, opened@, 0);
}

/// The siblings of a file are named by the usual endings of their codings.
pub proof fn siblings_have_the_usual_endings(
    variant: Precompressed,
    extension: &'static str,
    value: &'static str,
)
    requires
        call_ensures(Precompressed::extension, (variant,), extension),
        call_ensures(Precompressed::header_value, (variant,), value),
    ensures
        variant is Br ==> extension@ == seq!['b', 'r'] && value@ == seq!['b', 'r'],
        variant is Gzip ==> extension@ == seq!['g', 'z'] && value@ == seq!['g', 'z', 'i', 'p'],
{
    reveal_strlit("br");
    reveal_strlit("gz");
    reveal_strlit("gzip");
    assert("br"@ =~= seq!['b', 'r']);
    assert("gz"@ =~= seq!['g', 'z']);
    assert("gzip"@ =~= seq!['g', 'z', 'i', 'p']);
}

} // verus!
