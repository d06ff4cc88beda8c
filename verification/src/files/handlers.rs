//! The responses of the file routes.

use crate::files::encodings::{
    self, ensure_encoding_vary, ensure_precompressed_headers, Precompressed,
};
use crate::http::{self, StatusCode};
use crate::response::{self, NtexResponse, ResponseOptions};
use vstd::prelude::*;

verus! {

/// The fields of a negotiated response: the encoding that was chosen, if any, and a
/// `Vary` that says that it was chosen.
pub open spec fn negotiated(
    fields: Map<Seq<char>, Seq<Seq<u8>>>,
    variant: Option<Precompressed>,
) -> Map<Seq<char>, Seq<Seq<u8>>> {
    encodings::with_encoding_vary(
        match variant {
            Some(variant) => fields.insert(
                "content-encoding"@,
                seq![vstd::utf8::encode_utf8(variant.coding())],
            ),
            None => fields,
        },
    )
}

/// Completes the response of a file that was found.
pub fn complete_file_response(head: &mut NtexResponse, variant: Option<Precompressed>)
    ensures
        final(head).status == old(head).status,
        http::header_fields(final(head).headers) == negotiated(
            http::header_fields(old(head).headers),
            variant,
        ),
{
    if let Some(variant) = variant {
        ensure_precompressed_headers(&mut head.headers, variant);
    }
    ensure_encoding_vary(&mut head.headers);
}

/// The response where nothing that is stored is acceptable.
pub fn refuse_encodings() -> (head: NtexResponse)
    ensures
        head.status == http::NOT_ACCEPTABLE,
        http::header_fields(head.headers) == map![
            "vary"@ => seq![vstd::utf8::encode_utf8("Accept-Encoding"@)],
        ],
{
    let mut head = NtexResponse { status: http::NOT_ACCEPTABLE, headers: http::empty_headers() };
    proof {
        http::lemma_known_names();
        assert(http::values_of(head.headers, "vary"@) =~= Seq::empty());
    }
    let ghost before = http::header_fields(head.headers);
    complete_file_response(&mut head, None);
    proof {
        assert(Seq::<Seq<u8>>::empty().push(vstd::utf8::encode_utf8("Accept-Encoding"@)) =~= seq![
            vstd::utf8::encode_utf8("Accept-Encoding"@),
        ]);
        assert(http::header_fields(head.headers) =~= map![
            "vary"@ => seq![vstd::utf8::encode_utf8("Accept-Encoding"@)],
        ]);
    }
    head
}

/// Completes the response of the catch-all route for a file that was found. The
/// overrides of the application join it last.
pub fn file_and_error_handler_with_context(
    head: &mut NtexResponse,
    variant: Option<Precompressed>,
    options: &mut ResponseOptions,
)
    ensures
        final(head).status == (match old(options).parts.status {
            Some(status) => status,
            None => old(head).status,
        }),
        http::header_fields(final(head).headers) == response::merged(
            negotiated(http::header_fields(old(head).headers), variant),
            http::header_fields(old(options).parts.headers),
        ),
        final(options).parts.status is None,
        http::header_fields(final(options).parts.headers).is_empty(),
{
    complete_file_response(head, variant);
    head.extend_response(options);
}

/// The overrides with which the page for a missing file is rendered.
pub fn missing_file_options() -> (options: ResponseOptions)
    ensures
        options.parts.status == Some(http::NOT_FOUND),
        http::header_fields(options.parts.headers).is_empty(),
{
    let mut options = ResponseOptions::new();
    options.set_status(http::NOT_FOUND);
    options
}

/// The status of the empty response to a request for an asset that is not there.
pub fn missing_asset_status() -> (status: StatusCode)
    ensures
        status == http::NOT_FOUND,
{
    http::NOT_FOUND
}

/// The status of the page for a missing file: never a plain success.
pub fn missing_file_status(rendered: StatusCode) -> (status: StatusCode)
    ensures
        status == (if rendered == http::OK {
            http::NOT_FOUND
        } else {
            rendered
        }),
        status != http::OK,
{
    if rendered == http::OK {
        http::NOT_FOUND
    } else {
        rendered
    }
}

/// Every response of the file routes says that it was negotiated.
pub proof fn file_responses_vary_by_encoding(
    fields: Map<Seq<char>, Seq<Seq<u8>>>,
    variant: Option<Precompressed>,
)
    ensures
        encodings::varies_by_encoding(http::field_values(negotiated(fields, variant), "vary"@)),
{
    let chosen = match variant {
        Some(variant) => fields.insert(
            "content-encoding"@,
            seq![vstd::utf8::encode_utf8(variant.coding())],
        ),
        None => fields,
    };
    encodings::encoding_vary_is_said_once(chosen);
}

/// A precompressed file is sent under its own coding and no other, and the plain file
/// under none that it did not have; every field but these two stays as it was.
pub proof fn negotiated_fields_name_the_coding(
    fields: Map<Seq<char>, Seq<Seq<u8>>>,
    name: Seq<char>,
)
    ensures
        negotiated(fields, Some(Precompressed::Br)).contains_key("content-encoding"@),
        negotiated(fields, Some(Precompressed::Br))["content-encoding"@] == seq![
            vstd::utf8::encode_utf8(seq!['b', 'r']),
        ],
        negotiated(fields, Some(Precompressed::Gzip)).contains_key("content-encoding"@),
        negotiated(fields, Some(Precompressed::Gzip))["content-encoding"@] == seq![
            vstd::utf8::encode_utf8(seq!['g', 'z', 'i', 'p']),
        ],
        name != "vary"@ ==> {
            &&& negotiated(fields, None).contains_key(name) == fields.contains_key(name)
            &&& fields.contains_key(name) ==> negotiated(fields, None)[name] == fields[name]
        },
        name != "vary"@ && name != "content-encoding"@ ==> forall|variant: Precompressed|
            {
                &&& #[trigger] negotiated(fields, Some(variant)).contains_key(name)
                    == fields.contains_key(name)
                &&& fields.contains_key(name) ==> negotiated(fields, Some(variant))[name]
                    == fields[name]
            },
{
    reveal_strlit("vary");
    reveal_strlit("content-encoding");
    reveal_strlit("br");
    reveal_strlit("gzip");
    assert("vary"@.len() != "content-encoding"@.len());
    assert("br"@ =~= seq!['b', 'r']);
    assert("gzip"@ =~= seq!['g', 'z', 'i', 'p']);
}

/// A file keeps its status unless the application set one, and the page for a missing file
/// is never a plain success.
pub proof fn missing_files_are_no_success(
    rendered: StatusCode,
    status: StatusCode,
    missing: StatusCode,
    refused: NtexResponse,
)
    requires
        call_ensures(missing_file_status, (rendered,), status),
        call_ensures(missing_asset_status, (), missing),
        call_ensures(refuse_encodings, (), refused),
    ensures
        rendered == 200 ==> status == 404,
        rendered != 200 ==> status == rendered,
        missing == 404,
        refused.status == 406,
        http::header_fields(refused.headers).contains_key("vary"@),
{
}

} // verus!
