//! URIs: their components, and the targets that forwarded requests get.

use vstd::prelude::*;
use vstd::utf8::encode_utf8;

use crate::tokens::split;

verus! {

/// The components of a URI as text. The path of a URI with a scheme is never
/// empty; the query comes without its question mark.
#[derive(Clone, Debug)]
pub struct UriParts {
    pub scheme: Option<String>,
    pub authority: Option<String>,
    pub path: String,
    pub query: Option<String>,
}

/// An optional text.
pub open spec fn optional_text(text: Option<String>) -> Option<Seq<char>> {
    match text {
        Some(text) => Some(text@),
        None => None,
    }
}

impl View for UriParts {
    type V = (Option<Seq<char>>, Option<Seq<char>>, Seq<char>, Option<Seq<char>>);

    open spec fn view(&self) -> Self::V {
        (
            optional_text(self.scheme),
            optional_text(self.authority),
            self.path@,
            optional_text(self.query),
        )
    }
}

/// Declares `http::Uri`.
#[verifier::external_type_specification]
#[verifier::external_body]
pub struct ExUri(http::Uri);

/// Where a forwarded request goes: the URI to put in the request, and its
/// components as text, which are those of the URI.
pub struct Target {
    pub uri: http::Uri,
    pub scheme: String,
    pub authority: String,
    pub path_and_query: String,
}

impl View for Target {
    type V = (Seq<char>, Seq<char>, Seq<char>);

    open spec fn view(&self) -> Self::V {
        (self.scheme@, self.authority@, self.path_and_query@)
    }
}

/// The scheme, authority, path and query of the URI that `text` spells; `None`
/// when it spells none.
pub uninterp spec fn parsed_uri(text: Seq<char>) -> Option<
    (Option<Seq<char>>, Option<Seq<char>>, Seq<char>, Option<Seq<char>>),
>;

/// The scheme, authority, and path and query of the URI that is built from
/// these components, or the message that says why there is none.
pub uninterp spec fn built_uri(
    scheme: Seq<char>,
    authority: Seq<char>,
    path_and_query: Seq<char>,
) -> Result<(Seq<char>, Seq<char>, Seq<char>), Seq<char>>;

/// The scheme, the authority, and the path and query of `uri`, each empty where
/// it has none.
pub uninterp spec fn uri_components(uri: http::Uri) -> (Seq<char>, Seq<char>, Seq<char>);

/// A byte that a URI's path may hold.
pub open spec fn is_path_byte(byte: u8) -> bool {
    ||| byte == 0x21 || byte == 0x22 || 0x24 <= byte <= 0x3b || byte == 0x3d
    ||| 0x40 <= byte <= 0x5f || 0x61 <= byte <= 0x7e
    ||| byte >= 0x80
}

/// A byte that a URI's query may hold.
pub open spec fn is_query_byte(byte: u8) -> bool {
    ||| byte == 0x21 || 0x24 <= byte <= 0x3b || byte == 0x3d
    ||| 0x3f <= byte <= 0x7e
    ||| byte >= 0x80
}

/// Whether `bytes` is a path with an optional query and fragment: empty, a lone
/// `*`, or a text of at most 65534 bytes that starts with `/`, `?` or `#`. A
/// `?` (63) ends the path and a `#` (35) ends path and query; what follows the
/// `#` is free.
pub open spec fn is_path_and_query(bytes: Seq<u8>) -> bool {
    ||| bytes.len() == 0
    ||| bytes =~= seq![42u8]
    ||| {
        &&& bytes.len() <= 65534
        &&& bytes[0] == 47 || bytes[0] == 63 || bytes[0] == 35
        &&& forall|i: int|
            0 <= i < bytes.len() && !bytes.take(i + 1).contains(35) ==> {
                if bytes.take(i).contains(63) {
                    is_query_byte(#[trigger] bytes[i])
                } else {
                    bytes[i] == 63 || is_path_byte(bytes[i])
                }
            }
    }
}

/// Whether a URI can be built from this scheme and authority with every path and
/// query, and with nothing else.
pub open spec fn takes_targets(scheme: Seq<char>, authority: Seq<char>) -> bool {
    forall|path_and_query: Seq<char>|
        (#[trigger] built_uri(scheme, authority, path_and_query) is Ok) == is_path_and_query(
            encode_utf8(path_and_query),
        )
}

/// `text` up to its first `#`, and `/` where nothing is left.
pub open spec fn without_fragment(text: Seq<char>) -> Seq<char> {
    let kept = split(text, '#').first();
    if kept.len() == 0 {
        "/"@
    } else {
        kept
    }
}

/// A slash has no fragment.
pub proof fn lemma_slash_has_no_fragment()
    ensures
        without_fragment("/"@) == "/"@,
{
    reveal_strlit("/");
    reveal_with_fuel(split, 2);
    let slash = "/"@;
    assert(slash.drop_last() =~= Seq::empty());
    assert(split(slash.drop_last(), '#') =~= seq![Seq::<char>::empty()]);
    assert(Seq::<char>::empty().push('/') =~= slash);
    assert(split(slash, '#').first() =~= slash);
}

/// Calls `str::parse::<http::Uri>` and reads the components of the URI. From
/// the scheme and authority of such a URI a URI can be built again, with any
/// path and query.
#[verifier::external_body]
fn parse_uri(text: &str) -> (uri: Option<UriParts>)
    ensures
        match uri {
            Some(uri) => parsed_uri(text@) == Some(uri@),
            None => parsed_uri(text@) is None,
        },
        uri matches Some(uri) ==> (uri.scheme matches Some(scheme) ==> (uri.authority matches Some(
            authority,
        ) ==> takes_targets(scheme@, authority@))),
{
    let uri = text.parse::<http::Uri>().ok()?;
    Some(UriParts {
        scheme: uri.scheme_str().map(|scheme| scheme.to_owned()),
        authority: uri.authority().map(|authority| authority.as_str().to_owned()),
        path: uri.path().to_owned(),
        query: uri.query().map(|query| query.to_owned()),
    })
}

/// Calls `http::Uri::builder` with a scheme, an authority and a path and query,
/// and reads the components of the URI that it builds. They are the ones given,
/// but for the fragment, which is cut off, and an empty path and query, which
/// is `/`. The texts of the target are what `http::Uri::scheme_str`, `authority`
/// and `path_and_query` say of its URI.
#[verifier::external_body]
pub(crate) fn build_uri(scheme: &str, authority: &str, path_and_query: &str) -> (result: Result<
    Target,
    String,
>)
    ensures
        match result {
            Ok(target) => built_uri(scheme@, authority@, path_and_query@) == Ok::<
                (Seq<char>, Seq<char>, Seq<char>),
                Seq<char>,
            >(target@) && target@ == (
                scheme@,
                authority@,
                without_fragment(path_and_query@),
            ) && uri_components(target.uri) == target@,
            Err(message) => built_uri(scheme@, authority@, path_and_query@) == Err::<
                (Seq<char>, Seq<char>, Seq<char>),
                Seq<char>,
            >(message@),
        },
{
    let builder = http::Uri::builder().scheme(scheme).authority(authority);
    let uri = builder.path_and_query(path_and_query).build().map_err(|error| error.to_string())?;
    Ok(Target {
        scheme: uri.scheme_str().unwrap_or_default().to_owned(),
        authority: uri.authority().map_or("", |authority| authority.as_str()).to_owned(),
        path_and_query: uri.path_and_query().map_or("", |both| both.as_str()).to_owned(),
        uri,
    })
}

impl UriParts {
    /// Reads a URI from its text; `None` when the text is not a URI.
    pub fn parse(text: &str) -> (result: Option<UriParts>)
        ensures
            match result {
                Some(uri) => parsed_uri(text@) == Some(uri@),
                None => parsed_uri(text@) is None,
            },
            result matches Some(uri) ==> (uri.scheme matches Some(scheme) ==> (
            uri.authority matches Some(authority) ==> takes_targets(scheme@, authority@))),
    {
        parse_uri(text)
    }
}

} // verus!
