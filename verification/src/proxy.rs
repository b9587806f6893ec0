//! Forwarding to an HTTP origin: what becomes of a request and its response.

use http::HeaderMap;
use vstd::prelude::*;
use vstd::utf8::encode_utf8;

use crate::headers::{
    Contents, FieldValue, contains_key, fields, first_field, get, get_all, has_room,
    header_contents, header_name, header_value_from_str, header_value_to_str, is_header_name,
    is_header_value, is_visible, keys, lemma_header_name_is_lower, lemma_room_after_insert,
    lemma_room_after_removal, parse_header_name, remove, try_insert, try_insert_default, values,
    with_default, with_field,
};
use crate::text::{lemma_encode_concat, lemma_texts_push, same_text, texts};
use crate::tokens::{contains_token, has_token, split, split_commas, trim_ascii, trimmed};
use crate::uri::{
    Target, UriParts, build_uri, built_uri, is_path_and_query, lemma_slash_has_no_fragment,
    takes_targets, uri_components, without_fragment,
};

verus! {

/// The names of the headers that the gateway reads or writes are header names
/// in lower case.
pub proof fn lemma_known_names()
    ensures
        is_header_name("connection"@),
        is_header_name("upgrade"@),
        is_header_name("host"@),
        is_header_name("keep-alive"@),
        is_header_name("proxy-authenticate"@),
        is_header_name("proxy-authorization"@),
        is_header_name("te"@),
        is_header_name("trailer"@),
        is_header_name("transfer-encoding"@),
        is_header_name("content-length"@),
        is_header_name("x-forwarded-for"@),
        is_header_name("x-forwarded-host"@),
        is_header_name("x-forwarded-proto"@),
{
    reveal_strlit("connection");
    reveal_strlit("upgrade");
    reveal_strlit("host");
    reveal_strlit("keep-alive");
    reveal_strlit("proxy-authenticate");
    reveal_strlit("proxy-authorization");
    reveal_strlit("te");
    reveal_strlit("trailer");
    reveal_strlit("transfer-encoding");
    reveal_strlit("content-length");
    reveal_strlit("x-forwarded-for");
    reveal_strlit("x-forwarded-host");
    reveal_strlit("x-forwarded-proto");
}

/// The header names among the comma-separated tokens of `value`.
pub open spec fn names_in(value: Seq<u8>) -> Set<Seq<char>> {
    Set::new(
        |name: Seq<char>|
            exists|i: int|
                0 <= i < split(value, 44).len() && header_name(
                    trimmed(#[trigger] split(value, 44)[i]),
                ) == Some(name),
    )
}

/// The header names that the `Connection` headers declare to be meant for this
/// hop only.
pub open spec fn nominated(contents: Contents) -> Set<Seq<char>> {
    Set::new(
        |name: Seq<char>|
            exists|i: int|
                0 <= i < values(contents, "connection"@).len() && names_in(
                    #[trigger] values(contents, "connection"@)[i],
                ).contains(name),
    )
}

/// The headers that never pass a proxy, besides those of an upgrade.
pub open spec fn is_hop_by_hop(name: Seq<char>) -> bool {
    ||| name == "keep-alive"@
    ||| name == "proxy-authenticate"@
    ||| name == "proxy-authorization"@
    ||| name == "te"@
    ||| name == "trailer"@
    ||| name == "transfer-encoding"@
}

/// The headers that are taken out of a message: those that `Connection` names,
/// the hop-by-hop headers, and `Connection` and `Upgrade` themselves. A message
/// whose upgrade is preserved keeps `Upgrade`, and keeps `Connection` unless it
/// names itself.
pub open spec fn stripped_names(contents: Contents, preserve_upgrade: bool) -> Set<Seq<char>> {
    Set::new(
        |name: Seq<char>|
            {
                ||| nominated(contents).contains(name) && !(preserve_upgrade && name == "upgrade"@)
                ||| is_hop_by_hop(name)
                ||| !preserve_upgrade && (name == "connection"@ || name == "upgrade"@)
            },
    )
}

/// `contents` without the headers that do not pass a proxy.
pub open spec fn stripped(contents: Contents, preserve_upgrade: bool) -> Contents {
    contents.remove_keys(stripped_names(contents, preserve_upgrade))
}

/// Whether the headers ask for a connection upgrade: there is an `Upgrade`
/// header, and a `Connection` header has the token `upgrade`.
pub open spec fn asks_upgrade(contents: Contents) -> bool {
    &&& contents.contains_key("upgrade"@)
    &&& exists|i: int|
        0 <= i < values(contents, "connection"@).len() && has_token(
            #[trigger] values(contents, "connection"@)[i],
            encode_utf8("upgrade"@),
        )
}

/// Whether the headers ask for a connection upgrade.
pub fn is_upgrade(headers: &HeaderMap) -> (upgrade: bool)
    ensures
        upgrade == asks_upgrade(header_contents(*headers)),
        upgrade ==> header_contents(*headers).contains_key("upgrade"@),
        forall|i: int|
            header_contents(*headers).contains_key("upgrade"@) && 0 <= i < values(
                header_contents(*headers),
                "connection"@,
            ).len() && has_token(
                #[trigger] values(header_contents(*headers), "connection"@)[i],
                encode_utf8("upgrade"@),
            ) ==> upgrade,
{
    proof {
        lemma_known_names();
    }
    if !contains_key(headers, "upgrade") {
        return false;
    }
    let all = get_all(headers, "connection");
    let ghost expected = encode_utf8("upgrade"@);
    let ghost connection = values(header_contents(*headers), "connection"@);
    let mut i: usize = 0;
    while i < all.len()
        invariant
            i <= all@.len() == connection.len(),
            expected == encode_utf8("upgrade"@),
            connection == values(header_contents(*headers), "connection"@),
            header_contents(*headers).contains_key("upgrade"@),
            forall|k: int| 0 <= k < all@.len() ==> (#[trigger] all@[k])@ == connection[k],
            forall|k: int| 0 <= k < i ==> !has_token(#[trigger] connection[k], expected),
        decreases all@.len() - i,
    {
        if contains_token(all[i].as_slice(), "upgrade".as_bytes()) {
            assert(has_token(values(header_contents(*headers), "connection"@)[i as int], expected));
            return true;
        }
        i += 1;
    }
    false
}

/// The header names among the first `count` tokens of `value`.
spec fn names_within(value: Seq<u8>, count: int) -> Set<Seq<char>> {
    Set::new(
        |name: Seq<char>|
            exists|k: int|
                0 <= k < count && header_name(trimmed(#[trigger] split(value, 44)[k])) == Some(
                    name,
                ),
    )
}

proof fn lemma_next_token(value: Seq<u8>, count: int)
    requires
        0 <= count,
    ensures
        names_within(value, count + 1) == match header_name(trimmed(split(value, 44)[count])) {
            Some(name) => names_within(value, count).insert(name),
            None => names_within(value, count),
        },
{
    let next = match header_name(trimmed(split(value, 44)[count])) {
        Some(name) => names_within(value, count).insert(name),
        None => names_within(value, count),
    };
    assert forall|name: Seq<char>| next.contains(name) implies names_within(
        value,
        count + 1,
    ).contains(name) by {
        if names_within(value, count).contains(name) {
            let k = choose|k: int|
                0 <= k < count && header_name(trimmed(#[trigger] split(value, 44)[k])) == Some(
                    name,
                );
            assert(0 <= k < count + 1);
        }
    }
    assert(names_within(value, count + 1) =~= next);
}

/// Adds to `names` the header names among the comma-separated tokens of `value`.
fn collect_names(value: &[u8], names: &mut Vec<String>)
    requires
        forall|k: int| 0 <= k < old(names)@.len() ==> is_header_name((#[trigger] old(names)@[k])@),
    ensures
        forall|k: int|
            0 <= k < final(names)@.len() ==> is_header_name((#[trigger] final(names)@[k])@),
        texts(final(names)@) == texts(old(names)@).union(names_in(value@)),
{
    let pieces = split_commas(value);
    let ghost before = texts(names@);
    let mut i: usize = 0;
    assert(before =~= before.union(names_within(value@, 0)));
    while i < pieces.len()
        invariant
            i <= pieces@.len() == split(value@, 44).len(),
            forall|k: int|
                0 <= k < pieces@.len() ==> (#[trigger] pieces@[k])@ == split(value@, 44)[k],
            forall|k: int| 0 <= k < names@.len() ==> is_header_name((#[trigger] names@[k])@),
            texts(names@) == before.union(names_within(value@, i as int)),
        decreases pieces@.len() - i,
    {
        proof {
            lemma_header_name_is_lower(trimmed(split(value@, 44)[i as int]));
            lemma_next_token(value@, i as int);
        }
        if let Some(name) = parse_header_name(trim_ascii(pieces[i])) {
            proof {
                lemma_texts_push(names@, name);
            }
            names.push(name);
        }
        i += 1;
        assert(texts(names@) =~= before.union(names_within(value@, i as int)));
    }
    assert(names_within(value@, i as int) =~= names_in(value@));
}

/// The header names that the first `count` of `all` values hold.
spec fn nominated_within(all: Seq<Seq<u8>>, count: int) -> Set<Seq<char>> {
    Set::new(
        |name: Seq<char>|
            exists|k: int| 0 <= k < count && names_in(#[trigger] all[k]).contains(name),
    )
}

proof fn lemma_next_value(all: Seq<Seq<u8>>, count: int)
    requires
        0 <= count,
    ensures
        nominated_within(all, count + 1) == nominated_within(all, count).union(
            names_in(all[count]),
        ),
{
    assert forall|name: Seq<char>|
        nominated_within(all, count).contains(name) implies nominated_within(
        all,
        count + 1,
    ).contains(name) by {
        let k = choose|k: int| 0 <= k < count && names_in(#[trigger] all[k]).contains(name);
        assert(0 <= k < count + 1);
    }
    assert(nominated_within(all, count + 1) =~= nominated_within(all, count).union(
        names_in(all[count]),
    ));
}

/// The header names that the `Connection` headers nominate.
fn nominated_names(headers: &HeaderMap) -> (names: Vec<String>)
    ensures
        forall|k: int| 0 <= k < names@.len() ==> is_header_name((#[trigger] names@[k])@),
        texts(names@) == nominated(header_contents(*headers)),
{
    proof {
        lemma_known_names();
    }
    let all = get_all(headers, "connection");
    let ghost connection = values(header_contents(*headers), "connection"@);
    let mut names: Vec<String> = Vec::new();
    let mut i: usize = 0;
    assert(texts(names@) =~= nominated_within(connection, 0));
    while i < all.len()
        invariant
            i <= all@.len() == connection.len(),
            forall|k: int| 0 <= k < all@.len() ==> (#[trigger] all@[k])@ == connection[k],
            forall|k: int| 0 <= k < names@.len() ==> is_header_name((#[trigger] names@[k])@),
            texts(names@) == nominated_within(connection, i as int),
        decreases all@.len() - i,
    {
        proof {
            lemma_next_value(connection, i as int);
        }
        collect_names(all[i].as_slice(), &mut names);
        i += 1;
    }
    assert(nominated_within(connection, i as int) =~= nominated(header_contents(*headers)));
    names
}

/// Takes the headers that do not pass a proxy out of a message.
pub fn remove_hop_by_hop_headers(headers: &mut HeaderMap, preserve_upgrade: bool)
    ensures
        header_contents(*final(headers)) == stripped(
            header_contents(*old(headers)),
            preserve_upgrade,
        ),
        forall|name: Seq<char>|
            name != "keep-alive"@ && name != "proxy-authenticate"@ && name
                != "proxy-authorization"@ && name != "te"@ && name != "trailer"@ && name
                != "transfer-encoding"@ && name != "connection"@ && name != "upgrade"@
                && !nominated(header_contents(*old(headers))).contains(name) ==> #[trigger] fields(
                header_contents(*final(headers)),
                name,
            ) == fields(header_contents(*old(headers)), name),
{
    let ghost before = header_contents(*headers);
    let names = nominated_names(headers);
    let ghost mut gone: Set<Seq<char>> = Set::empty();
    let ghost kept: Set<Seq<char>> = if preserve_upgrade {
        set!["upgrade"@]
    } else {
        Set::empty()
    };
    proof {
        lemma_known_names();
        assert(before.remove_keys(gone) =~= before);
        assert(gone =~= texts(names@.take(0)).difference(kept));
    }
    let mut i: usize = 0;
    while i < names.len()
        invariant
            i <= names@.len(),
            forall|k: int| 0 <= k < names@.len() ==> is_header_name((#[trigger] names@[k])@),
            header_contents(*headers) == before.remove_keys(gone),
            kept == if preserve_upgrade {
                set!["upgrade"@]
            } else {
                Set::empty()
            },
            gone == texts(names@.take(i as int)).difference(kept),
        decreases names@.len() - i,
    {
        let ghost previous = gone;
        let name = &names[i];
        proof {
            lemma_texts_push(names@.take(i as int), *name);
            assert(names@.take(i + 1) =~= names@.take(i as int).push(*name));
        }
        if !preserve_upgrade || !same_text(name.as_str(), "upgrade") {
            remove(headers, name.as_str());
            proof {
                gone = gone.insert(name@);
                assert(before.remove_keys(previous).remove(name@) =~= before.remove_keys(gone));
            }
        }
        i += 1;
        assert(gone =~= texts(names@.take(i as int)).difference(kept));
    }
    assert(names@.take(i as int) =~= names@);
    remove(headers, "keep-alive");
    remove(headers, "proxy-authenticate");
    remove(headers, "proxy-authorization");
    remove(headers, "te");
    remove(headers, "trailer");
    remove(headers, "transfer-encoding");
    if !preserve_upgrade {
        remove(headers, "connection");
        remove(headers, "upgrade");
    }
    assert(header_contents(*headers) =~= stripped(before, preserve_upgrade));
}

/// The header map has no place for another name.
#[derive(Debug)]
pub struct HeadersFull;

/// The values among `all` that are text.
pub open spec fn text_values(all: Seq<Seq<u8>>) -> Seq<Seq<u8>> {
    all.filter(|value: Seq<u8>| is_visible(value))
}

/// `parts` in a row, with a comma and a space between them.
pub open spec fn joined(parts: Seq<Seq<u8>>) -> Seq<u8>
    decreases parts.len(),
{
    if parts.len() == 0 {
        Seq::empty()
    } else if parts.len() == 1 {
        parts[0]
    } else {
        joined(parts.drop_last()) + encode_utf8(", "@) + parts.last()
    }
}

/// The value of `X-Forwarded-For` after this hop: all values that were there, as
/// far as they are text, and then the address of the peer.
pub open spec fn forwarded_for(all: Seq<Seq<u8>>, address: Seq<char>) -> Seq<u8> {
    joined(text_values(all).push(encode_utf8(address)))
}

/// `contents` with the peer's address added to `X-Forwarded-For`. An address
/// that cannot stand in a header is left out; values that are no text go in any
/// case.
pub open spec fn with_forwarded_for(contents: Contents, address: Seq<char>) -> Contents {
    let all = values(contents, "x-forwarded-for"@);
    if is_header_value(encode_utf8(address)) {
        with_field(contents, "x-forwarded-for"@, (forwarded_for(all, address), false))
    } else if text_values(all) == all {
        contents
    } else if text_values(all).len() == 0 {
        contents.remove("x-forwarded-for"@)
    } else {
        with_field(contents, "x-forwarded-for"@, (joined(text_values(all)), false))
    }
}

/// The values among one more than `all` that are text.
pub proof fn lemma_text_values_push(all: Seq<Seq<u8>>, value: Seq<u8>)
    ensures
        text_values(all.push(value)) == if is_visible(value) {
            text_values(all).push(value)
        } else {
            text_values(all)
        },
{
    reveal(Seq::filter);
    assert(all.push(value).drop_last() =~= all);
}

/// The values that are text are text, and they are all of them when none is
/// missing.
pub proof fn lemma_text_values(all: Seq<Seq<u8>>)
    ensures
        text_values(all).len() <= all.len(),
        text_values(all).len() == all.len() <==> text_values(all) == all,
        text_values(all) == all <==> (forall|i: int|
            0 <= i < all.len() ==> is_visible(#[trigger] all[i])),
        forall|i: int| 0 <= i < text_values(all).len() ==> is_visible(#[trigger] text_values(all)[i]),
    decreases all.len(),
{
    if all.len() == 0 {
        reveal(Seq::filter);
    } else {
        let shorter = all.drop_last();
        lemma_text_values(shorter);
        lemma_text_values_push(shorter, all.last());
        assert(shorter.push(all.last()) =~= all);
        if text_values(all).len() == all.len() {
            assert(text_values(all) =~= all);
        }
        if forall|i: int| 0 <= i < all.len() ==> is_visible(#[trigger] all[i]) {
            assert forall|i: int| 0 <= i < shorter.len() implies is_visible(#[trigger] shorter[i]) by {
                assert(shorter[i] == all[i]);
            }
            assert(is_visible(all[all.len() - 1]));
            assert(text_values(all) =~= all);
        }
        if text_values(all) == all {
            assert forall|i: int| 0 <= i < all.len() implies is_visible(#[trigger] all[i]) by {
                assert(is_visible(text_values(all)[i]));
            }
        }
    }
}

/// Parts that are text in a row are text, and parts that are header values in a
/// row are a header value.
pub proof fn lemma_joined(parts: Seq<Seq<u8>>)
    ensures
        (forall|i: int| 0 <= i < parts.len() ==> is_visible(#[trigger] parts[i])) ==> is_visible(
            joined(parts),
        ),
        (forall|i: int| 0 <= i < parts.len() ==> is_header_value(#[trigger] parts[i]))
            ==> is_header_value(joined(parts)),
    decreases parts.len(),
{
    if parts.len() > 1 {
        let shorter = parts.drop_last();
        let separator = encode_utf8(", "@);
        let front = joined(shorter);
        let whole = joined(parts);
        lemma_joined(shorter);
        reveal_strlit(", ");
        vstd::utf8::is_ascii_chars_encode_utf8(", "@);
        assert(separator =~= seq![44u8, 32u8]);
        assert(whole == front + separator + parts.last());
        assert forall|i: int| 0 <= i < shorter.len() implies #[trigger] shorter[i] == parts[i] by {}
        assert(parts.last() == parts[parts.len() - 1]);
        assert forall|i: int| 0 <= i < whole.len() implies #[trigger] whole[i] == if i < front.len() {
            front[i]
        } else if i < front.len() + 2 {
            separator[i - front.len()]
        } else {
            parts.last()[i - front.len() - 2]
        } by {}
        if forall|i: int| 0 <= i < parts.len() ==> is_visible(#[trigger] parts[i]) {
            assert forall|i: int| 0 <= i < shorter.len() implies is_visible(#[trigger] shorter[i]) by {
                assert(is_visible(parts[i]));
            }
            assert(is_visible(whole));
        }
        if forall|i: int| 0 <= i < parts.len() ==> is_header_value(#[trigger] parts[i]) {
            assert forall|i: int| 0 <= i < shorter.len() implies is_header_value(
                #[trigger] shorter[i],
            ) by {
                assert(is_header_value(parts[i]));
            }
            assert(is_header_value(whole));
        }
    }
}

/// The bytes of each value.
spec fn bytes_of(list: Seq<Vec<u8>>) -> Seq<Seq<u8>> {
    Seq::new(list.len(), |i: int| list[i]@)
}

/// The UTF-8 bytes of each text.
spec fn encoded(list: Seq<String>) -> Seq<Seq<u8>> {
    Seq::new(list.len(), |i: int| encode_utf8(list[i]@))
}

/// The values that are text, as text.
fn visible_texts(all: &Vec<Vec<u8>>) -> (found: Vec<String>)
    ensures
        encoded(found@) == text_values(bytes_of(all@)),
{
    let ghost bytes = bytes_of(all@);
    let mut found: Vec<String> = Vec::new();
    let mut i: usize = 0;
    proof {
        lemma_text_values(bytes.take(0));
        assert(encoded(found@) =~= text_values(bytes.take(0)));
    }
    while i < all.len()
        invariant
            i <= all@.len(),
            bytes == bytes_of(all@),
            encoded(found@) == text_values(bytes.take(i as int)),
        decreases all@.len() - i,
    {
        let ghost before = found@;
        proof {
            lemma_text_values_push(bytes.take(i as int), bytes[i as int]);
            assert(bytes.take(i + 1) =~= bytes.take(i as int).push(bytes[i as int]));
        }
        if let Some(text) = header_value_to_str(all[i].as_slice()) {
            found.push(text);
            assert(encoded(found@) =~= encoded(before).push(bytes[i as int]));
        }
        i += 1;
    }
    assert(bytes.take(i as int) =~= bytes);
    found
}

/// The texts in a row, with a comma and a space between them.
fn join_texts(parts: &Vec<String>) -> (text: String)
    ensures
        encode_utf8(text@) == joined(encoded(parts@)),
{
    let ghost bytes = encoded(parts@);
    if parts.len() == 0 {
        proof {
            reveal_strlit("");
            assert(encode_utf8(""@) =~= Seq::<u8>::empty());
        }
        return "".to_owned();
    }
    let mut text = parts[0].clone();
    let mut i: usize = 1;
    while i < parts.len()
        invariant
            1 <= i <= parts@.len(),
            bytes == encoded(parts@),
            encode_utf8(text@) == joined(bytes.take(i as int)),
        decreases parts@.len() - i,
    {
        proof {
            lemma_encode_concat(text@, ", "@);
            lemma_encode_concat(text@ + ", "@, parts@[i as int]@);
            assert(bytes.take(i + 1).drop_last() =~= bytes.take(i as int));
        }
        text = text.concat(", ").concat(parts[i].as_str());
        i += 1;
    }
    assert(bytes.take(i as int) =~= bytes);
    text
}

/// Adds the peer's address to `X-Forwarded-For`, after all addresses that are
/// there.
pub fn append_forwarded_for(headers: &mut HeaderMap, address: &str) -> (result: Result<
    (),
    HeadersFull,
>)
    ensures
        match result {
            Ok(_) => header_contents(*final(headers)) == with_forwarded_for(
                header_contents(*old(headers)),
                address@,
            ),
            Err(_) => !has_room(header_contents(*old(headers)), 1) && header_contents(
                *final(headers),
            ) == header_contents(*old(headers)),
        },
{
    proof {
        lemma_known_names();
    }
    let name = "x-forwarded-for";
    let all = get_all(headers, name);
    let ghost present = values(header_contents(*headers), name@);
    let mut parts = visible_texts(&all);
    proof {
        assert(bytes_of(all@) =~= present);
        lemma_text_values(present);
        assert(encoded(parts@).len() == parts@.len());
    }
    match header_value_from_str(address) {
        Some(_) => {
            let ghost before = parts@;
            parts.push(address.to_owned());
            assert(encoded(parts@) =~= encoded(before).push(encode_utf8(address@)));
        },
        None => {
            if parts.len() == all.len() {
                return Ok(());
            }
            if parts.len() == 0 {
                remove(headers, name);
                return Ok(());
            }
        },
    }
    let combined = join_texts(&parts);
    proof {
        let bytes = encoded(parts@);
        assert forall|i: int| 0 <= i < bytes.len() implies is_header_value(#[trigger] bytes[i]) by {
            if i < text_values(present).len() {
                assert(is_visible(text_values(present)[i]));
            }
        }
        lemma_joined(bytes);
    }
    match header_value_from_str(combined.as_str()) {
        Some(value) => if try_insert(headers, name, &value) {
            Ok(())
        } else {
            Err(HeadersFull)
        },
        None => Ok(()),
    }
}

/// A reply that the gateway gives by itself.
#[derive(Debug)]
pub struct ErrorReply {
    pub status: u16,
    pub content_type: &'static str,
    pub body: String,
}

impl ErrorReply {
    /// Whether this is a plain-text reply with this status and message.
    pub open spec fn says(self, status: u16, message: Seq<char>) -> bool {
        &&& self.status == status
        &&& self.content_type@ == "text/plain; charset=utf-8"@
        &&& self.body@ == message
    }
}

/// A plain-text reply with the given status and message.
pub fn error_response(status: u16, message: &str) -> (reply: ErrorReply)
    ensures
        reply.says(status, message@),
{
    ErrorReply { status, content_type: "text/plain; charset=utf-8", body: message.to_owned() }
}

/// Why a URL cannot be a fallback origin.
#[derive(Debug)]
pub enum ProxyConfigError {
    MissingScheme,
    MissingAuthority,
    UnsupportedScheme(String),
    UnexpectedPath,
}

impl ProxyConfigError {
    /// What the error says.
    pub open spec fn text(self) -> Seq<char> {
        match self {
            ProxyConfigError::MissingScheme => "fallback upstream URL must include a scheme"@,
            ProxyConfigError::MissingAuthority => "fallback upstream URL must include an authority"@,
            ProxyConfigError::UnsupportedScheme(scheme) =>
                "fallback upstream scheme is not supported: "@ + scheme@,
            ProxyConfigError::UnexpectedPath =>
                "fallback upstream URL must not include a path or query"@,
        }
    }

    /// The error as a message for people.
    pub fn message(&self) -> (message: String)
        ensures
            message@ == self.text(),
    {
        match self {
            ProxyConfigError::MissingScheme =>
                "fallback upstream URL must include a scheme".to_owned(),
            ProxyConfigError::MissingAuthority =>
                "fallback upstream URL must include an authority".to_owned(),
            ProxyConfigError::UnsupportedScheme(scheme) =>
                "fallback upstream scheme is not supported: ".to_owned().concat(scheme.as_str()),
            ProxyConfigError::UnexpectedPath =>
                "fallback upstream URL must not include a path or query".to_owned(),
        }
    }
}

/// Whether a URL is only an origin: `http`, an authority, and nothing after it.
pub open spec fn is_http_origin(upstream: UriParts) -> bool {
    &&& upstream.scheme matches Some(scheme) && scheme@ == "http"@
    &&& upstream.authority is Some
    &&& upstream.path@ == "/"@
    &&& upstream.query is None
}

/// What is wrong with a URL as an origin, the first of these that applies: no
/// scheme, a scheme other than `http`, no authority, a path or query.
pub open spec fn is_origin_fault(upstream: UriParts, error: ProxyConfigError) -> bool {
    match upstream.scheme {
        None => error is MissingScheme,
        Some(scheme) => if scheme@ != "http"@ {
            error matches ProxyConfigError::UnsupportedScheme(text) && text@ == scheme@
        } else if upstream.authority is None {
            error is MissingAuthority
        } else {
            error is UnexpectedPath
        },
    }
}

/// Why a request cannot be forwarded.
#[derive(Debug)]
pub enum PrepareError {
    /// No target can be built for it; the message says why.
    InvalidTarget(String),
    /// Its header map is full.
    HeadersFull,
}

/// What to do with a request that goes to the origin.
pub enum ForwardStep {
    /// Send it to the target, and tunnel if the origin switches protocols on a
    /// request that asked for an upgrade.
    Send { target: Target, upgrade: bool },
    /// Give this reply.
    Reply(ErrorReply),
}

/// The target of a request: its path and query, `/` where it has none.
pub open spec fn requested(path_and_query: Option<&str>) -> Seq<char> {
    match path_and_query {
        Some(text) => text@,
        None => "/"@,
    }
}

/// Whether the gateway itself sets a header of a forwarded request.
pub open spec fn is_set_by_gateway(name: Seq<char>) -> bool {
    ||| name == "x-forwarded-for"@
    ||| name == "x-forwarded-proto"@
    ||| name == "x-forwarded-host"@
}

/// The headers that the origin gets: those of the request that pass a proxy, the
/// peer in `X-Forwarded-For`, and `X-Forwarded-Proto` and `X-Forwarded-Host`
/// where they are not there already.
pub open spec fn forwarded_headers(contents: Contents, peer: Seq<char>, upgrade: bool) -> Contents {
    let kept = with_default(
        with_forwarded_for(stripped(contents, upgrade), peer),
        "x-forwarded-proto"@,
        (encode_utf8("http"@), false),
    );
    match first_field(contents, "host"@) {
        Some(host) => with_default(kept, "x-forwarded-host"@, host),
        None => kept,
    }
}

/// Whether a header map is sure to take the headers that the gateway sets, so
/// that forwarding a request with these headers does not find it full.
pub fn has_forwarding_room(headers: &HeaderMap) -> (room: bool)
    ensures
        room == has_room(header_contents(*headers), 3),
{
    let names = keys(headers);
    proof {
        let listed = Seq::new(names@.len(), |i: int| names@[i]@);
        assert forall|name: Seq<char>| texts(names@).contains(name) implies listed.to_set().contains(
            name,
        ) by {
            let i = choose|i: int| 0 <= i < names@.len() && (#[trigger] names@[i])@ == name;
            assert(listed[i] == name);
        }
        assert(listed.to_set() =~= texts(names@));
        listed.unique_seq_to_set();
        vstd::seq_lib::seq_to_set_is_finite(listed);
    }
    names.len() <= 6551
}

/// Forwards requests to an HTTP origin.
#[derive(Debug)]
pub struct FallbackProxy {
    scheme: String,
    authority: String,
}

impl Clone for FallbackProxy {
    fn clone(&self) -> (proxy: FallbackProxy)
        ensures
            proxy.scheme() == self.scheme(),
            proxy.authority() == self.authority(),
    {
        FallbackProxy { scheme: self.scheme.clone(), authority: self.authority.clone() }
    }
}

impl FallbackProxy {
    /// The scheme of the origin.
    pub closed spec fn scheme(self) -> Seq<char> {
        self.scheme@
    }

    /// The host and port of the origin.
    pub closed spec fn authority(self) -> Seq<char> {
        self.authority@
    }

    /// Forwards to `upstream`, which must be an origin-only `http` URL.
    pub fn new(upstream: &UriParts) -> (result: Result<FallbackProxy, ProxyConfigError>)
        ensures
            match result {
                Ok(proxy) => is_http_origin(*upstream) && proxy.scheme() == "http"@
                    && proxy.authority() == upstream.authority.unwrap()@,
                Err(error) => !is_http_origin(*upstream) && is_origin_fault(*upstream, error),
            },
    {
        let scheme = match &upstream.scheme {
            Some(scheme) => scheme.clone(),
            None => return Err(ProxyConfigError::MissingScheme),
        };
        if !same_text(scheme.as_str(), "http") {
            return Err(ProxyConfigError::UnsupportedScheme(scheme));
        }
        let authority = match &upstream.authority {
            Some(authority) => authority.clone(),
            None => return Err(ProxyConfigError::MissingAuthority),
        };
        if !same_text(upstream.path.as_str(), "/") || upstream.query.is_some() {
            return Err(ProxyConfigError::UnexpectedPath);
        }
        Ok(FallbackProxy { scheme, authority })
    }

    /// Rewrites a request for the origin: gives its new target and changes its
    /// headers.
    pub fn prepare_request(
        &self,
        path_and_query: Option<&str>,
        headers: &mut HeaderMap,
        peer: &str,
        upgrade: bool,
    ) -> (result: Result<Target, PrepareError>)
        ensures
            match result {
                Ok(target) => {
                    &&& built_uri(self.scheme(), self.authority(), requested(path_and_query)) is Ok
                    &&& target@ == (
                        self.scheme(),
                        self.authority(),
                        without_fragment(requested(path_and_query)),
                    )
                    &&& uri_components(target.uri) == target@
                    &&& target.scheme@ == self.scheme()
                    &&& target.authority@ == self.authority()
                    &&& path_and_query matches Some(text) ==> target.path_and_query@
                        == without_fragment(text@)
                    &&& path_and_query is None ==> target.path_and_query@ == "/"@
                    &&& header_contents(*final(headers)) == forwarded_headers(
                        header_contents(*old(headers)),
                        peer@,
                        upgrade,
                    )
                },
                Err(PrepareError::InvalidTarget(message)) => {
                    &&& built_uri(self.scheme(), self.authority(), requested(path_and_query))
                        == Err::<(Seq<char>, Seq<char>, Seq<char>), Seq<char>>(message@)
                    &&& header_contents(*final(headers)) == header_contents(*old(headers))
                },
                Err(PrepareError::HeadersFull) => {
                    &&& built_uri(self.scheme(), self.authority(), requested(path_and_query)) is Ok
                    &&& !has_room(header_contents(*old(headers)), 3)
                    &&& forall|name: Seq<char>|
                        !is_set_by_gateway(name) ==> #[trigger] fields(
                            header_contents(*final(headers)),
                            name,
                        ) == fields(stripped(header_contents(*old(headers)), upgrade), name)
                },
            },
    {
        let wanted = match path_and_query {
            Some(text) => text,
            None => "/",
        };
        let target = match build_uri(self.scheme.as_str(), self.authority.as_str(), wanted) {
            Ok(target) => target,
            Err(message) => return Err(PrepareError::InvalidTarget(message)),
        };
        proof {
            lemma_known_names();
            lemma_slash_has_no_fragment();
        }
        let ghost before = header_contents(*headers);
        let original_host = get(headers, "host");
        remove_hop_by_hop_headers(headers, upgrade);
        let ghost passed = header_contents(*headers);
        proof {
            if has_room(before, 3) {
                lemma_room_after_removal(before, stripped_names(before, upgrade), 3);
            }
        }
        match append_forwarded_for(headers, peer) {
            Ok(_) => {},
            Err(_) => return Err(PrepareError::HeadersFull),
        }
        let ghost chained = header_contents(*headers);
        proof {
            if has_room(before, 3) {
                lemma_room_with_forwarded_for(passed, peer@, 2);
            }
            reveal_strlit("http");
            vstd::utf8::is_ascii_chars_encode_utf8("http"@);
        }
        // The text `http`.
        let proto = FieldValue { bytes: vec![104u8, 116, 116, 112], sensitive: false };
        assert(proto.bytes@ =~= encode_utf8("http"@));
        if !try_insert_default(headers, "x-forwarded-proto", &proto) {
            return Err(PrepareError::HeadersFull);
        }
        proof {
            if has_room(before, 3) {
                lemma_room_after_insert(
                    chained,
                    "x-forwarded-proto"@,
                    (encode_utf8("http"@), false),
                    1,
                );
            }
        }
        if let Some(host) = original_host {
            if !try_insert_default(headers, "x-forwarded-host", &host) {
                return Err(PrepareError::HeadersFull);
            }
        }
        Ok(target)
    }

    /// Decides what happens to a request that goes to the origin, and changes
    /// its headers for it.
    pub fn forward(
        &self,
        path_and_query: Option<&str>,
        headers: &mut HeaderMap,
        peer: &str,
    ) -> (result: Result<ForwardStep, HeadersFull>)
        ensures
            match result {
                Ok(ForwardStep::Send { target, upgrade }) => {
                    &&& upgrade == asks_upgrade(header_contents(*old(headers)))
                    &&& built_uri(self.scheme(), self.authority(), requested(path_and_query)) is Ok
                    &&& target@ == (
                        self.scheme(),
                        self.authority(),
                        without_fragment(requested(path_and_query)),
                    )
                    &&& uri_components(target.uri) == target@
                    &&& target.scheme@ == self.scheme()
                    &&& target.authority@ == self.authority()
                    &&& path_and_query matches Some(text) ==> target.path_and_query@
                        == without_fragment(text@)
                    &&& path_and_query is None ==> target.path_and_query@ == "/"@
                    &&& header_contents(*final(headers)) == forwarded_headers(
                        header_contents(*old(headers)),
                        peer@,
                        upgrade,
                    )
                },
                Ok(ForwardStep::Reply(reply)) => {
                    &&& built_uri(
                        self.scheme(),
                        self.authority(),
                        requested(path_and_query),
                    ) matches Err(message) && reply.says(502, message)
                    &&& header_contents(*final(headers)) == header_contents(*old(headers))
                },
                Err(_) => {
                    &&& built_uri(self.scheme(), self.authority(), requested(path_and_query)) is Ok
                    &&& !has_room(header_contents(*old(headers)), 3)
                    &&& forall|name: Seq<char>|
                        !is_set_by_gateway(name) ==> #[trigger] fields(
                            header_contents(*final(headers)),
                            name,
                        ) == fields(
                            stripped(
                                header_contents(*old(headers)),
                                asks_upgrade(header_contents(*old(headers))),
                            ),
                            name,
                        )
                },
            },
            takes_targets(self.scheme(), self.authority()) && has_room(
                header_contents(*old(headers)),
                3,
            ) ==> if is_path_and_query(encode_utf8(requested(path_and_query))) {
                result matches Ok(ForwardStep::Send { .. })
            } else {
                result matches Ok(ForwardStep::Reply(_))
            },
    {
        let upgrade = is_upgrade(headers);
        match self.prepare_request(path_and_query, headers, peer, upgrade) {
            Ok(target) => Ok(ForwardStep::Send { target, upgrade }),
            Err(PrepareError::InvalidTarget(message)) => Ok(
                ForwardStep::Reply(error_response(502, message.as_str())),
            ),
            Err(PrepareError::HeadersFull) => Err(HeadersFull),
        }
    }

    /// The reply to a request that the origin did not answer.
    pub fn upstream_failed() -> (reply: ErrorReply)
        ensures
            reply.says(502, "fallback upstream unavailable"@),
    {
        error_response(502, "fallback upstream unavailable")
    }

    /// Prepares the origin's response for the client and says whether the two
    /// connections become a tunnel. A response that switches protocols keeps all
    /// its headers.
    pub fn relay_response(status: u16, headers: &mut HeaderMap, upgrade: bool) -> (tunnel: bool)
        ensures
            tunnel == (status == 101 && upgrade),
            header_contents(*final(headers)) == if status == 101 {
                header_contents(*old(headers))
            } else {
                stripped(header_contents(*old(headers)), false)
            },
    {
        if status == 101 {
            upgrade
        } else {
            remove_hop_by_hop_headers(headers, false);
            false
        }
    }
}

/// Adding the peer takes at most one place.
proof fn lemma_room_with_forwarded_for(contents: Contents, address: Seq<char>, count: nat)
    requires
        has_room(contents, count + 1),
    ensures
        has_room(with_forwarded_for(contents, address), count),
{
    let name = "x-forwarded-for"@;
    let all = values(contents, name);
    lemma_room_after_insert(contents, name, (forwarded_for(all, address), false), count);
    lemma_room_after_insert(contents, name, (joined(text_values(all)), false), count);
}

} // verus!
