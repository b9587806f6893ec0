//! What holds of forwarded requests and their responses.

use vstd::prelude::*;
use vstd::utf8::encode_utf8;

use crate::gateway::{declared_length, length_text};
use crate::headers::{
    Contents, Field, fields, first_field, has_room, header_name, is_header_value, is_value_byte,
    is_visible, values,
};
use crate::laws::tokens::{
    law_no_separator_makes_one_piece, law_separators_part_pieces, law_values_and_text,
};
use crate::proxy::{
    ErrorReply, ProxyConfigError, asks_upgrade, forwarded_headers, is_hop_by_hop,
    is_http_origin, is_origin_fault, is_set_by_gateway, joined, lemma_joined, lemma_text_values,
    lemma_text_values_push, names_in, nominated, requested, stripped, stripped_names, text_values,
    with_forwarded_for,
};
use crate::text::{decimal_text, decimal_value, is_digit, lemma_encode_concat, parsed_u64};
use crate::tokens::{
    has_token, is_blank, lemma_split_nonempty, lower, same_ignoring_case, split, trim_end,
    trim_start, trimmed,
};
use crate::uri::{Target, UriParts, lemma_slash_has_no_fragment, without_fragment};

verus! {

/// Two spellings of a token that differ in the case of letters are found in the
/// same header values.
pub proof fn law_tokens_ignore_case(value: Seq<u8>, a: Seq<u8>, b: Seq<u8>)
    requires
        same_ignoring_case(a, b),
    ensures
        has_token(value, a) == has_token(value, b),
{
    if has_token(value, a) {
        let i = choose|i: int|
            0 <= i < split(value, 44).len() && same_ignoring_case(
                trimmed(#[trigger] split(value, 44)[i]),
                a,
            );
        assert(same_ignoring_case(trimmed(split(value, 44)[i]), b));
    }
    if has_token(value, b) {
        let i = choose|i: int|
            0 <= i < split(value, 44).len() && same_ignoring_case(
                trimmed(#[trigger] split(value, 44)[i]),
                b,
            );
        let piece = trimmed(split(value, 44)[i]);
        assert forall|k: int| 0 <= k < piece.len() implies lower(#[trigger] piece[k]) == lower(
            a[k],
        ) by {
            assert(lower(a[k]) == lower(b[k]));
        }
        assert(same_ignoring_case(piece, a));
    }
}

/// Two header values that differ in the case of letters hold the same tokens.
pub proof fn law_values_ignore_case(a: Seq<u8>, b: Seq<u8>, expected: Seq<u8>)
    requires
        same_ignoring_case(a, b),
    ensures
        has_token(a, expected) == has_token(b, expected),
{
    assert forall|i: int| 0 <= i < a.len() implies lower(#[trigger] b[i]) == lower(a[i]) by {
        assert(lower(a[i]) == lower(b[i]));
    }
    if has_token(a, expected) {
        lemma_tokens_of_other_case(a, b, expected);
    }
    if has_token(b, expected) {
        lemma_tokens_of_other_case(b, a, expected);
    }
}

proof fn lemma_tokens_of_other_case(a: Seq<u8>, b: Seq<u8>, expected: Seq<u8>)
    requires
        same_ignoring_case(a, b),
        has_token(a, expected),
    ensures
        has_token(b, expected),
{
    lemma_split_of_other_case(a, b);
    let i = choose|i: int|
        0 <= i < split(a, 44).len() && same_ignoring_case(
            trimmed(#[trigger] split(a, 44)[i]),
            expected,
        );
    let left = split(a, 44)[i];
    let right = split(b, 44)[i];
    lemma_trim_start_of_other_case(left, right);
    lemma_trim_end_of_other_case(trim_start(left), trim_start(right));
    assert forall|k: int| 0 <= k < trimmed(right).len() implies lower(
        #[trigger] trimmed(right)[k],
    ) == lower(expected[k]) by {
        assert(lower(trimmed(left)[k]) == lower(trimmed(right)[k]));
    }
    assert(same_ignoring_case(trimmed(right), expected));
}

proof fn lemma_split_of_other_case(a: Seq<u8>, b: Seq<u8>)
    requires
        same_ignoring_case(a, b),
    ensures
        split(a, 44).len() == split(b, 44).len(),
        forall|i: int|
            0 <= i < split(a, 44).len() ==> same_ignoring_case(
                #[trigger] split(a, 44)[i],
                split(b, 44)[i],
            ),
    decreases a.len(),
{
    if a.len() > 0 {
        assert(lower(a[a.len() - 1]) == lower(b[a.len() - 1]));
        assert forall|i: int| 0 <= i < a.drop_last().len() implies lower(
            #[trigger] a.drop_last()[i],
        ) == lower(b.drop_last()[i]) by {
            assert(lower(a[i]) == lower(b[i]));
        }
        lemma_split_of_other_case(a.drop_last(), b.drop_last());
        lemma_split_nonempty(a.drop_last(), 44u8);
        let left = split(a.drop_last(), 44u8);
        let right = split(b.drop_last(), 44u8);
        let last = left.len() - 1;
        assert(same_ignoring_case(left[last], right[last]));
        assert forall|i: int| 0 <= i < split(a, 44).len() implies same_ignoring_case(
            #[trigger] split(a, 44)[i],
            split(b, 44)[i],
        ) by {
            if i < last {
                assert(same_ignoring_case(left[i], right[i]));
            }
        }
    }
}

proof fn lemma_trim_start_of_other_case(a: Seq<u8>, b: Seq<u8>)
    requires
        same_ignoring_case(a, b),
    ensures
        same_ignoring_case(trim_start(a), trim_start(b)),
    decreases a.len(),
{
    if a.len() > 0 {
        assert(lower(a[0]) == lower(b[0]));
        if is_blank(a[0]) {
            assert forall|i: int| 0 <= i < a.drop_first().len() implies lower(
                #[trigger] a.drop_first()[i],
            ) == lower(b.drop_first()[i]) by {
                assert(lower(a[i + 1]) == lower(b[i + 1]));
            }
            lemma_trim_start_of_other_case(a.drop_first(), b.drop_first());
        }
    }
}

proof fn lemma_trim_end_of_other_case(a: Seq<u8>, b: Seq<u8>)
    requires
        same_ignoring_case(a, b),
    ensures
        same_ignoring_case(trim_end(a), trim_end(b)),
    decreases a.len(),
{
    if a.len() > 0 {
        assert(lower(a[a.len() - 1]) == lower(b[a.len() - 1]));
        if is_blank(a.last()) {
            assert forall|i: int| 0 <= i < a.drop_last().len() implies lower(
                #[trigger] a.drop_last()[i],
            ) == lower(b.drop_last()[i]) by {
                assert(lower(a[i]) == lower(b[i]));
            }
            lemma_trim_end_of_other_case(a.drop_last(), b.drop_last());
        }
    }
}

/// The tokens of two values joined by a comma are the tokens of the one and of
/// the other.
pub proof fn law_joined_values_join_tokens(a: Seq<u8>, b: Seq<u8>, expected: Seq<u8>)
    ensures
        has_token(a.push(44) + b, expected) <==> has_token(a, expected) || has_token(b, expected),
{
    let whole = a.push(44) + b;
    law_separators_part_pieces(a, b, 44u8);
    if has_token(whole, expected) {
        let i = choose|i: int|
            0 <= i < split(whole, 44).len() && same_ignoring_case(
                trimmed(#[trigger] split(whole, 44)[i]),
                expected,
            );
        if i < split(a, 44).len() {
            assert(split(a, 44)[i] == split(whole, 44)[i]);
        } else {
            assert(split(b, 44)[i - split(a, 44).len()] == split(whole, 44)[i]);
        }
    }
    if has_token(a, expected) {
        let i = choose|i: int|
            0 <= i < split(a, 44).len() && same_ignoring_case(
                trimmed(#[trigger] split(a, 44)[i]),
                expected,
            );
        assert(split(whole, 44)[i] == split(a, 44)[i]);
    }
    if has_token(b, expected) {
        let i = choose|i: int|
            0 <= i < split(b, 44).len() && same_ignoring_case(
                trimmed(#[trigger] split(b, 44)[i]),
                expected,
            );
        assert(split(whole, 44)[split(a, 44).len() + i] == split(b, 44)[i]);
    }
}

/// Which headers pass a proxy, and which do not. Of those that a message has,
/// exactly these are taken out: six headers that never pass; those that a
/// `Connection` header names, but for an `Upgrade` that is preserved; and
/// `Connection` and `Upgrade` themselves where no upgrade is preserved. All
/// others stay, with all their values.
pub proof fn law_stripping_is_exact(contents: Contents, preserve_upgrade: bool, name: Seq<char>)
    ensures
        stripped(contents, preserve_upgrade).contains_key(name) <==> {
            &&& contents.contains_key(name)
            &&& !(name == "keep-alive"@
                || name == "proxy-authenticate"@
                || name == "proxy-authorization"@
                || name == "te"@
                || name == "trailer"@
                || name == "transfer-encoding"@)
            &&& !(nominated(contents).contains(name) && !(preserve_upgrade && name == "upgrade"@))
            &&& preserve_upgrade || (name != "connection"@ && name != "upgrade"@)
        },
        stripped(contents, preserve_upgrade).contains_key(name) ==> stripped(
            contents,
            preserve_upgrade,
        )[name] == contents[name],
{
}

/// A `Connection` header names exactly the headers that its tokens spell: no
/// other header of the message matters.
pub proof fn law_connection_names_its_tokens(contents: Contents, name: Seq<char>)
    ensures
        nominated(contents).contains(name) <==> contents.contains_key("connection"@) && (exists|
            i: int,
            k: int,
        |
            0 <= i < contents["connection"@].len() && 0 <= k < split(
                contents["connection"@][i].0,
                44,
            ).len() && header_name(trimmed(#[trigger] split(contents["connection"@][i].0, 44)[k]))
                == Some(name)),
{
    if nominated(contents).contains(name) {
        let i = choose|i: int|
            0 <= i < values(contents, "connection"@).len() && names_in(
                #[trigger] values(contents, "connection"@)[i],
            ).contains(name);
        let value = contents["connection"@][i].0;
        assert(values(contents, "connection"@)[i] == value);
        let k = choose|k: int|
            0 <= k < split(value, 44).len() && header_name(trimmed(#[trigger] split(value, 44)[k]))
                == Some(name);
        assert(header_name(trimmed(split(contents["connection"@][i].0, 44)[k])) == Some(name));
    }
    if contents.contains_key("connection"@) && (exists|i: int, k: int|
        0 <= i < contents["connection"@].len() && 0 <= k < split(
            contents["connection"@][i].0,
            44,
        ).len() && header_name(trimmed(#[trigger] split(contents["connection"@][i].0, 44)[k]))
            == Some(name)) {
        let (i, k) = choose|i: int, k: int|
            0 <= i < contents["connection"@].len() && 0 <= k < split(
                contents["connection"@][i].0,
                44,
            ).len() && header_name(trimmed(#[trigger] split(contents["connection"@][i].0, 44)[k]))
                == Some(name);
        let value = values(contents, "connection"@)[i];
        assert(value == contents["connection"@][i].0);
        assert(header_name(trimmed(split(value, 44)[k])) == Some(name));
        assert(names_in(value).contains(name));
    }
}

/// Headers ask for an upgrade exactly when there is an `Upgrade` header and one
/// of the `Connection` headers has the token `upgrade`, whatever else there is.
pub proof fn law_upgrades_are_asked_for(contents: Contents)
    ensures
        asks_upgrade(contents) <==> {
            &&& contents.contains_key("upgrade"@)
            &&& contents.contains_key("connection"@)
            &&& exists|i: int|
                0 <= i < contents["connection"@].len() && has_token(
                    (#[trigger] contents["connection"@][i]).0,
                    seq![117u8, 112u8, 103u8, 114u8, 97u8, 100u8, 101u8],
                )
        },
{
    let token = seq![117u8, 112u8, 103u8, 114u8, 97u8, 100u8, 101u8];
    reveal_strlit("upgrade");
    vstd::utf8::is_ascii_chars_encode_utf8("upgrade"@);
    assert(encode_utf8("upgrade"@) =~= token);
    if asks_upgrade(contents) {
        let i = choose|i: int|
            0 <= i < values(contents, "connection"@).len() && has_token(
                #[trigger] values(contents, "connection"@)[i],
                encode_utf8("upgrade"@),
            );
        assert(has_token(contents["connection"@][i].0, token));
    }
    if contents.contains_key("upgrade"@) && contents.contains_key("connection"@) && (exists|i: int|
        0 <= i < contents["connection"@].len() && has_token(
            (#[trigger] contents["connection"@][i]).0,
            token,
        )) {
        let i = choose|i: int|
            0 <= i < contents["connection"@].len() && has_token(
                (#[trigger] contents["connection"@][i]).0,
                token,
            );
        assert(has_token(values(contents, "connection"@)[i], encode_utf8("upgrade"@)));
    }
}

/// Two messages with the same `Upgrade` and `Connection` headers ask for an
/// upgrade both or neither.
pub proof fn law_other_headers_do_not_change_upgrades(a: Contents, b: Contents)
    requires
        a.contains_key("upgrade"@) == b.contains_key("upgrade"@),
        a.contains_key("connection"@) == b.contains_key("connection"@),
        a.contains_key("connection"@) ==> a["connection"@] == b["connection"@],
    ensures
        asks_upgrade(a) == asks_upgrade(b),
{
    law_upgrades_are_asked_for(a);
    law_upgrades_are_asked_for(b);
}

/// The headers that the gateway sets by itself are these three.
pub proof fn law_three_headers_are_set(name: Seq<char>)
    ensures
        is_set_by_gateway(name) <==> name == "x-forwarded-for"@ || name == "x-forwarded-proto"@
            || name == "x-forwarded-host"@,
{
}

/// Values in a row have a comma and a space between them, and nothing else: no
/// byte of a value is lost or changed.
pub proof fn law_values_are_joined(parts: Seq<Seq<u8>>, a: Seq<u8>, b: Seq<u8>)
    ensures
        joined(Seq::<Seq<u8>>::empty()) == Seq::<u8>::empty(),
        joined(seq![a]) == a,
        joined(parts.push(a).push(b)) == joined(parts.push(a)) + seq![44u8, 32u8] + b,
{
    reveal_strlit(", ");
    vstd::utf8::is_ascii_chars_encode_utf8(", "@);
    assert(encode_utf8(", "@) =~= seq![44u8, 32u8]);
    assert(parts.push(a).push(b).drop_last() =~= parts.push(a));
}

/// Of several values those that hold visible ASCII characters, spaces and tabs
/// only are kept, in order.
pub proof fn law_text_values_are_kept(all: Seq<Seq<u8>>, value: Seq<u8>)
    ensures
        text_values(Seq::<Seq<u8>>::empty()) == Seq::<Seq<u8>>::empty(),
        text_values(all.push(value)) == if forall|i: int|
            0 <= i < value.len() ==> 32 <= #[trigger] value[i] <= 126 || value[i] == 9 {
            text_values(all).push(value)
        } else {
            text_values(all)
        },
{
    lemma_text_values(Seq::<Seq<u8>>::empty());
    lemma_text_values_push(all, value);
    law_values_and_text(value);
}

/// Adding a peer changes `X-Forwarded-For` only. With an address that can stand
/// in a header it becomes one value: the values that were there and are text,
/// and then the address. Any other address is left out, and values that are no
/// text go.
pub proof fn law_adding_a_peer(contents: Contents, address: Seq<char>, name: Seq<char>)
    ensures
        name != "x-forwarded-for"@ ==> with_forwarded_for(contents, address).contains_key(name)
            == contents.contains_key(name),
        name != "x-forwarded-for"@ && contents.contains_key(name) ==> with_forwarded_for(
            contents,
            address,
        )[name] == contents[name],
        is_header_value(encode_utf8(address)) ==> with_forwarded_for(
            contents,
            address,
        ).contains_key("x-forwarded-for"@),
        is_header_value(encode_utf8(address)) ==> with_forwarded_for(
            contents,
            address,
        )["x-forwarded-for"@] == seq![
            (
                joined(
                    text_values(
                        if contents.contains_key("x-forwarded-for"@) {
                            Seq::new(
                                contents["x-forwarded-for"@].len(),
                                |i: int| contents["x-forwarded-for"@][i].0,
                            )
                        } else {
                            Seq::empty()
                        },
                    ).push(encode_utf8(address)),
                ),
                false,
            ),
        ],
        !is_header_value(encode_utf8(address)) && (forall|i: int|
            0 <= i < values(contents, "x-forwarded-for"@).len() ==> is_visible(
                #[trigger] values(contents, "x-forwarded-for"@)[i],
            )) ==> with_forwarded_for(contents, address) == contents,
        !is_header_value(encode_utf8(address)) && (exists|i: int|
            0 <= i < values(contents, "x-forwarded-for"@).len() && !is_visible(
                #[trigger] values(contents, "x-forwarded-for"@)[i],
            )) ==> fields(with_forwarded_for(contents, address), "x-forwarded-for"@) == if text_values(
            values(contents, "x-forwarded-for"@),
        ).len() == 0 {
            Seq::empty()
        } else {
            seq![(joined(text_values(values(contents, "x-forwarded-for"@))), false)]
        },
{
    let name = "x-forwarded-for"@;
    lemma_text_values(values(contents, name));
    if contents.contains_key(name) {
        assert(values(contents, name) =~= Seq::new(
            contents[name].len(),
            |i: int| contents[name][i].0,
        ));
    } else {
        assert(values(contents, name) =~= Seq::empty());
    }
}

/// The bytes of the values under a name are those of all values that the message
/// has under it, in order.
pub proof fn law_values_of_a_header(contents: Contents, name: Seq<char>)
    ensures
        !contents.contains_key(name) ==> fields(contents, name).len() == 0 && values(
            contents,
            name,
        ).len() == 0 && first_field(contents, name) is None,
        contents.contains_key(name) ==> fields(contents, name) == contents[name] && values(
            contents,
            name,
        ).len() == contents[name].len() && first_field(contents, name) == Some(contents[name][0]),
        forall|i: int|
            contents.contains_key(name) && 0 <= i < contents[name].len() ==> #[trigger] values(
                contents,
                name,
            )[i] == contents[name][i].0,
{
}

/// A map with at most 6551 names takes the three headers of the gateway.
pub proof fn law_small_maps_have_room(contents: Contents)
    requires
        contents.dom().finite(),
    ensures
        has_room(contents, 3) <==> contents.dom().len() <= 6551,
{
}

/// The target of a request is its own path and query, and `/` only where it has
/// none. What is forwarded of it is all of it, unless it has a fragment.
pub proof fn law_requests_keep_their_target(path_and_query: Option<&str>)
    ensures
        path_and_query matches Some(text) ==> requested(path_and_query) == text@,
        path_and_query is None ==> requested(path_and_query) == "/"@,
        path_and_query matches Some(text) ==> (text@.len() > 0 && !text@.contains('#')
            ==> without_fragment(requested(path_and_query)) == text@),
        path_and_query is None ==> without_fragment(requested(path_and_query)) == "/"@,
{
    lemma_slash_has_no_fragment();
    if let Some(text) = path_and_query {
        if !text@.contains('#') {
            law_no_separator_makes_one_piece(text@, '#');
        }
    }
}

/// A path and query with a fragment is forwarded without it, and `/` where
/// nothing stands before the fragment.
pub proof fn law_fragments_are_cut_off(kept: Seq<char>, fragment: Seq<char>)
    requires
        !kept.contains('#'),
    ensures
        without_fragment(kept.push('#') + fragment) == if kept.len() > 0 {
            kept
        } else {
            "/"@
        },
        without_fragment(kept) == if kept.len() > 0 {
            kept
        } else {
            "/"@
        },
{
    law_separators_part_pieces(kept, fragment, '#');
    law_no_separator_makes_one_piece(kept, '#');
    assert(split(kept.push('#') + fragment, '#')[0] == kept);
}

/// A URL is an origin exactly when it has the scheme `http`, an authority, the
/// path `/` and no query; and each other URL has exactly the first of the faults
/// that it shows.
pub proof fn law_origins(upstream: UriParts, error: ProxyConfigError)
    ensures
        is_http_origin(upstream) <==> {
            &&& upstream.scheme is Some && upstream.scheme->0@ == "http"@
            &&& upstream.authority is Some
            &&& upstream.path@ == "/"@
            &&& upstream.query is None
        },
        is_origin_fault(upstream, error) ==> (error is MissingScheme <==> upstream.scheme is None),
        is_origin_fault(upstream, error) ==> (error is UnsupportedScheme <==> upstream.scheme is Some
            && upstream.scheme->0@ != "http"@),
        is_origin_fault(upstream, error) && error is UnsupportedScheme ==> error->UnsupportedScheme_0@
            == upstream.scheme->0@,
        is_origin_fault(upstream, error) ==> (error is MissingAuthority <==> upstream.scheme is Some
            && upstream.scheme->0@ == "http"@ && upstream.authority is None),
        is_origin_fault(upstream, error) ==> (error is UnexpectedPath <==> upstream.scheme is Some
            && upstream.scheme->0@ == "http"@ && upstream.authority is Some),
{
}

/// What an origin fault says.
pub proof fn law_origin_faults_say(error: ProxyConfigError)
    ensures
        error is MissingScheme ==> error.text() == "fallback upstream URL must include a scheme"@,
        error is MissingAuthority ==> error.text()
            == "fallback upstream URL must include an authority"@,
        error matches ProxyConfigError::UnsupportedScheme(scheme) ==> error.text()
            == "fallback upstream scheme is not supported: "@ + scheme@,
        error is UnexpectedPath ==> error.text()
            == "fallback upstream URL must not include a path or query"@,
{
}

/// A reply that says something is plain text with that status and exactly that
/// message.
pub proof fn law_replies_are_plain_text(reply: ErrorReply, status: u16, message: Seq<char>)
    ensures
        reply.says(status, message) <==> reply.status == status && reply.body@ == message
            && reply.content_type@ == "text/plain; charset=utf-8"@,
{
}

/// What the parts of a URI and of a target show of it: every text that they hold.
pub proof fn law_uri_parts_are_shown(uri: UriParts, target: Target)
    ensures
        uri@.0 is Some <==> uri.scheme is Some,
        uri.scheme is Some ==> uri@.0->0 == uri.scheme->0@,
        uri@.1 is Some <==> uri.authority is Some,
        uri.authority is Some ==> uri@.1->0 == uri.authority->0@,
        uri@.2 == uri.path@,
        uri@.3 is Some <==> uri.query is Some,
        uri.query is Some ==> uri@.3->0 == uri.query->0@,
        target@.0 == target.scheme@,
        target@.1 == target.authority@,
        target@.2 == target.path_and_query@,
{
}

/// The declared length is what the first `Content-Length` reads as, if it is
/// text that reads as a number; no other header counts.
pub proof fn law_declared_lengths(contents: Contents, text: Seq<char>)
    ensures
        !contents.contains_key("content-length"@) ==> declared_length(contents) is None,
        contents.contains_key("content-length"@) && contents["content-length"@][0].0 == encode_utf8(
            text,
        ) && is_visible(encode_utf8(text)) ==> declared_length(contents) == parsed_u64(text),
        contents.contains_key("content-length"@) && !is_visible(contents["content-length"@][0].0)
            ==> declared_length(contents) is None,
{
    vstd::utf8::encode_utf8_decode_utf8(text);
}

/// A known length is shown as a decimal number, an unknown one as `-`.
pub proof fn law_lengths_are_shown(length: Option<u64>)
    ensures
        length matches Some(number) ==> length_text(length) == decimal_text(number as nat),
        length is None ==> length_text(length) == "-"@,
{
}

/// Stripping a message of its upgrade after all leaves what stripping it at once
/// would have left.
pub proof fn law_upgrades_can_be_stripped_later(contents: Contents)
    ensures
        stripped(stripped(contents, true), false) == stripped(contents, false),
{
    let once = stripped(contents, true);
    assert forall|name: Seq<char>| nominated(once).contains(name) implies nominated(
        contents,
    ).contains(name) by {
        let i = choose|i: int|
            0 <= i < values(once, "connection"@).len() && names_in(
                #[trigger] values(once, "connection"@)[i],
            ).contains(name);
        assert(values(contents, "connection"@)[i] == values(once, "connection"@)[i]);
    }
    assert(stripped(once, false) =~= stripped(contents, false));
}

/// What was stripped once is not changed by stripping it again.
pub proof fn law_stripping_is_idempotent(contents: Contents, preserve_upgrade: bool)
    ensures
        stripped(stripped(contents, preserve_upgrade), preserve_upgrade) == stripped(
            contents,
            preserve_upgrade,
        ),
{
    let once = stripped(contents, preserve_upgrade);
    assert(once.contains_key("connection"@) ==> once["connection"@] == contents["connection"@]);
    assert forall|name: Seq<char>| nominated(once).contains(name) implies nominated(
        contents,
    ).contains(name) by {
        let i = choose|i: int|
            0 <= i < values(once, "connection"@).len() && names_in(
                #[trigger] values(once, "connection"@)[i],
            ).contains(name);
        assert(values(contents, "connection"@)[i] == values(once, "connection"@)[i]);
    }
    assert(stripped(once, preserve_upgrade) =~= once);
}

/// A header that is meant for the other end passes a proxy as it is: every value
/// that was there, in order, and with the mark that it had.
pub proof fn law_end_to_end_headers_pass(
    contents: Contents,
    preserve_upgrade: bool,
    name: Seq<char>,
)
    requires
        !nominated(contents).contains(name),
        name != "keep-alive"@,
        name != "proxy-authenticate"@,
        name != "proxy-authorization"@,
        name != "te"@,
        name != "trailer"@,
        name != "transfer-encoding"@,
        name != "connection"@,
        name != "upgrade"@,
    ensures
        stripped(contents, preserve_upgrade).contains_key(name) == contents.contains_key(name),
        contents.contains_key(name) ==> stripped(contents, preserve_upgrade)[name]
            == contents[name],
        fields(stripped(contents, preserve_upgrade), name) == fields(contents, name),
{
}

/// No header is added or changed by stripping.
pub proof fn law_stripping_only_removes(
    contents: Contents,
    preserve_upgrade: bool,
    name: Seq<char>,
)
    requires
        stripped(contents, preserve_upgrade).contains_key(name),
    ensures
        contents.contains_key(name),
        stripped(contents, preserve_upgrade)[name] == contents[name],
{
}

/// The hop-by-hop headers, and those that `Connection` names, do not pass. Of
/// these only the headers of an upgrade that is preserved are kept.
pub proof fn law_hop_by_hop_headers_stop(
    contents: Contents,
    preserve_upgrade: bool,
    name: Seq<char>,
)
    requires
        name == "keep-alive"@
            || name == "proxy-authenticate"@
            || name == "proxy-authorization"@
            || name == "te"@
            || name == "trailer"@
            || name == "transfer-encoding"@
            || nominated(contents).contains(name),
        !(preserve_upgrade && name == "upgrade"@),
    ensures
        !stripped(contents, preserve_upgrade).contains_key(name),
{
    assert(stripped_names(contents, preserve_upgrade).contains(name));
}

/// But for the three headers that the gateway sets, the origin gets exactly the
/// headers that pass a proxy, each with all its values. `Host` is among them
/// unless `Connection` names it.
pub proof fn law_forwarding_keeps_other_headers(
    contents: Contents,
    peer: Seq<char>,
    upgrade: bool,
    name: Seq<char>,
)
    requires
        name != "x-forwarded-for"@,
        name != "x-forwarded-proto"@,
        name != "x-forwarded-host"@,
    ensures
        forwarded_headers(contents, peer, upgrade).contains_key(name) == stripped(
            contents,
            upgrade,
        ).contains_key(name),
        fields(forwarded_headers(contents, peer, upgrade), name) == fields(
            stripped(contents, upgrade),
            name,
        ),
{
}

proof fn lemma_distinct_names()
    ensures
        !is_set_by_gateway("connection"@),
        !is_set_by_gateway("upgrade"@),
        !is_hop_by_hop("connection"@),
        !is_hop_by_hop("upgrade"@),
        !is_hop_by_hop("x-forwarded-for"@),
        !is_hop_by_hop("x-forwarded-proto"@),
        !is_hop_by_hop("x-forwarded-host"@),
        "connection"@ != "upgrade"@,
        "x-forwarded-for"@ != "x-forwarded-proto"@,
        "x-forwarded-for"@ != "x-forwarded-host"@,
        "x-forwarded-proto"@ != "x-forwarded-host"@,
{
    reveal_strlit("connection");
    reveal_strlit("upgrade");
    reveal_strlit("keep-alive");
    reveal_strlit("proxy-authenticate");
    reveal_strlit("proxy-authorization");
    reveal_strlit("te");
    reveal_strlit("trailer");
    reveal_strlit("transfer-encoding");
    reveal_strlit("x-forwarded-for");
    reveal_strlit("x-forwarded-host");
    reveal_strlit("x-forwarded-proto");
    assert("connection"@.len() == 10 && "upgrade"@.len() == 7);
    assert("keep-alive"@.len() == 10 && "proxy-authenticate"@.len() == 18);
    assert("proxy-authorization"@.len() == 19 && "te"@.len() == 2 && "trailer"@.len() == 7);
    assert("transfer-encoding"@.len() == 17 && "x-forwarded-for"@.len() == 15);
    assert("x-forwarded-host"@.len() == 16 && "x-forwarded-proto"@.len() == 17);
    assert("connection"@[0] == 'c' && "keep-alive"@[0] == 'k');
    assert("upgrade"@[0] == 'u' && "trailer"@[0] == 't');
    assert("transfer-encoding"@[0] == 't' && "x-forwarded-proto"@[0] == 'x');
}

/// A request for an upgrade still is one when it reaches the origin, with the
/// `Upgrade` and `Connection` headers that it came with, unless a `Connection`
/// header names `Connection` itself.
pub proof fn law_upgrades_reach_the_origin(contents: Contents, peer: Seq<char>)
    requires
        asks_upgrade(contents),
        !nominated(contents).contains("connection"@),
    ensures
        asks_upgrade(forwarded_headers(contents, peer, true)),
        fields(forwarded_headers(contents, peer, true), "upgrade"@) == fields(
            contents,
            "upgrade"@,
        ),
        fields(forwarded_headers(contents, peer, true), "connection"@) == fields(
            contents,
            "connection"@,
        ),
{
    lemma_distinct_names();
    let sent = forwarded_headers(contents, peer, true);
    law_forwarding_keeps_other_headers(contents, peer, true, "upgrade"@);
    law_forwarding_keeps_other_headers(contents, peer, true, "connection"@);
    assert(!stripped_names(contents, true).contains("upgrade"@));
    assert(!stripped_names(contents, true).contains("connection"@));
    let i = choose|i: int|
        0 <= i < values(contents, "connection"@).len() && has_token(
            #[trigger] values(contents, "connection"@)[i],
            encode_utf8("upgrade"@),
        );
    assert(values(sent, "connection"@)[i] == values(contents, "connection"@)[i]);
}

/// A request that is no request for an upgrade reaches the origin without
/// `Connection` and `Upgrade` headers.
pub proof fn law_other_requests_lose_connection_headers(contents: Contents, peer: Seq<char>)
    ensures
        !forwarded_headers(contents, peer, false).contains_key("connection"@),
        !forwarded_headers(contents, peer, false).contains_key("upgrade"@),
        !asks_upgrade(forwarded_headers(contents, peer, false)),
{
    lemma_distinct_names();
    law_forwarding_keeps_other_headers(contents, peer, false, "upgrade"@);
    law_forwarding_keeps_other_headers(contents, peer, false, "connection"@);
    assert(stripped_names(contents, false).contains("upgrade"@));
    assert(stripped_names(contents, false).contains("connection"@));
}

/// The origin learns the protocol and the host that the client used: the values
/// that came with the request and pass a proxy, or else `http` and the request's
/// own `Host`, marked as it came.
pub proof fn law_origin_learns_protocol_and_host(
    contents: Contents,
    peer: Seq<char>,
    upgrade: bool,
)
    ensures
        fields(forwarded_headers(contents, peer, upgrade), "x-forwarded-proto"@) == if stripped(
            contents,
            upgrade,
        ).contains_key("x-forwarded-proto"@) {
            contents["x-forwarded-proto"@]
        } else {
            seq![(encode_utf8("http"@), false)]
        },
        fields(forwarded_headers(contents, peer, upgrade), "x-forwarded-host"@) == if stripped(
            contents,
            upgrade,
        ).contains_key("x-forwarded-host"@) {
            contents["x-forwarded-host"@]
        } else {
            if contents.contains_key("host"@) {
                seq![contents["host"@][0]]
            } else {
                Seq::<Field>::empty()
            }
        },
{
    lemma_distinct_names();
}

/// The origin gets one `X-Forwarded-For` value, which ends with the peer. Before
/// it stand, in order, all values that came with the request, pass a proxy and
/// are text.
pub proof fn law_origin_learns_the_peer(contents: Contents, peer: Seq<char>, upgrade: bool)
    requires
        is_header_value(encode_utf8(peer)),
    ensures
        fields(forwarded_headers(contents, peer, upgrade), "x-forwarded-for"@) == seq![
            (
                joined(
                    text_values(values(stripped(contents, upgrade), "x-forwarded-for"@)).push(
                        encode_utf8(peer),
                    ),
                ),
                false,
            ),
        ],
{
    lemma_distinct_names();
}

/// No hop is lost, however many `X-Forwarded-For` headers a request has: in a
/// row, the values that the origin gets read as those that came, followed by the
/// peer.
pub proof fn law_no_hop_is_lost(contents: Contents, peer: Seq<char>)
    requires
        is_header_value(encode_utf8(peer)),
        forall|i: int|
            0 <= i < values(contents, "x-forwarded-for"@).len() ==> is_visible(
                #[trigger] values(contents, "x-forwarded-for"@)[i],
            ),
    ensures
        joined(values(with_forwarded_for(contents, peer), "x-forwarded-for"@)) == joined(
            values(contents, "x-forwarded-for"@).push(encode_utf8(peer)),
        ),
{
    lemma_text_values(values(contents, "x-forwarded-for"@));
}

/// Two hops add to `X-Forwarded-For` what one hop with both addresses would:
/// the addresses stand in the order of the hops, with a comma and a space
/// between them.
pub proof fn law_forwarded_for_chains(contents: Contents, first: Seq<char>, second: Seq<char>)
    requires
        is_visible(encode_utf8(first)),
        is_header_value(encode_utf8(second)),
    ensures
        with_forwarded_for(with_forwarded_for(contents, first), second) == with_forwarded_for(
            contents,
            first + ", "@ + second,
        ),
{
    let name = "x-forwarded-for"@;
    let a = encode_utf8(first);
    let b = encode_utf8(second);
    let both = encode_utf8(first + ", "@ + second);
    lemma_encode_concat(first, ", "@);
    lemma_encode_concat(first + ", "@, second);
    let parts = text_values(values(contents, name));
    lemma_text_values(values(contents, name));
    let once = joined(parts.push(a));
    assert forall|i: int| 0 <= i < parts.push(a).len() implies is_visible(
        #[trigger] parts.push(a)[i],
    ) by {
        if i < parts.len() {
            assert(is_visible(parts[i]));
        }
    }
    lemma_joined(parts.push(a));
    let middle = with_forwarded_for(contents, first);
    assert(values(middle, name) =~= seq![once]);
    lemma_text_values(seq![once]);
    assert(seq![once].push(b).drop_last() =~= seq![once]);
    assert(joined(seq![once].push(b)) == joined(seq![once]) + encode_utf8(", "@) + b);
    let pair = seq![a, b];
    assert forall|i: int| 0 <= i < pair.len() implies is_header_value(#[trigger] pair[i]) by {
        if i == 0 {
            assert forall|k: int| 0 <= k < a.len() implies is_value_byte(#[trigger] a[k]) by {}
        }
    }
    lemma_joined(pair);
    assert(pair.drop_last() =~= seq![a]);
    assert(joined(pair) == joined(seq![a]) + encode_utf8(", "@) + b);
    assert(joined(pair) == both);
    assert(is_header_value(both));
    assert(parts.push(a).drop_last() =~= parts);
    assert(parts.push(both).drop_last() =~= parts);
    assert(joined(seq![once].push(b)) =~= joined(parts.push(both)));
    assert(with_forwarded_for(middle, second) =~= with_forwarded_for(
        contents,
        first + ", "@ + second,
    ));
}

/// A path and query without a fragment is forwarded as it is.
pub proof fn law_targets_keep_path_and_query(path_and_query: Seq<char>)
    requires
        path_and_query.len() > 0,
        !path_and_query.contains('#'),
    ensures
        without_fragment(path_and_query) == path_and_query,
{
    law_no_separator_makes_one_piece(path_and_query, '#');
}

/// A body length that an access line shows is read back as the same number.
pub proof fn law_lengths_read_back(length: u64)
    ensures
        parsed_u64(length_text(Some(length))) == Some(length),
{
    lemma_decimal_digits(length as nat);
}

proof fn lemma_decimal_digits(n: nat)
    ensures
        decimal_text(n).len() > 0,
        forall|i: int| 0 <= i < decimal_text(n).len() ==> is_digit(#[trigger] decimal_text(n)[i]),
        decimal_value(decimal_text(n)) == n,
    decreases n,
{
    if n < 10 {
        assert(decimal_text(n).drop_last() =~= Seq::empty());
        assert(decimal_value(decimal_text(n).drop_last()) == 0);
    } else {
        lemma_decimal_digits(n / 10);
        assert(decimal_text(n).drop_last() =~= decimal_text(n / 10));
    }
}

} // verus!
