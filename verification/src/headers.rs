//! The header fields of requests and answers, and those that let browsers of any origin
//! read the answers.
use axum::http::header::{InvalidHeaderValue, MaxSizeReached, ToStrError};
use axum::http::{HeaderMap, HeaderValue};
use vstd::prelude::*;
use vstd::utf8::*;

verus! {

/// The header fields of a message (`http::HeaderMap`).
#[verifier::external_type_specification]
#[verifier::external_body]
#[verifier::reject_recursive_types(T)]
pub struct ExHeaderMap<T>(HeaderMap<T>);

/// The value of a header field (`http::HeaderValue`).
#[verifier::external_type_specification]
#[verifier::external_body]
pub struct ExHeaderValue(HeaderValue);

/// Bytes that are no value of a header field (`http::header::InvalidHeaderValue`).
#[verifier::external_type_specification]
#[verifier::external_body]
pub struct ExInvalidHeaderValue(InvalidHeaderValue);

/// A value of a header field that is not all visible ASCII (`http::header::ToStrError`).
#[verifier::external_type_specification]
#[verifier::external_body]
pub struct ExToStrError(ToStrError);

/// A map of header fields that can hold no more (`http::header::MaxSizeReached`).
#[verifier::external_type_specification]
#[verifier::external_body]
pub struct ExMaxSizeReached(MaxSizeReached);

/// What a map of header fields holds: under each name, in lower case, the bytes of its
/// values in their order.
pub uninterp spec fn header_fields(map: HeaderMap<HeaderValue>) -> Map<Seq<char>, Seq<Seq<u8>>>;

/// The bytes that the value of a header field holds.
pub uninterp spec fn header_bytes(value: HeaderValue) -> Seq<u8>;

/// A character in lower case, if it is an ASCII letter.
pub open spec fn lower_char(c: char) -> char {
    if 'A' <= c <= 'Z' {
        (c as u32 + 32) as char
    } else {
        c
    }
}

/// A name with its ASCII letters in lower case.
pub open spec fn lower_name(name: Seq<char>) -> Seq<char> {
    name.map_values(|c: char| lower_char(c))
}

/// A name of a header field, made of at most 64 letters, digits and hyphens.
pub open spec fn is_field_name(name: Seq<char>) -> bool {
    &&& 1 <= name.len() <= 64
    &&& forall|i: int|
        0 <= i < name.len() ==> {
            ||| 'a' <= #[trigger] name[i] <= 'z'
            ||| 'A' <= name[i] <= 'Z'
            ||| '0' <= name[i] <= '9'
            ||| name[i] == '-'
        }
}

/// A byte that may stand in the value of a header field.
pub open spec fn is_value_byte(b: u8) -> bool {
    (b >= 32 && b != 127) || b == 9
}

/// A byte of visible ASCII text; blanks and tabs count.
pub open spec fn is_visible_byte(b: u8) -> bool {
    (32 <= b < 127) || b == 9
}

/// The fields have so few names that a map always takes one more.
pub open spec fn has_room(fields: Map<Seq<char>, Seq<Seq<u8>>>) -> bool {
    fields.dom().len() <= 6553
}

/// `http::HeaderMap::get`, for a name in any case: the first value under the name, if there
/// is one.
#[verifier::external_body]
pub(crate) fn header_get<'a>(map: &'a HeaderMap<HeaderValue>, name: &str) -> (value: Option<
    &'a HeaderValue,
>)
    requires
        is_field_name(name@),
    ensures
        match value {
            Some(first) => {
                &&& header_fields(*map).contains_key(lower_name(name@))
                &&& header_fields(*map)[lower_name(name@)].len() > 0
                &&& header_bytes(*first) == header_fields(*map)[lower_name(name@)][0]
            },
            None => !header_fields(*map).contains_key(lower_name(name@)),
        },
{
    map.get(name)
}

/// `http::HeaderMap::try_insert`: the value takes the place of all values under the name, in
/// any case, and the first of those is handed back. The map may be full; then it stays as it
/// is. With few enough names it is not. A map always holds finitely many names.
#[verifier::external_body]
pub(crate) fn header_set(
    map: &mut HeaderMap<HeaderValue>,
    name: &'static str,
    value: HeaderValue,
) -> (previous: Result<Option<HeaderValue>, MaxSizeReached>)
    requires
        is_field_name(name@),
    ensures
        header_fields(*final(map)).dom().finite(),
        match previous {
            Ok(replaced) => {
                &&& header_fields(*final(map)) == header_fields(*old(map)).insert(
                    lower_name(name@),
                    seq![header_bytes(value)],
                )
                &&& match replaced {
                    Some(first) => {
                        &&& header_fields(*old(map)).contains_key(lower_name(name@))
                        &&& header_fields(*old(map))[lower_name(name@)].len() > 0
                        &&& header_bytes(first) == header_fields(*old(map))[lower_name(name@)][0]
                    },
                    None => !header_fields(*old(map)).contains_key(lower_name(name@)),
                }
            },
            Err(_) => {
                &&& header_fields(*final(map)) == header_fields(*old(map))
                &&& !has_room(header_fields(*old(map)))
            },
        },
{
    map.try_insert(name, value)
}

/// `str::parse` to an `http::HeaderValue`: the value with the bytes of the text, if each of
/// them may stand in a value.
#[verifier::external_body]
pub(crate) fn header_value(text: &str) -> (value: Result<HeaderValue, InvalidHeaderValue>)
    ensures
        match value {
            Ok(made) => {
                &&& header_bytes(made) == encode_utf8(text@)
                &&& forall|i: int|
                    0 <= i < encode_utf8(text@).len() ==> is_value_byte(
                        #[trigger] encode_utf8(text@)[i],
                    )
            },
            Err(_) => exists|i: int|
                0 <= i < encode_utf8(text@).len() && !is_value_byte(
                    #[trigger] encode_utf8(text@)[i],
                ),
        },
{
    text.parse()
}

/// `http::HeaderValue::to_str`: the value as text, if it is all visible ASCII.
pub assume_specification[ HeaderValue::to_str ](value: &HeaderValue) -> (text: Result<
    &str,
    ToStrError,
>)
    ensures
        match text {
            Ok(read) => {
                &&& encode_utf8(read@) == header_bytes(*value)
                &&& forall|i: int|
                    0 <= i < header_bytes(*value).len() ==> is_visible_byte(
                        #[trigger] header_bytes(*value)[i],
                    )
            },
            Err(_) => exists|i: int|
                0 <= i < header_bytes(*value).len() && !is_visible_byte(
                    #[trigger] header_bytes(*value)[i],
                ),
        },
;

/// The header fields of a message take no more.
#[derive(Debug, Clone, Copy, PartialEq, Eq, Structural)]
pub struct HeadersFull;

/// The fields that open an answer to browsers of any origin, with their values.
pub open spec fn cors_fields() -> Seq<(Seq<char>, Seq<char>)> {
    seq![
        ("access-control-allow-origin"@, "*"@),
        ("access-control-allow-methods"@, "GET, POST, OPTIONS"@),
        ("access-control-allow-headers"@, "Content-Type, Authorization"@),
    ]
}

/// `fields` with the first `count` of the fields that open an answer.
pub open spec fn with_cors_fields(
    fields: Map<Seq<char>, Seq<Seq<u8>>>,
    count: nat,
) -> Map<Seq<char>, Seq<Seq<u8>>>
    decreases count,
{
    if count == 0 {
        fields
    } else {
        with_cors_fields(fields, (count - 1) as nat).insert(
            cors_fields()[count - 1].0,
            seq![encode_utf8(cors_fields()[count - 1].1)],
        )
    }
}

/// Sets a field to a text of visible ASCII.
fn set_field(map: &mut HeaderMap<HeaderValue>, name: &'static str, text: &str) -> (set: Result<
    (),
    HeadersFull,
>)
    requires
        is_field_name(name@),
        forall|i: int| 0 <= i < text@.len() ==> ' ' <= #[trigger] text@[i] <= '~',
    ensures
        header_fields(*final(map)).dom().finite(),
        match set {
            Ok(_) => header_fields(*final(map)) == header_fields(*old(map)).insert(
                lower_name(name@),
                seq![encode_utf8(text@)],
            ),
            Err(_) => {
                &&& header_fields(*final(map)) == header_fields(*old(map))
                &&& !has_room(header_fields(*old(map)))
            },
        },
{
    proof {
        is_ascii_chars_encode_utf8(text@);
    }
    match header_value(text) {
        Ok(value) => match header_set(map, name, value) {
            Ok(_) => Ok(()),
            Err(_) => Err(HeadersFull),
        },
        Err(_) => {
            assert(false);
            Err(HeadersFull)
        },
    }
}

/// Setting a field adds at most one name.
proof fn lemma_one_more_name(
    fields: Map<Seq<char>, Seq<Seq<u8>>>,
    name: Seq<char>,
    values: Seq<Seq<u8>>,
)
    requires
        fields.insert(name, values).dom().finite(),
    ensures
        fields.dom().finite(),
        fields.insert(name, values).dom().len() <= fields.dom().len() + 1,
{
    let more = fields.insert(name, values).dom();
    if fields.contains_key(name) {
        assert(fields.dom() =~= more);
    } else {
        assert(fields.dom() =~= more.remove(name));
    }
}

/// Opens an answer to browsers of any origin. It fails only if the answer has too many header
/// fields to take more; some of the fields may then be set.
pub fn cors_middleware(headers: &mut HeaderMap<HeaderValue>) -> (opened: Result<(), HeadersFull>)
    ensures
        header_fields(*final(headers)).dom().finite(),
        match opened {
            Ok(_) => header_fields(*final(headers)) == with_cors_fields(
                header_fields(*old(headers)),
                3,
            ),
            Err(_) => {
                &&& header_fields(*old(headers)).dom().len() > 6551
                &&& exists|count: nat|
                    count < 3 && header_fields(*final(headers)) == #[trigger] with_cors_fields(
                        header_fields(*old(headers)),
                        count,
                    )
            },
        },
{
    let ghost fields = header_fields(*headers);
    proof {
        reveal_with_fuel(with_cors_fields, 4);
        lemma_cors_names();
        reveal_strlit("*");
        reveal_strlit("GET, POST, OPTIONS");
        reveal_strlit("Content-Type, Authorization");
    }
    if set_field(headers, "Access-Control-Allow-Origin", "*").is_err() {
        assert(header_fields(*headers) == with_cors_fields(fields, 0));
        return Err(HeadersFull);
    }
    if set_field(headers, "Access-Control-Allow-Methods", "GET, POST, OPTIONS").is_err() {
        proof {
            assert(header_fields(*headers) == with_cors_fields(fields, 1));
            lemma_one_more_name(fields, cors_fields()[0].0, seq![encode_utf8(cors_fields()[0].1)]);
        }
        return Err(HeadersFull);
    }
    if set_field(
        headers,
        "Access-Control-Allow-Headers",
        "Content-Type, Authorization",
    ).is_err() {
        proof {
            assert(header_fields(*headers) == with_cors_fields(fields, 2));
            lemma_one_more_name(
                with_cors_fields(fields, 1),
                cors_fields()[1].0,
                seq![encode_utf8(cors_fields()[1].1)],
            );
            lemma_one_more_name(fields, cors_fields()[0].0, seq![encode_utf8(cors_fields()[0].1)]);
        }
        return Err(HeadersFull);
    }
    Ok(())
}

/// The names of the fields that open an answer, as they are written and as they are held.
proof fn lemma_cors_names()
    ensures
        is_field_name("Access-Control-Allow-Origin"@),
        is_field_name("Access-Control-Allow-Methods"@),
        is_field_name("Access-Control-Allow-Headers"@),
        lower_name("Access-Control-Allow-Origin"@) == "access-control-allow-origin"@,
        lower_name("Access-Control-Allow-Methods"@) == "access-control-allow-methods"@,
        lower_name("Access-Control-Allow-Headers"@) == "access-control-allow-headers"@,
{
    reveal_strlit("Access-Control-Allow-Origin");
    reveal_strlit("Access-Control-Allow-Methods");
    reveal_strlit("Access-Control-Allow-Headers");
    reveal_strlit("access-control-allow-origin");
    reveal_strlit("access-control-allow-methods");
    reveal_strlit("access-control-allow-headers");
    assert(lower_name("Access-Control-Allow-Origin"@) =~= "access-control-allow-origin"@);
    assert(lower_name("Access-Control-Allow-Methods"@) =~= "access-control-allow-methods"@);
    assert(lower_name("Access-Control-Allow-Headers"@) =~= "access-control-allow-headers"@);
}

/// An opened answer holds each of the fields with its one value, whatever it held before, and
/// all other fields as they were.
pub proof fn law_opened_answer(fields: Map<Seq<char>, Seq<Seq<u8>>>)
    ensures
        forall|i: int|
            #![trigger cors_fields()[i]]
            0 <= i < 3 ==> {
                let opened = with_cors_fields(fields, 3);
                &&& opened.contains_key(cors_fields()[i].0)
                &&& opened[cors_fields()[i].0] == seq![encode_utf8(cors_fields()[i].1)]
            },
        forall|name: Seq<char>|
            #![trigger with_cors_fields(fields, 3).contains_key(name)]
            (forall|i: int| 0 <= i < 3 ==> name != (#[trigger] cors_fields()[i]).0) ==> {
                let opened = with_cors_fields(fields, 3);
                &&& opened.contains_key(name) == fields.contains_key(name)
                &&& opened[name] == fields[name]
            },
{
    reveal_with_fuel(with_cors_fields, 4);
    reveal_strlit("access-control-allow-origin");
    reveal_strlit("access-control-allow-methods");
    reveal_strlit("access-control-allow-headers");
    let names = cors_fields();
    assert(names[0].0.len() == 27);
    assert(names[1].0.len() == 28 && names[1].0[21] == 'm');
    assert(names[2].0.len() == 28 && names[2].0[21] == 'h');
    assert forall|name: Seq<char>|
        #![trigger with_cors_fields(fields, 3).contains_key(name)]
        (forall|i: int| 0 <= i < 3 ==> name != (#[trigger] names[i]).0) implies {
        let opened = with_cors_fields(fields, 3);
        &&& opened.contains_key(name) == fields.contains_key(name)
        &&& opened[name] == fields[name]
    } by {
        assert(name != names[0].0 && name != names[1].0 && name != names[2].0);
    }
}

/// Opening an answer twice is the same as opening it once.
pub proof fn law_opening_is_idempotent(fields: Map<Seq<char>, Seq<Seq<u8>>>)
    ensures
        with_cors_fields(with_cors_fields(fields, 3), 3) == with_cors_fields(fields, 3),
{
    reveal_with_fuel(with_cors_fields, 4);
    let once = with_cors_fields(fields, 3);
    law_opened_answer(fields);
    let names = cors_fields();
    assert(once[names[0].0] == seq![encode_utf8(names[0].1)]);
    assert(once[names[1].0] == seq![encode_utf8(names[1].1)]);
    assert(once[names[2].0] == seq![encode_utf8(names[2].1)]);
    assert(with_cors_fields(once, 3) =~= once);
}

/// An opened answer lets any origin read it, for three methods and two header fields, and is
/// otherwise as it was.
pub proof fn law_any_origin_may_read(fields: Map<Seq<char>, Seq<Seq<u8>>>, name: Seq<char>)
    ensures
        ({
            let opened = with_cors_fields(fields, 3);
            &&& opened.contains_key(name) <==> {
                ||| fields.contains_key(name)
                ||| name == "access-control-allow-origin"@
                ||| name == "access-control-allow-methods"@
                ||| name == "access-control-allow-headers"@
            }
            &&& opened["access-control-allow-origin"@] == seq![encode_utf8("*"@)]
            &&& opened["access-control-allow-methods"@] == seq![encode_utf8("GET, POST, OPTIONS"@)]
            &&& opened["access-control-allow-headers"@] == seq![
                encode_utf8("Content-Type, Authorization"@),
            ]
            &&& name != "access-control-allow-origin"@ && name != "access-control-allow-methods"@
                && name != "access-control-allow-headers"@ ==> opened[name] == fields[name]
        }),
{
    reveal_with_fuel(with_cors_fields, 4);
    law_opened_answer(fields);
    let names = cors_fields();
    assert(names[0].0 == "access-control-allow-origin"@);
    assert(names[1].0 == "access-control-allow-methods"@);
    assert(names[2].0 == "access-control-allow-headers"@);
}

} // verus!
