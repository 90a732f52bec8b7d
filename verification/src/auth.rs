//! Who may post: the bearer token of a request, and what it takes to be let through.
use crate::clock::{clock_shows, clock_shows_second, time_since_epoch, whole_seconds};
use crate::headers::{header_fields, header_get, is_field_name, is_visible_byte, lower_name};
use crate::status::Status;
use crate::text::{same_text, texts};
use crate::token::{checked_reply, claimed_exp, claimed_sub, token_claims, Claims};
use axum::http::{HeaderMap, HeaderValue};
use jsonwebtoken::DecodingKey;
use std::time::SystemTime;
use vstd::prelude::*;
use vstd::utf8::*;

verus! {

/// A key that signatures are checked with (`jsonwebtoken::DecodingKey`).
#[verifier::external_type_specification]
#[verifier::external_body]
pub struct ExDecodingKey(DecodingKey);

/// Why a key or a token was refused (`jsonwebtoken::errors::Error`).
#[verifier::external_type_specification]
#[verifier::external_body]
pub struct ExTokenError(jsonwebtoken::errors::Error);

/// How tokens are signed.
#[derive(Debug, Clone, Copy, PartialEq, Eq, Structural)]
pub enum TokenAlgorithm {
    EdDSA,
}

/// The Ed25519 public key that a PEM document holds.
pub uninterp spec fn ed_public_key(pem: Seq<u8>) -> Option<DecodingKey>;

/// The expiry, in seconds of the Unix epoch, of a token that is in order: it is signed with
/// the algorithm by the owner of the key, carries the required claims and is addressed to no
/// audience. `None` for any other token.
pub uninterp spec fn signed_expiry(
    token: Seq<char>,
    key: DecodingKey,
    algorithm: TokenAlgorithm,
    required: Seq<Seq<char>>,
) -> Option<u64>;

/// The oldest expiry with which a token is still accepted at second `now`: a minute ago. In
/// the first minute of the epoch the difference wraps round.
pub open spec fn oldest_expiry(now: u64) -> int {
    if now >= 60 {
        now - 60
    } else {
        now - 60 + 0x1_0000_0000_0000_0000
    }
}

/// A token with this expiry, if it is in order, is accepted at second `now`.
pub open spec fn in_force(expiry: Option<u64>, now: u64) -> bool {
    expiry matches Some(exp) && exp >= oldest_expiry(now)
}

/// `jsonwebtoken::DecodingKey::from_ed_pem`: the public key in the document, or an error if
/// it holds none.
pub assume_specification[ DecodingKey::from_ed_pem ](pem: &[u8]) -> (key: Result<
    DecodingKey,
    jsonwebtoken::errors::Error,
>)
    ensures
        match key {
            Ok(read) => ed_public_key(pem@) == Some(read),
            Err(_) => ed_public_key(pem@) is None,
        },
;

/// `jsonwebtoken::decode`, with the default rules for the algorithm and the given required
/// claims, its expiry among them: a token is accepted if it is in order and not expired. Of a
/// token in order the call reads the system clock once, with `std::time::SystemTime::now`, and
/// allows a minute. Of an accepted token, the expiry is the number that stands in its claims,
/// where that is an integer. The call panics if the
/// clock stands before the epoch and, where overflow is checked, in the first minute after.
#[verifier::external_body]
fn check_token(
    token: &str,
    key: &DecodingKey,
    algorithm: TokenAlgorithm,
    required: &Vec<&str>,
) -> (accepted: Result<(), jsonwebtoken::errors::Error>)
    requires
        texts(required@).contains("exp"@),
    ensures
        match accepted {
            Ok(_) => exists|now: u64|
                clock_shows_second(now) && #[trigger] in_force(
                    signed_expiry(token@, *key, algorithm, texts(required@)),
                    now,
                ),
            Err(_) => {
                ||| signed_expiry(token@, *key, algorithm, texts(required@)) is None
                ||| exists|now: u64|
                    clock_shows_second(now) && !#[trigger] in_force(
                        signed_expiry(token@, *key, algorithm, texts(required@)),
                        now,
                    )
            },
        },
        accepted is Ok ==> (token_claims(token@) matches Some(claims) ==> (claimed_exp(
            claims,
        ) matches Some(exp) ==> signed_expiry(token@, *key, algorithm, texts(required@)) == Some(
            exp as u64,
        ))),
{
    let mut validation = jsonwebtoken::Validation::new(match algorithm {
        TokenAlgorithm::EdDSA => jsonwebtoken::Algorithm::EdDSA,
    });
    validation.set_required_spec_claims(required.as_slice());
    jsonwebtoken::decode::<serde::de::IgnoredAny>(token, key, &validation).map(|_| ())
}

/// The claims that every token must carry.
pub open spec fn required_claims() -> Seq<Seq<char>> {
    seq!["exp"@, "sub"@]
}

/// The expiry of a token that is in order under a key.
pub open spec fn expiry_of(token: Seq<char>, key: DecodingKey) -> Option<u64> {
    signed_expiry(token, key, TokenAlgorithm::EdDSA, required_claims())
}

/// What is made of a token that is checked at second `now` against the public key in a PEM
/// document: the host name and the expiry that it names, or the status with which it is
/// refused. A document without a key is the fault of the service; everything else that is
/// amiss is that of the token.
pub open spec fn token_outcome(token: Seq<char>, pem: Seq<u8>, now: u64) -> Result<
    (Seq<char>, usize),
    Status,
> {
    match ed_public_key(pem) {
        None => Err(Status::InternalServerError),
        Some(key) => if in_force(expiry_of(token, key), now) {
            match token_claims(token) {
                None => Err(Status::Unauthorized),
                Some(claims) => if claimed_sub(claims) is Some && claimed_exp(claims) is Some {
                    Ok((claimed_sub(claims)->0, claimed_exp(claims)->0))
                } else {
                    Err(Status::Unauthorized)
                },
            }
        } else {
            Err(Status::Unauthorized)
        },
    }
}

/// The time decides about a token: it is in order under the key of the service.
pub open spec fn rests_on_the_clock(token: Seq<char>, pem: Seq<u8>) -> bool {
    ed_public_key(pem) is Some && expiry_of(token, ed_public_key(pem)->0) is Some
}

/// `reply` is what is made of a token that is checked at second `now`. A token that is
/// accepted has not been expired for more than a minute.
pub open spec fn is_reply_at(
    reply: Result<Claims, Status>,
    token: Seq<char>,
    pem: Seq<u8>,
    now: u64,
) -> bool {
    match token_outcome(token, pem, now) {
        Ok((sub, exp)) => {
            &&& reply matches Ok(claims)
            &&& claims.sub@ == sub
            &&& claims.exp == exp
            &&& now <= exp + 60
        },
        Err(status) => reply == Err::<Claims, Status>(status),
    }
}

/// Checks a token against the public key in a PEM document, at a second that the system
/// clock shows.
pub fn verify_token(token: &str, public_key_pem: &[u8]) -> (reply: Result<Claims, Status>)
    ensures
        exists|now: u64|
            #![trigger is_reply_at(reply, token@, public_key_pem@, now)]
            is_reply_at(reply, token@, public_key_pem@, now) && (rests_on_the_clock(
                token@,
                public_key_pem@,
            ) ==> clock_shows_second(now)),
{
    let key = match DecodingKey::from_ed_pem(public_key_pem) {
        Ok(key) => key,
        Err(_) => {
            let reply = Err(Status::InternalServerError);
            assert(is_reply_at(reply, token@, public_key_pem@, 0));
            return reply;
        },
    };
    let mut required: Vec<&str> = Vec::new();
    required.push("exp");
    required.push("sub");
    proof {
        assert(texts(required@) =~= required_claims());
        assert(required_claims()[0] == "exp"@);
    }
    let checked = check_token(token, &key, TokenAlgorithm::EdDSA, &required);
    let ghost now = if expiry_of(token@, key) is Some {
        choose|now: u64|
            clock_shows_second(now) && checked is Ok == #[trigger] in_force(
                expiry_of(token@, key),
                now,
            )
    } else {
        0
    };
    let reply = checked_reply(token, checked.is_ok());
    assert(is_reply_at(reply, token@, public_key_pem@, now));
    reply
}

/// The word that stands before a bearer token.
pub open spec fn bearer_prefix() -> Seq<char> {
    "Bearer "@
}

/// The token in an `Authorization` field: what follows the word `Bearer` and a blank.
pub open spec fn bearer_token_of(field: Seq<char>) -> Option<Seq<char>> {
    if bearer_prefix().is_prefix_of(field) {
        Some(field.skip(7))
    } else {
        None
    }
}

/// Finds the token in an `Authorization` field.
pub fn bearer_token<'a>(field: &'a str) -> (token: Option<&'a str>)
    ensures
        match token {
            Some(found) => bearer_token_of(field@) == Some(found@),
            None => bearer_token_of(field@) is None,
        },
{
    proof {
        reveal_strlit("Bearer ");
    }
    let length: usize = field.unicode_len();
    if length < 7 {
        return None;
    }
    if same_text(field.substring_char(0, 7), "Bearer ") {
        assert(field@.subrange(0, 7) =~= bearer_prefix());
        let token = field.substring_char(7, length);
        assert(token@ =~= field@.skip(7));
        Some(token)
    } else {
        assert(bearer_prefix().is_prefix_of(field@) ==> field@.subrange(0, 7) =~= bearer_prefix());
        None
    }
}

/// The token that a request presents: in the first of its `Authorization` fields, which must
/// be visible ASCII.
pub open spec fn presented_token(fields: Map<Seq<char>, Seq<Seq<u8>>>) -> Option<Seq<char>> {
    if fields.contains_key("authorization"@) {
        let bytes = fields["authorization"@][0];
        if forall|i: int| 0 <= i < bytes.len() ==> is_visible_byte(#[trigger] bytes[i]) {
            bearer_token_of(decode_utf8(bytes))
        } else {
            None
        }
    } else {
        None
    }
}

/// Finds the token that a request presents.
fn request_token<'a>(headers: &'a HeaderMap<HeaderValue>) -> (token: Option<&'a str>)
    ensures
        match token {
            Some(found) => presented_token(header_fields(*headers)) == Some(found@),
            None => presented_token(header_fields(*headers)) is None,
        },
{
    proof {
        reveal_strlit("Authorization");
        reveal_strlit("authorization");
        assert(lower_name("Authorization"@) =~= "authorization"@);
        assert(is_field_name("Authorization"@));
    }
    let value = match header_get(headers, "Authorization") {
        Some(value) => value,
        None => return None,
    };
    match value.to_str() {
        Ok(field) => {
            proof {
                encode_utf8_decode_utf8(field@);
            }
            bearer_token(field)
        },
        Err(_) => None,
    }
}

/// What is made of a request that is checked at second `now`. One that only asks for its
/// options is let through unseen. Any other must present a token that passes; the host name
/// and the expiry that it names come with the verdict.
pub open spec fn request_outcome(
    method: Seq<char>,
    fields: Map<Seq<char>, Seq<Seq<u8>>>,
    pem: Seq<u8>,
    now: u64,
) -> Result<Option<(Seq<char>, usize)>, Status> {
    if method == "OPTIONS"@ {
        Ok(None)
    } else {
        match presented_token(fields) {
            None => Err(Status::Unauthorized),
            Some(token) => match token_outcome(token, pem, now) {
                Ok(owner) => Ok(Some(owner)),
                Err(status) => Err(status),
            },
        }
    }
}

/// Decides whether a request is let through, at a second that the system clock shows. A
/// request that is let through with a token presents one that has not been expired for more
/// than a minute.
pub fn auth_middleware(
    method: &str,
    headers: &HeaderMap<HeaderValue>,
    public_key_pem: &[u8],
) -> (pass: Result<(), Status>)
    ensures
        exists|now: u64|
            {
                &&& match #[trigger] request_outcome(
                    method@,
                    header_fields(*headers),
                    public_key_pem@,
                    now,
                ) {
                    Ok(None) => pass is Ok,
                    Ok(Some(owner)) => pass is Ok && now <= owner.1 + 60,
                    Err(status) => pass == Err::<(), Status>(status),
                }
                &&& method@ != "OPTIONS"@ && presented_token(header_fields(*headers)) is Some
                    && rests_on_the_clock(
                    presented_token(header_fields(*headers))->0,
                    public_key_pem@,
                ) ==> clock_shows_second(now)
            },
{
    let ghost fields = header_fields(*headers);
    if same_text(method, "OPTIONS") {
        assert(request_outcome(method@, fields, public_key_pem@, 0) is Ok);
        return Ok(());
    }
    let token = match request_token(headers) {
        Some(token) => token,
        None => {
            assert(request_outcome(method@, fields, public_key_pem@, 0) is Err);
            return Err(Status::Unauthorized);
        },
    };
    let reply = verify_token(token, public_key_pem);
    proof {
        let now = choose|now: u64|
            #![trigger is_reply_at(reply, token@, public_key_pem@, now)]
            is_reply_at(reply, token@, public_key_pem@, now) && (rests_on_the_clock(
                token@,
                public_key_pem@,
            ) ==> clock_shows_second(now));
        assert(request_outcome(method@, fields, public_key_pem@, now) is Ok == reply is Ok);
    }
    match reply {
        Ok(_) => Ok(()),
        Err(status) => Err(status),
    }
}

/// A request for options is let through, whatever it presents and whatever the key.
pub proof fn law_options_pass(fields: Map<Seq<char>, Seq<Seq<u8>>>, pem: Seq<u8>, now: u64)
    ensures
        request_outcome("OPTIONS"@, fields, pem, now) == Ok::<
            Option<(Seq<char>, usize)>,
            Status,
        >(None),
{
}

/// Any other request that has no `Authorization` field, or one that does not start with the
/// word `Bearer` and a blank, is refused as unauthorized.
pub proof fn law_no_token_no_pass(
    method: Seq<char>,
    fields: Map<Seq<char>, Seq<Seq<u8>>>,
    pem: Seq<u8>,
    now: u64,
)
    requires
        method != "OPTIONS"@,
        !fields.contains_key("authorization"@) || !bearer_prefix().is_prefix_of(
            decode_utf8(fields["authorization"@][0]),
        ),
    ensures
        request_outcome(method, fields, pem, now) == Err::<Option<(Seq<char>, usize)>, Status>(
            Status::Unauthorized,
        ),
{
}

/// Nothing but a request for options passes without a token that is in order under the key of
/// the service, is in force, and names both a host and an expiry; and no such request passes
/// if the service has no key.
pub proof fn law_only_signed_tokens_pass(
    method: Seq<char>,
    fields: Map<Seq<char>, Seq<Seq<u8>>>,
    pem: Seq<u8>,
    now: u64,
)
    requires
        method != "OPTIONS"@,
        request_outcome(method, fields, pem, now) is Ok,
    ensures
        presented_token(fields) is Some,
        ed_public_key(pem) is Some,
        in_force(expiry_of(presented_token(fields)->0, ed_public_key(pem)->0), now),
        token_claims(presented_token(fields)->0) matches Some(claims) && claimed_sub(claims) is Some
            && claimed_exp(claims) is Some,
{
}

/// A token in order that has been expired for more than a minute does not let a request pass:
/// it is refused as unauthorized.
pub proof fn law_expired_tokens_are_refused(
    method: Seq<char>,
    fields: Map<Seq<char>, Seq<Seq<u8>>>,
    pem: Seq<u8>,
    now: u64,
)
    requires
        method != "OPTIONS"@,
        presented_token(fields) is Some,
        ed_public_key(pem) is Some,
        expiry_of(presented_token(fields)->0, ed_public_key(pem)->0) matches Some(exp) && exp + 60
            < now,
    ensures
        request_outcome(method, fields, pem, now) == Err::<Option<(Seq<char>, usize)>, Status>(
            Status::Unauthorized,
        ),
{
}

/// A refusal is final: from the second minute of the epoch on, a request that is refused is
/// refused in the same way at every later second.
pub proof fn law_refusal_is_final(
    method: Seq<char>,
    fields: Map<Seq<char>, Seq<Seq<u8>>>,
    pem: Seq<u8>,
    earlier: u64,
    later: u64,
)
    requires
        60 <= earlier <= later,
        request_outcome(method, fields, pem, earlier) is Err,
    ensures
        request_outcome(method, fields, pem, later) == request_outcome(
            method,
            fields,
            pem,
            earlier,
        ),
{
}

/// A request that passes would have passed, from the second minute of the epoch on, at every
/// earlier second.
pub proof fn law_passing_requests_passed_before(
    method: Seq<char>,
    fields: Map<Seq<char>, Seq<Seq<u8>>>,
    pem: Seq<u8>,
    earlier: u64,
    later: u64,
)
    requires
        60 <= earlier <= later,
        request_outcome(method, fields, pem, later) is Ok,
    ensures
        request_outcome(method, fields, pem, earlier) == request_outcome(
            method,
            fields,
            pem,
            later,
        ),
{
}

/// What follows the word `Bearer` and a blank is the token, letter for letter.
pub proof fn law_bearer_token_is_the_rest(token: Seq<char>)
    ensures
        bearer_token_of(bearer_prefix() + token) == Some(token),
{
    reveal_strlit("Bearer ");
    assert((bearer_prefix() + token).skip(7) =~= token);
}

/// From the second minute of the epoch on, a token in order is in force up to a minute after
/// its expiry, second for second; before that only with an expiry in the last minute that 64
/// bits can hold, counted from now. Any other token never is.
pub proof fn law_tokens_are_in_force_until_their_expiry(exp: u64, now: u64)
    ensures
        now >= 60 ==> (in_force(Some(exp), now) <==> now <= exp + 60),
        now < 60 ==> (in_force(Some(exp), now) <==> exp - now >= 0xffff_ffff_ffff_ffc4),
        !in_force(None, now),
{
}

/// A token that is signed under the key of the service and carries both claims is accepted
/// exactly until a minute after its expiry, and names the host and the expiry in its claims.
pub proof fn law_tokens_in_order_are_accepted_until_they_expire(
    token: Seq<char>,
    pem: Seq<u8>,
    now: u64,
    exp: u64,
    claims: Seq<(Seq<char>, Seq<char>)>,
)
    requires
        now >= 60,
        ed_public_key(pem) is Some,
        signed_expiry(
            token,
            ed_public_key(pem)->0,
            TokenAlgorithm::EdDSA,
            seq!["exp"@, "sub"@],
        ) == Some(exp),
        token_claims(token) == Some(claims),
        claimed_sub(claims) is Some,
        claimed_exp(claims) is Some,
    ensures
        now <= exp + 60 ==> token_outcome(token, pem, now) == Ok::<(Seq<char>, usize), Status>(
            (claimed_sub(claims)->0, claimed_exp(claims)->0),
        ),
        now > exp + 60 ==> token_outcome(token, pem, now) == Err::<(Seq<char>, usize), Status>(
            Status::Unauthorized,
        ),
{
    assert(required_claims() =~= seq!["exp"@, "sub"@]);
}

/// A token that is not in order, or does not name both a host and an expiry, is refused as
/// unauthorized at any time; a service without a key blames itself, whatever the token.
pub proof fn law_other_tokens_are_refused(token: Seq<char>, pem: Seq<u8>, now: u64)
    ensures
        ed_public_key(pem) is None ==> token_outcome(token, pem, now) == Err::<
            (Seq<char>, usize),
            Status,
        >(Status::InternalServerError),
        ed_public_key(pem) is Some && signed_expiry(
            token,
            ed_public_key(pem)->0,
            TokenAlgorithm::EdDSA,
            seq!["exp"@, "sub"@],
        ) is None ==> token_outcome(token, pem, now) == Err::<(Seq<char>, usize), Status>(
            Status::Unauthorized,
        ),
        ed_public_key(pem) is Some && (token_claims(token) is None || claimed_sub(
            token_claims(token)->0,
        ) is None || claimed_exp(token_claims(token)->0) is None) ==> token_outcome(token, pem, now)
            == Err::<(Seq<char>, usize), Status>(Status::Unauthorized),
{
    assert(required_claims() =~= seq!["exp"@, "sub"@]);
}

/// A reply to a token in order is an acceptance if the system clock shows no second later than
/// a minute after the expiry, and a refusal if it shows only later ones: no token is refused
/// while it lasts, however long that is.
pub proof fn law_replies_follow_the_clock(
    reply: Result<Claims, Status>,
    token: Seq<char>,
    pem: Seq<u8>,
    exp: u64,
    claims: Seq<(Seq<char>, Seq<char>)>,
)
    requires
        exists|now: u64|
            #![trigger is_reply_at(reply, token, pem, now)]
            is_reply_at(reply, token, pem, now) && (rests_on_the_clock(token, pem)
                ==> clock_shows_second(now)),
        forall|reading: SystemTime| #[trigger]
            call_ensures(SystemTime::now, (), reading) && time_since_epoch(reading) is Some
                ==> whole_seconds(time_since_epoch(reading)->0) >= 60,
        ed_public_key(pem) is Some,
        signed_expiry(
            token,
            ed_public_key(pem)->0,
            TokenAlgorithm::EdDSA,
            seq!["exp"@, "sub"@],
        ) == Some(exp),
        token_claims(token) == Some(claims),
        claimed_sub(claims) is Some,
        claimed_exp(claims) is Some,
    ensures
        (forall|reading: SystemTime| #[trigger]
            call_ensures(SystemTime::now, (), reading) && time_since_epoch(reading) is Some
                ==> whole_seconds(time_since_epoch(reading)->0) <= exp + 60) ==> {
            &&& reply is Ok
            &&& reply->Ok_0.sub@ == claimed_sub(claims)->0
            &&& reply->Ok_0.exp == claimed_exp(claims)->0
        },
        (forall|reading: SystemTime| #[trigger]
            call_ensures(SystemTime::now, (), reading) && time_since_epoch(reading) is Some
                ==> whole_seconds(time_since_epoch(reading)->0) > exp + 60) ==> reply == Err::<
            Claims,
            Status,
        >(Status::Unauthorized),
{
    let now = choose|now: u64|
        #![trigger is_reply_at(reply, token, pem, now)]
        is_reply_at(reply, token, pem, now) && (rests_on_the_clock(token, pem)
            ==> clock_shows_second(now));
    assert(required_claims() =~= seq!["exp"@, "sub"@]);
    let reading = choose|reading: SystemTime| #[trigger]
        clock_shows(reading) && time_since_epoch(reading) is Some && whole_seconds(
            time_since_epoch(reading)->0,
        ) == now;
    assert(call_ensures(SystemTime::now, (), reading));
    law_tokens_in_order_are_accepted_until_they_expire(token, pem, now, exp, claims);
}

/// A reply to a token that is not in order, or does not name both a host and an expiry, is a
/// refusal as unauthorized, whatever the clock shows; without a key it is an internal error.
pub proof fn law_replies_to_other_tokens(
    reply: Result<Claims, Status>,
    token: Seq<char>,
    pem: Seq<u8>,
    now: u64,
)
    requires
        is_reply_at(reply, token, pem, now),
    ensures
        ed_public_key(pem) is None ==> reply == Err::<Claims, Status>(Status::InternalServerError),
        ed_public_key(pem) is Some && signed_expiry(
            token,
            ed_public_key(pem)->0,
            TokenAlgorithm::EdDSA,
            seq!["exp"@, "sub"@],
        ) is None ==> reply == Err::<Claims, Status>(Status::Unauthorized),
        ed_public_key(pem) is Some && (token_claims(token) is None || claimed_sub(
            token_claims(token)->0,
        ) is None || claimed_exp(token_claims(token)->0) is None) ==> reply == Err::<
            Claims,
            Status,
        >(Status::Unauthorized),
        reply matches Ok(claims) ==> now <= claims.exp + 60,
{
    law_other_tokens_are_refused(token, pem, now);
}

/// A request that presents a token fares as the token does, whatever its method and its other
/// fields, unless it asks for its options.
pub proof fn law_requests_fare_as_their_tokens(
    method: Seq<char>,
    fields: Map<Seq<char>, Seq<Seq<u8>>>,
    pem: Seq<u8>,
    now: u64,
)
    requires
        method != "OPTIONS"@,
        presented_token(fields) is Some,
    ensures
        match token_outcome(presented_token(fields)->0, pem, now) {
            Ok(owner) => request_outcome(method, fields, pem, now) == Ok::<
                Option<(Seq<char>, usize)>,
                Status,
            >(Some(owner)),
            Err(status) => request_outcome(method, fields, pem, now) == Err::<
                Option<(Seq<char>, usize)>,
                Status,
            >(status),
        },
{
}

/// The token in the first `Authorization` field is the one that a request presents, whatever
/// other fields there are: what follows the word `Bearer` and a blank, if the field is visible
/// ASCII.
pub proof fn law_authorization_field_presents_its_token(
    fields: Map<Seq<char>, Seq<Seq<u8>>>,
    token: Seq<char>,
)
    requires
        fields.contains_key("authorization"@),
        fields["authorization"@][0] == encode_utf8("Bearer "@ + token),
        forall|i: int|
            0 <= i < fields["authorization"@][0].len() ==> 32 <= #[trigger] fields["authorization"@][0][i]
                < 127 || fields["authorization"@][0][i] == 9,
    ensures
        presented_token(fields) == Some(token),
{
    encode_utf8_decode_utf8("Bearer "@ + token);
    law_bearer_token_is_the_rest(token);
    let bytes = fields["authorization"@][0];
    assert forall|i: int| 0 <= i < bytes.len() implies is_visible_byte(#[trigger] bytes[i]) by {
        assert(32 <= fields["authorization"@][0][i] < 127 || fields["authorization"@][0][i] == 9);
    }
}

/// A request presents no token if it has no `Authorization` field, or if the first one holds
/// anything but visible ASCII or does not start with the word `Bearer` and a blank.
pub proof fn law_other_fields_present_no_token(fields: Map<Seq<char>, Seq<Seq<u8>>>)
    ensures
        !fields.contains_key("authorization"@) ==> presented_token(fields) is None,
        (exists|i: int|
            0 <= i < fields["authorization"@][0].len() && (#[trigger] fields["authorization"@][0][i]
                >= 127 || (fields["authorization"@][0][i] < 32 && fields["authorization"@][0][i]
                != 9))) ==> presented_token(fields) is None,
        presented_token(fields) matches Some(token) ==> decode_utf8(fields["authorization"@][0])
            == "Bearer "@ + token,
{
    let bytes = fields["authorization"@][0];
    if exists|i: int| 0 <= i < bytes.len() && (#[trigger] bytes[i] >= 127 || (bytes[i] < 32
        && bytes[i] != 9)) {
        let i = choose|i: int|
            0 <= i < bytes.len() && (#[trigger] bytes[i] >= 127 || (bytes[i] < 32 && bytes[i]
                != 9));
        assert(!is_visible_byte(bytes[i]));
    }
    if presented_token(fields) is Some {
        let field = decode_utf8(bytes);
        reveal_strlit("Bearer ");
        assert(field =~= "Bearer "@ + field.skip(7));
    }
}

/// Two requests that agree on their first `Authorization` field are treated alike, whatever
/// their other fields and whichever their methods, as long as neither asks for its options.
pub proof fn law_authorization_field_alone_decides(
    method: Seq<char>,
    fields: Map<Seq<char>, Seq<Seq<u8>>>,
    other_method: Seq<char>,
    other_fields: Map<Seq<char>, Seq<Seq<u8>>>,
    pem: Seq<u8>,
    now: u64,
)
    requires
        method != "OPTIONS"@,
        other_method != "OPTIONS"@,
        fields.contains_key("authorization"@) == other_fields.contains_key("authorization"@),
        fields.contains_key("authorization"@) ==> fields["authorization"@][0]
            == other_fields["authorization"@][0],
    ensures
        presented_token(fields) == presented_token(other_fields),
        request_outcome(method, fields, pem, now) == request_outcome(
            other_method,
            other_fields,
            pem,
            now,
        ),
{
}

/// A request, whatever its method and its other fields, is let through if it presents a token
/// that is signed under the key of the service, names a host and an expiry, and has not been
/// expired for more than a minute; once it has, the request is refused as unauthorized.
pub proof fn law_valid_tokens_pass(
    method: Seq<char>,
    fields: Map<Seq<char>, Seq<Seq<u8>>>,
    pem: Seq<u8>,
    now: u64,
    token: Seq<char>,
    exp: u64,
    claims: Seq<(Seq<char>, Seq<char>)>,
)
    requires
        method != "OPTIONS"@,
        fields.contains_key("authorization"@),
        fields["authorization"@][0] == encode_utf8("Bearer "@ + token),
        forall|i: int|
            0 <= i < fields["authorization"@][0].len() ==> 32 <= #[trigger] fields["authorization"@][0][i]
                < 127 || fields["authorization"@][0][i] == 9,
        now >= 60,
        ed_public_key(pem) is Some,
        signed_expiry(
            token,
            ed_public_key(pem)->0,
            TokenAlgorithm::EdDSA,
            seq!["exp"@, "sub"@],
        ) == Some(exp),
        token_claims(token) == Some(claims),
        claimed_sub(claims) is Some,
        claimed_exp(claims) is Some,
    ensures
        now <= exp + 60 ==> request_outcome(method, fields, pem, now) == Ok::<
            Option<(Seq<char>, usize)>,
            Status,
        >(Some((claimed_sub(claims)->0, claimed_exp(claims)->0))),
        now > exp + 60 ==> request_outcome(method, fields, pem, now) == Err::<
            Option<(Seq<char>, usize)>,
            Status,
        >(Status::Unauthorized),
{
    law_authorization_field_presents_its_token(fields, token);
    law_tokens_in_order_are_accepted_until_they_expire(token, pem, now, exp, claims);
}

} // verus!
