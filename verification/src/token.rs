//! What a token carries: its payload, and the claims about its owner in it.
use crate::status::Status;
use crate::text::same_text;
use vstd::prelude::*;
use vstd::slice::slice_subrange;
use vstd::utf8::*;

verus! {

/// Why a text is not the JSON that was looked for (`serde_json::Error`).
#[verifier::external_type_specification]
#[verifier::external_body]
pub struct ExJsonError(serde_json::Error);

/// The place of the last dot in `bytes`, or -1.
pub open spec fn last_dot(bytes: Seq<u8>) -> int
    decreases bytes.len(),
{
    if bytes.len() == 0 {
        -1
    } else if bytes.last() == 46 {
        bytes.len() - 1
    } else {
        last_dot(bytes.drop_last())
    }
}

/// The payload of a token: what stands between its last two dots.
pub open spec fn payload_of(token: Seq<u8>) -> Option<Seq<u8>> {
    let end = last_dot(token);
    let start = if end >= 0 {
        last_dot(token.take(end))
    } else {
        -1
    };
    if start >= 0 {
        Some(token.subrange(start + 1, end))
    } else {
        None
    }
}

/// Finds the last dot before `end`.
fn find_last_dot(bytes: &[u8], end: usize) -> (dot: Option<usize>)
    requires
        end <= bytes@.len(),
    ensures
        match dot {
            Some(at) => at < end && last_dot(bytes@.take(end as int)) == at,
            None => last_dot(bytes@.take(end as int)) == -1,
        },
{
    let mut i: usize = end;
    while i > 0
        invariant
            i <= end <= bytes@.len(),
            last_dot(bytes@.take(end as int)) == last_dot(bytes@.take(i as int)),
        decreases i,
    {
        assert(bytes@.take(i as int).drop_last() =~= bytes@.take(i - 1));
        i -= 1;
        if bytes[i] == 46 {
            return Some(i);
        }
    }
    None
}

/// Finds the payload of a token.
fn token_payload<'a>(token: &'a [u8]) -> (payload: Option<&'a [u8]>)
    ensures
        match payload {
            Some(found) => payload_of(token@) == Some(found@),
            None => payload_of(token@) is None,
        },
{
    assert(token@.take(token@.len() as int) =~= token@);
    let end: usize = match find_last_dot(token, token.len()) {
        Some(end) => end,
        None => return None,
    };
    let start: usize = match find_last_dot(token, end) {
        Some(start) => start,
        None => return None,
    };
    Some(slice_subrange(token, start + 1, end))
}

/// The six bits that a symbol of the URL-safe Base64 alphabet stands for.
pub open spec fn sextet(symbol: u8) -> Option<u8> {
    if 65 <= symbol <= 90 {
        Some((symbol - 65) as u8)
    } else if 97 <= symbol <= 122 {
        Some((symbol - 71) as u8)
    } else if 48 <= symbol <= 57 {
        Some((symbol + 4) as u8)
    } else if symbol == 45 {
        Some(62)
    } else if symbol == 95 {
        Some(63)
    } else {
        None
    }
}

/// The bytes that a URL-safe Base64 text without padding stands for: three for every four
/// symbols. The bits that the last symbol has to spare are zero.
pub open spec fn base64_bytes(text: Seq<u8>) -> Option<Seq<u8>>
    decreases text.len(),
{
    if text.len() == 0 {
        Some(Seq::empty())
    } else if text.len() == 1 || sextet(text[0]) is None || sextet(text[1]) is None {
        None
    } else {
        let a = sextet(text[0])->0;
        let b = sextet(text[1])->0;
        let first = (a * 4 + b / 16) as u8;
        if text.len() == 2 {
            if b % 16 == 0 {
                Some(seq![first])
            } else {
                None
            }
        } else if sextet(text[2]) is None {
            None
        } else {
            let c = sextet(text[2])->0;
            let second = ((b % 16) * 16 + c / 4) as u8;
            if text.len() == 3 {
                if c % 4 == 0 {
                    Some(seq![first, second])
                } else {
                    None
                }
            } else if sextet(text[3]) is None {
                None
            } else {
                let third = ((c % 4) * 64 + sextet(text[3])->0) as u8;
                match base64_bytes(text.skip(4)) {
                    Some(rest) => Some(seq![first, second, third] + rest),
                    None => None,
                }
            }
        }
    }
}

/// The six bits that a symbol stands for.
fn read_sextet(symbol: u8) -> (bits: Option<u8>)
    ensures
        bits == sextet(symbol),
        bits matches Some(value) ==> value < 64,
{
    if 65 <= symbol && symbol <= 90 {
        Some(symbol - 65)
    } else if 97 <= symbol && symbol <= 122 {
        Some(symbol - 71)
    } else if 48 <= symbol && symbol <= 57 {
        Some(symbol + 4)
    } else if symbol == 45 {
        Some(62)
    } else if symbol == 95 {
        Some(63)
    } else {
        None
    }
}

/// Reads a URL-safe Base64 text without padding.
pub fn decode_base64(text: &[u8]) -> (bytes: Option<Vec<u8>>)
    ensures
        match bytes {
            Some(read) => base64_bytes(text@) == Some(read@),
            None => base64_bytes(text@) is None,
        },
{
    let mut bytes: Vec<u8> = Vec::new();
    let mut i: usize = 0;
    proof {
        assert(text@.skip(0) =~= text@);
        assert(base64_bytes(text@) is Some ==> bytes@ + base64_bytes(text@)->0
            =~= base64_bytes(text@)->0);
    }
    while text.len() - i >= 4
        invariant
            i <= text.len(),
            base64_bytes(text@) == (match base64_bytes(text@.skip(i as int)) {
                Some(rest) => Some(bytes@ + rest),
                None => None,
            }),
        decreases text.len() - i,
    {
        let ghost left = text@.skip(i as int);
        let ghost before = bytes@;
        let a: u8 = match read_sextet(text[i]) {
            Some(a) => a,
            None => return None,
        };
        let b: u8 = match read_sextet(text[i + 1]) {
            Some(b) => b,
            None => return None,
        };
        let c: u8 = match read_sextet(text[i + 2]) {
            Some(c) => c,
            None => return None,
        };
        let d: u8 = match read_sextet(text[i + 3]) {
            Some(d) => d,
            None => return None,
        };
        bytes.push(a * 4 + b / 16);
        bytes.push((b % 16) * 16 + c / 4);
        bytes.push((c % 4) * 64 + d);
        i += 4;
        proof {
            assert(left.skip(4) =~= text@.skip(i as int));
            let three = seq![
                (a * 4 + b / 16) as u8,
                ((b % 16) * 16 + c / 4) as u8,
                ((c % 4) * 64 + d) as u8,
            ];
            assert(bytes@ =~= before + three);
            if base64_bytes(left.skip(4)) is Some {
                let rest = base64_bytes(left.skip(4))->0;
                assert(before + (three + rest) =~= bytes@ + rest);
            }
        }
    }
    let ghost left = text@.skip(i as int);
    let spare: usize = text.len() - i;
    if spare == 0 {
        assert(bytes@ + Seq::<u8>::empty() =~= bytes@);
        return Some(bytes);
    }
    if spare == 1 {
        return None;
    }
    let ghost before = bytes@;
    let a: u8 = match read_sextet(text[i]) {
        Some(a) => a,
        None => return None,
    };
    let b: u8 = match read_sextet(text[i + 1]) {
        Some(b) => b,
        None => return None,
    };
    bytes.push(a * 4 + b / 16);
    if spare == 2 {
        assert(bytes@ =~= before + seq![(a * 4 + b / 16) as u8]);
        return if b % 16 == 0 {
            Some(bytes)
        } else {
            None
        };
    }
    let c: u8 = match read_sextet(text[i + 2]) {
        Some(c) => c,
        None => return None,
    };
    bytes.push((b % 16) * 16 + c / 4);
    assert(bytes@ =~= before + seq![(a * 4 + b / 16) as u8, ((b % 16) * 16 + c / 4) as u8]);
    if c % 4 == 0 {
        Some(bytes)
    } else {
        None
    }
}

/// Bytes read as UTF-8, with a replacement character for what is not.
pub uninterp spec fn lossy_text(bytes: Seq<u8>) -> Seq<char>;

/// `String::from_utf8_lossy`: the text that the bytes encode, if they are UTF-8; otherwise
/// what is not is replaced. Where and how often is not said.
#[verifier::external_body]
fn read_lossy(bytes: &Vec<u8>) -> (text: String)
    ensures
        text@ == lossy_text(bytes@),
        valid_utf8(bytes@) ==> text@ == decode_utf8(bytes@),
{
    String::from_utf8_lossy(bytes).into_owned()
}

/// The texts of a list of claims.
pub open spec fn claim_texts(claims: Seq<(String, String)>) -> Seq<(Seq<char>, Seq<char>)> {
    claims.map_values(|claim: (String, String)| (claim.0@, claim.1@))
}

/// The members of a JSON object, by ascending name and each value as its JSON text.
pub uninterp spec fn json_members(json: Seq<char>) -> Option<Seq<(Seq<char>, Seq<char>)>>;

/// `serde_json::from_str` to a map of raw values: the members of the object that the text
/// denotes, if it denotes one.
#[verifier::external_body]
fn read_json_members(json: &str) -> (members: Result<Vec<(String, String)>, serde_json::Error>)
    ensures
        match members {
            Ok(read) => json_members(json@) == Some(claim_texts(read@)),
            Err(_) => json_members(json@) is None,
        },
{
    let members: std::collections::BTreeMap<String, Box<serde_json::value::RawValue>> =
        serde_json::from_str(json)?;
    Ok(members.into_iter().map(|(name, value)| (name, value.get().to_string())).collect())
}

/// A JSON string without escapes: quotation marks around characters that stand for
/// themselves.
pub open spec fn is_plain_string(json: Seq<char>) -> bool {
    &&& json.len() >= 2
    &&& json.first() == '"'
    &&& json.last() == '"'
    &&& forall|i: int|
        1 <= i < json.len() - 1 ==> #[trigger] json[i] != '"' && json[i] != '\\' && json[i]
            >= ' '
}

/// The string that a JSON text with escapes or blanks denotes.
pub uninterp spec fn escaped_json_string(json: Seq<char>) -> Option<Seq<char>>;

/// The string that a JSON text denotes.
pub open spec fn json_string(json: Seq<char>) -> Option<Seq<char>> {
    if is_plain_string(json) {
        Some(json.subrange(1, json.len() - 1))
    } else {
        escaped_json_string(json)
    }
}

/// `serde_json::from_str` to a `String`: the string that the text denotes, if it is one. A
/// string without escapes denotes what stands between its quotation marks.
#[verifier::external_body]
fn read_json_string(json: &str) -> (text: Result<String, serde_json::Error>)
    ensures
        match text {
            Ok(read) => if is_plain_string(json@) {
                read@ == json@.subrange(1, json@.len() - 1)
            } else {
                escaped_json_string(json@) == Some(read@)
            },
            Err(_) => !is_plain_string(json@) && escaped_json_string(json@) is None,
        },
{
    serde_json::from_str(json)
}

/// A blank of JSON.
pub open spec fn is_json_blank(c: char) -> bool {
    c == ' ' || c == '\n' || c == '\t' || c == '\r'
}

/// A text without the blanks at its ends.
pub open spec fn trimmed(json: Seq<char>) -> Seq<char>
    decreases json.len(),
{
    if json.len() == 0 {
        json
    } else if is_json_blank(json.first()) {
        trimmed(json.drop_first())
    } else if is_json_blank(json.last()) {
        trimmed(json.drop_last())
    } else {
        json
    }
}

/// A decimal digit.
pub open spec fn is_digit(c: char) -> bool {
    '0' <= c <= '9'
}

/// The number that decimal digits stand for.
pub open spec fn decimal(digits: Seq<char>) -> nat
    decreases digits.len(),
{
    if digits.len() == 0 {
        0
    } else {
        decimal(digits.drop_last()) * 10 + (digits.last() as nat - '0' as nat) as nat
    }
}

/// The unsigned 64-bit integer that a JSON text denotes: decimal digits without a leading
/// zero, between blanks.
pub open spec fn json_integer(json: Seq<char>) -> Option<u64> {
    let digits = trimmed(json);
    if digits.len() > 0 && (forall|i: int| 0 <= i < digits.len() ==> is_digit(#[trigger] digits[i]))
        && (digits[0] != '0' || digits.len() == 1) && decimal(digits) <= u64::MAX {
        Some(decimal(digits) as u64)
    } else {
        None
    }
}

/// `serde_json::from_str` to a `u64`: the integer that the text denotes, if it is one and
/// fits.
#[verifier::external_body]
fn read_json_integer(json: &str) -> (number: Result<u64, serde_json::Error>)
    ensures
        match number {
            Ok(read) => json_integer(json@) == Some(read),
            Err(_) => json_integer(json@) is None,
        },
{
    serde_json::from_str(json)
}

/// What a token says about its owner.
#[derive(Debug, Clone)]
pub struct Claims {
    /// The host name.
    pub sub: String,
    /// When the token expires, in seconds since the Unix epoch.
    pub exp: usize,
}

/// The first claim of a name, as its JSON text.
pub open spec fn claim_named(claims: Seq<(Seq<char>, Seq<char>)>, name: Seq<char>) -> Option<
    Seq<char>,
>
    decreases claims.len(),
{
    if claims.len() == 0 {
        None
    } else if claims[0].0 == name {
        Some(claims[0].1)
    } else {
        claim_named(claims.drop_first(), name)
    }
}

/// The host name that a token names, if it names one.
pub open spec fn claimed_sub(claims: Seq<(Seq<char>, Seq<char>)>) -> Option<Seq<char>> {
    match claim_named(claims, "sub"@) {
        Some(json) => json_string(json),
        None => None,
    }
}

/// The moment at which a token expires, if it names one.
pub open spec fn claimed_exp(claims: Seq<(Seq<char>, Seq<char>)>) -> Option<usize> {
    match claim_named(claims, "exp"@) {
        Some(json) => match json_integer(json) {
            Some(exp) => if exp <= usize::MAX {
                Some(exp as usize)
            } else {
                None
            },
            None => None,
        },
        None => None,
    }
}

/// The claims that a token carries, each as its JSON text. Nothing is said here of whether
/// they can be trusted.
pub open spec fn token_claims(token: Seq<char>) -> Option<Seq<(Seq<char>, Seq<char>)>> {
    match payload_of(encode_utf8(token)) {
        None => None,
        Some(payload) => match base64_bytes(payload) {
            None => None,
            Some(bytes) => json_members(lossy_text(bytes)),
        },
    }
}

/// Reads the claims that a token carries.
pub fn read_token_claims(token: &str) -> (claims: Option<Vec<(String, String)>>)
    ensures
        match claims {
            Some(read) => token_claims(token@) == Some(claim_texts(read@)),
            None => token_claims(token@) is None,
        },
{
    let payload = match token_payload(token.as_bytes()) {
        Some(payload) => payload,
        None => return None,
    };
    let bytes = match decode_base64(payload) {
        Some(bytes) => bytes,
        None => return None,
    };
    match read_json_members(read_lossy(&bytes).as_str()) {
        Ok(claims) => Some(claims),
        Err(_) => None,
    }
}

/// Finds the first claim of a name.
fn find_claim<'a>(claims: &'a Vec<(String, String)>, name: &str) -> (json: Option<&'a str>)
    ensures
        match json {
            Some(found) => claim_named(claim_texts(claims@), name@) == Some(found@),
            None => claim_named(claim_texts(claims@), name@) is None,
        },
{
    let ghost all = claim_texts(claims@);
    let mut i: usize = 0;
    assert(all.skip(0) =~= all);
    while i < claims.len()
        invariant
            i <= claims.len(),
            all == claim_texts(claims@),
            claim_named(all, name@) == claim_named(all.skip(i as int), name@),
        decreases claims.len() - i,
    {
        assert(all.skip(i as int).drop_first() =~= all.skip(i + 1));
        if same_text(claims[i].0.as_str(), name) {
            return Some(claims[i].1.as_str());
        }
        i += 1;
    }
    None
}

/// What is made of the claims that a token carries, if it carries any: they must name a host
/// and a moment of expiry.
pub fn token_reply(decoded: Option<&Vec<(String, String)>>) -> (reply: Result<Claims, Status>)
    ensures
        match reply {
            Ok(claims) => {
                &&& decoded is Some
                &&& claimed_sub(claim_texts(decoded->0@)) == Some(claims.sub@)
                &&& claimed_exp(claim_texts(decoded->0@)) == Some(claims.exp)
            },
            Err(status) => {
                &&& status == Status::Unauthorized
                &&& {
                    ||| decoded is None
                    ||| claimed_sub(claim_texts(decoded->0@)) is None
                    ||| claimed_exp(claim_texts(decoded->0@)) is None
                }
            },
        },
{
    let carried = match decoded {
        Some(carried) => carried,
        None => return Err(Status::Unauthorized),
    };
    let sub = match find_claim(carried, "sub") {
        Some(json) => match read_json_string(json) {
            Ok(sub) => sub,
            Err(_) => return Err(Status::Unauthorized),
        },
        None => return Err(Status::Unauthorized),
    };
    let exp: usize = match find_claim(carried, "exp") {
        Some(json) => match read_json_integer(json) {
            Ok(exp) if exp <= usize::MAX as u64 => exp as usize,
            _ => return Err(Status::Unauthorized),
        },
        None => return Err(Status::Unauthorized),
    };
    Ok(Claims { sub, exp })
}

/// What is made of a token that was accepted or not: the host and the moment of expiry that
/// it names itself, if it was accepted and names both.
pub fn checked_reply(token: &str, accepted: bool) -> (reply: Result<Claims, Status>)
    ensures
        match reply {
            Ok(claims) => {
                &&& accepted
                &&& token_claims(token@) matches Some(carried)
                &&& claimed_sub(carried) == Some(claims.sub@)
                &&& claimed_exp(carried) == Some(claims.exp)
            },
            Err(status) => {
                &&& status == Status::Unauthorized
                &&& accepted ==> match token_claims(token@) {
                    Some(carried) => claimed_sub(carried) is None || claimed_exp(carried) is None,
                    None => true,
                }
            },
        },
{
    if !accepted {
        return token_reply(None);
    }
    match read_token_claims(token) {
        Some(carried) => token_reply(Some(&carried)),
        None => token_reply(None),
    }
}

proof fn lemma_last_dot_is(bytes: Seq<u8>, at: int)
    requires
        0 <= at < bytes.len(),
        bytes[at] == 46,
        forall|i: int| at < i < bytes.len() ==> bytes[i] != 46,
    ensures
        last_dot(bytes) == at,
    decreases bytes.len(),
{
    if at < bytes.len() - 1 {
        assert(bytes.last() != 46);
        lemma_last_dot_is(bytes.drop_last(), at);
    }
}

proof fn lemma_no_dot(bytes: Seq<u8>)
    requires
        forall|i: int| 0 <= i < bytes.len() ==> bytes[i] != 46,
    ensures
        last_dot(bytes) == -1,
    decreases bytes.len(),
{
    if bytes.len() > 0 {
        assert(bytes.last() != 46);
        lemma_no_dot(bytes.drop_last());
    }
}

/// The payload of a token is what its maker put between the last two dots, byte for byte.
pub proof fn law_payload_is_found(head: Seq<u8>, payload: Seq<u8>, tail: Seq<u8>)
    requires
        !payload.contains(46),
        !tail.contains(46),
    ensures
        payload_of(head + seq![46u8] + payload + seq![46u8] + tail) == Some(payload),
{
    let token = head + seq![46u8] + payload + seq![46u8] + tail;
    let start = head.len() as int;
    let end = start + 1 + payload.len();
    assert forall|i: int| end < i < token.len() implies token[i] != 46 by {
        assert(token[i] == tail[i - end - 1]);
    }
    lemma_last_dot_is(token, end);
    let before = token.take(end);
    assert forall|i: int| start < i < before.len() implies before[i] != 46 by {
        assert(before[i] == payload[i - start - 1]);
    }
    lemma_last_dot_is(before, start);
    assert(token.subrange(start + 1, end) =~= payload);
}

/// What has less than two dots is no token and has no payload.
pub proof fn law_payload_needs_two_dots(token: Seq<u8>)
    requires
        forall|i: int, j: int|
            #![trigger token[i], token[j]]
            0 <= i < j < token.len() ==> token[i] != 46 || token[j] != 46,
    ensures
        payload_of(token) is None,
{
    if exists|i: int| 0 <= i < token.len() && token[i] == 46 {
        let i = choose|i: int| 0 <= i < token.len() && token[i] == 46;
        lemma_last_dot_is(token, i);
        assert forall|k: int| 0 <= k < i implies token.take(i)[k] != 46 by {
            assert(token[k] != 46 || token[i] != 46);
        }
        lemma_no_dot(token.take(i));
    } else {
        lemma_no_dot(token);
    }
}

/// The symbol of the URL-safe Base64 alphabet that stands for six bits.
pub open spec fn base64_symbol(bits: int) -> u8 {
    if bits < 26 {
        (bits + 65) as u8
    } else if bits < 52 {
        (bits + 71) as u8
    } else if bits < 62 {
        (bits - 4) as u8
    } else if bits == 62 {
        45
    } else {
        95
    }
}

/// Bytes written in URL-safe Base64 without padding: every three bytes as four symbols of six
/// bits each.
pub open spec fn base64_text(bytes: Seq<u8>) -> Seq<u8>
    decreases bytes.len(),
{
    if bytes.len() == 0 {
        Seq::empty()
    } else if bytes.len() == 1 {
        seq![base64_symbol((bytes[0] / 4) as int), base64_symbol((bytes[0] % 4) * 16)]
    } else if bytes.len() == 2 {
        seq![
            base64_symbol((bytes[0] / 4) as int),
            base64_symbol((bytes[0] % 4) * 16 + bytes[1] / 16),
            base64_symbol((bytes[1] % 16) * 4),
        ]
    } else {
        seq![
            base64_symbol((bytes[0] / 4) as int),
            base64_symbol((bytes[0] % 4) * 16 + bytes[1] / 16),
            base64_symbol((bytes[1] % 16) * 4 + bytes[2] / 64),
            base64_symbol((bytes[2] % 64) as int),
        ] + base64_text(bytes.skip(3))
    }
}

/// Six bits and their symbol.
proof fn lemma_symbol_of(bits: int)
    requires
        0 <= bits < 64,
    ensures
        sextet(base64_symbol(bits)) == Some(bits as u8),
{
}

/// A symbol and its six bits.
proof fn lemma_sextet_of(symbol: u8)
    requires
        sextet(symbol) is Some,
    ensures
        0 <= sextet(symbol)->0 < 64,
        base64_symbol(sextet(symbol)->0 as int) == symbol,
{
}

/// Three bytes, cut into four times six bits and put together again.
proof fn lemma_bytes_from_sextets(x: int, y: int, z: int)
    requires
        0 <= x < 256,
        0 <= y < 256,
        0 <= z < 256,
    ensures
        0 <= x / 4 < 64,
        0 <= (x % 4) * 16 + y / 16 < 64,
        0 <= (y % 16) * 4 + z / 64 < 64,
        0 <= z % 64 < 64,
        (x / 4) * 4 + ((x % 4) * 16 + y / 16) / 16 == x,
        (((x % 4) * 16 + y / 16) % 16) * 16 + ((y % 16) * 4 + z / 64) / 4 == y,
        (((y % 16) * 4 + z / 64) % 4) * 64 + z % 64 == z,
{
}

/// Four times six bits, put together to three bytes and cut again.
proof fn lemma_sextets_from_bytes(a: int, b: int, c: int, d: int)
    requires
        0 <= a < 64,
        0 <= b < 64,
        0 <= c < 64,
        0 <= d < 64,
    ensures
        0 <= a * 4 + b / 16 < 256,
        0 <= (b % 16) * 16 + c / 4 < 256,
        0 <= (c % 4) * 64 + d < 256,
        (a * 4 + b / 16) / 4 == a,
        ((a * 4 + b / 16) % 4) * 16 + ((b % 16) * 16 + c / 4) / 16 == b,
        (((b % 16) * 16 + c / 4) % 16) * 4 + ((c % 4) * 64 + d) / 64 == c,
        ((c % 4) * 64 + d) % 64 == d,
{
}

/// What was written in Base64 reads back as the bytes that were written, whatever they are.
#[verifier::spinoff_prover]
pub proof fn law_base64_reads_back(bytes: Seq<u8>)
    ensures
        base64_bytes(base64_text(bytes)) == Some(bytes),
    decreases bytes.len(),
{
    let text = base64_text(bytes);
    if bytes.len() == 0 {
        assert(bytes =~= Seq::empty());
    } else {
        let x = bytes[0] as int;
        let y = if bytes.len() > 1 {
            bytes[1] as int
        } else {
            0
        };
        let z = if bytes.len() > 2 {
            bytes[2] as int
        } else {
            0
        };
        lemma_bytes_from_sextets(x, y, z);
        lemma_symbol_of(x / 4);
        lemma_symbol_of((x % 4) * 16 + y / 16);
        lemma_symbol_of((y % 16) * 4 + z / 64);
        lemma_symbol_of(z % 64);
        assert(text[0] == base64_symbol(x / 4));
        assert(text[1] == base64_symbol((x % 4) * 16 + y / 16));
        if bytes.len() == 1 {
            assert(text.len() == 2);
            assert(base64_bytes(text)->0 =~= bytes);
        } else if bytes.len() == 2 {
            assert(text.len() == 3);
            assert(text[2] == base64_symbol((y % 16) * 4 + z / 64));
            assert(base64_bytes(text)->0 =~= bytes);
        } else {
            let rest = bytes.skip(3);
            law_base64_reads_back(rest);
            assert(text[2] == base64_symbol((y % 16) * 4 + z / 64));
            assert(text[3] == base64_symbol(z % 64));
            assert(text.skip(4) =~= base64_text(rest));
            assert(base64_bytes(text) == Some(seq![x as u8, y as u8, z as u8] + rest));
            assert(seq![x as u8, y as u8, z as u8] + rest =~= bytes);
        }
    }
}

/// Nothing else reads as those bytes.
#[verifier::spinoff_prover]
pub proof fn law_base64_has_one_form(text: Seq<u8>)
    requires
        base64_bytes(text) is Some,
    ensures
        text == base64_text(base64_bytes(text)->0),
    decreases text.len(),
{
    let bytes = base64_bytes(text)->0;
    if text.len() == 0 {
        assert(text =~= base64_text(bytes));
    } else {
        let a = sextet(text[0])->0 as int;
        let b = sextet(text[1])->0 as int;
        let c = if text.len() > 2 {
            sextet(text[2])->0 as int
        } else {
            0
        };
        let d = if text.len() > 3 {
            sextet(text[3])->0 as int
        } else {
            0
        };
        lemma_sextet_of(text[0]);
        lemma_sextet_of(text[1]);
        if text.len() > 2 {
            lemma_sextet_of(text[2]);
        }
        if text.len() > 3 {
            lemma_sextet_of(text[3]);
        }
        lemma_sextets_from_bytes(a, b, c, d);
        assert(bytes[0] == a * 4 + b / 16);
        if text.len() == 2 {
            assert(bytes.len() == 1);
            assert(text =~= base64_text(bytes));
        } else if text.len() == 3 {
            assert(bytes.len() == 2);
            assert(bytes[1] == (b % 16) * 16 + c / 4);
            assert(text =~= base64_text(bytes));
        } else {
            let rest = base64_bytes(text.skip(4))->0;
            law_base64_has_one_form(text.skip(4));
            assert(bytes[1] == (b % 16) * 16 + c / 4);
            assert(bytes[2] == (c % 4) * 64 + d);
            assert(bytes.skip(3) =~= rest);
            assert(base64_text(bytes) == seq![text[0], text[1], text[2], text[3]] + base64_text(
                rest,
            ));
            assert(text =~= seq![text[0], text[1], text[2], text[3]] + text.skip(4));
        }
    }
}

proof fn lemma_base64_has_no_dots(bytes: Seq<u8>)
    ensures
        !base64_text(bytes).contains(46),
    decreases bytes.len(),
{
    if bytes.len() > 2 {
        lemma_base64_has_no_dots(bytes.skip(3));
    }
}

/// The claims of a token are the members of the JSON object that its maker wrote into the
/// payload, whatever stands around it.
pub proof fn law_claims_are_those_of_the_payload(
    token: Seq<char>,
    head: Seq<u8>,
    bytes: Seq<u8>,
    tail: Seq<u8>,
)
    requires
        encode_utf8(token) == head + seq![46u8] + base64_text(bytes) + seq![46u8] + tail,
        !tail.contains(46),
    ensures
        token_claims(token) == json_members(lossy_text(bytes)),
{
    lemma_base64_has_no_dots(bytes);
    law_payload_is_found(head, base64_text(bytes), tail);
    law_base64_reads_back(bytes);
}

/// The first claim of a name is the one that counts, wherever it stands; a name that does not
/// occur has none.
pub proof fn law_first_claim_counts(
    claims: Seq<(Seq<char>, Seq<char>)>,
    name: Seq<char>,
    at: int,
)
    requires
        0 <= at <= claims.len(),
        forall|i: int| 0 <= i < at ==> (#[trigger] claims[i]).0 != name,
    ensures
        at < claims.len() && claims[at].0 == name ==> claim_named(claims, name) == Some(
            claims[at].1,
        ),
        at == claims.len() ==> claim_named(claims, name) is None,
    decreases claims.len(),
{
    if claims.len() > 0 && at > 0 {
        assert(claims[0].0 != name);
        let rest = claims.drop_first();
        assert forall|i: int| 0 <= i < at - 1 implies (#[trigger] rest[i]).0 != name by {
            assert(claims[i + 1].0 != name);
        }
        law_first_claim_counts(rest, name, at - 1);
    }
}

/// The decimal digits of a number.
pub open spec fn digits_of(number: nat) -> Seq<char>
    decreases number,
{
    if number < 10 {
        seq![(number + 48) as char]
    } else {
        digits_of(number / 10).push((number % 10 + 48) as char)
    }
}

proof fn lemma_digits_of(number: nat)
    ensures
        digits_of(number).len() > 0,
        forall|i: int|
            0 <= i < digits_of(number).len() ==> is_digit(#[trigger] digits_of(number)[i]),
        digits_of(number)[0] != '0' || digits_of(number).len() == 1,
        number > 0 ==> digits_of(number)[0] != '0',
        decimal(digits_of(number)) == number,
    decreases number,
{
    if number < 10 {
        reveal_with_fuel(decimal, 2);
        assert(digits_of(number).drop_last() =~= Seq::empty());
    } else {
        lemma_digits_of(number / 10);
        assert(digits_of(number).drop_last() =~= digits_of(number / 10));
    }
}

proof fn lemma_trimmed(before: Seq<char>, text: Seq<char>, after: Seq<char>)
    requires
        forall|i: int| 0 <= i < before.len() ==> is_json_blank(#[trigger] before[i]),
        forall|i: int| 0 <= i < after.len() ==> is_json_blank(#[trigger] after[i]),
        text.len() > 0,
        !is_json_blank(text.first()),
        !is_json_blank(text.last()),
    ensures
        trimmed(before + text + after) == text,
    decreases before.len() + after.len(),
{
    let all = before + text + after;
    if before.len() > 0 {
        assert(all.first() == before[0]);
        assert(all.drop_first() =~= before.drop_first() + text + after);
        lemma_trimmed(before.drop_first(), text, after);
    } else if after.len() > 0 {
        assert(all.first() == text.first());
        assert(all.last() == after.last());
        assert(all.drop_last() =~= before + text + after.drop_last());
        lemma_trimmed(before, text, after.drop_last());
    } else {
        assert(all =~= text);
    }
}

/// Every number of 64 bits, written in decimal with blanks around it or without, reads as that
/// number.
pub proof fn law_integers_read_as_written(before: Seq<char>, number: u64, after: Seq<char>)
    requires
        forall|i: int| 0 <= i < before.len() ==> is_json_blank(#[trigger] before[i]),
        forall|i: int| 0 <= i < after.len() ==> is_json_blank(#[trigger] after[i]),
    ensures
        json_integer(before + digits_of(number as nat) + after) == Some(number),
        json_integer(digits_of(number as nat)) == Some(number),
{
    let digits = digits_of(number as nat);
    lemma_digits_of(number as nat);
    assert(is_digit(digits[0]));
    assert(is_digit(digits[digits.len() - 1]));
    lemma_trimmed(before, digits, after);
    lemma_trimmed(Seq::empty(), digits, Seq::empty());
    assert(Seq::<char>::empty() + digits + Seq::<char>::empty() =~= digits);
}

/// A text of characters that need no escape, put between quotation marks, reads as that text.
pub proof fn law_strings_read_as_written(text: Seq<char>)
    requires
        forall|i: int|
            0 <= i < text.len() ==> #[trigger] text[i] != '"' && text[i] != '\\' && text[i] >= ' ',
    ensures
        json_string(seq!['"'] + text + seq!['"']) == Some(text),
{
    let json = seq!['"'] + text + seq!['"'];
    assert forall|i: int| 1 <= i < json.len() - 1 implies #[trigger] json[i] != '"' && json[i]
        != '\\' && json[i] >= ' ' by {
        assert(json[i] == text[i - 1]);
    }
    assert(json.subrange(1, json.len() - 1) =~= text);
}

/// A token names as its host what its first `sub` claim denotes, and as its expiry the integer
/// in its first `exp` claim, whatever else it claims.
pub proof fn law_claims_name_host_and_expiry(
    claims: Seq<(Seq<char>, Seq<char>)>,
    sub_at: int,
    exp_at: int,
)
    requires
        0 <= sub_at <= claims.len(),
        0 <= exp_at <= claims.len(),
        forall|i: int| 0 <= i < sub_at ==> (#[trigger] claims[i]).0 != "sub"@,
        forall|i: int| 0 <= i < exp_at ==> (#[trigger] claims[i]).0 != "exp"@,
    ensures
        sub_at < claims.len() && claims[sub_at].0 == "sub"@ ==> claimed_sub(claims) == json_string(
            claims[sub_at].1,
        ),
        sub_at == claims.len() ==> claimed_sub(claims) is None,
        exp_at < claims.len() && claims[exp_at].0 == "exp"@ ==> {
            &&& json_integer(claims[exp_at].1) is None ==> claimed_exp(claims) is None
            &&& json_integer(claims[exp_at].1) matches Some(exp) ==> if exp <= usize::MAX {
                claimed_exp(claims) is Some && claimed_exp(claims)->0 == exp
            } else {
                claimed_exp(claims) is None
            }
        },
        exp_at == claims.len() ==> claimed_exp(claims) is None,
{
    law_first_claim_counts(claims, "sub"@, sub_at);
    law_first_claim_counts(claims, "exp"@, exp_at);
}

} // verus!
