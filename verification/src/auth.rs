//! The canonical request signer: the parameters of a request in canonical
//! order, and the value of the `Authorization` header derived from them.

use crate::article::{Article, ArticleText};
use crate::order::{
    lemma_sorted_texts, lemma_sorted_texts_unique, sort_strs, sorted_texts, texts_of,
};
use hmac::{Hmac, Mac};
use sha2::Sha256;
use vstd::prelude::*;
use vstd::seq_lib::*;
use vstd::string::*;
use vstd::utf8::*;

verus! {

/// The scheme that an authorization value begins with, and the blank after it.
pub const SCHEME_PREFIX: &'static str = "hmac ";

/// The hexadecimal digits, each at the place of its value.
pub const HEX_DIGITS: &'static str = "0123456789abcdef";

/// HMAC-SHA256 takes no key and no message of this many bytes or more: the
/// hash counts the bits it has read in 64 bits, and the message follows a
/// block of 64 bytes.
pub const MAC_INPUT_LIMIT: u64 = 0x1fff_ffff_ffff_ffc0;

/// The HMAC-SHA256 code of `message` under `key`.
pub uninterp spec fn hmac_sha256(key: Seq<u8>, message: Seq<u8>) -> Seq<u8>;

/// The strings that a request is signed over, as they are collected: the
/// article's content, its title, then the keys that the endpoint adds.
pub open spec fn request_params(article: ArticleText, param_keys: Seq<Seq<char>>) -> Seq<
    Seq<char>,
> {
    seq![article.content, article.title] + param_keys
}

/// The canonical text of the parameters: all of them in ascending order,
/// one after the other with nothing between them.
pub open spec fn canonical_text(params: Seq<Seq<char>>) -> Seq<char> {
    sorted_texts(params).flatten()
}

/// Two lowercase hexadecimal digits for each byte, the high half first.
pub open spec fn hex_lower(bytes: Seq<u8>) -> Seq<char> {
    Seq::new(
        2 * bytes.len(),
        |i: int|
            if i % 2 == 0 {
                HEX_DIGITS@[bytes[i / 2] as int / 16]
            } else {
                HEX_DIGITS@[bytes[i / 2] as int % 16]
            },
    )
}

/// The authorization value that carries the code.
pub open spec fn authorization_value(code: Seq<u8>) -> Seq<char> {
    SCHEME_PREFIX@ + hex_lower(code)
}

/// The authorization value of a request with the given parameters under
/// the given secret key.
pub open spec fn request_authorization(secret_key: Seq<char>, params: Seq<Seq<char>>) -> Seq<
    char,
> {
    authorization_value(hmac_sha256(encode_utf8(secret_key), encode_utf8(canonical_text(params))))
}

/// Whether key and parameters are short enough to be signed.
pub open spec fn signable(secret_key: Seq<char>, params: Seq<Seq<char>>) -> bool {
    &&& encode_utf8(secret_key).len() < MAC_INPUT_LIMIT
    &&& encode_utf8(canonical_text(params)).len() < MAC_INPUT_LIMIT
}

/// Computes the code with the `hmac` crate: `Hmac::<Sha256>::new_varkey`,
/// which accepts a key of any length, then `input` and `result`. The code
/// is taken to be HMAC-SHA256 of the message under the key, a function of
/// the two byte strings alone. Inputs as long as `MAC_INPUT_LIMIT` are left
/// out, since the bit count of the hash would overflow on them.
#[verifier::external_body]
fn mac_code(key: &[u8], message: &[u8]) -> (code: Vec<u8>)
    requires
        key@.len() < MAC_INPUT_LIMIT,
        message@.len() < MAC_INPUT_LIMIT,
    ensures
        code@ == hmac_sha256(key@, message@),
{
    let mut mac = Hmac::<Sha256>::new_varkey(key).expect("HMAC can take key of any size");
    mac.input(message);
    mac.result().code().to_vec()
}

/// The bytes written in lowercase hexadecimal.
pub fn hex_encode(bytes: &[u8]) -> (hex: String)
    ensures
        hex@ == hex_lower(bytes@),
{
    proof {
        reveal_strlit("0123456789abcdef");
    }
    let mut hex = String::new();
    let mut i: usize = 0;
    while i < bytes.len()
        invariant
            i <= bytes@.len(),
            HEX_DIGITS@.len() == 16,
            is_ascii(HEX_DIGITS),
            hex@ == hex_lower(bytes@.take(i as int)),
        decreases bytes@.len() - i,
    {
        let byte = bytes[i];
        let high: usize = (byte / 16) as usize;
        let low: usize = (byte % 16) as usize;
        hex.append(HEX_DIGITS.substring_ascii(high, high + 1));
        hex.append(HEX_DIGITS.substring_ascii(low, low + 1));
        proof {
            let before = bytes@.take(i as int);
            let after = bytes@.take(i as int + 1);
            assert(after =~= before.push(byte));
            assert(hex@ =~= hex_lower(after));
        }
        i += 1;
    }
    proof {
        assert(bytes@.take(i as int) =~= bytes@);
    }
    hex
}

/// The value of the `Authorization` header for a code: the scheme `hmac`,
/// a blank, and the code in lowercase hexadecimal.
pub fn authorization_header(code: &[u8]) -> (value: String)
    ensures
        value@ == authorization_value(code@),
{
    let mut value = String::from_str(SCHEME_PREFIX);
    let hex = hex_encode(code);
    value.append(hex.as_str());
    value
}

/// The canonical text that a request for `article` with the endpoint's
/// `param_keys` is signed over.
pub fn canonical_params(article: &Article, param_keys: &Vec<&str>) -> (text: String)
    ensures
        text@ == canonical_text(request_params(article@, texts_of(param_keys@))),
{
    let mut all_params: Vec<&str> = Vec::new();
    all_params.push(article.article.content.as_str());
    all_params.push(article.article.title.as_str());
    let mut k: usize = 0;
    while k < param_keys.len()
        invariant
            k <= param_keys@.len(),
            texts_of(all_params@) == request_params(
                article@,
                texts_of(param_keys@.take(k as int)),
            ),
        decreases param_keys@.len() - k,
    {
        let ghost collected = texts_of(all_params@);
        all_params.push(param_keys[k]);
        proof {
            let key = param_keys@[k as int]@;
            let keys = texts_of(param_keys@.take(k as int));
            assert(texts_of(all_params@) =~= collected.push(key));
            assert(texts_of(param_keys@.take(k as int + 1)) =~= keys.push(key));
            assert(request_params(article@, keys).push(key) =~= request_params(
                article@,
                keys.push(key),
            ));
        }
        k += 1;
    }
    proof {
        assert(param_keys@.take(k as int) =~= param_keys@);
    }
    let sorted = sort_strs(&all_params);
    let mut text = String::new();
    let mut j: usize = 0;
    while j < sorted.len()
        invariant
            j <= sorted@.len(),
            text@ == texts_of(sorted@).take(j as int).flatten(),
        decreases sorted@.len() - j,
    {
        text.append(sorted[j]);
        proof {
            let done = texts_of(sorted@).take(j as int);
            assert(texts_of(sorted@).take(j as int + 1) =~= done.push(sorted@[j as int]@));
            done.lemma_flatten_push(sorted@[j as int]@);
        }
        j += 1;
    }
    proof {
        assert(texts_of(sorted@).take(j as int) =~= texts_of(sorted@));
    }
    text
}

/// The authorization value for a canonical text under `secret_key`.
fn sign_canonical(canonical: &str, secret_key: &str) -> (token: String)
    requires
        encode_utf8(secret_key@).len() < MAC_INPUT_LIMIT,
        encode_utf8(canonical@).len() < MAC_INPUT_LIMIT,
    ensures
        token@ == authorization_value(
            hmac_sha256(encode_utf8(secret_key@), encode_utf8(canonical@)),
        ),
{
    let code = mac_code(secret_key.as_bytes(), canonical.as_bytes());
    authorization_header(code.as_slice())
}

/// Signs a request for `article` under `secret_key`. The canonical text of
/// the article's content and title and of `param_keys` is authenticated
/// with HMAC-SHA256, and the code is returned as an authorization value.
pub fn create_request_hmac(article: &Article, param_keys: Vec<&str>, secret_key: &str) -> (token:
    String)
    requires
        signable(secret_key@, request_params(article@, texts_of(param_keys@))),
    ensures
        token@ == request_authorization(
            secret_key@,
            request_params(article@, texts_of(param_keys@)),
        ),
{
    let serialized_params = canonical_params(article, &param_keys);
    sign_canonical(serialized_params.as_str(), secret_key)
}

/// Signs a request as `create_request_hmac` does, where key and parameters
/// are short enough to be signed, and returns nothing where they are not.
pub fn sign_request(article: &Article, param_keys: &Vec<&str>, secret_key: &str) -> (token:
    Option<String>)
    ensures
        match token {
            Some(token) => signable(secret_key@, request_params(article@, texts_of(param_keys@)))
                && token@ == request_authorization(
                secret_key@,
                request_params(article@, texts_of(param_keys@)),
            ),
            None => !signable(secret_key@, request_params(article@, texts_of(param_keys@))),
        },
{
    let serialized_params = canonical_params(article, param_keys);
    let key_len: usize = secret_key.as_bytes().len();
    let text_len: usize = serialized_params.as_str().as_bytes().len();
    if (key_len as u64) < MAC_INPUT_LIMIT && (text_len as u64) < MAC_INPUT_LIMIT {
        Some(sign_canonical(serialized_params.as_str(), secret_key))
    } else {
        None
    }
}

/// The canonical text does not depend on the order in which the
/// parameters were collected.
pub proof fn lemma_canonical_text_ignores_order(first: Seq<Seq<char>>, second: Seq<Seq<char>>)
    requires
        first.to_multiset() == second.to_multiset(),
    ensures
        canonical_text(first) == canonical_text(second),
{
    lemma_sorted_texts(first);
    lemma_sorted_texts_unique(second, sorted_texts(first));
}

proof fn lemma_flatten_without(texts: Seq<Seq<char>>, i: int)
    requires
        0 <= i < texts.len(),
    ensures
        texts.flatten().to_multiset() == texts[i].to_multiset().add(
            texts.remove(i).flatten().to_multiset(),
        ),
    decreases i,
{
    if i == 0 {
        assert(texts.remove(0) =~= texts.drop_first());
        lemma_multiset_commutative(texts[0], texts.drop_first().flatten());
    } else {
        let rest = texts.drop_first();
        assert(texts.remove(i).drop_first() =~= rest.remove(i - 1));
        lemma_flatten_without(rest, i - 1);
        lemma_multiset_commutative(texts[0], rest.flatten());
        lemma_multiset_commutative(texts[0], rest.remove(i - 1).flatten());
        assert(texts.flatten().to_multiset() =~= texts[i].to_multiset().add(
            texts.remove(i).flatten().to_multiset(),
        ));
    }
}

/// Texts that are rearranged hold the same characters, each as often.
proof fn lemma_flatten_rearranged(first: Seq<Seq<char>>, second: Seq<Seq<char>>)
    requires
        first.to_multiset() == second.to_multiset(),
    ensures
        first.flatten().to_multiset() == second.flatten().to_multiset(),
    decreases first.len(),
{
    to_multiset_len(first);
    to_multiset_len(second);
    if first.len() > 0 {
        let head = first[0];
        to_multiset_contains(first, head);
        to_multiset_contains(second, head);
        let i = choose|i: int| 0 <= i < second.len() && second[i] == head;
        to_multiset_remove(first, 0);
        to_multiset_remove(second, i);
        lemma_flatten_rearranged(first.remove(0), second.remove(i));
        lemma_flatten_without(first, 0);
        lemma_flatten_without(second, i);
    } else {
        assert(second =~= first);
    }
}

/// The canonical text holds the characters of the parameters, each as
/// often as they do together.
pub proof fn lemma_canonical_text_characters(params: Seq<Seq<char>>)
    ensures
        canonical_text(params).to_multiset() == params.flatten().to_multiset(),
        canonical_text(params).len() == params.flatten().len(),
{
    lemma_sorted_texts(params);
    lemma_flatten_rearranged(sorted_texts(params), params);
    to_multiset_len(canonical_text(params));
    to_multiset_len(params.flatten());
}

/// Changing one character of one parameter changes the canonical text.
pub proof fn lemma_changed_character_changes_canonical_text(
    params: Seq<Seq<char>>,
    i: int,
    j: int,
    c: char,
)
    requires
        0 <= i < params.len(),
        0 <= j < params[i].len(),
        c != params[i][j],
    ensures
        canonical_text(params.update(i, params[i].update(j, c))) != canonical_text(params),
{
    let changed = params.update(i, params[i].update(j, c));
    lemma_canonical_text_characters(params);
    lemma_canonical_text_characters(changed);
    lemma_flatten_without(params, i);
    lemma_flatten_without(changed, i);
    assert(changed.remove(i) =~= params.remove(i));
    to_multiset_update(params[i], j, c);
    let others = params.remove(i).flatten().to_multiset();
    let before = params[i].to_multiset();
    let after = before.insert(c).remove(params[i][j]);
    assert(after.count(c) == before.count(c) + 1);
    assert(after.add(others).count(c) == before.add(others).count(c) + 1);
}

proof fn lemma_encoded_len(text: Seq<char>)
    ensures
        text.len() <= encode_utf8(text).len() <= 4 * text.len(),
    decreases text.len(),
{
    if text.len() > 0 {
        lemma_encoded_len(text.drop_first());
    }
}

/// A request can be signed where the key, and all the parameters together,
/// have fewer characters than a quarter of the limit: a character takes
/// four bytes at most.
pub proof fn lemma_short_request_is_signable(secret_key: Seq<char>, params: Seq<Seq<char>>)
    requires
        4 * secret_key.len() < MAC_INPUT_LIMIT,
        4 * params.flatten().len() < MAC_INPUT_LIMIT,
    ensures
        signable(secret_key, params),
{
    lemma_canonical_text_characters(params);
    lemma_encoded_len(secret_key);
    lemma_encoded_len(canonical_text(params));
}

/// Signing is a function of what it is given: requests that agree in
/// secret key, article and parameter keys have the same authorization
/// value.
pub proof fn lemma_signing_is_deterministic(
    first_key: Seq<char>,
    first_article: ArticleText,
    first_param_keys: Seq<Seq<char>>,
    second_key: Seq<char>,
    second_article: ArticleText,
    second_param_keys: Seq<Seq<char>>,
)
    requires
        first_key == second_key,
        first_article == second_article,
        first_param_keys == second_param_keys,
    ensures
        request_authorization(first_key, request_params(first_article, first_param_keys))
            == request_authorization(
            second_key,
            request_params(second_article, second_param_keys),
        ),
{
}

} // verus!
