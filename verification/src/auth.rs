//! API-key extraction and verification (plain text or MD5 digest), compared in constant time.

use subtle::ConstantTimeEq;
use vstd::prelude::*;
use vstd::utf8::*;
use vstd::string::StringSliceAdditionalSpecFns;
use crate::text::{chars_of, starts_with_text, text_starts_with};

verus! {

broadcast use encode_utf8_decode_utf8;

/// The prefix of an `Authorization` header value that carries a bearer token.
pub open spec fn bearer_prefix() -> Seq<char> {
    seq!['B', 'e', 'a', 'r', 'e', 'r', ' ']
}

/// The view of an optional borrowed text.
pub open spec fn opt_str_view(o: Option<&str>) -> Option<Seq<char>> {
    match o {
        Some(s) => Some(s@),
        None => None,
    }
}

/// The view of an optional owned text.
pub open spec fn opt_string_view(o: Option<String>) -> Option<Seq<char>> {
    match o {
        Some(s) => Some(s@),
        None => None,
    }
}

/// The API key a request carries: the `x-api-key` header when it is present and readable,
/// otherwise the token after `Bearer ` in the `Authorization` header.
pub open spec fn api_key_from_headers(
    x_api_key: Option<Seq<char>>,
    authorization: Option<Seq<char>>,
) -> Option<Seq<char>> {
    match x_api_key {
        Some(k) => Some(k),
        None => match authorization {
            Some(a) => if starts_with_text(a, bearer_prefix()) {
                Some(a.skip(7))
            } else {
                None
            },
            None => None,
        },
    }
}

/// Picks the API key out of the two header values a request may carry it in.
///
/// `x_api_key` is the text of the `x-api-key` header and `authorization` that of the
/// `Authorization` header, each `None` when the header is absent or not visible ASCII.
pub fn extract_api_key(x_api_key: Option<&str>, authorization: Option<&str>) -> (r: Option<String>)
    ensures
        opt_string_view(r) == api_key_from_headers(opt_str_view(x_api_key), opt_str_view(authorization)),
{
    match x_api_key {
        Some(k) => Some(k.to_owned()),
        None => match authorization {
            Some(a) => {
                let prefix = "Bearer ";
                proof {
                    reveal_strlit("Bearer ");
                    assert(prefix@ =~= bearer_prefix());
                }
                if text_starts_with(a, prefix) {
                    let n = a.unicode_len();
                    let token = a.substring_char(7, n);
                    assert(token@ =~= a@.skip(7));
                    Some(token.to_owned())
                } else {
                    None
                }
            },
            None => None,
        },
    }
}

/// An ASCII hexadecimal digit, as `char::is_ascii_hexdigit` accepts it.
pub open spec fn is_hex_digit_char(c: char) -> bool {
    ||| ('0' <= c && c <= '9')
    ||| ('a' <= c && c <= 'f')
    ||| ('A' <= c && c <= 'F')
}

/// A client key that is read as an MD5 digest: 32 characters, each a hex digit
/// (hence also 32 bytes, see `lemma_md5_form_is_32_bytes`).
pub open spec fn is_md5_form(key: &str) -> bool {
    &&& key@.len() == 32
    &&& forall|i: int| 0 <= i < key@.len() ==> is_hex_digit_char(#[trigger] key@[i])
}

/// A key in MD5 form is 32 bytes long, so the form is the same whether its length is
/// counted in characters or in bytes.
pub proof fn lemma_md5_form_is_32_bytes(key: &str)
    requires
        is_md5_form(key),
    ensures
        key.spec_bytes().len() == 32,
{
    assert(is_ascii_chars(key@));
    vstd::string::is_ascii_spec_bytes(key);
}

/// The sixteen lower-case hexadecimal digits, in order of value.
pub open spec fn hex_digits() -> Seq<char> {
    seq!['0', '1', '2', '3', '4', '5', '6', '7', '8', '9', 'a', 'b', 'c', 'd', 'e', 'f']
}

/// Lower-case hexadecimal text of a byte string: two digits per byte, high nibble first.
pub open spec fn lower_hex(bytes: Seq<u8>) -> Seq<char>
    decreases bytes.len(),
{
    if bytes.len() == 0 {
        Seq::empty()
    } else {
        let b = bytes.last();
        lower_hex(bytes.drop_last()) + seq![hex_digits()[(b / 16) as int], hex_digits()[(b % 16) as int]]
    }
}

/// The MD5 digest of a byte string, as `md5::compute` returns it.
pub uninterp spec fn md5_digest(data: Seq<u8>) -> Seq<u8>;

/// Calls `md5::compute`; the result is named `md5_digest` of the input and is 16 bytes long.
#[verifier::external_body]
fn md5_compute(data: &[u8]) -> (r: Vec<u8>)
    ensures
        r@ == md5_digest(data@),
        r@.len() == 16,
{
    md5::compute(data).0.to_vec()
}

/// Calls `subtle::ConstantTimeEq::ct_eq` on two byte slices and converts the `Choice` to `bool`:
/// true exactly when the slices have the same length and the same bytes.
#[verifier::external_body]
fn bytes_ct_eq(a: &[u8], b: &[u8]) -> (r: bool)
    ensures
        r == (a@ == b@),
{
    bool::from(a.ct_eq(b))
}

/// Lower-case hexadecimal text of `bytes`, as `format!("{:x}", digest)` writes an MD5 digest.
pub fn lower_hex_string(bytes: &[u8]) -> (r: String)
    ensures
        r@ == lower_hex(bytes@),
{
    let digits = "0123456789abcdef";
    proof {
        reveal_strlit("0123456789abcdef");
        assert(digits@ =~= hex_digits());
    }
    let mut out = String::new();
    let n = bytes.len();
    let mut i: usize = 0;
    while i < n
        invariant
            n == bytes@.len(),
            i <= n,
            digits@ == hex_digits(),
            out@ == lower_hex(bytes@.subrange(0, i as int)),
        decreases n - i,
    {
        let b = bytes[i];
        let hi = (b / 16) as usize;
        let lo = (b % 16) as usize;
        let hs = digits.substring_char(hi, hi + 1);
        let ls = digits.substring_char(lo, lo + 1);
        out.append(hs);
        out.append(ls);
        proof {
            let pre = bytes@.subrange(0, i as int + 1);
            assert(pre.drop_last() =~= bytes@.subrange(0, i as int));
            assert(pre.last() == b);
            assert(hs@ =~= seq![hex_digits()[(b / 16) as int]]);
            assert(ls@ =~= seq![hex_digits()[(b % 16) as int]]);
            assert(out@ =~= lower_hex(pre));
        }
        i = i + 1;
    }
    assert(bytes@.subrange(0, n as int) =~= bytes@);
    out
}

/// Whether every character of `s` is an ASCII hex digit.
fn all_hex_digits(s: &str) -> (r: bool)
    ensures
        r == (forall|i: int| 0 <= i < s@.len() ==> is_hex_digit_char(#[trigger] s@[i])),
{
    let cs = chars_of(s);
    let n = cs.len();
    let mut i: usize = 0;
    while i < n
        invariant
            cs@ == s@,
            n == cs@.len(),
            i <= n,
            forall|k: int| 0 <= k < i ==> is_hex_digit_char(#[trigger] s@[k]),
        decreases n - i,
    {
        let c = cs[i];
        if !(('0' <= c && c <= '9') || ('a' <= c && c <= 'f') || ('A' <= c && c <= 'F')) {
            assert(!is_hex_digit_char(s@[i as int]));
            return false;
        }
        i = i + 1;
    }
    true
}

/// Compares two texts in time that does not depend on where they differ.
pub fn constant_time_eq(a: &str, b: &str) -> (r: bool)
    ensures
        r == (a@ == b@),
{
    let r = bytes_ct_eq(a.as_bytes(), b.as_bytes());
    proof {
        if a.spec_bytes() == b.spec_bytes() {
            assert(decode_utf8(encode_utf8(a@)) == a@);
            assert(decode_utf8(encode_utf8(b@)) == b@);
        }
    }
    r
}

/// Whether a client key is accepted for a server key: a key in MD5 form must be the
/// lower-case hex MD5 digest of the server key's bytes; any other key must equal the server
/// key.
pub open spec fn api_key_accepted(client_key: &str, server_key: &str) -> bool {
    if is_md5_form(client_key) {
        client_key@ == lower_hex(md5_digest(server_key.spec_bytes()))
    } else {
        client_key@ == server_key@
    }
}

/// The hex text of a 16-byte digest is a key in MD5 form.
pub proof fn lemma_hex_digest_is_md5_form(digest: Seq<u8>)
    requires
        digest.len() == 16,
    ensures
        lower_hex(digest).len() == 32,
        forall|i: int| 0 <= i < 32 ==> is_hex_digit_char(#[trigger] lower_hex(digest)[i]),
{
    lemma_lower_hex_shape(digest);
}

/// Hex text has two characters per byte, each a hex digit.
proof fn lemma_lower_hex_shape(bytes: Seq<u8>)
    ensures
        lower_hex(bytes).len() == 2 * bytes.len(),
        forall|i: int| 0 <= i < lower_hex(bytes).len() ==> is_hex_digit_char(#[trigger] lower_hex(bytes)[i]),
    decreases bytes.len(),
{
    if bytes.len() > 0 {
        lemma_lower_hex_shape(bytes.drop_last());
        let b = bytes.last();
        let prev = lower_hex(bytes.drop_last());
        let pair = seq![hex_digits()[(b / 16) as int], hex_digits()[(b % 16) as int]];
        assert forall|i: int| 0 <= i < lower_hex(bytes).len() implies is_hex_digit_char(#[trigger] lower_hex(bytes)[i]) by {
            if i >= prev.len() {
                assert(lower_hex(bytes)[i] == pair[i - prev.len()]);
            } else {
                assert(lower_hex(bytes)[i] == prev[i]);
            }
        }
    }
}

/// A client that sends the hex MD5 digest of the server key is accepted, as is a client that
/// sends the server key itself when that key is not in MD5 form.
pub proof fn lemma_matching_keys_accepted(client_key: &str, server_key: &str)
    requires
        md5_digest(server_key.spec_bytes()).len() == 16,
        client_key@ == lower_hex(md5_digest(server_key.spec_bytes()))
            || (client_key@ == server_key@ && !is_md5_form(server_key)),
    ensures
        api_key_accepted(client_key, server_key),
{
    if client_key@ == lower_hex(md5_digest(server_key.spec_bytes())) {
        lemma_hex_digest_is_md5_form(md5_digest(server_key.spec_bytes()));
        assert(is_md5_form(client_key));
    }
}

/// Checks a key sent by a client against the key the server is configured with.
///
/// A client key of 32 hex digits is taken as an MD5 digest and compared with the lower-case
/// hex MD5 of the server key; any other client key is compared with the server key itself.
pub fn verify_api_key(client_key: &str, server_key: &str) -> (r: bool)
    ensures
        r == api_key_accepted(client_key, server_key),
{
    if client_key.unicode_len() == 32 && all_hex_digits(client_key) {
        let digest = md5_compute(server_key.as_bytes());
        let hex = lower_hex_string(digest.as_slice());
        constant_time_eq(client_key, hex.as_str())
    } else {
        constant_time_eq(client_key, server_key)
    }
}

} // verus!
