//! The token that logs in to RDS in place of a password: a presigned URL without its scheme.
//!
//! `url` and `aws_sigv4` do the work. What is stated of them here is not proved: it is what their
//! documentation and source say. How a signature is computed is left to `aws_sigv4` and only given
//! a name.

use std::iter::empty;
use std::time::{Duration, UNIX_EPOCH};

use aws_credential_types::Credentials;
use aws_sigv4::http_request::{
    sign, SignableBody, SignableRequest, SignatureLocation, SigningError, SigningSettings,
};
use aws_sigv4::sign::v4::SigningParams;
use url::Url;
use vstd::prelude::*;
use vstd::string::{StringExecFns, StringSliceAdditionalSpecFns};
use vstd::utf8::encode_utf8;

use crate::text::{decimal, decimal_text, digits_value, law_decimal_reads_back};
use crate::wire::{lemma_cut_between, lemma_encode_concat, lemma_encode_injective};

verus! {

// ---------------------------------------------------------------------------
// URLs
// ---------------------------------------------------------------------------

#[verifier::external_type_specification]
#[verifier::external_body]
pub struct ExUrl(Url);

#[verifier::external_type_specification]
#[verifier::external_body]
pub struct ExParseError(url::ParseError);

/// The text of a `Url`.
pub uninterp spec fn url_text(url: Url) -> Seq<char>;

/// What a `ParseError` says.
pub uninterp spec fn url_error_text(error: url::ParseError) -> Seq<char>;

/// The text of the URL that `Url::parse` makes of a text, or what is said of a text that is none.
pub uninterp spec fn parsed_url(text: Seq<char>) -> Result<Seq<char>, Seq<char>>;

/// `Url::parse`: reads a URL and brings it into normal form, or says why a text is no URL. An HTTPS
/// URL stays one.
#[verifier::external_body]
fn url_parse(text: &str) -> (parsed: Result<Url, url::ParseError>)
    ensures
        match parsed_url(text@) {
            Ok(normal) => parsed matches Ok(url) && url_text(url) == normal,
            Err(fault) => parsed matches Err(e) && url_error_text(e) == fault,
        },
        parsed matches Ok(url) ==> ("https://"@.is_prefix_of(text@) ==> "https://"@.is_prefix_of(
            url_text(url),
        )),
{
    Url::parse(text)
}

/// `Url::as_str`: the text of a URL.
#[verifier::external_body]
fn url_as_str(url: &Url) -> (text: &str)
    ensures
        text@ == url_text(*url),
{
    url.as_str()
}

/// A URL's query without the sign in front; empty, if it has none.
pub open spec fn query_of(url: Seq<char>) -> Seq<char> {
    match before_fragment(url).index_of_first('?') {
        Some(start) => before_fragment(url).skip(start + 1),
        None => Seq::empty(),
    }
}

/// The path of an HTTPS URL: what follows the host, up to the query.
pub open spec fn path_of(url: Seq<char>) -> Seq<char> {
    let head = before_fragment(url);
    let upto = match head.index_of_first('?') {
        Some(start) => head.take(start),
        None => head,
    };
    let rest = upto.skip(8);
    match rest.index_of_first('/') {
        Some(start) => rest.skip(start),
        None => Seq::empty(),
    }
}

/// `Url::path`: the path of a URL. That of an HTTPS URL starts with the first slash behind the
/// scheme.
#[verifier::external_body]
fn url_path(url: &Url) -> (path: &str)
    requires
        "https://"@.is_prefix_of(url_text(*url)),
    ensures
        path@ == path_of(url_text(*url)),
{
    url.path()
}

/// The names and values in a query, decoded.
pub uninterp spec fn form_pairs(query: Seq<char>) -> Seq<(Seq<char>, Seq<char>)>;

/// `Url::query_pairs`: the names and values in the query of a URL, decoded.
#[verifier::external_body]
fn url_query_pairs(url: &Url) -> (pairs: Vec<(String, String)>)
    ensures
        text_pairs(pairs@) == form_pairs(query_of(url_text(*url))),
{
    url.query_pairs().into_owned().collect()
}

/// One byte of a form: letters, digits and `*-._` as they are, a space as `+`, anything else as a
/// percent sign and two hexadecimal digits.
pub open spec fn form_byte(byte: u8) -> Seq<char> {
    let c = byte as char;
    if ('0' <= c && c <= '9') || ('A' <= c && c <= 'Z') || ('a' <= c && c <= 'z') || c == '*' || c
        == '-' || c == '.' || c == '_' {
        seq![c]
    } else if c == ' ' {
        seq!['+']
    } else {
        seq!['%', hex_digit(byte / 16), hex_digit(byte % 16)]
    }
}

/// One hexadecimal digit, in upper case.
pub open spec fn hex_digit(d: u8) -> char {
    if d < 10 {
        ('0' as u8 + d) as u8 as char
    } else {
        ('A' as u8 + d - 10) as u8 as char
    }
}

/// Bytes as a form carries them.
pub open spec fn form_bytes(bytes: Seq<u8>) -> Seq<char>
    decreases bytes.len(),
{
    if bytes.len() == 0 {
        Seq::empty()
    } else {
        form_bytes(bytes.drop_last()) + form_byte(bytes.last())
    }
}

/// A name and a value as a form carries them.
pub open spec fn form_pair(name: Seq<char>, value: Seq<char>) -> Seq<char> {
    form_bytes(encode_utf8(name)) + "="@ + form_bytes(encode_utf8(value))
}

/// A URL up to its fragment.
pub open spec fn before_fragment(url: Seq<char>) -> Seq<char> {
    match url.index_of_first('#') {
        Some(start) => url.take(start),
        None => url,
    }
}

/// A URL's fragment, if it has one, with the sign in front.
pub open spec fn fragment(url: Seq<char>) -> Seq<char> {
    match url.index_of_first('#') {
        Some(start) => url.skip(start),
        None => Seq::empty(),
    }
}

/// What stands between a URL without a fragment and one more query parameter.
pub open spec fn pair_separator(url: Seq<char>) -> Seq<char> {
    match url.index_of_first('?') {
        None => "?"@,
        Some(start) => if start == url.len() - 1 {
            Seq::empty()
        } else {
            "&"@
        },
    }
}

/// A URL with one more query parameter. The fragment stays last.
pub open spec fn with_pair(url: Seq<char>, name: Seq<char>, value: Seq<char>) -> Seq<char> {
    before_fragment(url) + pair_separator(before_fragment(url)) + form_pair(name, value) + fragment(
        url,
    )
}

/// `Url::query_pairs_mut` and `append_pair`: adds a query parameter. It panics if the fragment
/// then starts beyond four gigabytes; a byte takes up at most three characters in a form.
#[verifier::external_body]
fn url_append_pair(url: &mut Url, name: &str, value: &str)
    requires
        encode_utf8(url_text(*old(url))).len() + 3 * name.spec_bytes().len() + 3
            * value.spec_bytes().len() + 2 <= u32::MAX,
    ensures
        url_text(*final(url)) == with_pair(url_text(*old(url)), name@, value@),
{
    url.query_pairs_mut().append_pair(name, value);
}

// ---------------------------------------------------------------------------
// Signatures
// ---------------------------------------------------------------------------

#[verifier::external_type_specification]
#[verifier::external_body]
pub struct ExSigningError(SigningError);

#[verifier::external_type_specification]
#[verifier::external_body]
pub struct ExSignableRequest<'a>(SignableRequest<'a>);

/// The keys that requests to AWS are signed with.
pub struct AwsCredentials {
    pub access_key_id: String,
    pub secret_access_key: String,
    pub session_token: Option<String>,
}

/// `AwsCredentials` as text.
#[verifier::ext_equal]
pub struct CredentialsView {
    pub access_key_id: Seq<char>,
    pub secret_access_key: Seq<char>,
    pub session_token: Option<Seq<char>>,
}

impl View for AwsCredentials {
    type V = CredentialsView;

    open spec fn view(&self) -> CredentialsView {
        keys(self.access_key_id@, self.secret_access_key@, self.session_token)
    }
}

/// A key, a secret and an optional session token.
pub open spec fn keys(key: Seq<char>, secret: Seq<char>, token: Option<String>) -> CredentialsView {
    CredentialsView {
        access_key_id: key,
        secret_access_key: secret,
        session_token: match token {
            Some(token) => Some(token@),
            None => None,
        },
    }
}

/// The first second that is not signed for: the start of the year 10000.
pub const END_OF_TIME: u64 = 253_402_300_800;

/// How many bytes a path and a query can have together, and a URL as a whole.
pub const MAX_URI: u64 = 65_534;

/// The method and the URL of a request. A request has no fragment.
pub uninterp spec fn request_of(request: SignableRequest<'_>) -> (Seq<char>, Seq<char>);

/// What a `SigningError` and the errors that it stems from say.
pub uninterp spec fn signing_text(error: SigningError) -> Seq<char>;

/// What is said of a text that HTTP does not take as a URL; nothing, if it does.
pub uninterp spec fn uri_fault(url: Seq<char>) -> Option<Seq<char>>;

/// The time stamp and the signature on a request for this URL with this method and no body, for
/// this service in this region, made so many seconds after the epoch and good for so many seconds,
/// with this key, this secret and this session token.
pub uninterp spec fn presigned(
    access_key_id: Seq<char>,
    secret_access_key: Seq<char>,
    session_token: Option<Seq<char>>,
    region: Seq<char>,
    service: Seq<char>,
    now: u64,
    expires_in: u64,
    method: Seq<char>,
    url: Seq<char>,
) -> (Seq<char>, Seq<char>);

/// How many characters bytes take up in what is signed: letters, digits and `-._~` one, anything
/// else three.
pub open spec fn coded_len(bytes: Seq<u8>) -> nat
    decreases bytes.len(),
{
    if bytes.len() == 0 {
        0
    } else {
        coded_len(bytes.drop_last()) + (if is_unreserved(bytes.last()) {
            1nat
        } else {
            3nat
        })
    }
}

/// Whether a byte stands in a URL as it is.
pub open spec fn is_unreserved(byte: u8) -> bool {
    let c = byte as char;
    ('0' <= c && c <= '9') || ('A' <= c && c <= 'Z') || ('a' <= c && c <= 'z') || c == '-' || c
        == '.' || c == '_' || c == '~'
}

/// How many characters a text takes up in what is signed.
pub open spec fn coded(text: Seq<char>) -> nat {
    coded_len(encode_utf8(text))
}

/// How many characters query parameters take up in what is signed, each with a sign in front of
/// the name and one in front of the value.
pub open spec fn coded_pairs(pairs: Seq<(Seq<char>, Seq<char>)>) -> nat
    decreases pairs.len(),
{
    if pairs.len() == 0 {
        0
    } else {
        coded_pairs(pairs.drop_last()) + 2 + coded(pairs.last().0) + coded(pairs.last().1)
    }
}

/// How many characters the parameters of a signature take up in what is signed, with their names
/// and the two signs of each: 33 for the algorithm, 18 and the scope, 28 for the time stamp, 15 and
/// the lifetime, 25 for the one signed header, 22 and the session token, if there is one. A scope
/// is the key, a date of 8 digits, the region, the service and `aws4_request`; its four slashes
/// take up three characters each.
pub open spec fn coded_signature_params(
    credentials: CredentialsView,
    region: Seq<char>,
    service: Seq<char>,
    expires_in: u64,
) -> nat {
    let scope = coded(credentials.access_key_id) + 8 + coded(region) + coded(service) + 12 + 4 * 3;
    let token = match credentials.session_token {
        Some(token) => 22 + coded(token),
        None => 0,
    };
    33 + 18 + scope + 28 + 15 + coded(decimal(expires_in as nat)) + 25 + token
}

/// How long the path and the query are that a signature is made of: the parameters of the URL's
/// own query, and those of the signature.
pub open spec fn signed_length(
    url: Seq<char>,
    credentials: CredentialsView,
    region: Seq<char>,
    service: Seq<char>,
    expires_in: u64,
) -> nat {
    encode_utf8(path_of(url)).len() + coded_pairs(form_pairs(query_of(url)))
        + coded_signature_params(credentials, region, service, expires_in)
}

/// The query parameters that carry a signature.
pub open spec fn signature_params(
    credentials: CredentialsView,
    region: Seq<char>,
    service: Seq<char>,
    expires_in: u64,
    stamp: Seq<char>,
    signature: Seq<char>,
) -> Seq<(Seq<char>, Seq<char>)> {
    let scope = credentials.access_key_id + "/"@ + stamp.take(8) + "/"@ + region + "/"@ + service
        + "/aws4_request"@;
    let params = seq![
        ("X-Amz-Algorithm"@, "AWS4-HMAC-SHA256"@),
        ("X-Amz-Credential"@, scope),
        ("X-Amz-Date"@, stamp),
        ("X-Amz-Expires"@, decimal(expires_in as nat)),
        ("X-Amz-SignedHeaders"@, "host"@),
        ("X-Amz-Signature"@, signature),
    ];
    match credentials.session_token {
        Some(token) => params.push(("X-Amz-Security-Token"@, token)),
        None => params,
    }
}

/// Pairs of strings as pairs of texts.
pub open spec fn text_pairs(pairs: Seq<(String, String)>) -> Seq<(Seq<char>, Seq<char>)> {
    Seq::new(pairs.len(), |i: int| (pairs[i].0@, pairs[i].1@))
}

/// `SignableRequest::new`: a request for a URL without headers and without a body. It is refused
/// if HTTP does not take the text as a URL, as it never does if the text is too long, and the error
/// says why. The fragment is dropped.
#[verifier::external_body]
fn signable_request<'a>(method: &'a str, url: &'a Url) -> (request: Result<
    SignableRequest<'a>,
    SigningError,
>)
    requires
        "https://"@.is_prefix_of(url_text(*url)),
    ensures
        match uri_fault(url_text(*url)) {
            None => request is Ok,
            Some(fault) => request matches Err(e) && signing_text(e) == fault,
        },
        request is Ok ==> encode_utf8(url_text(*url)).len() <= MAX_URI,
        request matches Ok(made) ==> request_of(made) == (method@, before_fragment(url_text(*url))),
{
    SignableRequest::new(method, url.as_str(), empty(), SignableBody::empty())
}

/// `aws_sigv4::http_request::sign`, with the signature in the query: the query parameters that
/// sign a request. Only the host is signed of the headers. A time stamp is sixteen characters
/// long, of which the first eight are the date; a signature is sixty-four. It panics on a time
/// beyond the year 9999 and on a path and a query that are too long together with the parameters
/// of the signature. With these credentials it does not fail.
#[verifier::external_body]
fn presign(
    request: SignableRequest<'_>,
    key: &str,
    secret: &str,
    token: Option<String>,
    region: &str,
    service: &str,
    now: u64,
    expires_in: u64,
) -> (params: Result<Vec<(String, String)>, SigningError>)
    requires
        now < END_OF_TIME,
        "https://"@.is_prefix_of(request_of(request).1),
        signed_length(
            request_of(request).1,
            keys(key@, secret@, token),
            region@,
            service@,
            expires_in,
        ) <= MAX_URI,
    ensures
        match params {
            Ok(pairs) => match presigned(
                key@,
                secret@,
                keys(key@, secret@, token).session_token,
                region@,
                service@,
                now,
                expires_in,
                request_of(request).0,
                request_of(request).1,
            ) {
                (stamp, signature) => {
                    &&& stamp.len() == 16 && signature.len() == 64
                    &&& text_pairs(pairs@) == signature_params(
                        keys(key@, secret@, token),
                        region@,
                        service@,
                        expires_in,
                        stamp,
                        signature,
                    )
                },
            },
            Err(_) => false,
        },
{
    let identity = Credentials::new(key, secret, token, None, "rds_proxy").into();
    let mut settings = SigningSettings::default();
    settings.expires_in = Some(Duration::from_secs(expires_in));
    settings.signature_location = SignatureLocation::QueryParams;
    let time = UNIX_EPOCH + Duration::from_secs(now);
    let params = SigningParams::builder().identity(&identity).region(region).name(service);
    let params = params.time(time).settings(settings).build().unwrap().into();
    let (_, pairs) = sign(request, &params)?.into_parts().0.into_parts();
    Ok(pairs.into_iter().map(|(k, v)| (k.into(), v.into())).collect())
}

// ---------------------------------------------------------------------------
// Tokens
// ---------------------------------------------------------------------------

/// How many bytes `https://` has.
pub const HTTPS_LEN: usize = 8;

/// How long a token is good for, in seconds.
pub const TOKEN_LIFETIME: u64 = 900;

#[derive(Debug)]
pub enum TokenError {
    /// The host, the port and the username do not make a URL.
    Url(url::ParseError),
    /// The path and the query are too long to be signed.
    TooLong,
    Signing(SigningError),
}

/// The request that a token stands for: to connect as this user.
pub open spec fn connect_request(host: Seq<char>, port: u16, username: Seq<char>) -> Seq<char> {
    "https://"@ + host + ":"@ + decimal(port as nat) + "/?Action=connect&DBUser="@ + username
}

/// A URL with more query parameters.
pub open spec fn with_pairs(url: Seq<char>, pairs: Seq<(Seq<char>, Seq<char>)>) -> Seq<char>
    decreases pairs.len(),
{
    if pairs.len() == 0 {
        url
    } else {
        with_pair(with_pairs(url, pairs.drop_last()), pairs.last().0, pairs.last().1)
    }
}

/// How many bytes query parameters take up, at most.
pub open spec fn pairs_size(pairs: Seq<(Seq<char>, Seq<char>)>) -> nat
    decreases pairs.len(),
{
    if pairs.len() == 0 {
        0
    } else {
        pairs_size(pairs.drop_last()) + 2 + 3 * encode_utf8(pairs.last().0).len() + 3 * encode_utf8(
            pairs.last().1,
        ).len()
    }
}

/// What a form carries is ASCII, and at most three characters for a byte.
proof fn lemma_form_bytes(bytes: Seq<u8>)
    ensures
        form_bytes(bytes).len() <= 3 * bytes.len(),
        vstd::utf8::is_ascii_chars(form_bytes(bytes)),
        encode_utf8(form_bytes(bytes)).len() <= 3 * bytes.len(),
    decreases bytes.len(),
{
    if bytes.len() > 0 {
        lemma_form_bytes(bytes.drop_last());
        lemma_form_byte(bytes.last());
    }
    assert(vstd::utf8::is_ascii_chars(form_bytes(bytes))) by {
        if bytes.len() > 0 {
            let head = form_bytes(bytes.drop_last());
            let tail = form_byte(bytes.last());
            assert forall|i: int| 0 <= i < (head + tail).len() implies '\0' <= #[trigger] (head
                + tail)[i] <= '\u{7f}' by {
                if i < head.len() {
                    assert((head + tail)[i] == head[i]);
                } else {
                    assert((head + tail)[i] == tail[i - head.len()]);
                }
            }
        }
    }
    vstd::utf8::is_ascii_chars_encode_utf8(form_bytes(bytes));
}

proof fn lemma_form_byte(byte: u8)
    ensures
        form_byte(byte).len() <= 3,
        vstd::utf8::is_ascii_chars(form_byte(byte)),
{
}

/// A URL is its part up to the fragment and its fragment.
proof fn lemma_fragment_parts(url: Seq<char>)
    ensures
        before_fragment(url) + fragment(url) == url,
{
    url.index_of_first_ensures('#');
    assert(before_fragment(url) + fragment(url) =~= url);
}

/// One more query parameter takes up no more than its share.
proof fn lemma_with_pair_size(url: Seq<char>, name: Seq<char>, value: Seq<char>)
    ensures
        encode_utf8(with_pair(url, name, value)).len() <= encode_utf8(url).len() + 2 + 3
            * encode_utf8(name).len() + 3 * encode_utf8(value).len(),
{
    let head = before_fragment(url);
    let separator = pair_separator(head);
    let key = form_bytes(encode_utf8(name));
    let val = form_bytes(encode_utf8(value));
    lemma_fragment_parts(url);
    lemma_encode_concat(head, fragment(url));
    lemma_form_bytes(encode_utf8(name));
    lemma_form_bytes(encode_utf8(value));
    lemma_short_texts();
    lemma_encode_concat(key, "="@);
    lemma_encode_concat(key + "="@, val);
    lemma_encode_concat(head, separator);
    lemma_encode_concat(head + separator, form_pair(name, value));
    lemma_encode_concat(head + separator + form_pair(name, value), fragment(url));
}

proof fn lemma_short_texts()
    ensures
        encode_utf8("="@).len() == 1,
        encode_utf8("?"@).len() == 1,
        encode_utf8("&"@).len() == 1,
        encode_utf8(Seq::<char>::empty()).len() == 0,
        encode_utf8("https://"@).len() == 8,
        "https://"@.len() == 8,
{
    reveal_strlit("=");
    reveal_strlit("?");
    reveal_strlit("&");
    reveal_strlit("https://");
    vstd::utf8::is_ascii_chars_encode_utf8("="@);
    vstd::utf8::is_ascii_chars_encode_utf8("?"@);
    vstd::utf8::is_ascii_chars_encode_utf8("&"@);
    vstd::utf8::is_ascii_chars_encode_utf8("https://"@);
}

/// An HTTPS URL with one more query parameter is still one.
proof fn lemma_with_pair_https(url: Seq<char>, name: Seq<char>, value: Seq<char>)
    requires
        "https://"@.is_prefix_of(url),
    ensures
        "https://"@.is_prefix_of(with_pair(url, name, value)),
{
    reveal_strlit("https://");
    url.index_of_first_ensures('#');
    let head = before_fragment(url);
    assert(forall|i: int| 0 <= i < 8 ==> url[i] == "https://"@[i]);
    assert(head.len() >= 8);
    assert(with_pair(url, name, value).subrange(0, 8) =~= "https://"@);
}

/// Adds query parameters to an HTTPS URL, and cuts off the scheme: this is the token.
pub fn token_of(url: Url, params: Vec<(String, String)>) -> (token: String)
    requires
        "https://"@.is_prefix_of(url_text(url)),
        encode_utf8(url_text(url)).len() + pairs_size(text_pairs(params@)) <= u32::MAX,
    ensures
        token@ == with_pairs(url_text(url), text_pairs(params@)).skip(8),
{
    let ghost start = url_text(url);
    let ghost pairs = text_pairs(params@);
    let mut url = url;
    let mut i: usize = 0;
    proof {
        assert(pairs.take(0) =~= Seq::<(Seq<char>, Seq<char>)>::empty());
    }
    while i < params.len()
        invariant
            i <= params@.len(),
            pairs == text_pairs(params@),
            url_text(url) == with_pairs(start, pairs.take(i as int)),
            encode_utf8(url_text(url)).len() <= encode_utf8(start).len() + pairs_size(
                pairs.take(i as int),
            ),
            encode_utf8(start).len() + pairs_size(pairs) <= u32::MAX,
            "https://"@.is_prefix_of(url_text(url)),
        decreases params@.len() - i,
    {
        let (name, value) = &params[i];
        proof {
            let next = pairs.take(i + 1);
            assert(next.drop_last() =~= pairs.take(i as int));
            assert(next.last() == (name@, value@));
            lemma_pairs_size_grows(pairs, i + 1);
            lemma_with_pair_size(url_text(url), name@, value@);
            lemma_with_pair_https(url_text(url), name@, value@);
        }
        url_append_pair(&mut url, name.as_str(), value.as_str());
        i = i + 1;
    }
    proof {
        assert(pairs.take(i as int) =~= pairs);
    }
    let text = url_as_str(&url);
    let ghost rest = text@.skip(8);
    proof {
        lemma_short_texts();
        assert(text@ =~= "https://"@ + rest);
        lemma_cut_between("https://"@, rest);
        lemma_encode_concat("https://"@, rest);
    }
    let (_, token) = text.split_at(HTTPS_LEN);
    proof {
        assert(token.spec_bytes() =~= encode_utf8(rest));
        lemma_encode_injective(token@, rest);
    }
    token.to_owned()
}

/// A part of the query parameters takes up no more than all of them.
proof fn lemma_pairs_size_grows(pairs: Seq<(Seq<char>, Seq<char>)>, end: int)
    requires
        0 <= end <= pairs.len(),
    ensures
        pairs_size(pairs.take(end)) <= pairs_size(pairs),
    decreases pairs.len(),
{
    if end < pairs.len() {
        lemma_pairs_size_grows(pairs.drop_last(), end);
        assert(pairs.drop_last().take(end) =~= pairs.take(end));
    } else {
        assert(pairs.take(end) =~= pairs);
    }
}

/// A character takes up at most four bytes.
proof fn lemma_encode_bound(text: Seq<char>)
    ensures
        encode_utf8(text).len() <= 4 * text.len(),
    decreases text.len(),
{
    if text.len() > 0 {
        lemma_encode_bound(text.drop_first());
    }
}

/// The parameters of a signature are not much longer than what goes into them.
proof fn lemma_signature_params_size(
    credentials: CredentialsView,
    region: Seq<char>,
    service: Seq<char>,
    stamp: Seq<char>,
    signature: Seq<char>,
)
    requires
        stamp.len() == 16,
        signature.len() == 64,
    ensures
        pairs_size(
            signature_params(credentials, region, service, TOKEN_LIFETIME, stamp, signature),
        ) <= 3 * (encode_utf8(credentials.access_key_id).len() + encode_utf8(region).len()
            + encode_utf8(service).len() + (match credentials.session_token {
            Some(token) => encode_utf8(token).len(),
            None => 0,
        })) + 4000,
{
    let params = signature_params(credentials, region, service, TOKEN_LIFETIME, stamp, signature);
    let access = credentials.access_key_id;
    reveal_with_fuel(pairs_size, 8);
    reveal_with_fuel(decimal, 4);
    reveal_strlit("X-Amz-Algorithm");
    reveal_strlit("AWS4-HMAC-SHA256");
    reveal_strlit("X-Amz-Credential");
    reveal_strlit("X-Amz-Date");
    reveal_strlit("X-Amz-Expires");
    reveal_strlit("X-Amz-SignedHeaders");
    reveal_strlit("host");
    reveal_strlit("X-Amz-Signature");
    reveal_strlit("X-Amz-Security-Token");
    reveal_strlit("/");
    reveal_strlit("/aws4_request");
    lemma_encode_bound("X-Amz-Algorithm"@);
    lemma_encode_bound("AWS4-HMAC-SHA256"@);
    lemma_encode_bound("X-Amz-Credential"@);
    lemma_encode_bound("X-Amz-Date"@);
    lemma_encode_bound("X-Amz-Expires"@);
    lemma_encode_bound("X-Amz-SignedHeaders"@);
    lemma_encode_bound("host"@);
    lemma_encode_bound("X-Amz-Signature"@);
    lemma_encode_bound("X-Amz-Security-Token"@);
    lemma_encode_bound("/"@);
    lemma_encode_bound("/aws4_request"@);
    lemma_encode_bound(decimal(TOKEN_LIFETIME as nat));
    lemma_encode_bound(stamp);
    lemma_encode_bound(stamp.take(8));
    lemma_encode_bound(signature);
    let with_date = access + "/"@ + stamp.take(8);
    let with_region = with_date + "/"@ + region;
    let with_service = with_region + "/"@ + service;
    lemma_encode_concat(access, "/"@);
    lemma_encode_concat(access + "/"@, stamp.take(8));
    lemma_encode_concat(with_date, "/"@);
    lemma_encode_concat(with_date + "/"@, region);
    lemma_encode_concat(with_region, "/"@);
    lemma_encode_concat(with_region + "/"@, service);
    lemma_encode_concat(with_service, "/aws4_request"@);
    let six = if params.len() == 7 {
        params.drop_last()
    } else {
        params
    };
    assert(six.len() == 6);
    assert(six.drop_last().drop_last().drop_last().drop_last().drop_last().drop_last()
        =~= Seq::<(Seq<char>, Seq<char>)>::empty());
}

/// What comes of asking for a token.
pub enum TokenOutcome {
    Token(Seq<char>),
    /// The request is no URL, and this is why.
    BadUrl(Seq<char>),
    TooLong,
    /// The request is not one that can be signed, and this is why.
    NotSigned(Seq<char>),
}

/// The result of a function that makes a token, with the token as text and with what the outside
/// errors say.
pub open spec fn outcome(result: Result<String, TokenError>) -> TokenOutcome {
    match result {
        Ok(token) => TokenOutcome::Token(token@),
        Err(TokenError::Url(e)) => TokenOutcome::BadUrl(url_error_text(e)),
        Err(TokenError::TooLong) => TokenOutcome::TooLong,
        Err(TokenError::Signing(e)) => TokenOutcome::NotSigned(signing_text(e)),
    }
}

/// The token that logs a user in: the request to connect as a URL in normal form, with the
/// parameters of its signature, and without the scheme.
pub open spec fn rds_token(
    host: Seq<char>,
    port: u16,
    region: Seq<char>,
    username: Seq<char>,
    credentials: CredentialsView,
    now: u64,
) -> TokenOutcome {
    match parsed_url(connect_request(host, port, username)) {
        Err(fault) => TokenOutcome::BadUrl(fault),
        Ok(url) => if let Some(fault) = uri_fault(url) {
            TokenOutcome::NotSigned(fault)
        } else if signed_length(url, credentials, region, "rds-db"@, TOKEN_LIFETIME) > MAX_URI {
            TokenOutcome::TooLong
        } else {
            let (stamp, signature) = presigned(
                credentials.access_key_id,
                credentials.secret_access_key,
                credentials.session_token,
                region,
                "rds-db"@,
                now,
                TOKEN_LIFETIME,
                "GET"@,
                before_fragment(url),
            );
            TokenOutcome::Token(
                with_pairs(
                    url,
                    signature_params(
                        credentials,
                        region,
                        "rds-db"@,
                        TOKEN_LIFETIME,
                        stamp,
                        signature,
                    ),
                ).skip(8),
            )
        },
    }
}

/// Counts the characters that a text takes up in what is signed.
fn coded_len_of(text: &str) -> (length: u128)
    ensures
        length == coded(text@),
        length <= 3 * usize::MAX,
{
    let bytes = text.as_bytes();
    let size: usize = bytes.len();
    let mut length: u128 = 0;
    let mut i: usize = 0;
    while i < size
        invariant
            i <= size == bytes@.len(),
            length == coded_len(bytes@.take(i as int)),
            length <= 3 * i,
        decreases size - i,
    {
        let byte: u8 = bytes[i];
        proof {
            assert(bytes@.take(i + 1).drop_last() =~= bytes@.take(i as int));
        }
        if (0x30 <= byte && byte <= 0x39) || (0x41 <= byte && byte <= 0x5A) || (0x61 <= byte && byte
            <= 0x7A) || byte == 0x2D || byte == 0x2E || byte == 0x5F || byte == 0x7E {
            length = length + 1;
        } else {
            length = length + 3;
        }
        i = i + 1;
    }
    proof {
        assert(bytes@.take(i as int) =~= bytes@);
    }
    length
}

/// Tells whether query parameters take up no more characters than this in what is signed.
fn coded_pairs_fit(pairs: &Vec<(String, String)>, limit: u128) -> (fit: bool)
    requires
        limit <= MAX_URI,
    ensures
        fit <==> coded_pairs(text_pairs(pairs@)) <= limit,
{
    let ghost all = text_pairs(pairs@);
    let mut length: u128 = 0;
    let mut i: usize = 0;
    proof {
        assert(all.take(0) =~= Seq::<(Seq<char>, Seq<char>)>::empty());
    }
    while i < pairs.len()
        invariant
            i <= pairs@.len(),
            all == text_pairs(pairs@),
            length == coded_pairs(all.take(i as int)),
            length <= limit <= MAX_URI,
        decreases pairs@.len() - i,
    {
        let (name, value) = &pairs[i];
        proof {
            let next = all.take(i + 1);
            assert(next.drop_last() =~= all.take(i as int));
            assert(next.last() == (name@, value@));
            lemma_coded_pairs_grow(all, i + 1);
        }
        length = length + 2 + coded_len_of(name.as_str()) + coded_len_of(value.as_str());
        if length > limit {
            return false;
        }
        i = i + 1;
    }
    proof {
        assert(all.take(i as int) =~= all);
    }
    true
}

/// A part of the query parameters takes up no more than all of them.
proof fn lemma_coded_pairs_grow(pairs: Seq<(Seq<char>, Seq<char>)>, end: int)
    requires
        0 <= end <= pairs.len(),
    ensures
        coded_pairs(pairs.take(end)) <= coded_pairs(pairs),
    decreases pairs.len(),
{
    if end < pairs.len() {
        lemma_coded_pairs_grow(pairs.drop_last(), end);
        assert(pairs.drop_last().take(end) =~= pairs.take(end));
    } else {
        assert(pairs.take(end) =~= pairs);
    }
}

/// Bytes take up no fewer characters than there are.
proof fn lemma_coded_len(bytes: Seq<u8>)
    ensures
        bytes.len() <= coded_len(bytes),
    decreases bytes.len(),
{
    if bytes.len() > 0 {
        lemma_coded_len(bytes.drop_last());
    }
}

/// Tells whether the path and the query that a signature would be made of are short enough.
fn is_signable(url: &Url, credentials: &AwsCredentials, region: &str, service: &str) -> (short:
    bool)
    requires
        "https://"@.is_prefix_of(url_text(*url)),
    ensures
        short <==> signed_length(
            url_text(*url),
            credentials@,
            region@,
            service@,
            TOKEN_LIFETIME,
        ) <= MAX_URI,
{
    let limit: u128 = MAX_URI as u128;
    let token: u128 = match &credentials.session_token {
        Some(token) => 22 + coded_len_of(token.as_str()),
        None => 0,
    };
    let scope: u128 = coded_len_of(credentials.access_key_id.as_str()) + 8 + coded_len_of(region)
        + coded_len_of(service) + 12 + 4 * 3;
    let lifetime = decimal_text(TOKEN_LIFETIME);
    let own: u128 = 33 + 18 + scope + 28 + 15 + coded_len_of(lifetime.as_str()) + 25 + token;
    let fixed: u128 = url_path(url).as_bytes().len() as u128 + own;
    fixed <= limit && coded_pairs_fit(&url_query_pairs(url), limit - fixed)
}

/// A URL without its fragment has the same path and the same query, and is an HTTPS URL if the URL
/// is one.
proof fn lemma_without_fragment(url: Seq<char>)
    requires
        "https://"@.is_prefix_of(url),
    ensures
        path_of(before_fragment(url)) == path_of(url),
        query_of(before_fragment(url)) == query_of(url),
        "https://"@.is_prefix_of(before_fragment(url)),
{
    let head = before_fragment(url);
    reveal_strlit("https://");
    url.index_of_first_ensures('#');
    head.index_of_first_ensures('#');
    assert(before_fragment(head) == head) by {
        if head.contains('#') {
            let i = head.index_of('#');
            assert(url[i] == '#');
        }
    }
    assert(forall|i: int| 0 <= i < 8 ==> url[i] == "https://"@[i]);
    assert(head.len() >= 8);
    assert(head.subrange(0, 8) =~= "https://"@);
}

/// Makes the token that logs this user in to RDS: a request to connect, presigned for the `rds-db`
/// service and good for fifteen minutes.
pub fn get_rds_password(
    rds_host: &str,
    port: u16,
    region_name: &str,
    username: &str,
    credentials: &AwsCredentials,
    now: u64,
) -> (password: Result<String, TokenError>)
    requires
        now < END_OF_TIME,
    ensures
        outcome(password) == rds_token(
            rds_host@,
            port,
            region_name@,
            username@,
            credentials@,
            now,
        ),
{
    let mut request = "https://".to_owned();
    request.append(rds_host);
    request.append(":");
    request.append(decimal_text(port as u64).as_str());
    request.append("/?Action=connect&DBUser=");
    request.append(username);
    proof {
        reveal_strlit("https://");
        assert(request@.subrange(0, 8) =~= "https://"@);
    }
    let url = match url_parse(request.as_str()) {
        Ok(url) => url,
        Err(e) => {
            return Err(TokenError::Url(e));
        },
    };
    let request = match signable_request("GET", &url) {
        Ok(request) => request,
        Err(e) => {
            return Err(TokenError::Signing(e));
        },
    };
    if !is_signable(&url, credentials, region_name, "rds-db") {
        return Err(TokenError::TooLong);
    }
    let session_token = match &credentials.session_token {
        Some(token) => Some(token.clone()),
        None => None,
    };
    proof {
        lemma_without_fragment(url_text(url));
    }
    let signed = presign(
        request,
        credentials.access_key_id.as_str(),
        credentials.secret_access_key.as_str(),
        session_token,
        region_name,
        "rds-db",
        now,
        TOKEN_LIFETIME,
    );
    match signed {
        Ok(params) => {
            proof {
                let (stamp, signature) = presigned(
                    credentials@.access_key_id,
                    credentials@.secret_access_key,
                    credentials@.session_token,
                    region_name@,
                    "rds-db"@,
                    now,
                    TOKEN_LIFETIME,
                    "GET"@,
                    before_fragment(url_text(url)),
                );
                lemma_signature_params_size(
                    credentials@,
                    region_name@,
                    "rds-db"@,
                    stamp,
                    signature,
                );
                lemma_coded_len(encode_utf8(credentials@.access_key_id));
                lemma_coded_len(encode_utf8(region_name@));
                lemma_coded_len(encode_utf8("rds-db"@));
                if let Some(token) = credentials@.session_token {
                    lemma_coded_len(encode_utf8(token));
                }
            }
            Ok(token_of(url, params))
        },
        Err(e) => Err(TokenError::Signing(e)),
    }
}

/// Query parameters one behind the other.
pub open spec fn joined(pairs: Seq<(Seq<char>, Seq<char>)>) -> Seq<char>
    decreases pairs.len(),
{
    if pairs.len() == 0 {
        Seq::empty()
    } else {
        joined(pairs.drop_last()) + "&"@ + form_pair(pairs.last().0, pairs.last().1)
    }
}

/// To a URL with a query and without a fragment, parameters are added at the end, in order, and
/// nothing else changes.
pub proof fn law_params_follow_the_url(url: Seq<char>, pairs: Seq<(Seq<char>, Seq<char>)>)
    requires
        !url.contains('#'),
        url.index_of_first('?') matches Some(start) && start < url.len() - 1,
    ensures
        with_pairs(url, pairs) == url + joined(pairs),
    decreases pairs.len(),
{
    if pairs.len() == 0 {
        assert(url + Seq::<char>::empty() =~= url);
    } else {
        let rest = joined(pairs.drop_last());
        let before = url + rest;
        law_params_follow_the_url(url, pairs.drop_last());
        lemma_joined_plain(pairs.drop_last());
        assert(!before.contains('#')) by {
            if before.contains('#') {
                let i = before.index_of('#');
                if i < url.len() {
                    assert(url[i] == '#');
                } else {
                    assert(rest[i - url.len()] == '#');
                }
            }
        }
        before.index_of_first_ensures('#');
        url.index_of_first_ensures('?');
        before.index_of_first_ensures('?');
        let start = url.index_of_first('?')->0;
        assert(before[start] == '?');
        assert(before.contains('?'));
        let found = before.index_of_first('?')->0;
        if found < start {
            assert(url[found] == before[found]);
        }
        assert(found == start);
        let pair = form_pair(pairs.last().0, pairs.last().1);
        assert(before + "&"@ + pair + Seq::<char>::empty() =~= url + (rest + "&"@ + pair));
    }
}

/// What a form carries has no sign that starts a fragment.
proof fn lemma_form_plain(bytes: Seq<u8>)
    ensures
        !form_bytes(bytes).contains('#'),
    decreases bytes.len(),
{
    if bytes.len() > 0 {
        let head = form_bytes(bytes.drop_last());
        let tail = form_byte(bytes.last());
        lemma_form_plain(bytes.drop_last());
        if (head + tail).contains('#') {
            let i = (head + tail).index_of('#');
            if i < head.len() {
                assert(head[i] == '#');
            } else {
                assert(tail[i - head.len()] == '#');
            }
        }
    }
}

proof fn lemma_joined_plain(pairs: Seq<(Seq<char>, Seq<char>)>)
    ensures
        !joined(pairs).contains('#'),
    decreases pairs.len(),
{
    if pairs.len() > 0 {
        let head = joined(pairs.drop_last());
        let key = form_bytes(encode_utf8(pairs.last().0));
        let val = form_bytes(encode_utf8(pairs.last().1));
        let whole = head + "&"@ + (key + "="@ + val);
        lemma_joined_plain(pairs.drop_last());
        lemma_form_plain(encode_utf8(pairs.last().0));
        lemma_form_plain(encode_utf8(pairs.last().1));
        reveal_strlit("&");
        reveal_strlit("=");
        if whole.contains('#') {
            let i = whole.index_of('#');
            if i < head.len() {
                assert(head[i] == '#');
            } else if i > head.len() && i < head.len() + 1 + key.len() {
                assert(key[i - head.len() - 1] == '#');
            } else if i > head.len() + 1 + key.len() {
                assert(val[i - head.len() - 2 - key.len()] == '#');
            }
        }
    }
}

/// A token is a signed URL without its scheme: with the scheme in front it is the URL again.
pub proof fn law_token_is_the_signed_url(url: Seq<char>, pairs: Seq<(Seq<char>, Seq<char>)>)
    requires
        "https://"@.is_prefix_of(url),
    ensures
        "https://"@ + with_pairs(url, pairs).skip(8) == with_pairs(url, pairs),
{
    lemma_with_pairs_https(url, pairs);
    reveal_strlit("https://");
    let signed = with_pairs(url, pairs);
    assert("https://"@ + signed.skip(8) =~= signed);
}

proof fn lemma_with_pairs_https(url: Seq<char>, pairs: Seq<(Seq<char>, Seq<char>)>)
    requires
        "https://"@.is_prefix_of(url),
    ensures
        "https://"@.is_prefix_of(with_pairs(url, pairs)),
    decreases pairs.len(),
{
    if pairs.len() > 0 {
        lemma_with_pairs_https(url, pairs.drop_last());
        lemma_with_pair_https(
            with_pairs(url, pairs.drop_last()),
            pairs.last().0,
            pairs.last().1,
        );
    }
}

/// A signature says what it is for and how long it is good: the scope names the key, the day, the
/// region and the `rds-db` service, and the lifetime is 900 seconds. The session token is passed
/// on exactly where there is one.
pub proof fn law_signature_says_what_for(
    credentials: CredentialsView,
    region: Seq<char>,
    stamp: Seq<char>,
    signature: Seq<char>,
)
    ensures
        ({
            let params = signature_params(
                credentials,
                region,
                "rds-db"@,
                TOKEN_LIFETIME,
                stamp,
                signature,
            );
            &&& params[1] == (
                "X-Amz-Credential"@,
                credentials.access_key_id + "/"@ + stamp.take(8) + "/"@ + region + "/"@ + "rds-db"@
                    + "/aws4_request"@,
            )
            &&& params[3] == ("X-Amz-Expires"@, "900"@)
            &&& params.len() == 7 <==> credentials.session_token is Some
            &&& credentials.session_token matches Some(token) ==> params[6] == (
                "X-Amz-Security-Token"@,
                token,
            )
            &&& credentials.session_token is None ==> params.len() == 6
        }),
{
    reveal_with_fuel(decimal, 4);
    reveal_strlit("900");
    assert(decimal(900) =~= "900"@);
}

// ---------------------------------------------------------------------------
// What holds of every token
// ---------------------------------------------------------------------------

/// What the request to connect names: between the scheme and the path stand the host, a colon and
/// the digits of the port, and the username stands at the end. Requests for another port of the
/// same host, or for another user of the same database, are other requests.
pub proof fn law_request_names_host_port_and_user(
    host: Seq<char>,
    port: u16,
    username: Seq<char>,
    other_port: u16,
    other_username: Seq<char>,
)
    ensures
        ({
            let request = connect_request(host, port, username);
            let digits = request.len() - 9 - host.len() - 24 - username.len();
            &&& request.take(8) == "https://"@
            &&& request.subrange(8, 8 + host.len() as int) == host
            &&& request[8 + host.len() as int] == ':'
            &&& digits > 0
            &&& digits_value(
                request.subrange(9 + host.len() as int, 9 + host.len() as int + digits),
            ) == port
            &&& request.skip(9 + host.len() as int + digits) == "/?Action=connect&DBUser="@
                + username
        }),
        port != other_port ==> connect_request(host, port, username) != connect_request(
            host,
            other_port,
            username,
        ),
        username != other_username ==> connect_request(host, port, username) != connect_request(
            host,
            port,
            other_username,
        ),
{
    lemma_request_parts(host, port, username);
    lemma_request_parts(host, other_port, username);
    lemma_request_parts(host, port, other_username);
    law_decimal_reads_back(port as nat);
    law_decimal_reads_back(other_port as nat);
    reveal_strlit("/?Action=connect&DBUser=");
    if connect_request(host, port, username) == connect_request(host, port, other_username) {
        let path = "/?Action=connect&DBUser="@;
        assert((path + username).skip(24) =~= username);
        assert((path + other_username).skip(24) =~= other_username);
    }
}

/// The parts of a request to connect.
proof fn lemma_request_parts(host: Seq<char>, port: u16, username: Seq<char>)
    ensures
        ({
            let request = connect_request(host, port, username);
            let digits = decimal(port as nat);
            let at = 9 + host.len() as int;
            &&& request.len() == at + digits.len() + 24 + username.len()
            &&& request.take(8) == "https://"@
            &&& request.subrange(8, 8 + host.len() as int) == host
            &&& request[8 + host.len() as int] == ':'
            &&& request.subrange(at, at + digits.len() as int) == digits
            &&& request.skip(at + digits.len() as int) == "/?Action=connect&DBUser="@ + username
        }),
{
    let request = connect_request(host, port, username);
    let digits = decimal(port as nat);
    let at = 9 + host.len() as int;
    reveal_strlit("https://");
    reveal_strlit(":");
    reveal_strlit("/?Action=connect&DBUser=");
    assert(request.take(8) =~= "https://"@);
    assert(request.subrange(8, 8 + host.len() as int) =~= host);
    assert(request.subrange(at, at + digits.len() as int) =~= digits);
    assert(request.skip(at + digits.len() as int) =~= "/?Action=connect&DBUser="@ + username);
}

/// What comes of asking for a token. The request to connect, in the normal form of a URL, is signed
/// as a GET without its fragment, for `rds-db` in the given region, for the given second and good
/// for 900 seconds; the token is the URL with the parameters of the signature behind it, from the
/// host on. A request that is no URL, one that HTTP does not take, and one whose path and query
/// would be longer than 65,534 bytes get no token.
pub proof fn law_token_is_a_signed_request(
    host: Seq<char>,
    port: u16,
    region: Seq<char>,
    username: Seq<char>,
    credentials: CredentialsView,
    now: u64,
)
    ensures
        ({
            let request = "https://"@ + host + ":"@ + decimal(port as nat)
                + "/?Action=connect&DBUser="@ + username;
            let got = rds_token(host, port, region, username, credentials, now);
            match parsed_url(request) {
                Err(fault) => got == TokenOutcome::BadUrl(fault),
                Ok(url) => match uri_fault(url) {
                    Some(fault) => got == TokenOutcome::NotSigned(fault),
                    None => if signed_length(url, credentials, region, "rds-db"@, 900) > 65_534 {
                        got is TooLong
                    } else {
                        let signed = presigned(
                            credentials.access_key_id,
                            credentials.secret_access_key,
                            credentials.session_token,
                            region,
                            "rds-db"@,
                            now,
                            900,
                            "GET"@,
                            before_fragment(url),
                        );
                        &&& got matches TokenOutcome::Token(token)
                        &&& token == with_pairs(
                            url,
                            signature_params(
                                credentials,
                                region,
                                "rds-db"@,
                                900,
                                signed.0,
                                signed.1,
                            ),
                        ).skip(8)
                    },
                },
            }
        }),
{
}

/// The result of asking for a token says what came of it: the token itself, or which of three
/// things went wrong, with what was said of it.
pub proof fn law_outcome_tells_results_apart(result: Result<String, TokenError>)
    ensures
        match result {
            Ok(token) => outcome(result) == TokenOutcome::Token(token@),
            Err(TokenError::Url(e)) => outcome(result) == TokenOutcome::BadUrl(url_error_text(e)),
            Err(TokenError::TooLong) => outcome(result) is TooLong,
            Err(TokenError::Signing(e)) => outcome(result) == TokenOutcome::NotSigned(
                signing_text(e),
            ),
        },
{
}

/// What is signed with: the key, the secret and the session token that were given.
pub proof fn law_credentials_are_kept(credentials: AwsCredentials)
    ensures
        credentials@.access_key_id == credentials.access_key_id@,
        credentials@.secret_access_key == credentials.secret_access_key@,
        match credentials.session_token {
            Some(token) => credentials@.session_token == Some(token@),
            None => credentials@.session_token is None,
        },
{
}

/// Query parameters are added one behind the other.
pub proof fn law_params_one_by_one(
    url: Seq<char>,
    pairs: Seq<(Seq<char>, Seq<char>)>,
    name: Seq<char>,
    value: Seq<char>,
)
    ensures
        with_pairs(url, Seq::empty()) == url,
        with_pairs(url, pairs.push((name, value))) == with_pair(
            with_pairs(url, pairs),
            name,
            value,
        ),
{
    assert(pairs.push((name, value)).drop_last() =~= pairs);
}

/// How much of what is signed a text takes up: the parts of a text take up what the text does, and
/// a single byte takes up one character if it is a letter, a digit or one of `-._~`, and three if
/// it is anything else.
pub proof fn law_coded_length(a: Seq<char>, b: Seq<char>, byte: u8)
    ensures
        coded(a) == coded_len(encode_utf8(a)),
        forall|bytes: Seq<u8>| #[trigger]
            coded_len(bytes.push(byte)) == coded_len(bytes) + coded_len(seq![byte]),
        coded(a + b) == coded(a) + coded(b),
        coded(Seq::empty()) == 0,
        coded_len(seq![byte]) == (if (0x30 <= byte <= 0x39) || (0x41 <= byte <= 0x5A) || (0x61
            <= byte <= 0x7A) || byte == 0x2D || byte == 0x2E || byte == 0x5F || byte == 0x7E {
            1nat
        } else {
            3nat
        }),
{
    lemma_encode_concat(a, b);
    lemma_coded_len_concat(encode_utf8(a), encode_utf8(b));
    lemma_short_texts();
    reveal_with_fuel(coded_len, 2);
    assert(seq![byte].drop_last() =~= Seq::<u8>::empty());
    assert forall|bytes: Seq<u8>| #[trigger]
        coded_len(bytes.push(byte)) == coded_len(bytes) + coded_len(seq![byte]) by {
        assert(bytes.push(byte).drop_last() =~= bytes);
    }
}

proof fn lemma_coded_len_concat(a: Seq<u8>, b: Seq<u8>)
    ensures
        coded_len(a + b) == coded_len(a) + coded_len(b),
    decreases b.len(),
{
    if b.len() == 0 {
        assert(a + b =~= a);
    } else {
        lemma_coded_len_concat(a, b.drop_last());
        assert((a + b).drop_last() =~= a + b.drop_last());
    }
}

/// Whether a text is all letters, digits and `-._~`.
pub open spec fn is_plain(text: Seq<char>) -> bool {
    forall|i: int|
        0 <= i < text.len() ==> '\0' <= #[trigger] text[i] <= '\u{7f}' && is_unreserved(
            text[i] as u8,
        )
}

/// A text of letters, digits and `-._~` takes up what it is long.
proof fn lemma_coded_plain(text: Seq<char>)
    requires
        is_plain(text),
    ensures
        coded(text) == text.len(),
{
    assert(vstd::utf8::is_ascii_chars(text));
    vstd::utf8::is_ascii_chars_encode_utf8(text);
    let bytes = encode_utf8(text);
    assert forall|i: int| 0 <= i < bytes.len() implies is_unreserved(#[trigger] bytes[i]) by {
        assert(text[i] as u8 == bytes[i]);
    }
    lemma_coded_len_plain(bytes);
}

proof fn lemma_coded_len_plain(bytes: Seq<u8>)
    requires
        forall|i: int| 0 <= i < bytes.len() ==> is_unreserved(#[trigger] bytes[i]),
    ensures
        coded_len(bytes) == bytes.len(),
    decreases bytes.len(),
{
    if bytes.len() > 0 {
        lemma_coded_len_plain(bytes.drop_last());
    }
}

/// What is counted before a request is signed is what is signed: the parameters of the signature
/// take up what was counted for them, and the signature itself comes on top.
pub proof fn law_count_is_of_what_is_signed(
    credentials: CredentialsView,
    region: Seq<char>,
    service: Seq<char>,
    expires_in: u64,
    stamp: Seq<char>,
    signature: Seq<char>,
)
    requires
        stamp.len() == 16,
        is_plain(stamp),
    ensures
        coded_pairs(
            signature_params(credentials, region, service, expires_in, stamp, signature),
        ) == coded_signature_params(credentials, region, service, expires_in) + 2 + coded(
            "X-Amz-Signature"@,
        ) + coded(signature),
{
    let params = signature_params(credentials, region, service, expires_in, stamp, signature);
    let scope = credentials.access_key_id + "/"@ + stamp.take(8) + "/"@ + region + "/"@ + service
        + "/aws4_request"@;
    lemma_coded_names();
    lemma_coded_plain(stamp);
    lemma_coded_scope(credentials.access_key_id, stamp.take(8), region, service);
    let six = if credentials.session_token is Some {
        params.drop_last()
    } else {
        params
    };
    assert(six.len() == 6);
    let five = six.drop_last();
    let four = five.drop_last();
    let three = four.drop_last();
    let two = three.drop_last();
    let one = two.drop_last();
    assert(one.drop_last() =~= Seq::<(Seq<char>, Seq<char>)>::empty());
    assert(one.last() == ("X-Amz-Algorithm"@, "AWS4-HMAC-SHA256"@));
    assert(two.last() == ("X-Amz-Credential"@, scope));
    assert(three.last() == ("X-Amz-Date"@, stamp));
    assert(four.last() == ("X-Amz-Expires"@, decimal(expires_in as nat)));
    assert(five.last() == ("X-Amz-SignedHeaders"@, "host"@));
    assert(six.last() == ("X-Amz-Signature"@, signature));
    reveal_with_fuel(coded_pairs, 2);
    assert(coded_pairs(one) == 33);
    assert(coded_pairs(two) == 33 + 18 + coded(scope));
    assert(coded_pairs(three) == 33 + 18 + coded(scope) + 28);
    let lifetime = coded(decimal(expires_in as nat));
    assert(coded_pairs(four) == 33 + 18 + coded(scope) + 28 + 15 + lifetime);
    assert(coded_pairs(five) == 33 + 18 + coded(scope) + 28 + 15 + lifetime + 25);
    assert(coded_pairs(six) == coded_pairs(five) + 2 + coded("X-Amz-Signature"@) + coded(
        signature,
    ));
    if let Some(token) = credentials.session_token {
        assert(params.last() == ("X-Amz-Security-Token"@, token));
        assert(coded_pairs(params) == coded_pairs(six) + 22 + coded(token));
    }
}

/// What the names of the parameters take up.
proof fn lemma_coded_names()
    ensures
        coded("X-Amz-Algorithm"@) == 15,
        coded("AWS4-HMAC-SHA256"@) == 16,
        coded("X-Amz-Credential"@) == 16,
        coded("X-Amz-Date"@) == 10,
        coded("X-Amz-Expires"@) == 13,
        coded("X-Amz-SignedHeaders"@) == 19,
        coded("host"@) == 4,
        coded("X-Amz-Security-Token"@) == 20,
{
    reveal_strlit("X-Amz-Algorithm");
    reveal_strlit("AWS4-HMAC-SHA256");
    reveal_strlit("X-Amz-Credential");
    reveal_strlit("X-Amz-Date");
    reveal_strlit("X-Amz-Expires");
    reveal_strlit("X-Amz-SignedHeaders");
    reveal_strlit("host");
    reveal_strlit("X-Amz-Security-Token");
    lemma_coded_plain("X-Amz-Algorithm"@);
    lemma_coded_plain("AWS4-HMAC-SHA256"@);
    lemma_coded_plain("X-Amz-Credential"@);
    lemma_coded_plain("X-Amz-Date"@);
    lemma_coded_plain("X-Amz-Expires"@);
    lemma_coded_plain("X-Amz-SignedHeaders"@);
    lemma_coded_plain("host"@);
    lemma_coded_plain("X-Amz-Security-Token"@);
}

/// What a scope takes up.
proof fn lemma_coded_scope(
    access_key_id: Seq<char>,
    date: Seq<char>,
    region: Seq<char>,
    service: Seq<char>,
)
    requires
        date.len() == 8,
        is_plain(date),
    ensures
        coded(
            access_key_id + "/"@ + date + "/"@ + region + "/"@ + service + "/aws4_request"@,
        ) == coded(access_key_id) + 8 + coded(region) + coded(service) + 12 + 4 * 3,
{
    let slash = "/"@;
    let word = "aws4_request"@;
    reveal_strlit("/");
    reveal_strlit("aws4_request");
    reveal_strlit("/aws4_request");
    assert(coded(slash) == 3) by {
        vstd::utf8::is_ascii_chars_encode_utf8(slash);
        assert(encode_utf8(slash) =~= seq![0x2Fu8]);
        law_coded_length(slash, slash, 0x2F);
    }
    lemma_coded_plain(word);
    lemma_coded_plain(date);
    assert("/aws4_request"@ =~= slash + word);
    law_coded_length(slash, word, 0);
    let one = access_key_id + slash;
    let two = one + date;
    let three = two + slash;
    let four = three + region;
    let five = four + slash;
    let six = five + service;
    law_coded_length(access_key_id, slash, 0);
    law_coded_length(one, date, 0);
    law_coded_length(two, slash, 0);
    law_coded_length(three, region, 0);
    law_coded_length(four, slash, 0);
    law_coded_length(five, service, 0);
    law_coded_length(six, "/aws4_request"@, 0);
}

/// What is counted in all: the path as it is, the parameters of the URL's own query, and those of
/// the signature; of parameters each takes up its name, its value and two signs.
pub proof fn law_count_in_all(
    url: Seq<char>,
    credentials: CredentialsView,
    region: Seq<char>,
    service: Seq<char>,
    expires_in: u64,
    pairs: Seq<(Seq<char>, Seq<char>)>,
    name: Seq<char>,
    value: Seq<char>,
)
    ensures
        signed_length(url, credentials, region, service, expires_in) == encode_utf8(
            path_of(url),
        ).len() + coded_pairs(form_pairs(query_of(url))) + coded_signature_params(
            credentials,
            region,
            service,
            expires_in,
        ),
        coded_pairs(Seq::empty()) == 0,
        coded_pairs(pairs.push((name, value))) == coded_pairs(pairs) + 2 + coded(name) + coded(
            value,
        ),
{
    assert(pairs.push((name, value)).drop_last() =~= pairs);
}

} // verus!
