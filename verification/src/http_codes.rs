//! Response encoding: the status-line bases of the three responses the
//! server emits, gzip compression of the body, and the assembly of the
//! full response head with its `Content-Length`.

use vstd::prelude::*;
use vstd::string::*;
use vstd::utf8::encode_utf8;

verus! {

/// The static part of a 400 Bad Request response.  No `Content-Type` is
/// declared: that header belongs to 200 responses alone.
pub const BAD_REQUEST: &'static str = "HTTP/1.1 400 Bad Request\nServer: Anes HTTP\nContent-Encoding: gzip\nConnection: close\n";

/// The static part of a 404 Not Found response.  No `Content-Type` is
/// declared: that header belongs to 200 responses alone.
pub const NOT_FOUND: &'static str = "HTTP/1.1 404 Not Found\nServer: Anes HTTP\nContent-Encoding: gzip\nConnection: close\n";

/// The static part of a 200 OK response.  The `Content-Type` header is
/// not part of it: the negotiated media type is appended when the
/// response is built, so a 200 head carries exactly one such field.
pub const OK: &'static str = "HTTP/1.1 200 OK\nServer: Anes HTTP\nContent-Encoding: gzip\nConnection: Keep-Alive\n";

/// A complete response: the head, closed by an empty line, and the
/// gzip-compressed body that follows it on the wire.
pub struct HttpResponse {
    pub head: String,
    pub body: Vec<u8>,
}

/// The gzip stream that compressing a byte sequence yields.
pub uninterp spec fn gzip_of(data: Seq<u8>) -> Seq<u8>;

/// Relies on flate2's `write::GzEncoder` at the default compression
/// level: the default stream header carries no timestamp and a fixed
/// operating-system tag, so the stream is a function of the input bytes
/// alone.  Writing into an in-memory buffer does not fail.
#[verifier::external_body]
pub(crate) fn compress(data: &[u8]) -> (r: Vec<u8>)
    ensures
        r@ == gzip_of(data@),
{
    let mut encoder = flate2::write::GzEncoder::new(Vec::new(), flate2::Compression::default());
    std::io::Write::write_all(&mut encoder, data).expect("Failed to write data to gzip encoder");
    encoder.finish().expect("Failed to compress data")
}

/// Relies on flate2's `read::GzDecoder`: decoding a gzip stream recovers
/// exactly the bytes that were compressed into it.
#[verifier::external_body]
fn decompress(data: &[u8]) -> (r: Option<Vec<u8>>)
    ensures
        r matches Some(v) ==> forall|b: Seq<u8>| data@ == gzip_of(b) ==> v@ == b,
        r is None ==> forall|b: Seq<u8>| data@ != gzip_of(b),
{
    let mut decoder = flate2::read::GzDecoder::new(data);
    let mut out = Vec::new();
    match std::io::Read::read_to_end(&mut decoder, &mut out) {
        Ok(_) => Some(out),
        Err(_) => None,
    }
}

/// Recovers the bytes that a gzip stream was compressed from: for every
/// body, decompressing `compress(body)` yields the body again, including
/// the empty one.
pub fn decompress_body(data: &Vec<u8>) -> (r: Option<Vec<u8>>)
    ensures
        forall|b: Seq<u8>| data@ == gzip_of(b) ==> (r matches Some(v) && v@ == b),
{
    let r = decompress(data.as_slice());
    proof {
        assert forall|b: Seq<u8>| data@ == gzip_of(b) implies (r matches Some(v) && v@ == b) by {
            if r is None {
                assert(data@ != gzip_of(b));
            }
        }
    }
    r
}

pub open spec fn digit_char(d: int) -> char {
    if d == 0 {
        '0'
    } else if d == 1 {
        '1'
    } else if d == 2 {
        '2'
    } else if d == 3 {
        '3'
    } else if d == 4 {
        '4'
    } else if d == 5 {
        '5'
    } else if d == 6 {
        '6'
    } else if d == 7 {
        '7'
    } else if d == 8 {
        '8'
    } else {
        '9'
    }
}

/// The decimal rendering of a non-negative number, most significant digit
/// first, without leading zeros.
pub open spec fn spec_digits(n: int) -> Seq<char>
    decreases n,
{
    if n < 10 {
        seq![digit_char(n)]
    } else {
        spec_digits(n / 10) + seq![digit_char(n % 10)]
    }
}

fn digit_str(d: u64) -> (r: &'static str)
    requires
        d < 10,
    ensures
        r@ == seq![digit_char(d as int)],
{
    proof {
        reveal_strlit("0");
        reveal_strlit("1");
        reveal_strlit("2");
        reveal_strlit("3");
        reveal_strlit("4");
        reveal_strlit("5");
        reveal_strlit("6");
        reveal_strlit("7");
        reveal_strlit("8");
        reveal_strlit("9");
    }
    let r = if d == 0 {
        "0"
    } else if d == 1 {
        "1"
    } else if d == 2 {
        "2"
    } else if d == 3 {
        "3"
    } else if d == 4 {
        "4"
    } else if d == 5 {
        "5"
    } else if d == 6 {
        "6"
    } else if d == 7 {
        "7"
    } else if d == 8 {
        "8"
    } else {
        "9"
    };
    assert(r@ =~= seq![digit_char(d as int)]);
    r
}

/// Renders a number in decimal, as `spec_digits` describes.
pub fn dec_string(n: u64) -> (r: String)
    ensures
        r@ == spec_digits(n as int),
    decreases n,
{
    let d = n % 10;
    let rest = n / 10;
    let ds = digit_str(d);
    if rest == 0 {
        ds.to_owned()
    } else {
        let mut s = dec_string(rest);
        s.append(ds);
        s
    }
}

/// The head of a 200 OK response for a body and a media type.
pub open spec fn spec_ok_head(data: Seq<u8>, mime: Seq<char>) -> Seq<char> {
    OK@ + "Content-Length: "@ + spec_digits(gzip_of(data).len() as int) + "\r\nContent-Type: "@
        + mime + "\r\n\r\n"@
}

/// Builds the 200 OK response for a file's bytes: the body is the
/// gzip-compressed content, and the head reports the compressed length
/// and the negotiated media type.
pub fn ok(data: &Vec<u8>, mime_type: &str) -> (r: HttpResponse)
    ensures
        r.body@ == gzip_of(data@),
        r.head@ == spec_ok_head(data@, mime_type@),
{
    let compressed = compress(data.as_slice());
    let mut response = OK.to_owned();
    response.append("Content-Length: ");
    let len_str = dec_string(compressed.len() as u64);
    response.append(len_str.as_str());
    response.append("\r\nContent-Type: ");
    response.append(mime_type);
    response.append("\r\n\r\n");
    HttpResponse { head: response, body: compressed }
}

/// The body an error response serves: the override page when the site
/// provides one, else the built-in text.
pub open spec fn spec_chosen_body(override_html: Option<Seq<char>>, default_html: Seq<char>) -> Seq<
    char,
> {
    match override_html {
        Some(h) => h,
        None => default_html,
    }
}

/// The head of an error response for a base and a chosen body.
pub open spec fn spec_err_head(base: Seq<char>, body: Seq<char>) -> Seq<char> {
    base + "Content-Length: "@ + spec_digits(gzip_of(encode_utf8(body)).len() as int) + "\r\n\r\n"@
}

/// Builds an error response from its status-line base: the chosen body
/// (override page if present, else the built-in text) is gzip-compressed
/// and the head reports the compressed length.
pub fn err_handler(response_base: &str, default_html: &str, override_html: Option<String>) -> (r:
    HttpResponse)
    ensures
        r.body@ == gzip_of(
            encode_utf8(spec_chosen_body(override_html.deep_view(), default_html@)),
        ),
        r.head@ == spec_err_head(
            response_base@,
            spec_chosen_body(override_html.deep_view(), default_html@),
        ),
{
    let html_content: String = match override_html {
        Some(h) => h,
        None => default_html.to_owned(),
    };
    let compressed = compress(html_content.as_str().as_bytes());
    let mut response = response_base.to_owned();
    response.append("Content-Length: ");
    let len_str = dec_string(compressed.len() as u64);
    response.append(len_str.as_str());
    response.append("\r\n\r\n");
    HttpResponse { head: response, body: compressed }
}

/// Builds the 400 Bad Request response; a site-provided override page
/// replaces the built-in text.
pub fn bad_request(override_html: Option<String>) -> (r: HttpResponse)
    ensures
        r.body@ == gzip_of(
            encode_utf8(spec_chosen_body(override_html.deep_view(), "400 - Bad Request"@)),
        ),
        r.head@ == spec_err_head(
            BAD_REQUEST@,
            spec_chosen_body(override_html.deep_view(), "400 - Bad Request"@),
        ),
{
    err_handler(BAD_REQUEST, "400 - Bad Request", override_html)
}

/// Builds the 404 Not Found response; a site-provided override page
/// replaces the built-in text.
pub fn not_found(override_html: Option<String>) -> (r: HttpResponse)
    ensures
        r.body@ == gzip_of(
            encode_utf8(spec_chosen_body(override_html.deep_view(), "404 - Not Found"@)),
        ),
        r.head@ == spec_err_head(
            NOT_FOUND@,
            spec_chosen_body(override_html.deep_view(), "404 - Not Found"@),
        ),
{
    err_handler(NOT_FOUND, "404 - Not Found", override_html)
}

} // verus!
