//! URL and percent-encoding primitives: the calls into `url` and
//! `percent-encoding`, and UTF-8 percent-encoding written out.

use vstd::prelude::*;
use vstd::string::*;
use vstd::utf8::{decode_utf8, encode_utf8, is_ascii_chars, valid_utf8};

use crate::text::{char_from_ascii, chars_of, string_of};

verus! {

/// What the link parsers read off a parsed URL.
pub struct UrlParts {
    pub scheme: String,
    pub username: String,
    pub host: Option<String>,
    pub port: Option<u16>,
    pub query: Option<String>,
    pub fragment: Option<String>,
}

pub struct UrlView {
    pub scheme: Seq<char>,
    pub username: Seq<char>,
    pub host: Option<Seq<char>>,
    pub port: Option<u16>,
    pub query: Option<Seq<char>>,
    pub fragment: Option<Seq<char>>,
}

pub open spec fn opt_text(o: Option<String>) -> Option<Seq<char>> {
    match o {
        Some(s) => Some(s@),
        None => None,
    }
}

impl View for UrlParts {
    type V = UrlView;

    open spec fn view(&self) -> UrlView {
        UrlView {
            scheme: self.scheme@,
            username: self.username@,
            host: opt_text(self.host),
            port: self.port,
            query: opt_text(self.query),
            fragment: opt_text(self.fragment),
        }
    }
}

/// What `url::Url::parse` makes of a text: the components above, or the
/// parse error's message.
pub uninterp spec fn url_parse(input: Seq<char>) -> Result<UrlView, Seq<char>>;

pub open spec fn url_outcome(r: Result<UrlParts, String>) -> Result<UrlView, Seq<char>> {
    match r {
        Ok(p) => Ok(p@),
        Err(e) => Err(e@),
    }
}

/// Calls `url::Url::parse` and reads `scheme`, `username`, `host_str`,
/// `port`, `query` and `fragment` off the result (or the error's text).
/// The contract claims only that the outcome is `url_parse` of the input.
#[verifier::external_body]
pub(crate) fn parse_url(input: &str) -> (r: Result<UrlParts, String>)
    ensures
        url_outcome(r) == url_parse(input@),
{
    match url::Url::parse(input) {
        Ok(u) => Ok(UrlParts {
            scheme: u.scheme().to_string(),
            username: u.username().to_string(),
            host: u.host_str().map(|h| h.to_string()),
            port: u.port(),
            query: u.query().map(|q| q.to_string()),
            fragment: u.fragment().map(|f| f.to_string()),
        }),
        Err(e) => Err(e.to_string()),
    }
}

/// `+` read as a space, as form encoding writes one.
pub open spec fn plus_to_space(s: Seq<char>) -> Seq<char> {
    s.map_values(|c: char| if c == '+' { ' ' } else { c })
}

/// A decoded form field: `+` as space, then percent escapes decoded lossily.
pub open spec fn form_field(s: Seq<char>) -> Seq<char> {
    percent_decoded(plus_to_space(s))
}

/// One `name=value` piece, split at its first `=`; a piece without `=` is
/// a name with an empty value.
pub open spec fn form_pair(piece: Seq<char>) -> (Seq<char>, Seq<char>) {
    match crate::text::split_once(piece, '=') {
        Some((k, v)) => (form_field(k), form_field(v)),
        None => (form_field(piece), form_field(Seq::empty())),
    }
}

/// The pairs of the non-empty pieces, in order.
pub open spec fn form_pieces(pieces: Seq<Seq<char>>) -> Seq<(Seq<char>, Seq<char>)>
    decreases pieces.len(),
{
    if pieces.len() == 0 {
        Seq::empty()
    } else {
        let r = form_pieces(pieces.drop_last());
        if pieces.last().len() == 0 {
            r
        } else {
            r.push(form_pair(pieces.last()))
        }
    }
}

/// The `(key, value)` pairs that `url::form_urlencoded::parse` decodes from
/// a query: the query split at every `&`, empty pieces skipped, each piece
/// read by `form_pair`.
pub open spec fn form_pairs(query: Seq<char>) -> Seq<(Seq<char>, Seq<char>)> {
    form_pieces(crate::text::split_char(query, '&'))
}

pub open spec fn pair_texts(v: Seq<(String, String)>) -> Seq<(Seq<char>, Seq<char>)> {
    v.map_values(|p: (String, String)| (p.0@, p.1@))
}

/// Calls `url::form_urlencoded::parse` on the query's bytes and collects
/// the decoded pairs, which are `form_pairs` of the query (its source splits
/// the bytes at `&` and `=`, skips empty pieces, turns `+` into a space and
/// percent-decodes lossily, as `percent_decode_lossy` does).
#[verifier::external_body]
pub(crate) fn parse_form_pairs(query: &str) -> (r: Vec<(String, String)>)
    ensures
        pair_texts(r@) == form_pairs(query@),
{
    url::form_urlencoded::parse(query.as_bytes()).map(|(k, v)| (k.into_owned(), v.into_owned())).collect()
}

/// The value of a hexadecimal digit byte (either case).
pub open spec fn hex_value(b: u8) -> Option<u8> {
    if 0x30 <= b && b <= 0x39 {
        Some((b - 0x30) as u8)
    } else if 0x41 <= b && b <= 0x46 {
        Some((b - 0x37) as u8)
    } else if 0x61 <= b && b <= 0x66 {
        Some((b - 0x57) as u8)
    } else {
        None
    }
}

/// `percent_decode` on bytes: each `%` followed by two hex digits becomes
/// the byte they spell; every other byte stays.
pub open spec fn percent_decoded_bytes(b: Seq<u8>) -> Seq<u8>
    decreases b.len(),
{
    if b.len() == 0 {
        Seq::empty()
    } else if b[0] == 0x25 && b.len() >= 3 && hex_value(b[1]) is Some && hex_value(b[2]) is Some {
        seq![(hex_value(b[1])->0 * 16 + hex_value(b[2])->0) as u8] + percent_decoded_bytes(
            b.skip(3),
        )
    } else {
        seq![b[0]] + percent_decoded_bytes(b.skip(1))
    }
}

/// `percent_decode_str(s).decode_utf8_lossy()`: the text's UTF-8 bytes
/// percent-decoded once, read back with invalid sequences replaced by
/// U+FFFD (`String::from_utf8_lossy`).
pub open spec fn percent_decoded(s: Seq<char>) -> Seq<char> {
    crate::subscription::utf8_lossy(percent_decoded_bytes(encode_utf8(s)))
}

/// Calls `percent_encoding::percent_decode_str(s).decode_utf8_lossy()`,
/// which is `percent_decoded(s)`: decoded bytes that are valid UTF-8 come
/// back as the text they encode, and invalid sequences are replaced as
/// `String::from_utf8_lossy` replaces them.
#[verifier::external_body]
pub(crate) fn percent_decode_lossy(s: &str) -> (r: String)
    ensures
        r@ == percent_decoded(s@),
{
    percent_encoding::percent_decode_str(s).decode_utf8_lossy().into_owned()
}

/// `percent_decode_str(s).decode_utf8()`: the text's UTF-8 bytes
/// percent-decoded once, read back as UTF-8; `None` when they are not UTF-8.
pub open spec fn percent_decoded_strict(s: Seq<char>) -> Option<Seq<char>> {
    let b = percent_decoded_bytes(encode_utf8(s));
    if valid_utf8(b) {
        Some(decode_utf8(b))
    } else {
        None
    }
}

/// Calls `percent_encoding::percent_decode_str(s).decode_utf8()`, whose
/// outcome is `percent_decoded_strict(s)`.
#[verifier::external_body]
pub(crate) fn percent_decode_utf8(s: &str) -> (r: Option<String>)
    ensures
        opt_text(r) == percent_decoded_strict(s@),
{
    percent_encoding::percent_decode_str(s).decode_utf8().ok().map(|c| c.into_owned())
}

/// Whether `s` parses as an IPv4 or IPv6 address (`IpAddr::from_str`).
pub uninterp spec fn is_ip_address(s: Seq<char>) -> bool;

/// Calls `core::net::IpAddr::from_str`; the contract claims only that the
/// answer is `is_ip_address(s)`.
#[verifier::external_body]
pub(crate) fn parses_as_ip(s: &str) -> (r: bool)
    ensures
        r == is_ip_address(s@),
{
    s.parse::<core::net::IpAddr>().is_ok()
}

/// `percent_decode_str(s).decode_utf8_lossy()` on characters.
pub fn dec(s: &[char]) -> (r: Vec<char>)
    ensures
        r@ == percent_decoded(s@),
{
    let st = string_of(s);
    let d = percent_decode_lossy(st.as_str());
    chars_of(d.as_str())
}

// ---------------------------------------------------------------------------
// Percent-encoding with the NON_ALPHANUMERIC set
// ---------------------------------------------------------------------------

pub open spec fn is_alnum_byte(b: u8) -> bool {
    (0x30 <= b && b <= 0x39) || (0x41 <= b && b <= 0x5a) || (0x61 <= b && b <= 0x7a)
}

pub open spec fn hex_upper(d: u8) -> char {
    if d < 10 {
        ((d as u32) + 0x30) as char
    } else {
        ((d as u32) + 0x37) as char
    }
}

/// One byte as `utf8_percent_encode(_, NON_ALPHANUMERIC)` writes it.
pub open spec fn pct_byte(b: u8) -> Seq<char> {
    if is_alnum_byte(b) {
        seq![b as char]
    } else {
        seq!['%', hex_upper(b / 16), hex_upper(b % 16)]
    }
}

pub open spec fn pct_bytes(bs: Seq<u8>) -> Seq<char>
    decreases bs.len(),
{
    if bs.len() == 0 {
        Seq::empty()
    } else {
        pct_bytes(bs.drop_last()) + pct_byte(bs.last())
    }
}

/// `utf8_percent_encode(s, NON_ALPHANUMERIC).to_string()`: every UTF-8 byte
/// that is not an ASCII letter or digit becomes `%XX` (upper-case hex).
pub open spec fn pct_encode(s: Seq<char>) -> Seq<char> {
    pct_bytes(encode_utf8(s))
}

fn hex_digit_exec(d: u8) -> (c: char)
    requires
        d < 16,
    ensures
        c == hex_upper(d),
{
    if d < 10 {
        char_from_ascii(d as u32 + 0x30)
    } else {
        char_from_ascii(d as u32 + 0x37)
    }
}

/// Percent-encodes `s` with the NON_ALPHANUMERIC set.
pub fn enc(s: &str) -> (r: Vec<char>)
    ensures
        r@ == pct_encode(s@),
{
    let bytes = s.as_bytes();
    let mut r: Vec<char> = Vec::new();
    let mut i: usize = 0;
    while i < bytes.len()
        invariant
            i <= bytes@.len(),
            bytes@ == encode_utf8(s@),
            r@ == pct_bytes(bytes@.subrange(0, i as int)),
        decreases bytes.len() - i,
    {
        let b = bytes[i];
        if (0x30 <= b && b <= 0x39) || (0x41 <= b && b <= 0x5a) || (0x61 <= b && b <= 0x7a) {
            r.push(char_from_ascii(b as u32));
            assert(r@.last() == b as char);
        } else {
            r.push('%');
            r.push(hex_digit_exec(b / 16));
            r.push(hex_digit_exec(b % 16));
        }
        i += 1;
        proof {
            let pre = bytes@.subrange(0, i as int);
            assert(pre.drop_last() =~= bytes@.subrange(0, i - 1 as int));
            assert(r@ =~= pct_bytes(pre));
        }
    }
    assert(bytes@.subrange(0, bytes@.len() as int) =~= bytes@);
    r
}

/// Percent-encodes the characters `v`.
pub fn enc_chars(v: &[char]) -> (r: Vec<char>)
    ensures
        r@ == pct_encode(v@),
{
    let s = string_of(v);
    enc(s.as_str())
}

// ---------------------------------------------------------------------------
// Decoding undoes encoding
// ---------------------------------------------------------------------------

/// Characters read as the bytes of their code points (for ASCII text, its
/// UTF-8 encoding).
pub open spec fn ascii_bytes(c: Seq<char>) -> Seq<u8> {
    c.map_values(|ch: char| ch as u8)
}

proof fn lemma_pct_bytes_concat(a: Seq<u8>, b: Seq<u8>)
    ensures
        pct_bytes(a + b) == pct_bytes(a) + pct_bytes(b),
    decreases b.len(),
{
    if b.len() == 0 {
        assert(a + b =~= a);
        assert(pct_bytes(a) + pct_bytes(b) =~= pct_bytes(a));
    } else {
        lemma_pct_bytes_concat(a, b.drop_last());
        assert((a + b).drop_last() =~= a + b.drop_last());
        assert(pct_bytes(a) + pct_bytes(b.drop_last()) + pct_byte(b.last()) =~= pct_bytes(a) + (
        pct_bytes(b.drop_last()) + pct_byte(b.last())));
    }
}

proof fn lemma_pct_bytes_ascii(b: Seq<u8>)
    ensures
        is_ascii_chars(pct_bytes(b)),
    decreases b.len(),
{
    if b.len() > 0 {
        lemma_pct_bytes_ascii(b.drop_last());
        let x = b.last();
        assert(x / 16 < 16 && x % 16 < 16);
        assert(is_ascii_chars(pct_byte(x)));
        let whole = pct_bytes(b.drop_last()) + pct_byte(x);
        assert forall|i: int| 0 <= i < whole.len() implies '\0' <= #[trigger] whole[i] <= '\u{7f}' by {
            if i < pct_bytes(b.drop_last()).len() {
                assert(whole[i] == pct_bytes(b.drop_last())[i]);
            } else {
                assert(whole[i] == pct_byte(x)[i - pct_bytes(b.drop_last()).len()]);
            }
        }
    }
}

/// A hex digit written by `hex_upper` reads back as its value.
proof fn lemma_hex_upper_value(d: u8)
    requires
        d < 16,
    ensures
        hex_value(hex_upper(d) as u8) == Some(d),
{
}

proof fn lemma_decode_pct_bytes(b: Seq<u8>)
    ensures
        percent_decoded_bytes(ascii_bytes(pct_bytes(b))) == b,
    decreases b.len(),
{
    if b.len() > 0 {
        let x = b[0];
        let rest = b.skip(1);
        assert(b =~= seq![x] + rest);
        lemma_pct_bytes_concat(seq![x], rest);
        assert(seq![x].drop_last() =~= Seq::<u8>::empty());
        assert(pct_bytes(Seq::<u8>::empty()) == Seq::<char>::empty());
        assert(pct_bytes(seq![x]) == pct_bytes(Seq::<u8>::empty()) + pct_byte(x));
        assert(pct_bytes(seq![x]) =~= pct_byte(x));
        lemma_decode_pct_bytes(rest);
        let tail = ascii_bytes(pct_bytes(rest));
        let whole = ascii_bytes(pct_bytes(b));
        assert(whole =~= ascii_bytes(pct_byte(x)) + tail);
        if is_alnum_byte(x) {
            assert(whole[0] == x);
            assert(whole.skip(1) =~= tail);
            assert(percent_decoded_bytes(whole) =~= seq![x] + rest);
        } else {
            lemma_hex_upper_value(x / 16);
            lemma_hex_upper_value(x % 16);
            assert(whole[0] == 0x25);
            assert(whole[1] == hex_upper(x / 16) as u8);
            assert(whole[2] == hex_upper(x % 16) as u8);
            assert(whole.skip(3) =~= tail);
            assert((x / 16) * 16 + x % 16 == x);
            assert(percent_decoded_bytes(whole) =~= seq![x] + rest);
        }
    }
}

/// Percent-decoding undoes percent-encoding: the text encoded by
/// `pct_encode` decodes back to itself, leniently and strictly.
pub proof fn lemma_decode_undoes_encode(s: Seq<char>)
    ensures
        percent_decoded(pct_encode(s)) == s,
        percent_decoded_strict(pct_encode(s)) == Some(s),
{
    let e = pct_encode(s);
    lemma_pct_bytes_ascii(encode_utf8(s));
    vstd::utf8::is_ascii_chars_encode_utf8(e);
    assert(encode_utf8(e) =~= ascii_bytes(e));
    lemma_decode_pct_bytes(encode_utf8(s));
    vstd::utf8::encode_utf8_valid_utf8(s);
    vstd::utf8::encode_utf8_decode_utf8(s);
}

} // verus!
