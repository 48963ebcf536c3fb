//! The parts of a request: the parameters of its query, the id in its last
//! path segment, the token in its cookie, and the paths that answer it.

use vstd::prelude::*;
use vstd::string::StringExecFns;

use crate::photos::{is_jpg, jpg_name, MD_FILE};
use crate::text::{
    all_digits, chars_of, decimal_value, ends_with, find_char, first_index, is_digit,
    lemma_first_index, parse_number, push_str, same_chars, slice_of, split, split_chars,
    starts_with, string_of, texts, to_string,
};
use crate::textmap::TextMap;

verus! {

/// Why a request is not served.
#[derive(Clone, Copy, Debug, PartialEq, Eq, Structural)]
pub enum Refusal {
    /// The request is not for this handler: the host goes on to others.
    Declined,
    /// The request is malformed.
    BadRequest,
    /// The gallery or the file asked for does not exist.
    NotFound,
    /// The caller may not do what is asked.
    Unauthorized,
}

/// The name and the value that one piece of a query holds: what stands
/// before its first `=`, and what stands after it.
pub open spec fn parameter(piece: Seq<char>) -> Option<(Seq<char>, Seq<char>)> {
    let i = first_index(piece, '=');
    if 0 <= i < piece.len() {
        Some((piece.take(i), piece.skip(i + 1)))
    } else {
        None
    }
}

/// The parameters that the pieces of a query give, a later piece for a name
/// replacing an earlier one. A piece without `=` gives none.
pub open spec fn parameters(pieces: Seq<Seq<char>>) -> Map<Seq<char>, Seq<char>>
    decreases pieces.len(),
{
    if pieces.len() == 0 {
        Map::empty()
    } else {
        let before = parameters(pieces.drop_last());
        match parameter(pieces.last()) {
            Some((name, value)) => before.insert(name, value),
            None => before,
        }
    }
}

/// The parameters of a query: its pieces between `&`, each a name and a value.
pub open spec fn query_parameters(query: Seq<char>) -> Map<Seq<char>, Seq<char>> {
    parameters(split(query, '&'))
}

/// The parameters of a query.
pub fn parse_query_string(query: &str) -> (m: TextMap)
    ensures
        m@ == query_parameters(query@),
{
    let pieces = split_chars(&chars_of(query), '&');
    let mut m = TextMap::new();
    let mut i: usize = 0;
    assert(texts(pieces@).take(0) =~= Seq::empty());
    while i < pieces.len()
        invariant
            i <= pieces.len(),
            texts(pieces@) == split(query@, '&'),
            m@ == parameters(texts(pieces@).take(i as int)),
        decreases pieces.len() - i,
    {
        let piece = &pieces[i];
        proof {
            let upto = texts(pieces@).take(i + 1);
            assert(upto.drop_last() =~= texts(pieces@).take(i as int));
            assert(upto.last() == piece@);
            lemma_first_index(piece@, '=');
        }
        let at = find_char(piece, 0, '=');
        assert(piece@.skip(0) == piece@);
        if at < piece.len() {
            let name = string_of(piece, 0, at);
            let value = string_of(piece, at + 1, piece.len());
            assert(name@ =~= piece@.take(at as int));
            assert(value@ =~= piece@.skip(at + 1));
            m.insert(name, value);
        }
        i += 1;
    }
    assert(texts(pieces@).take(i as int) =~= texts(pieces@));
    m
}

/// The index that a file name such as `12.jpg` asks for: one less than the
/// number before its first period. `None` where there is no period, where
/// what stands before it is not made of digits alone, and where the number is
/// 0 or does not fit.
pub open spec fn leaf_index(file_name: Seq<char>) -> Option<nat> {
    let dot = first_index(file_name, '.');
    if 0 <= dot < file_name.len() {
        let stem = file_name.take(dot);
        if stem.len() > 0 && all_digits(stem) && 1 <= decimal_value(stem) <= usize::MAX {
            Some((decimal_value(stem) - 1) as nat)
        } else {
            None
        }
    } else {
        None
    }
}

/// The index that a file name such as `12.jpg` asks for; ids in names count
/// from 1, indices from 0.
pub fn get_id(file_name: &str) -> (r: Result<usize, Refusal>)
    ensures
        match r {
            Ok(i) => leaf_index(file_name@) == Some(i as nat),
            Err(e) => e == Refusal::Declined && leaf_index(file_name@) is None,
        },
{
    let name = chars_of(file_name);
    proof {
        lemma_first_index(name@, '.');
    }
    let dot = find_char(&name, 0, '.');
    assert(name@.skip(0) == name@);
    if dot >= name.len() {
        return Err(Refusal::Declined);
    }
    let stem = slice_of(&name, 0, dot);
    assert(stem@ =~= name@.take(dot as int));
    if stem.len() == 0 || stem[0] == '+' {
        assert(stem.len() > 0 ==> !is_digit(stem@[0]));
        return Err(Refusal::Declined);
    }
    assert(stem@.skip(0) == stem@);
    match parse_number(&stem, 0, usize::MAX as u64) {
        Some(n) => {
            if n == 0 {
                Err(Refusal::Declined)
            } else {
                Ok((n - 1) as usize)
            }
        },
        None => Err(Refusal::Declined),
    }
}

/// Which file of a record a request is for.
#[derive(Clone, Copy, Debug, PartialEq, Eq, Structural)]
pub enum FileType {
    /// A still picture: the photo itself, or the preview of a video.
    JPG,
    /// A video.
    MP4,
}

/// The name under which cookies arrive.
pub const COOKIE_HEADER: &'static str = "Cookie";

/// How the cookie that carries the token begins.
pub const CRUMB_PREFIX: &'static str = "crumb=";

/// The texts of a list of pairs of strings.
pub open spec fn header_views(headers: Seq<(String, String)>) -> Seq<(Seq<char>, Seq<char>)> {
    Seq::new(headers.len(), |i: int| (headers[i].0@, headers[i].1@))
}

/// The token that the request's headers carry: what follows `crumb=` in the
/// first `Cookie` header that begins so, or the empty text.
pub open spec fn crumb_of(headers: Seq<(Seq<char>, Seq<char>)>) -> Seq<char>
    decreases headers.len(),
{
    if headers.len() == 0 {
        Seq::empty()
    } else if headers[0].0 == COOKIE_HEADER@ && CRUMB_PREFIX@.is_prefix_of(headers[0].1) {
        headers[0].1.skip(CRUMB_PREFIX@.len() as int)
    } else {
        crumb_of(headers.drop_first())
    }
}

/// The anti-forgery token that the request's headers carry, or the empty
/// text where they carry none.
pub fn get_crumb(headers: &Vec<(String, String)>) -> (r: String)
    ensures
        r@ == crumb_of(header_views(headers@)),
{
    let cookie = chars_of(COOKIE_HEADER);
    let prefix = chars_of(CRUMB_PREFIX);
    let ghost all = header_views(headers@);
    let mut i: usize = 0;
    assert(all.skip(0) =~= all);
    while i < headers.len()
        invariant
            i <= headers.len(),
            all == header_views(headers@),
            cookie@ == COOKIE_HEADER@,
            prefix@ == CRUMB_PREFIX@,
            crumb_of(all) == crumb_of(all.skip(i as int)),
        decreases headers.len() - i,
    {
        let name = chars_of(headers[i].0.as_str());
        let value = chars_of(headers[i].1.as_str());
        proof {
            assert(all.skip(i as int)[0] == all[i as int]);
            assert(all.skip(i as int).drop_first() =~= all.skip(i + 1));
        }
        if same_chars(&name, &cookie) && starts_with(&value, &prefix) {
            let end = value.len();
            let r = string_of(&value, prefix.len(), end);
            assert(r@ =~= value@.skip(prefix@.len() as int));
            return r;
        }
        i += 1;
    }
    String::new()
}

/// The address of the file itself under the address of its gallery.
pub fn get_raw_uri(uri_path: &str, file_name: &String) -> (r: String)
    ensures
        r@ == uri_path@ + "/"@ + file_name@,
{
    let mut uri = String::from_str(uri_path);
    uri.append("/");
    uri.append(file_name.as_str());
    uri
}

/// `name` under the directory `dir`: `name` alone where it starts at the
/// root, else `dir` and `name` with one stroke between them, which `dir` may
/// bring itself.
pub open spec fn joined(dir: Seq<char>, name: Seq<char>) -> Seq<char> {
    if name.len() > 0 && name[0] == '/' {
        name
    } else if dir.len() == 0 || dir.last() == '/' {
        dir + name
    } else {
        dir + seq!['/'] + name
    }
}

/// The path of `name` under the directory `dir`.
pub fn join_path(dir: &str, name: &str) -> (r: String)
    ensures
        r@ == joined(dir@, name@),
{
    let d = chars_of(dir);
    let n = chars_of(name);
    if n.len() > 0 && n[0] == '/' {
        return to_string(&n);
    }
    let mut out = slice_of(&d, 0, d.len());
    assert(out@ =~= d@);
    if d.len() > 0 && d[d.len() - 1] != '/' {
        out.push('/');
    }
    push_str(&mut out, name);
    to_string(&out)
}

/// The path of the file that holds a gallery's records.
pub fn get_metadata_file(path: &String) -> (r: String)
    ensures
        r@ == joined(path@, MD_FILE@),
{
    join_path(path.as_str(), MD_FILE)
}

/// The content type that a file is sent with.
pub open spec fn content_type_of(file_name: Seq<char>) -> Seq<char> {
    if jpg_name(file_name) {
        "image/jpeg"@
    } else if ".html"@.is_suffix_of(file_name) {
        "text/html"@
    } else {
        ""@
    }
}

/// The content type that a file is sent with: that of a picture or of a
/// page, by the end of its name, or none.
pub fn get_content_type(file_name: &str) -> (r: &'static str)
    ensures
        r@ == content_type_of(file_name@),
{
    if is_jpg(&String::from_str(file_name)) {
        return "image/jpeg";
    }
    if ends_with(&chars_of(file_name), &chars_of(".html")) {
        return "text/html";
    }
    ""
}

/// What `urlencoding::decode` makes of `text`: the text with each `%` and
/// two hexadecimal digits replaced by the byte they write, or `None` where the
/// bytes that result are not UTF-8.
pub uninterp spec fn percent_decoded(text: Seq<char>) -> Option<Seq<char>>;

/// `urlencoding::decode`. Claimed: the outcome depends on the text alone, and
/// a text without `%` comes back as it is.
#[verifier::external_body]
pub(crate) fn url_decode(text: &str) -> (r: Option<String>)
    ensures
        match r {
            Some(s) => percent_decoded(text@) == Some(s@),
            None => percent_decoded(text@) is None,
        },
        !text@.contains('%') ==> r is Some && r->Some_0@ == text@,
{
    match urlencoding::decode(text) {
        Ok(decoded) => Some(decoded.into_owned()),
        Err(_) => None,
    }
}

/// What `http::Uri` finds as the query of an address as the client sent it:
/// `None` where the address is no URI, else what follows the first `?`, if
/// anything.
pub uninterp spec fn uri_query(unparsed: Seq<char>) -> Option<Option<Seq<char>>>;

/// `str::parse::<http::Uri>` and `Uri::query`. Claimed: the outcome depends
/// on the text alone.
#[verifier::external_body]
pub(crate) fn parse_uri_query(unparsed: &str) -> (r: Option<Option<String>>)
    ensures
        match r {
            Some(Some(q)) => uri_query(unparsed@) == Some(Some(q@)),
            Some(None) => uri_query(unparsed@) == Some(None::<Seq<char>>),
            None => uri_query(unparsed@) is None,
        },
{
    match unparsed.parse::<http::Uri>() {
        Ok(uri) => Some(uri.query().map(|q| q.to_string())),
        Err(_) => None,
    }
}

/// The query of an address as the client sent it; a text that is no URI is
/// a bad request.
pub fn query_of(unparsed_uri: &str) -> (r: Result<Option<String>, Refusal>)
    ensures
        match r {
            Ok(Some(q)) => uri_query(unparsed_uri@) == Some(Some(q@)),
            Ok(None) => uri_query(unparsed_uri@) == Some(None::<Seq<char>>),
            Err(e) => e == Refusal::BadRequest && uri_query(unparsed_uri@) is None,
        },
{
    match parse_uri_query(unparsed_uri) {
        Some(q) => Ok(q),
        None => Err(Refusal::BadRequest),
    }
}

/// `Uuid::new_v4` of uuid, written out by `to_string`. Claimed: the text has
/// 36 characters, whatever the random number.
#[verifier::external_body]
pub(crate) fn fresh_token() -> (r: String)
    ensures
        r@.len() == 36,
{
    uuid::Uuid::new_v4().to_string()
}

} // verus!
