//! What the gallery server does with a request: which asset it is for, and
//! the answer or the work that follows.

use vstd::prelude::*;
use vstd::string::StringExecFns;

use crate::cache::GalleryCache;
use crate::photos::{
    as_preview, as_scaled, gallery, is_jpg, is_mp4, is_sheet_name, jpg_name, mp4_name,
    names_sheet, sheet_name, times_wf, with_caption, Image, ImageView, MD_FILE,
};
use crate::request::{
    content_type_of, crumb_of, fresh_token, get_content_type, get_crumb, get_id,
    get_metadata_file, get_raw_uri, header_views, join_path, joined, leaf_index,
    parse_query_string, percent_decoded, query_parameters, url_decode, FileType, Refusal,
    CRUMB_PREFIX,
};
use crate::text::{
    all_digits, chars_of, ends_with, is_digit, last_occurrence, parse_number, parsed_number,
    rfind, same_text, string_of,
};
use crate::textmap::TextMap;
use crate::timestamp::{date_text, format_date};

verus! {

/// The status that an answer carries.
#[derive(Clone, Copy, Debug, PartialEq, Eq, Structural)]
pub enum HttpStatus {
    Success,
    BadRequest,
    Unauthorized,
    NotFound,
}

/// What the gallery page shows of one record.
#[derive(Clone, Debug, PartialEq, Eq)]
pub struct Metadata {
    /// The day it was taken, as month, day and year.
    pub date: String,
    pub caption: String,
    /// Whether it is a video.
    pub video: bool,
    pub location: Option<String>,
}

/// A `Metadata` with its texts as sequences of characters.
pub struct MetadataView {
    pub date: Seq<char>,
    pub caption: Seq<char>,
    pub video: bool,
    pub location: Option<Seq<char>>,
}

impl View for Metadata {
    type V = MetadataView;

    open spec fn view(&self) -> MetadataView {
        MetadataView {
            date: self.date@,
            caption: self.caption@,
            video: self.video,
            location: match self.location {
                Some(l) => Some(l@),
                None => None,
            },
        }
    }
}

/// What a list of rows holds: the view of each, in order.
pub open spec fn row_views(rows: Seq<Metadata>) -> Seq<MetadataView> {
    Seq::new(rows.len(), |i: int| rows[i]@)
}

/// What the server does with a request.
#[derive(Clone, Debug, PartialEq, Eq)]
pub enum Action {
    /// Leave the request to the host's other handlers.
    Decline,
    /// Answer with a short text.
    Reply { status: HttpStatus, content_type: String, body: String },
    /// Have the host serve another address in place of this one.
    Redirect { uri: String },
    /// Send a file as it is.
    SendFile { path: String, content_type: String },
    /// Send a picture, scaled down to fit a box.
    Resize { path: String, width: u32, height: u32 },
    /// Send what the page shows of each record.
    Metadata { rows: Vec<Metadata> },
    /// Send the caption editor's script, made out to the caller's token.
    EditScript { path: String, crumb: String },
    /// Set a caption in the stored records, then forget the gallery held in
    /// memory.
    SetCaption { file: String, index: usize, caption: String },
}

/// An `Action` with its texts as sequences of characters.
pub enum ActionView {
    Decline,
    Reply { status: HttpStatus, content_type: Seq<char>, body: Seq<char> },
    Redirect { uri: Seq<char> },
    SendFile { path: Seq<char>, content_type: Seq<char> },
    Resize { path: Seq<char>, width: u32, height: u32 },
    Metadata { rows: Seq<MetadataView> },
    EditScript { path: Seq<char>, crumb: Seq<char> },
    SetCaption { file: Seq<char>, index: usize, caption: Seq<char> },
}

impl View for Action {
    type V = ActionView;

    open spec fn view(&self) -> ActionView {
        match self {
            Action::Decline => ActionView::Decline,
            Action::Reply { status, content_type, body } => ActionView::Reply {
                status: *status,
                content_type: content_type@,
                body: body@,
            },
            Action::Redirect { uri } => ActionView::Redirect { uri: uri@ },
            Action::SendFile { path, content_type } => ActionView::SendFile {
                path: path@,
                content_type: content_type@,
            },
            Action::Resize { path, width, height } => ActionView::Resize {
                path: path@,
                width: *width,
                height: *height,
            },
            Action::Metadata { rows } => ActionView::Metadata { rows: row_views(rows@) },
            Action::EditScript { path, crumb } => ActionView::EditScript {
                path: path@,
                crumb: crumb@,
            },
            Action::SetCaption { file, index, caption } => ActionView::SetCaption {
                file: file@,
                index: *index,
                caption: caption@,
            },
        }
    }
}

/// The answer to a caller who may not do what was asked.
pub open spec fn not_permitted() -> ActionView {
    ActionView::Reply {
        status: HttpStatus::Unauthorized,
        content_type: "text/plain"@,
        body: "Not permitted"@,
    }
}

/// The answer to a malformed request.
pub open spec fn bad_request() -> ActionView {
    ActionView::Reply {
        status: HttpStatus::BadRequest,
        content_type: "text/plain"@,
        body: "Bad request"@,
    }
}

/// The answer where the gallery has no stored records.
pub open spec fn not_found() -> ActionView {
    ActionView::Reply {
        status: HttpStatus::NotFound,
        content_type: "text/html"@,
        body: "404 Not found"@,
    }
}

/// An answer with a short text.
pub fn return_value_with_status(s: &str, content_type: &str, status: HttpStatus) -> (r: Action)
    ensures
        r@ == (ActionView::Reply { status, content_type: content_type@, body: s@ }),
{
    Action::Reply {
        status,
        content_type: String::from_str(content_type),
        body: String::from_str(s),
    }
}

/// An answer with a short text and the status of success.
pub fn return_value(s: &str, content_type: &str) -> (r: Action)
    ensures
        r@ == (ActionView::Reply {
            status: HttpStatus::Success,
            content_type: content_type@,
            body: s@,
        }),
{
    return_value_with_status(s, content_type, HttpStatus::Success)
}

/// What the page shows of a record.
pub open spec fn display_row(image: ImageView) -> MetadataView {
    MetadataView {
        date: date_text(image.time.year as int, image.time.month as int, image.time.day as int),
        caption: image.caption,
        video: mp4_name(image.path),
        location: image.location,
    }
}

/// What the page shows of a gallery: a row for each record, in order.
pub open spec fn display_rows(images: Seq<ImageView>) -> Seq<MetadataView> {
    Seq::new(images.len(), |i: int| display_row(images[i]))
}

/// What the page shows of a gallery.
pub fn return_metadata(images: &Vec<Image>) -> (r: Action)
    requires
        times_wf(images@),
    ensures
        r@ == (ActionView::Metadata { rows: display_rows(gallery(images@)) }),
{
    let mut rows: Vec<Metadata> = Vec::with_capacity(images.len());
    let mut i: usize = 0;
    while i < images.len()
        invariant
            i <= images.len(),
            times_wf(images@),
            row_views(rows@) == display_rows(gallery(images@)).take(i as int),
        decreases images.len() - i,
    {
        let image = &images[i];
        let row = Metadata {
            date: format_date(&image.time),
            caption: image.caption.clone(),
            video: image.is_mp4(),
            location: match &image.location {
                Some(l) => Some(l.clone()),
                None => None,
            },
        };
        let ghost before = row_views(rows@);
        rows.push(row);
        i += 1;
        assert(row_views(rows@) =~= before.push(row@));
        assert(display_rows(gallery(images@)).take(i as int) =~= display_rows(
            gallery(images@),
        ).take(i - 1).push(display_row(images[i - 1]@)));
    }
    assert(display_rows(gallery(images@)).take(i as int) =~= display_rows(gallery(images@)));
    Action::Metadata { rows }
}

/// The script that hands the rows to the page, given the rows as JSON.
pub fn metadata_script(json: &str) -> (r: String)
    ensures
        r@ == "const metadata = "@ + json@ + ";"@,
{
    let mut r = String::from_str("const metadata = ");
    r.append(json);
    r.append(";");
    r
}

/// The file that a request for a record is answered from: for a video, the
/// downscaled copy where one was made, and its preview where a picture is
/// asked for; else the file itself.
pub open spec fn file_for(image: ImageView, file_type: FileType) -> Seq<char> {
    if mp4_name(image.path) {
        if file_type == FileType::MP4 {
            if image.mp4_scaled {
                image.path + ".scaled.mp4"@
            } else {
                image.path
            }
        } else {
            image.path + ".preview.jpg"@
        }
    } else {
        image.path
    }
}

/// The file that the record at index `id` of a gallery is served from, or
/// why there is none.
pub open spec fn file_at(
    cache: Map<Seq<char>, Seq<ImageView>>,
    gallery_path: Seq<char>,
    id: int,
    file_type: FileType,
) -> Result<Seq<char>, Refusal> {
    if !cache.contains_key(gallery_path) {
        Err(Refusal::NotFound)
    } else if !(0 <= id < cache[gallery_path].len()) {
        Err(Refusal::Declined)
    } else {
        Ok(file_for(cache[gallery_path][id], file_type))
    }
}

/// The name of the file that the record at index `id` is served from. An
/// index past the end of the gallery is declined.
pub fn get_filename_from_id(
    cache: &GalleryCache,
    gallery_path: &String,
    id: usize,
    file_type: FileType,
) -> (r: Result<String, Refusal>)
    ensures
        match r {
            Ok(name) => file_at(cache@, gallery_path@, id as int, file_type) == Ok::<
                Seq<char>,
                Refusal,
            >(name@),
            Err(e) => file_at(cache@, gallery_path@, id as int, file_type) == Err::<
                Seq<char>,
                Refusal,
            >(e),
        },
{
    let images = match cache.get(gallery_path.as_str()) {
        Some(images) => images,
        None => {
            return Err(Refusal::NotFound);
        },
    };
    if id >= images.len() {
        return Err(Refusal::Declined);
    }
    let image = &images[id];
    assert(gallery(images@)[id as int] == image@);
    if image.is_mp4() {
        match file_type {
            FileType::MP4 => {
                if image.mp4_scaled {
                    Ok(as_scaled(&image.path))
                } else {
                    Ok(image.path.clone())
                }
            },
            FileType::JPG => Ok(as_preview(&image.path)),
        }
    } else {
        Ok(image.path.clone())
    }
}

/// The path of the file that the record at index `id` is served from.
pub fn get_file_path(
    cache: &GalleryCache,
    gallery_path: &String,
    id: usize,
    file_type: FileType,
) -> (r: Result<String, Refusal>)
    ensures
        match r {
            Ok(path) => file_at(cache@, gallery_path@, id as int, file_type) is Ok && path@
                == joined(
                gallery_path@,
                file_at(cache@, gallery_path@, id as int, file_type)->Ok_0,
            ),
            Err(e) => file_at(cache@, gallery_path@, id as int, file_type) == Err::<
                Seq<char>,
                Refusal,
            >(e),
        },
{
    match get_filename_from_id(cache, gallery_path, id, file_type) {
        Ok(name) => Ok(join_path(gallery_path.as_str(), name.as_str())),
        Err(e) => Err(e),
    }
}

/// The action that answers a request that is refused.
pub open spec fn refusal_action(e: Refusal) -> ActionView {
    match e {
        Refusal::Declined => ActionView::Decline,
        Refusal::BadRequest => bad_request(),
        Refusal::NotFound => not_found(),
        Refusal::Unauthorized => not_permitted(),
    }
}

/// The action that answers a request that is refused.
pub fn refuse(e: Refusal) -> (r: Action)
    ensures
        r@ == refusal_action(e),
{
    match e {
        Refusal::Declined => Action::Decline,
        Refusal::BadRequest => return_value_with_status(
            "Bad request",
            "text/plain",
            HttpStatus::BadRequest,
        ),
        Refusal::NotFound => return_value_with_status(
            "404 Not found",
            "text/html",
            HttpStatus::NotFound,
        ),
        Refusal::Unauthorized => return_value_with_status(
            "Not permitted",
            "text/plain",
            HttpStatus::Unauthorized,
        ),
    }
}

/// Sends the file `file_name` of the gallery as it is.
pub fn return_raw_file(file_name: &str, gallery_path: &String) -> (r: Action)
    ensures
        r@ == (ActionView::SendFile {
            path: joined(gallery_path@, file_name@),
            content_type: content_type_of(file_name@),
        }),
{
    Action::SendFile {
        path: join_path(gallery_path.as_str(), file_name),
        content_type: String::from_str(get_content_type(file_name)),
    }
}

/// One side of the box that a picture is to fit: the value of the parameter
/// `key`, a whole number from 1 up.
pub open spec fn box_side(params: Map<Seq<char>, Seq<char>>, key: Seq<char>) -> Option<u32> {
    if params.contains_key(key) {
        match parsed_number(params[key], u32::MAX as nat) {
            Some(n) => if n >= 1 {
                Some(n as u32)
            } else {
                None
            },
            None => None,
        }
    } else {
        None
    }
}

/// One side of the box that a picture is to fit.
pub fn get_box_side(params: &TextMap, key: &str) -> (r: Option<u32>)
    ensures
        r == box_side(params@, key@),
{
    match params.get(key) {
        Some(value) => {
            let v = chars_of(value.as_str());
            assert(v@.skip(0) == v@);
            match parse_number(&v, 0, u32::MAX as u64) {
                Some(n) => if n >= 1 {
                    Some(n as u32)
                } else {
                    None
                },
                None => None,
            }
        },
        None => None,
    }
}

/// The parameters that a request carries: those of its query, or none where
/// it has no query.
pub open spec fn request_parameters(query: Option<Seq<char>>) -> Map<Seq<char>, Seq<char>> {
    match query {
        Some(q) => query_parameters(q),
        None => Map::empty(),
    }
}

/// What is done with a request for a picture by id: where it names neither
/// side of a box, the host is sent on to the file itself; else the picture is
/// scaled to the box that the parameters `w` and `h` give, and a box with a
/// side that is missing or no number from 1 up is a bad request. A name
/// without an id, and an id past the end of the gallery, are declined.
pub open spec fn picture_action(
    cache: Map<Seq<char>, Seq<ImageView>>,
    query: Option<Seq<char>>,
    file_name: Seq<char>,
    uri_path: Seq<char>,
    gallery_path: Seq<char>,
) -> ActionView {
    let params = request_parameters(query);
    match leaf_index(file_name) {
        None => ActionView::Decline,
        Some(id) => match file_at(cache, gallery_path, id as int, FileType::JPG) {
            Err(e) => refusal_action(e),
            Ok(name) => if !params.contains_key("w"@) && !params.contains_key("h"@) {
                ActionView::Redirect { uri: uri_path + "/"@ + name }
            } else {
                match (box_side(params, "w"@), box_side(params, "h"@)) {
                    (Some(w), Some(h)) => ActionView::Resize {
                        path: joined(gallery_path, name),
                        width: w,
                        height: h,
                    },
                    _ => bad_request(),
                }
            },
        },
    }
}

/// What is done with a request for a picture by id, such as `12.jpg?w=800&h=600`.
pub fn return_jpg(
    cache: &GalleryCache,
    query_string: Option<&str>,
    file_name: &str,
    uri_path: &str,
    gallery_path: &String,
) -> (r: Action)
    ensures
        r@ == picture_action(
            cache@,
            match query_string {
                Some(q) => Some(q@),
                None => None,
            },
            file_name@,
            uri_path@,
            gallery_path@,
        ),
{
    let photo_id = match get_id(file_name) {
        Ok(id) => id,
        Err(_) => {
            return Action::Decline;
        },
    };
    let raw_jpg = match get_filename_from_id(cache, gallery_path, photo_id, FileType::JPG) {
        Ok(name) => name,
        Err(e) => {
            return refuse(e);
        },
    };
    let query = match query_string {
        Some(qs) => parse_query_string(qs),
        None => TextMap::new(),
    };
    if query.get("w").is_none() && query.get("h").is_none() {
        // Without a box the picture is served as it is.
        return Action::Redirect { uri: get_raw_uri(uri_path, &raw_jpg) };
    }
    let width = get_box_side(&query, "w");
    let height = get_box_side(&query, "h");
    match (width, height) {
        (Some(w), Some(h)) => Action::Resize {
            path: join_path(gallery_path.as_str(), raw_jpg.as_str()),
            width: w,
            height: h,
        },
        _ => refuse(Refusal::BadRequest),
    }
}

/// What is done with a request for a video by id: the host is sent on to the
/// downscaled copy where there is one, else to the file itself. A request for
/// a downscaled copy by its own name is declined, so that the host serves it.
pub open spec fn video_action(
    cache: Map<Seq<char>, Seq<ImageView>>,
    file_name: Seq<char>,
    uri_path: Seq<char>,
    gallery_path: Seq<char>,
) -> ActionView {
    if ".scaled.mp4"@.is_suffix_of(file_name) {
        ActionView::Decline
    } else {
        match leaf_index(file_name) {
            None => ActionView::Decline,
            Some(id) => match file_at(cache, gallery_path, id as int, FileType::MP4) {
                Err(e) => refusal_action(e),
                Ok(name) => ActionView::Redirect { uri: uri_path + "/"@ + name },
            },
        }
    }
}

/// What is done with a request for a video by id, such as `12.mp4`.
pub fn return_mp4(cache: &GalleryCache, file_name: &str, uri_path: &str, gallery_path: &String) -> (r:
    Action)
    ensures
        r@ == video_action(cache@, file_name@, uri_path@, gallery_path@),
{
    if ends_with(&chars_of(file_name), &chars_of(".scaled.mp4")) {
        return Action::Decline;
    }
    let video_id = match get_id(file_name) {
        Ok(id) => id,
        Err(_) => {
            return Action::Decline;
        },
    };
    match get_filename_from_id(cache, gallery_path, video_id, FileType::MP4) {
        Ok(mp4name) => Action::Redirect { uri: get_raw_uri(uri_path, &mp4name) },
        Err(e) => refuse(e),
    }
}

/// The name of the caption editor's script in a gallery's directory.
pub const EDIT_CAPTION_FILE: &'static str = "edit_caption.js";

/// What is done with a request for the caption editor's script: a trusted
/// caller gets it, made out to the token in the request; any other caller
/// gets an answer of success without a single byte.
pub fn return_edit_caption(trusted: bool, headers: &Vec<(String, String)>, gallery_path: &String) -> (r:
    Action)
    ensures
        r@ == if trusted {
            ActionView::EditScript {
                path: joined(gallery_path@, EDIT_CAPTION_FILE@),
                crumb: crumb_of(header_views(headers@)),
            }
        } else {
            ActionView::Reply {
                status: HttpStatus::Success,
                content_type: "application/javascript"@,
                body: ""@,
            }
        },
{
    if trusted {
        Action::EditScript {
            path: join_path(gallery_path.as_str(), EDIT_CAPTION_FILE),
            crumb: get_crumb(headers),
        }
    } else {
        return_value("", "application/javascript")
    }
}

/// The caption editor's script made out to a token: a line that sets the
/// token, an empty line, and the script.
pub fn edit_caption_script(crumb: &str, js: &str) -> (r: Action)
    ensures
        r@ == (ActionView::Reply {
            status: HttpStatus::Success,
            content_type: "application/javascript"@,
            body: "const crumb = \""@ + crumb@ + "\";\n\n"@ + js@,
        }),
{
    let mut body = String::from_str("const crumb = \"");
    body.append(crumb);
    body.append("\";\n\n");
    body.append(js);
    return_value(body.as_str(), "application/javascript")
}

/// The new caption, still percent-encoded, that a request may set: the
/// caller is trusted, a token was issued and the request echoes it, and a
/// caption is supplied. Each failure, in this order, is `Unauthorized`.
pub open spec fn permitted_caption(trusted: bool, query: Option<Seq<char>>, crumb: Seq<char>) -> Result<
    Seq<char>,
    Refusal,
> {
    if !trusted {
        Err(Refusal::Unauthorized)
    } else {
        match query {
            None => Err(Refusal::Unauthorized),
            Some(q) => {
                let params = query_parameters(q);
                if !params.contains_key("crumb"@) {
                    Err(Refusal::Unauthorized)
                } else if crumb.len() == 0 || params["crumb"@] != crumb {
                    Err(Refusal::Unauthorized)
                } else if !params.contains_key("caption"@) {
                    Err(Refusal::Unauthorized)
                } else {
                    Ok(params["caption"@])
                }
            },
        }
    }
}

/// Checks that a request may set a caption, and gives the caption it
/// supplies, still percent-encoded. `crumb` is the token in the request's
/// cookie.
pub fn check_caption_request(trusted: bool, query_string: Option<&str>, crumb: &str) -> (r: Result<
    String,
    Refusal,
>)
    ensures
        match r {
            Ok(caption) => permitted_caption(
                trusted,
                match query_string {
                    Some(q) => Some(q@),
                    None => None,
                },
                crumb@,
            ) == Ok::<Seq<char>, Refusal>(caption@),
            Err(e) => permitted_caption(
                trusted,
                match query_string {
                    Some(q) => Some(q@),
                    None => None,
                },
                crumb@,
            ) == Err::<Seq<char>, Refusal>(e),
        },
{
    if !trusted {
        return Err(Refusal::Unauthorized);
    }
    let query = match query_string {
        Some(qs) => parse_query_string(qs),
        None => {
            return Err(Refusal::Unauthorized);
        },
    };
    let echoed = match query.get("crumb") {
        Some(c) => c,
        None => {
            return Err(Refusal::Unauthorized);
        },
    };
    if chars_of(crumb).len() == 0 || !same_text(echoed.as_str(), crumb) {
        return Err(Refusal::Unauthorized);
    }
    match query.get("caption") {
        Some(c) => Ok(c.clone()),
        None => Err(Refusal::Unauthorized),
    }
}

/// The index that the last path segment of a caption request names: one less
/// than the number it writes, which is at least 1.
pub open spec fn caption_index(id_text: Seq<char>) -> Option<usize> {
    match parsed_number(id_text, usize::MAX as nat) {
        Some(n) => if n >= 1 {
            Some((n - 1) as usize)
        } else {
            None
        },
        None => None,
    }
}

/// The index that the last path segment of a caption request names.
pub fn get_caption_index(id_str: &str) -> (r: Option<usize>)
    ensures
        r == caption_index(id_str@),
{
    let id = chars_of(id_str);
    assert(id@.skip(0) == id@);
    match parse_number(&id, 0, usize::MAX as u64) {
        Some(n) => if n >= 1 {
            Some((n - 1) as usize)
        } else {
            None
        },
        None => None,
    }
}

/// The change that a permitted caption request asks for, given the caption
/// after percent-decoding, or `None` where it does not decode. A malformed id
/// or caption is a bad request.
pub open spec fn caption_change(
    id_text: Seq<char>,
    gallery_path: Seq<char>,
    decoded: Option<Seq<char>>,
) -> ActionView {
    match (caption_index(id_text), decoded) {
        (Some(index), Some(caption)) => ActionView::SetCaption {
            file: joined(gallery_path, MD_FILE@),
            index,
            caption,
        },
        _ => bad_request(),
    }
}

/// The change that a permitted caption request asks for, given its caption
/// after percent-decoding.
pub fn caption_edit(id_str: &str, gallery_path: &String, decoded: Option<String>) -> (r: Action)
    ensures
        r@ == caption_change(
            id_str@,
            gallery_path@,
            match decoded {
                Some(c) => Some(c@),
                None => None,
            },
        ),
{
    let index = match get_caption_index(id_str) {
        Some(index) => index,
        None => {
            return refuse(Refusal::BadRequest);
        },
    };
    match decoded {
        Some(caption) => Action::SetCaption {
            file: get_metadata_file(gallery_path),
            index,
            caption,
        },
        None => refuse(Refusal::BadRequest),
    }
}

/// What is done with a request to set a caption.
pub open spec fn caption_action(
    trusted: bool,
    query: Option<Seq<char>>,
    crumb: Seq<char>,
    id_text: Seq<char>,
    gallery_path: Seq<char>,
) -> ActionView {
    match permitted_caption(trusted, query, crumb) {
        Err(e) => refusal_action(e),
        Ok(raw) => caption_change(id_text, gallery_path, percent_decoded(raw)),
    }
}

/// What is done with a request to set the caption of the record that
/// `id_str` names: the change to make where the request is permitted and well
/// formed, else the answer that rejects it.
pub fn handle_caption(
    trusted: bool,
    headers: &Vec<(String, String)>,
    query_string: Option<&str>,
    id_str: &str,
    gallery_path: &String,
) -> (r: Action)
    ensures
        r@ == caption_action(
            trusted,
            match query_string {
                Some(q) => Some(q@),
                None => None,
            },
            crumb_of(header_views(headers@)),
            id_str@,
            gallery_path@,
        ),
        !trusted ==> r@ == not_permitted(),
{
    let crumb = get_crumb(headers);
    match check_caption_request(trusted, query_string, crumb.as_str()) {
        Ok(raw) => caption_edit(id_str, gallery_path, url_decode(raw.as_str())),
        Err(e) => refuse(e),
    }
}

/// The gallery after an action was carried out: with the caption set where
/// the action sets one, else as before.
pub open spec fn gallery_after(action: ActionView, images: Seq<ImageView>) -> Seq<ImageView> {
    match action {
        ActionView::SetCaption { file, index, caption } => with_caption(
            images,
            index as int,
            caption,
        ),
        _ => images,
    }
}

/// The answer to a caption request once the records were written, or could
/// not be written for the reason `failure`.
pub fn caption_reply(failure: Option<&str>) -> (r: Action)
    ensures
        r@ == match failure {
            None => ActionView::Reply {
                status: HttpStatus::Success,
                content_type: "text/plain"@,
                body: "Ok"@,
            },
            Some(e) => ActionView::Reply {
                status: HttpStatus::Unauthorized,
                content_type: "text/plain"@,
                body: "Failed to write with error: "@ + e@,
            },
        },
{
    match failure {
        None => return_value_with_status("Ok", "text/plain", HttpStatus::Success),
        Some(e) => {
            let mut body = String::from_str("Failed to write with error: ");
            body.append(e);
            return_value_with_status(body.as_str(), "text/plain", HttpStatus::Unauthorized)
        },
    }
}

/// How a streamed answer begins.
#[derive(Clone, Debug, PartialEq, Eq)]
pub struct ResponseHead {
    pub status: HttpStatus,
    pub content_type: String,
    /// The cookie that issues a token, where the request carried none.
    pub set_cookie: Option<String>,
}

/// The cookie that issues `token`.
pub open spec fn cookie_text(token: Seq<char>) -> Seq<char> {
    CRUMB_PREFIX@ + token + "; HttpOnly"@
}

/// The cookie that issues `token`.
pub fn crumb_cookie(token: &str) -> (r: String)
    ensures
        r@ == cookie_text(token@),
{
    let mut r = String::from_str(CRUMB_PREFIX);
    r.append(token);
    r.append("; HttpOnly");
    r
}

/// The cookie to set on an answer to a request whose token is `crumb`, given
/// a token that was never issued before: none where the request has a token.
pub fn issue_cookie(crumb: &str, token: &str) -> (r: Option<String>)
    ensures
        match r {
            Some(c) => crumb@.len() == 0 && c@ == cookie_text(token@),
            None => crumb@.len() > 0,
        },
{
    if chars_of(crumb).len() == 0 {
        Some(crumb_cookie(token))
    } else {
        None
    }
}

/// How the answer that streams a file or a picture begins: success, the
/// content type, and a cookie with a fresh token exactly where the request
/// carries no token yet.
pub fn respond(headers: &Vec<(String, String)>, content_type: &str) -> (r: ResponseHead)
    ensures
        r.status == HttpStatus::Success,
        r.content_type@ == content_type@,
        r.set_cookie is Some <==> crumb_of(header_views(headers@)).len() == 0,
        r.set_cookie matches Some(c) ==> exists|token: Seq<char>|
            token.len() == 36 && c@ == cookie_text(token),
{
    let crumb = get_crumb(headers);
    let set_cookie = if chars_of(crumb.as_str()).len() == 0 {
        let token = fresh_token();
        issue_cookie(crumb.as_str(), token.as_str())
    } else {
        None
    };
    ResponseHead {
        status: HttpStatus::Success,
        content_type: String::from_str(content_type),
        set_cookie,
    }
}

/// What the host's configuration says of a location.
#[derive(Clone, Debug, PartialEq, Eq)]
pub struct ModuleConfig {
    /// Whether the gallery serves this location.
    pub enabled: bool,
    /// The directory under which the galleries lie.
    pub root: String,
}

/// Why two configurations do not merge.
#[derive(Clone, Copy, Debug, PartialEq, Eq, Structural)]
pub enum MergeConfigError {
    /// The gallery is switched on, and no level names a root.
    NoValue,
}

impl Default for ModuleConfig {
    /// A location that the gallery does not serve and that names no root.
    fn default() -> (r: ModuleConfig)
        ensures
            !r.enabled,
            r.root@.len() == 0,
    {
        ModuleConfig { enabled: false, root: String::new() }
    }
}

impl ModuleConfig {
    /// Takes over from the enclosing level `prev` what this level leaves
    /// open: it is enabled where either is, and has the root of `prev` where
    /// it names none. Enabled without a root is an error.
    pub fn merge(&mut self, prev: &ModuleConfig) -> (r: Result<(), MergeConfigError>)
        ensures
            final(self).enabled == (old(self).enabled || prev.enabled),
            final(self).root@ == if old(self).root@.len() == 0 {
                prev.root@
            } else {
                old(self).root@
            },
            r is Err <==> final(self).enabled && final(self).root@.len() == 0,
    {
        if prev.enabled {
            self.enabled = true;
        }
        if chars_of(self.root.as_str()).len() == 0 {
            self.root = prev.root.clone();
        }
        if self.enabled && chars_of(self.root.as_str()).len() == 0 {
            return Err(MergeConfigError::NoValue);
        }
        Ok(())
    }
}

/// Where a request points: the gallery's directory on disk, the address of
/// the gallery, and the last segment of the path.
#[derive(Clone, Debug, PartialEq, Eq)]
pub struct Target {
    pub gallery_path: String,
    pub uri_path: String,
    pub file_name: String,
}

/// A `Target` with its texts as sequences of characters.
pub struct TargetView {
    pub gallery_path: Seq<char>,
    pub uri_path: Seq<char>,
    pub file_name: Seq<char>,
}

impl View for Target {
    type V = TargetView;

    open spec fn view(&self) -> TargetView {
        TargetView {
            gallery_path: self.gallery_path@,
            uri_path: self.uri_path@,
            file_name: self.file_name@,
        }
    }
}

/// Where the path of a request points, for a location with the given
/// configuration: nowhere unless the gallery is enabled and the path holds a
/// stroke; else the path is split at its last stroke, and the gallery lies
/// under the root at what stands before it.
pub open spec fn target_of(enabled: bool, root: Seq<char>, path: Seq<char>) -> Option<TargetView> {
    let i = last_occurrence(path, "/"@);
    if !enabled || i < 0 {
        None
    } else {
        Some(
            TargetView {
                gallery_path: root + path.take(i),
                uri_path: path.take(i),
                file_name: path.skip(i + "/"@.len()),
            },
        )
    }
}

/// Where the path of a request points; `None` where the request is declined.
pub fn locate(config: &ModuleConfig, path: &str) -> (r: Option<Target>)
    ensures
        match r {
            Some(t) => target_of(config.enabled, config.root@, path@) == Some(t@),
            None => target_of(config.enabled, config.root@, path@) is None,
        },
{
    if !config.enabled {
        return None;
    }
    let p = chars_of(path);
    let stroke = chars_of("/");
    match rfind(&p, &stroke) {
        Some(i) => {
            let end = p.len();
            let uri_path = string_of(&p, 0, i);
            let file_name = string_of(&p, i + stroke.len(), end);
            assert(uri_path@ =~= path@.take(i as int));
            assert(file_name@ =~= path@.skip(i + "/"@.len()));
            let mut gallery_path = config.root.clone();
            gallery_path.append(uri_path.as_str());
            Some(Target { gallery_path, uri_path, file_name })
        },
        None => None,
    }
}

/// What a request carries besides its path.
#[derive(Clone, Debug, PartialEq, Eq)]
pub struct Request {
    /// Whether the method is POST.
    pub post: bool,
    /// What follows the `?` of the address, if anything.
    pub query: Option<String>,
    /// The headers, each a name and a value, in the order received.
    pub headers: Vec<(String, String)>,
    /// Whether the caller is recognised as local.
    pub trusted: bool,
}

/// The texts of an optional string.
pub open spec fn text_of(s: Option<String>) -> Option<Seq<char>> {
    match s {
        Some(t) => Some(t@),
        None => None,
    }
}

/// What is done with a request, by the last segment of its path: the rows of
/// the page, a sheet of thumbnails, the editor's script, a picture or a video
/// by id, a caption to set, or the landing page. A caption for a record past
/// the end of the gallery is declined.
pub open spec fn routed(
    cache: Map<Seq<char>, Seq<ImageView>>,
    target: TargetView,
    post: bool,
    query: Option<Seq<char>>,
    headers: Seq<(Seq<char>, Seq<char>)>,
    trusted: bool,
) -> ActionView {
    let name = target.file_name;
    let dir = target.gallery_path;
    if !cache.contains_key(dir) {
        not_found()
    } else if name == "metadata"@ {
        ActionView::Metadata { rows: display_rows(cache[dir]) }
    } else if is_sheet_name(name) {
        ActionView::SendFile {
            path: joined(dir, name),
            content_type: content_type_of(name),
        }
    } else if name == EDIT_CAPTION_FILE@ {
        if trusted {
            ActionView::EditScript { path: joined(dir, EDIT_CAPTION_FILE@), crumb: crumb_of(headers) }
        } else {
            ActionView::Reply {
                status: HttpStatus::Success,
                content_type: "application/javascript"@,
                body: ""@,
            }
        }
    } else if jpg_name(name) {
        picture_action(cache, query, name, target.uri_path, dir)
    } else if mp4_name(name) {
        video_action(cache, name, target.uri_path, dir)
    } else if post {
        if caption_index(name) matches Some(i) && i >= cache[dir].len() {
            ActionView::Decline
        } else {
            caption_action(trusted, query, crumb_of(headers), name, dir)
        }
    } else {
        ActionView::SendFile {
            path: joined(dir, "index.html"@),
            content_type: content_type_of("index.html"@),
        }
    }
}

/// What is done with a request that points at `target`, given the galleries
/// held in memory. The gallery is expected to be held; where it is not, the
/// answer is that it was not found.
pub fn route(cache: &GalleryCache, target: &Target, request: &Request) -> (r: Action)
    requires
        cache.wf(),
    ensures
        r@ == routed(
            cache@,
            target@,
            request.post,
            text_of(request.query),
            header_views(request.headers@),
            request.trusted,
        ),
{
    let name = target.file_name.as_str();
    let dir = &target.gallery_path;
    let images = match cache.get(dir.as_str()) {
        Some(images) => images,
        None => {
            return refuse(Refusal::NotFound);
        },
    };
    let query: Option<&str> = match &request.query {
        Some(q) => Some(q.as_str()),
        None => None,
    };
    if same_text(name, "metadata") {
        return_metadata(images)
    } else if names_sheet(name) {
        return_raw_file(name, dir)
    } else if same_text(name, EDIT_CAPTION_FILE) {
        return_edit_caption(request.trusted, &request.headers, dir)
    } else if is_jpg(&target.file_name) {
        return_jpg(cache, query, name, target.uri_path.as_str(), dir)
    } else if is_mp4(&target.file_name) {
        return_mp4(cache, name, target.uri_path.as_str(), dir)
    } else if request.post {
        match get_caption_index(name) {
            Some(i) if i >= images.len() => Action::Decline,
            _ => handle_caption(request.trusted, &request.headers, query, name, dir),
        }
    } else {
        return_raw_file("index.html", dir)
    }
}

/// A request to set a caption that does not echo the token in its cookie is
/// answered as not permitted, and leaves every gallery as it is.
pub proof fn lemma_wrong_crumb_rejected(
    trusted: bool,
    query: Option<Seq<char>>,
    crumb: Seq<char>,
    id_text: Seq<char>,
    gallery_path: Seq<char>,
    images: Seq<ImageView>,
)
    requires
        query matches Some(q) ==> !query_parameters(q).contains_key("crumb"@) || query_parameters(
            q,
        )["crumb"@] != crumb,
    ensures
        caption_action(trusted, query, crumb, id_text, gallery_path) == not_permitted(),
        gallery_after(caption_action(trusted, query, crumb, id_text, gallery_path), images)
            == images,
{
}

/// A request to set a caption from a caller that is not trusted is answered
/// as not permitted, whatever token it echoes, and leaves every gallery as it
/// is.
pub proof fn lemma_untrusted_rejected(
    query: Option<Seq<char>>,
    crumb: Seq<char>,
    id_text: Seq<char>,
    gallery_path: Seq<char>,
    images: Seq<ImageView>,
)
    ensures
        caption_action(false, query, crumb, id_text, gallery_path) == not_permitted(),
        gallery_after(caption_action(false, query, crumb, id_text, gallery_path), images)
            == images,
{
}

/// A request for a picture or a video whose id lies past the end of the
/// gallery is declined.
pub proof fn lemma_id_past_end_declined(
    cache: Map<Seq<char>, Seq<ImageView>>,
    query: Option<Seq<char>>,
    file_name: Seq<char>,
    uri_path: Seq<char>,
    gallery_path: Seq<char>,
)
    requires
        cache.contains_key(gallery_path),
        leaf_index(file_name) matches Some(index) && index >= cache[gallery_path].len(),
    ensures
        picture_action(cache, query, file_name, uri_path, gallery_path) == ActionView::Decline,
        video_action(cache, file_name, uri_path, gallery_path) == ActionView::Decline,
{
}

/// A request to set the caption of a record past the end of the gallery is
/// declined, whoever sends it.
pub proof fn lemma_caption_past_end_declined(
    cache: Map<Seq<char>, Seq<ImageView>>,
    target: TargetView,
    query: Option<Seq<char>>,
    headers: Seq<(Seq<char>, Seq<char>)>,
    trusted: bool,
)
    requires
        cache.contains_key(target.gallery_path),
        caption_index(target.file_name) matches Some(index) && index >= cache[target.gallery_path].len(),
    ensures
        routed(cache, target, true, query, headers, trusted) == ActionView::Decline,
{
    let name = target.file_name;
    let digits = if name.len() > 0 && name[0] == '+' {
        name.skip(1)
    } else {
        name
    };
    assert(digits.len() > 0 && all_digits(digits));
    assert forall|i: int| 0 <= i < name.len() implies is_digit(#[trigger] name[i]) || name[i]
        == '+' by {
        if name[0] == '+' {
            if i > 0 {
                assert(name[i] == digits[i - 1]);
            }
        } else {
            assert(name[i] == digits[i]);
        }
    }
    lemma_number_is_no_name(name);
}

/// A text made of digits and plus signs is none of the names with a meaning
/// of their own: not that of the rows, of a sheet, of the editor's script, of
/// a picture or of a video.
proof fn lemma_number_is_no_name(name: Seq<char>)
    requires
        name.len() > 0,
        forall|i: int| 0 <= i < name.len() ==> is_digit(#[trigger] name[i]) || name[i] == '+',
    ensures
        name != "metadata"@,
        !is_sheet_name(name),
        name != EDIT_CAPTION_FILE@,
        !jpg_name(name),
        !mp4_name(name),
{
    reveal_strlit("metadata");
    reveal_strlit("edit_caption.js");
    reveal_strlit(".jpg");
    reveal_strlit(".JPG");
    reveal_strlit(".mp4");
    reveal_strlit(".MP4");
    reveal_strlit(".mov");
    reveal_strlit(".MOV");
    reveal_strlit(".avi");
    reveal_strlit(".AVI");
    reveal_strlit("thumbnails");
    reveal_strlit("thumbnails.jpg");
    assert(name[0] != 'm' && name[0] != 'e' && name[0] != 't');
    assert forall|ending: Seq<char>|
        ending.len() > 0 && ending[0] == '.' && #[trigger] ending.is_suffix_of(
            name,
        ) implies false by {
        assert(name.subrange(name.len() - ending.len(), name.len() as int)[0] == name[name.len()
            - ending.len()]);
    }
    assert forall|k: nat| name != #[trigger] sheet_name(k) by {
        assert(sheet_name(k)[0] == 't');
    }
}

} // verus!
