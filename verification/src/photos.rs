//! The record kept for each photo or video, and the names of the files that
//! are derived from it.

use vstd::prelude::*;
use vstd::string::StringExecFns;

use crate::text::{
    all_digits, chars_of, decimal_text, decimal_value, ends_with, is_digit, is_digit_char,
    lemma_decimal_text, lemma_decimal_value_text, push_decimal, push_str, slice_of, starts_with,
    to_string,
};
use crate::timestamp::Timestamp;

verus! {

/// The name of the file that holds a gallery's records, inside its directory.
pub const MD_FILE: &'static str = "metadata";

/// The edge of a square thumbnail, in pixels.
pub const THUMBNAIL_SIZE: u32 = 100;

/// One photo or video of a gallery.
#[derive(Clone, Debug, PartialEq, Eq)]
pub struct Image {
    /// The file's name, relative to the gallery's directory.
    pub path: String,
    pub caption: String,
    /// When it was taken; the epoch until that is resolved.
    pub time: Timestamp,
    /// Width in pixels; 0 until known.
    pub width: u16,
    /// Height in pixels; 0 until known.
    pub height: u16,
    /// Whether a downscaled copy of the video is served in its place.
    pub mp4_scaled: bool,
    pub location: Option<String>,
}

/// An `Image` with its texts as sequences of characters.
pub struct ImageView {
    pub path: Seq<char>,
    pub caption: Seq<char>,
    pub time: Timestamp,
    pub width: u16,
    pub height: u16,
    pub mp4_scaled: bool,
    pub location: Option<Seq<char>>,
}

impl View for Image {
    type V = ImageView;

    open spec fn view(&self) -> ImageView {
        ImageView {
            path: self.path@,
            caption: self.caption@,
            time: self.time,
            width: self.width,
            height: self.height,
            mp4_scaled: self.mp4_scaled,
            location: match self.location {
                Some(l) => Some(l@),
                None => None,
            },
        }
    }
}

/// What a list of images holds: the view of each, in order.
pub open spec fn gallery(images: Seq<Image>) -> Seq<ImageView> {
    Seq::new(images.len(), |i: int| images[i]@)
}

/// Whether the time of every record names a day that exists and a time on it.
pub open spec fn times_wf(images: Seq<Image>) -> bool {
    forall|i: int| 0 <= i < images.len() ==> (#[trigger] images[i]).time.wf()
}

/// Whether the time of every record names a day that exists and a time on it.
pub fn times_valid(images: &Vec<Image>) -> (r: bool)
    ensures
        r == times_wf(images@),
{
    let mut i: usize = 0;
    while i < images.len()
        invariant
            i <= images.len(),
            forall|j: int| 0 <= j < i ==> (#[trigger] images[j]).time.wf(),
        decreases images.len() - i,
    {
        if !images[i].time.is_valid() {
            return false;
        }
        i += 1;
    }
    true
}

/// Whether a file name has the ending of a still picture.
pub open spec fn jpg_name(name: Seq<char>) -> bool {
    ".jpg"@.is_suffix_of(name) || ".JPG"@.is_suffix_of(name)
}

/// Whether a file name has the ending of a video.
pub open spec fn mp4_name(name: Seq<char>) -> bool {
    ||| ".mp4"@.is_suffix_of(name)
    ||| ".MP4"@.is_suffix_of(name)
    ||| ".mov"@.is_suffix_of(name)
    ||| ".MOV"@.is_suffix_of(name)
    ||| ".avi"@.is_suffix_of(name)
    ||| ".AVI"@.is_suffix_of(name)
}

impl Image {
    /// Whether this record is a video.
    pub fn is_mp4(&self) -> (r: bool)
        ensures
            r == mp4_name(self.path@),
    {
        is_mp4(&self.path)
    }

    /// A copy of this record.
    pub fn duplicate(&self) -> (r: Image)
        ensures
            r@ == self@,
    {
        Image {
            path: self.path.clone(),
            caption: self.caption.clone(),
            time: self.time,
            width: self.width,
            height: self.height,
            mp4_scaled: self.mp4_scaled,
            location: match &self.location {
                Some(l) => Some(l.clone()),
                None => None,
            },
        }
    }
}

/// The name of the downscaled copy of a video.
pub fn as_scaled(file_name: &String) -> (r: String)
    ensures
        r@ == file_name@ + ".scaled.mp4"@,
{
    let mut r = file_name.clone();
    r.append(".scaled.mp4");
    r
}

/// The name of the still picture that stands for a video.
pub fn as_preview(file_name: &String) -> (r: String)
    ensures
        r@ == file_name@ + ".preview.jpg"@,
{
    let mut r = file_name.clone();
    r.append(".preview.jpg");
    r
}

/// Whether `file_name` ends as a still picture does.
pub fn is_jpg(file_name: &String) -> (r: bool)
    ensures
        r == jpg_name(file_name@),
{
    let name = chars_of(file_name.as_str());
    ends_with(&name, &chars_of(".jpg")) || ends_with(&name, &chars_of(".JPG"))
}

/// Whether `file_name` ends as a video does.
pub fn is_mp4(file_name: &String) -> (r: bool)
    ensures
        r == mp4_name(file_name@),
{
    let name = chars_of(file_name.as_str());
    ends_with(&name, &chars_of(".mp4")) || ends_with(&name, &chars_of(".MP4")) || ends_with(
        &name,
        &chars_of(".mov"),
    ) || ends_with(&name, &chars_of(".MOV")) || ends_with(&name, &chars_of(".avi")) || ends_with(
        &name,
        &chars_of(".AVI"),
    )
}

/// The gallery `images` with the caption of the record at `index` set to
/// `caption`; the gallery itself where it has no such record.
pub open spec fn with_caption(images: Seq<ImageView>, index: int, caption: Seq<char>) -> Seq<
    ImageView,
> {
    if 0 <= index < images.len() {
        images.update(index, ImageView { caption: caption, ..images[index] })
    } else {
        images
    }
}

/// Sets the caption of the record at index `id`, and says whether there is
/// such a record. Nothing else changes.
pub fn update_caption(images: &mut Vec<Image>, id: usize, caption: &String) -> (found: bool)
    ensures
        gallery(final(images)@) == with_caption(gallery(old(images)@), id as int, caption@),
        found == (id < old(images).len()),
        times_wf(old(images)@) ==> times_wf(final(images)@),
{
    if id >= images.len() {
        return false;
    }
    let current = &images[id];
    let changed = Image {
        path: current.path.clone(),
        caption: caption.clone(),
        time: current.time,
        width: current.width,
        height: current.height,
        mp4_scaled: current.mp4_scaled,
        location: match &current.location {
            Some(l) => Some(l.clone()),
            None => None,
        },
    };
    images.set(id, changed);
    assert(gallery(images@) =~= with_caption(gallery(old(images)@), id as int, caption@));
    true
}

/// The greatest number of rows of pixels that a sheet of thumbnails may
/// have.
pub const MAX_ROWS_IN_JPG: usize = 0x10000;

/// The greatest number of thumbnails on one sheet.
pub const MAX_TN_COUNT: usize = 655;

/// The number of sheets that `count` thumbnails take at `per` a sheet: the
/// quotient, rounded up.
pub open spec fn sheet_count(count: nat, per: nat) -> nat {
    if per == 0 {
        0
    } else {
        ((count + per - 1) / (per as int)) as nat
    }
}

/// The index of the first thumbnail on sheet `k`.
pub open spec fn sheet_start(k: nat, per: nat) -> nat {
    k * per
}

/// The index after the last thumbnail on sheet `k` of a gallery of `count`.
pub open spec fn sheet_end(k: nat, count: nat, per: nat) -> nat {
    if (k + 1) * per <= count {
        (k + 1) * per
    } else {
        count
    }
}

/// The file name of sheet `k`: the first has none, the others their number.
pub open spec fn sheet_name(k: nat) -> Seq<char> {
    if k == 0 {
        "thumbnails.jpg"@
    } else {
        "thumbnails"@ + decimal_text(k) + ".jpg"@
    }
}

/// Whether a file name is that of a sheet of thumbnails.
pub open spec fn is_sheet_name(name: Seq<char>) -> bool {
    exists|k: nat| name == #[trigger] sheet_name(k)
}

/// A name made of the two parts of a sheet's name with `middle` between them
/// begins with the first, ends with the second, and has `middle` between.
proof fn lemma_sheet_parts(name: Seq<char>, middle: Seq<char>)
    requires
        name == "thumbnails"@ + middle + ".jpg"@,
    ensures
        name.len() == "thumbnails"@.len() + middle.len() + ".jpg"@.len(),
        "thumbnails"@.is_prefix_of(name),
        ".jpg"@.is_suffix_of(name),
        name.subrange("thumbnails"@.len() as int, name.len() - ".jpg"@.len()) == middle,
{
    let head = "thumbnails"@;
    let tail = ".jpg"@;
    assert(name.subrange(0, head.len() as int) =~= head);
    assert(name.subrange(name.len() - tail.len(), name.len() as int) =~= tail);
    assert(name.subrange(head.len() as int, name.len() - tail.len()) =~= middle);
}

/// Whether `file_name` is the name of a sheet of thumbnails: `thumbnails.jpg`,
/// or `thumbnails`, a number from 1 up without zeros in front, and `.jpg`.
pub fn names_sheet(file_name: &str) -> (r: bool)
    ensures
        r == is_sheet_name(file_name@),
{
    let name = chars_of(file_name);
    let head = chars_of("thumbnails");
    let tail = chars_of(".jpg");
    proof {
        lemma_first_sheet_name();
        assert forall|k: nat| name@ == #[trigger] sheet_name(k) implies {
            let middle = name@.subrange(head@.len() as int, name@.len() - tail@.len());
            &&& name@.len() >= head@.len() + tail@.len()
            &&& head@.is_prefix_of(name@)
            &&& tail@.is_suffix_of(name@)
            &&& k == 0 ==> middle.len() == 0
            &&& k > 0 ==> middle.len() > 0 && all_digits(middle) && middle[0] != '0'
        } by {
            if k == 0 {
                assert(name@ =~= head@ + Seq::<char>::empty() + tail@);
                lemma_sheet_parts(name@, Seq::empty());
            } else {
                lemma_sheet_parts(name@, decimal_text(k));
                lemma_decimal_text(k);
            }
        }
    }
    if name.len() < head.len() || name.len() - head.len() < tail.len() || !starts_with(&name, &head)
        || !ends_with(&name, &tail) {
        return false;
    }
    let middle = slice_of(&name, head.len(), name.len() - tail.len());
    assert(name@ =~= head@ + middle@ + tail@) by {
        assert(name@.subrange(0, head@.len() as int) == head@);
        assert(name@.subrange(name@.len() - tail@.len(), name@.len() as int) == tail@);
    }
    if middle.len() == 0 {
        assert(name@ =~= sheet_name(0));
        return true;
    }
    if middle[0] == '0' {
        return false;
    }
    let mut i: usize = 0;
    while i < middle.len()
        invariant
            i <= middle.len(),
            forall|j: int| 0 <= j < i ==> is_digit(#[trigger] middle@[j]),
            head@.len() + tail@.len() <= name@.len(),
            name@ == file_name@,
            middle@ == name@.subrange(head@.len() as int, name@.len() - tail@.len()),
            forall|k: nat|
                name@ == #[trigger] sheet_name(k) ==> k > 0 && all_digits(
                    name@.subrange(head@.len() as int, name@.len() - tail@.len()),
                ),
        decreases middle.len() - i,
    {
        if !is_digit_char(middle[i]) {
            proof {
                assert forall|k: nat| name@ != #[trigger] sheet_name(k) by {
                    if name@ == sheet_name(k) {
                        assert(is_digit(middle@[i as int]));
                    }
                }
            }
            return false;
        }
        i += 1;
    }
    proof {
        lemma_decimal_value_text(middle@);
        assert(name@ == sheet_name(decimal_value(middle@)));
    }
    true
}

/// One sheet of thumbnails: its file, and the records `start..end` that it
/// shows, one below the other.
#[derive(Clone, Debug, PartialEq, Eq)]
pub struct Sheet {
    pub file_name: String,
    pub start: usize,
    pub end: usize,
}

/// Whether `sheet` is sheet `k` of a gallery of `count` records.
pub open spec fn is_sheet(sheet: Sheet, k: nat, count: nat) -> bool {
    &&& sheet.file_name@ == sheet_name(k)
    &&& sheet.start == sheet_start(k, MAX_TN_COUNT as nat)
    &&& sheet.end == sheet_end(k, count, MAX_TN_COUNT as nat)
}

/// The sheets of thumbnails that a gallery takes, in order. Each but the last
/// is full, none is empty, and together they show every record once.
pub fn make_preview(images: &Vec<Image>) -> (sheets: Vec<Sheet>)
    ensures
        sheets.len() == sheet_count(images.len() as nat, MAX_TN_COUNT as nat),
        forall|k: int| 0 <= k < sheets.len() ==> is_sheet(#[trigger] sheets[k], k as nat, images.len() as nat),
        forall|k: int|
            0 <= k < sheets.len() ==> (#[trigger] sheets[k]).start < sheets[k].end
                <= images.len() && sheets[k].end - sheets[k].start <= MAX_TN_COUNT,
{
    let count = images.len();
    let mut sheets: Vec<Sheet> = Vec::new();
    let mut start: usize = 0;
    let mut img_no: usize = 0;
    while start < count
        invariant
            start == img_no * MAX_TN_COUNT || (start == count && img_no == sheet_count(
                count as nat,
                MAX_TN_COUNT as nat,
            )),
            start <= count == images.len(),
            sheets.len() == img_no,
            start < count ==> img_no < sheet_count(count as nat, MAX_TN_COUNT as nat),
            start == count ==> img_no == sheet_count(count as nat, MAX_TN_COUNT as nat),
            forall|k: int|
                0 <= k < sheets.len() ==> is_sheet(#[trigger] sheets[k], k as nat, count as nat),
            forall|k: int|
                0 <= k < sheets.len() ==> (#[trigger] sheets[k]).start < sheets[k].end <= count
                    && sheets[k].end - sheets[k].start <= MAX_TN_COUNT,
        decreases count - start,
    {
        let end: usize = if count - start > MAX_TN_COUNT {
            start + MAX_TN_COUNT
        } else {
            count
        };
        let mut name: Vec<char> = Vec::new();
        push_str(&mut name, "thumbnails");
        if img_no > 0 {
            push_decimal(&mut name, img_no as u64);
        }
        push_str(&mut name, ".jpg");
        let file_name = to_string(&name);
        proof {
            if img_no == 0 {
                lemma_first_sheet_name();
            }
        }
        sheets.push(Sheet { file_name, start, end });
        start = end;
        img_no += 1;
    }
    sheets
}

/// The name of the first sheet is the two parts of a sheet's name, joined.
proof fn lemma_first_sheet_name()
    ensures
        "thumbnails"@ + ".jpg"@ == "thumbnails.jpg"@,
{
    reveal_strlit("thumbnails");
    reveal_strlit(".jpg");
    reveal_strlit("thumbnails.jpg");
    assert("thumbnails"@ + ".jpg"@ =~= "thumbnails.jpg"@);
}

/// Where thumbnail `index` of a gallery of `count` records stands, at `per`
/// thumbnails a sheet: on sheet `index / per`, which exists and shows it,
/// `index % per` places below the sheet's first.
pub proof fn lemma_sheet_of_index(index: nat, count: nat, per: nat)
    requires
        per > 0,
        index < count,
    ensures
        index / per < sheet_count(count, per),
        sheet_start(index / per, per) <= index < sheet_end(index / per, count, per),
        index - sheet_start(index / per, per) == index % per,
{
    let k = index / per;
    vstd::arithmetic::div_mod::lemma_fundamental_div_mod(index as int, per as int);
    vstd::arithmetic::mul::lemma_mul_is_commutative(per as int, k as int);
    assert((k + 1) * per == k * per + per) by (nonlinear_arith);
    let total = (count + per - 1) as int;
    let sheets = total / (per as int);
    vstd::arithmetic::div_mod::lemma_fundamental_div_mod(total, per as int);
    vstd::arithmetic::mul::lemma_mul_is_commutative(per as int, sheets);
    if sheets <= k {
        assert(sheets * per <= k * per) by (nonlinear_arith)
            requires
                sheets <= k,
                per > 0,
        ;
    }
}

/// The sheet that shows thumbnail `index`, and how many places it stands
/// below the sheet's first.
pub fn sheet_of(index: usize) -> (r: (usize, usize))
    ensures
        r.0 == index / MAX_TN_COUNT,
        r.1 == index % MAX_TN_COUNT,
        sheet_start(r.0 as nat, MAX_TN_COUNT as nat) + r.1 == index,
{
    (index / MAX_TN_COUNT, index % MAX_TN_COUNT)
}

/// The rows of a sheet that the thumbnail `offset` places below its first
/// takes: from the first of the two up to, but without, the second.
pub fn thumbnail_rows(offset: usize) -> (r: (u32, u32))
    requires
        offset < MAX_TN_COUNT,
    ensures
        r.0 == offset * THUMBNAIL_SIZE,
        r.1 == (offset + 1) * THUMBNAIL_SIZE,
        r.1 <= MAX_ROWS_IN_JPG,
{
    let top: u32 = (offset as u32) * THUMBNAIL_SIZE;
    (top, top + THUMBNAIL_SIZE)
}

/// The size to which a picture of `src_w` by `src_h` pixels is scaled to fit
/// a box of `w` by `h`: both sides times the lesser of `w / src_w` and
/// `h / src_h`, rounded down, and the picture's own size where that factor is
/// 1 or more. A side of 0 pixels sets no factor.
pub open spec fn scaled_size(src_w: int, src_h: int, w: int, h: int) -> (int, int) {
    if (src_w == 0 || w >= src_w) && (src_h == 0 || h >= src_h) {
        (src_w, src_h)
    } else if src_h == 0 || (src_w != 0 && w * src_h <= h * src_w) {
        (w, src_h * w / src_w)
    } else {
        (src_w * h / src_h, h)
    }
}

/// The size to which a picture of `src_w` by `src_h` pixels is scaled to fit
/// a box of `width` by `height`. It is never larger than the picture, nor
/// than the box.
pub fn resize_dimensions(src_w: u32, src_h: u32, width: u32, height: u32) -> (r: (u32, u32))
    ensures
        (r.0 as int, r.1 as int) == scaled_size(
            src_w as int,
            src_h as int,
            width as int,
            height as int,
        ),
        r.0 <= src_w && r.1 <= src_h,
        r.0 <= width && r.1 <= height,
{
    if (src_w == 0 || width >= src_w) && (src_h == 0 || height >= src_h) {
        return (src_w, src_h);
    }
    let sw = src_w as u64;
    let sh = src_h as u64;
    let w = width as u64;
    let h = height as u64;
    assert(w * sh <= 0xffff_ffff * 0xffff_ffff && h * sw <= 0xffff_ffff * 0xffff_ffff) by (nonlinear_arith)
        requires
            w <= 0xffff_ffff,
            sh <= 0xffff_ffff,
            h <= 0xffff_ffff,
            sw <= 0xffff_ffff,
    ;
    if src_h == 0 || (src_w != 0 && w * sh <= h * sw) {
        assert(w < sw) by (nonlinear_arith)
            requires
                sh == 0 || (sw != 0 && w * sh <= h * sw),
                !((sw == 0 || w >= sw) && (sh == 0 || h >= sh)),
                sw >= 0,
                sh >= 0,
                w >= 0,
                h >= 0,
        ;
        let other = sh * w / sw;
        proof {
            lemma_scaled_side(sh as int, w as int, sw as int, h as int);
        }
        (width, other as u32)
    } else {
        assert(h < sh) by (nonlinear_arith)
            requires
                sh != 0 && (sw == 0 || w * sh > h * sw),
                !((sw == 0 || w >= sw) && (sh == 0 || h >= sh)),
                sw >= 0,
                sh >= 0,
                w >= 0,
                h >= 0,
        ;
        let other = sw * h / sh;
        proof {
            lemma_scaled_side(sw as int, h as int, sh as int, w as int);
        }
        (other as u32, height)
    }
}

/// A side of `side` pixels scaled by `num / den`, where that is less than 1
/// and the other side scaled so stays within `bound`, is no longer than
/// before and within `bound`.
proof fn lemma_scaled_side(side: int, num: int, den: int, bound: int)
    requires
        0 <= side,
        0 <= num,
        0 < den,
        0 <= bound,
        side == 0 || num * side <= bound * den,
        side == 0 || num < den,
    ensures
        0 <= side * num / den <= side,
        side * num / den <= bound,
{
    let q = side * num / den;
    vstd::arithmetic::div_mod::lemma_fundamental_div_mod(side * num, den);
    assert(0 <= side * num) by (nonlinear_arith)
        requires
            0 <= side,
            0 <= num,
    ;
    assert(den * q <= side * num);
    assert(q >= 0) by (nonlinear_arith)
        requires
            den * q + (side * num) % den == side * num,
            0 <= (side * num) % den < den,
            0 <= side * num,
            den > 0,
    ;
    if side > 0 {
        assert(q <= side) by (nonlinear_arith)
            requires
                den * q <= side * num,
                num < den,
                side > 0,
                q >= 0,
                num >= 0,
        ;
        assert(q <= bound) by (nonlinear_arith)
            requires
                den * q <= side * num,
                num * side <= bound * den,
                den > 0,
        ;
    } else {
        assert(side * num == 0) by (nonlinear_arith)
            requires
                side == 0,
        ;
    }
}

/// The area, in pixels, above which the preview of a video is scaled down.
pub const PREVIEW_AREA: u64 = 2_073_600;

/// Whether `side` is one side of a picture, of `this` pixels, scaled so that
/// the picture's area becomes `PREVIEW_AREA`, and rounded down: `this` times
/// the square root of `PREVIEW_AREA / (this * other)`.
pub open spec fn is_preview_side(side: int, this: int, other: int) -> bool {
    &&& 0 <= side
    &&& side * side * other <= this * PREVIEW_AREA
    &&& this * PREVIEW_AREA < (side + 1) * (side + 1) * other
}

/// The greatest number whose square is at most `n`.
pub fn integer_sqrt(n: u64) -> (r: u64)
    ensures
        r * r <= n < (r + 1) * (r + 1),
{
    let mut lo: u64 = 0;
    let mut hi: u64 = 0x1_0000_0000;
    assert(0x1_0000_0000 * 0x1_0000_0000 == 0x1_0000_0000_0000_0000) by (nonlinear_arith);
    while hi - lo > 1
        invariant
            lo < hi <= 0x1_0000_0000,
            lo * lo <= n < hi * hi,
        decreases hi - lo,
    {
        let mid: u64 = lo + (hi - lo) / 2;
        let wide = mid as u128;
        assert(wide * wide < 0x1_0000_0000 * 0x1_0000_0000) by (nonlinear_arith)
            requires
                0 <= wide < 0x1_0000_0000,
        ;
        if wide * wide <= n as u128 {
            lo = mid;
        } else {
            hi = mid;
        }
    }
    lo
}

/// The box into which the preview of a video of `width` by `height` pixels
/// is scaled: none where its area is at most `PREVIEW_AREA`; else both sides
/// scaled by the same factor, such that the area becomes `PREVIEW_AREA`, and
/// rounded down.
pub fn preview_size(width: u16, height: u16) -> (r: Option<(u32, u32)>)
    ensures
        match r {
            None => width * height <= PREVIEW_AREA,
            Some((w, h)) => width * height > PREVIEW_AREA && is_preview_side(
                w as int,
                width as int,
                height as int,
            ) && is_preview_side(h as int, height as int, width as int),
        },
{
    let w = width as u64;
    let h = height as u64;
    assert(w * h <= 0xffff * 0xffff) by (nonlinear_arith)
        requires
            w <= 0xffff,
            h <= 0xffff,
    ;
    if w * h <= PREVIEW_AREA {
        return None;
    }
    assert(w > 0 && h > 0) by (nonlinear_arith)
        requires
            w * h > 0,
            w >= 0,
            h >= 0,
    ;
    let pw = preview_side(w, h);
    let ph = preview_side(h, w);
    Some((pw as u32, ph as u32))
}

/// One side of the preview of a video: `this` times the square root of
/// `PREVIEW_AREA / (this * other)`, rounded down.
fn preview_side(this: u64, other: u64) -> (side: u64)
    requires
        0 < this <= 0xffff,
        0 < other <= 0xffff,
    ensures
        is_preview_side(side as int, this as int, other as int),
        side < 0x100_0000,
{
    assert(this * PREVIEW_AREA <= 0xffff * 2_073_600) by (nonlinear_arith)
        requires
            this <= 0xffff,
            PREVIEW_AREA == 2_073_600,
    ;
    let scaled = this * PREVIEW_AREA;
    let q = scaled / other;
    let side = integer_sqrt(q);
    proof {
        let s = side as int;
        let o = other as int;
        vstd::arithmetic::div_mod::lemma_fundamental_div_mod(scaled as int, o);
        assert(o * (q as int) <= scaled < o * (q as int) + o);
        assert(s * s * o <= scaled) by (nonlinear_arith)
            requires
                s * s <= q,
                o * (q as int) <= scaled,
                o > 0,
        ;
        assert(scaled < (s + 1) * (s + 1) * o) by (nonlinear_arith)
            requires
                q < (s + 1) * (s + 1),
                scaled < o * (q as int) + o,
                o > 0,
        ;
        assert(s < 0x100_0000) by (nonlinear_arith)
            requires
                s * s <= q,
                q < 0x1_0000_0000_0000,
                s >= 0,
        ;
    }
    side
}

} // verus!
