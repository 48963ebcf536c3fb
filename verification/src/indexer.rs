//! Building a gallery from the output of the metadata probe: which time each
//! file was taken at, which captions carry over, and which files are left-overs
//! of an earlier run.

use vstd::prelude::*;
use vstd::string::StringExecFns;

use crate::photos::{gallery, mp4_name, times_wf, Image, ImageView};
use crate::sort::{
    first_without_number, is_stable_sort, numbers_of, sort_by_number, sort_by_time, times_of,
    KeySeq,
};
use crate::text::{
    all_digits, chars_of, contains, contains_text, decimal_text, decimal_value, digit_char,
    digits_of, ends_with, digit_run, find_char, first_index, is_digit, last_occurrence,
    lemma_first_index, lemma_strings_push, lines, lines_of, parse_number, parsed_number,
    push_zero_padded, rfind, slice_of, split, split_chars, starts_with, string_of, strings,
    texts, to_string, zero_padded,
};
use crate::textmap::TextMap;
use crate::timestamp::{parse_datetime, parsed_datetime, Timestamp};

verus! {

/// How the probe writes a date: `2023:01:15 14:30:22`.
pub const PROBE_FORMAT: &'static str = "%Y:%m:%d %H:%M:%S";

/// How a file name writes a date: `20230115143022`.
pub const FILENAME_FORMAT: &'static str = "%Y%m%d%H%M%S";

/// Why a file name gave no time.
#[derive(Clone, Copy, Debug, PartialEq, Eq, Structural)]
pub enum DateError {
    /// The name does not hold exactly fourteen digits.
    NotFourteenDigits,
    /// The digits name no date, neither as a time of day nor as a counter.
    InvalidDate,
}

/// The digits of a file name: its longest run of consecutive decimal
/// digits, the first where two are equally long.
pub fn get_digits(s: &String) -> (r: String)
    ensures
        r@ == digits_of(s@),
        all_digits(r@),
{
    let digits = digit_run(&chars_of(s.as_str()));
    to_string(&digits)
}

/// What a line of the probe says after its last `": "`, if it holds one.
pub open spec fn field_value(line: Seq<char>) -> Option<Seq<char>> {
    let i = last_occurrence(line, ": "@);
    if i < 0 {
        None
    } else {
        Some(line.skip(i + ": "@.len()))
    }
}

/// The time that a line of the probe states, if it states one.
pub open spec fn probe_time(line: Seq<char>) -> Option<Timestamp> {
    match field_value(line) {
        Some(v) => parsed_datetime(v, PROBE_FORMAT@),
        None => None,
    }
}

/// What a line of the probe says after its last `": "`.
pub fn value_of_field(line: &Vec<char>) -> (r: Option<Vec<char>>)
    ensures
        match r {
            Some(v) => field_value(line@) == Some(v@),
            None => field_value(line@) is None,
        },
{
    let pat = chars_of(": ");
    match rfind(line, &pat) {
        Some(i) => {
            let end = line.len();
            let v = slice_of(line, i + pat.len(), end);
            assert(v@ =~= line@.skip(i + pat@.len()));
            Some(v)
        },
        None => None,
    }
}

/// The time that a line of the probe states.
pub fn time_of_field(line: &Vec<char>) -> (r: Option<Timestamp>)
    ensures
        r == probe_time(line@),
        r matches Some(t) ==> t.wf(),
{
    match value_of_field(line) {
        Some(v) => {
            let text = to_string(&v);
            parse_datetime(text.as_str(), PROBE_FORMAT)
        },
        None => None,
    }
}

/// Sets the time of `image` to the one that a line of the probe states. A
/// line that states none leaves the image as it is.
pub fn assign_date(exiftool_line: &str, image: &mut Image)
    ensures
        final(image)@ == (ImageView {
            time: match probe_time(exiftool_line@) {
                Some(t) => t,
                None => old(image).time,
            },
            ..old(image)@
        }),
        old(image).time.wf() ==> final(image).time.wf(),
{
    let line = chars_of(exiftool_line);
    match time_of_field(&line) {
        Some(t) => {
            image.time = t;
        },
        None => {},
    }
}

/// The date that fourteen digits state when the last six count seconds: the
/// day as written, hour 0, and the count as minutes and seconds.
pub open spec fn counter_text(digits: Seq<char>) -> Seq<char> {
    let count = decimal_value(digits.skip(8));
    digits.take(8) + seq!['0', '0'] + zero_padded(count / 60, 2) + zero_padded(count % 60, 2)
}

/// The time that a file name states: its digits read as a date and a time of
/// day or, where that is no time, as a date and a count of seconds.
pub open spec fn filename_time(path: Seq<char>) -> Result<Timestamp, DateError> {
    let digits = digits_of(path);
    time_of_name(
        digits.len(),
        parsed_datetime(digits, FILENAME_FORMAT@),
        parsed_datetime(counter_text(digits), FILENAME_FORMAT@),
    )
}

/// The time that the digits of a file name state, given how many they are,
/// the time they state read as a date and a time of day, and the time they
/// state with the last six read as a count of seconds, each `None` where it
/// is no time: the first where it is one, else the second; an error where
/// the digits are not fourteen, or state no time either way.
pub open spec fn time_of_name(
    digit_count: nat,
    as_time: Option<Timestamp>,
    as_counter: Option<Timestamp>,
) -> Result<Timestamp, DateError> {
    if digit_count != 14 {
        Err(DateError::NotFourteenDigits)
    } else {
        match as_time {
            Some(t) => Ok(t),
            None => match as_counter {
                Some(t) => Ok(t),
                None => Err(DateError::InvalidDate),
            },
        }
    }
}

/// The time that the digits of a file name state, given how many they are
/// and what the two readings of them gave.
pub fn filename_time_from(
    digit_count: usize,
    as_time: Option<Timestamp>,
    as_counter: Option<Timestamp>,
) -> (r: Result<Timestamp, DateError>)
    ensures
        r == time_of_name(digit_count as nat, as_time, as_counter),
{
    if digit_count != 14 {
        return Err(DateError::NotFourteenDigits);
    }
    match as_time {
        Some(t) => Ok(t),
        None => match as_counter {
            Some(t) => Ok(t),
            None => Err(DateError::InvalidDate),
        },
    }
}

/// The date that fourteen digits state when the last six count seconds.
pub fn counter_date(digits: &str) -> (r: String)
    requires
        digits@.len() == 14,
        all_digits(digits@),
    ensures
        r@ == counter_text(digits@),
{
    let d = chars_of(digits);
    assert(d@.skip(8).len() == 6);
    assert(all_digits(d@.skip(8))) by {
        assert forall|i: int| 0 <= i < d@.skip(8).len() implies is_digit(
            #[trigger] d@.skip(8)[i],
        ) by {
            assert(d@.skip(8)[i] == d@[i + 8]);
        }
    }
    proof {
        lemma_six_digits(d@.skip(8));
    }
    let count: u64 = match parse_number(&d, 8, 999_999) {
        Some(c) => c,
        None => 0,
    };
    assert(count == decimal_value(d@.skip(8)));
    let mut out = slice_of(&d, 0, 8);
    assert(out@ =~= d@.take(8));
    out.push('0');
    out.push('0');
    assert(out@ =~= d@.take(8) + seq!['0', '0']);
    push_zero_padded(&mut out, count / 60, 2);
    push_zero_padded(&mut out, count % 60, 2);
    to_string(&out)
}

/// Six digits write a number below a million.
pub proof fn lemma_six_digits(s: Seq<char>)
    requires
        s.len() == 6,
        all_digits(s),
    ensures
        decimal_value(s) <= 999_999,
{
    let s5 = s.drop_last();
    let s4 = s5.drop_last();
    let s3 = s4.drop_last();
    let s2 = s3.drop_last();
    let s1 = s2.drop_last();
    assert(s1.drop_last().len() == 0);
    assert(decimal_value(s1.drop_last()) == 0);
    assert(s1.last() == s[0] && s2.last() == s[1] && s3.last() == s[2] && s4.last() == s[3]
        && s5.last() == s[4]);
    assert(decimal_value(s1) <= 9);
    assert(decimal_value(s2) <= 99);
    assert(decimal_value(s3) <= 999);
    assert(decimal_value(s4) <= 9_999);
    assert(decimal_value(s5) <= 99_999);
}

/// Sets the time of `image` to the one that its file name states.
pub fn assign_date_from_filename(image: &mut Image) -> (r: Result<(), DateError>)
    ensures
        match r {
            Ok(_) => filename_time(old(image).path@) is Ok && final(image)@ == (ImageView {
                time: filename_time(old(image).path@)->Ok_0,
                ..old(image)@
            }) && final(image).time.wf(),
            Err(e) => filename_time(old(image).path@) == Err::<Timestamp, DateError>(e)
                && final(image)@ == old(image)@,
        },
{
    let date = get_digits(&image.path);
    let count = chars_of(date.as_str()).len();
    let mut as_time: Option<Timestamp> = None;
    let mut as_counter: Option<Timestamp> = None;
    if count == 14 {
        as_time = parse_datetime(date.as_str(), FILENAME_FORMAT);
        if as_time.is_none() {
            let counted = counter_date(date.as_str());
            as_counter = parse_datetime(counted.as_str(), FILENAME_FORMAT);
        }
    }
    match filename_time_from(count, as_time, as_counter) {
        Ok(t) => {
            image.time = t;
            Ok(())
        },
        Err(e) => Err(e),
    }
}

/// What stands between the third and the fourth double quote of a line, or
/// after the third where there is no fourth; `None` where the line holds fewer
/// than three.
pub open spec fn quoted_value(line: Seq<char>) -> Option<Seq<char>> {
    let parts = split(line, '"');
    if parts.len() >= 4 {
        Some(parts[3])
    } else {
        None
    }
}

/// What stands between the third and the fourth double quote of a line.
pub fn value_in_quotes(line: &Vec<char>) -> (r: Option<Vec<char>>)
    ensures
        match r {
            Some(v) => quoted_value(line@) == Some(v@),
            None => quoted_value(line@) is None,
        },
{
    let parts = split_chars(line, '"');
    if parts.len() >= 4 {
        let part = &parts[3];
        let v = slice_of(part, 0, part.len());
        assert(v@ =~= part@);
        assert(texts(parts@)[3] == part@);
        Some(v)
    } else {
        None
    }
}

/// The value of a line of a record file such as `    "path": "a.jpg",`: what
/// stands between its third and its fourth double quote.
pub fn extract_value(line: &String) -> (r: String)
    requires
        quoted_value(line@) is Some,
    ensures
        Some(r@) == quoted_value(line@),
{
    let l = chars_of(line.as_str());
    match value_in_quotes(&l) {
        Some(v) => to_string(&v),
        None => String::new(),
    }
}

/// The file name and the caption that a line of a caption file holds: what
/// stands before its first space, and what stands after it.
pub open spec fn caption_entry(line: Seq<char>) -> Option<(Seq<char>, Seq<char>)> {
    let i = first_index(line, ' ');
    if 0 <= i < line.len() {
        Some((line.take(i), line.skip(i + 1)))
    } else {
        None
    }
}

/// The captions that the lines of a caption file give, a later line for a
/// name replacing an earlier one. A line without a space gives none.
pub open spec fn sidecar_captions(lines: Seq<Seq<char>>) -> Map<Seq<char>, Seq<char>>
    decreases lines.len(),
{
    if lines.len() == 0 {
        Map::empty()
    } else {
        let before = sidecar_captions(lines.drop_last());
        match caption_entry(lines.last()) {
            Some((name, caption)) => before.insert(name, caption),
            None => before,
        }
    }
}

/// How a line that names a file begins in a record file.
pub const PATH_LINE: &'static str = "    \"path";

/// How a line that holds a caption begins in a record file.
pub const CAPTION_LINE: &'static str = "    \"caption";

/// The captions read so far from the lines of a record file, and the file
/// name that the next caption belongs to. A line without a value is passed
/// over.
pub open spec fn recovered(lines: Seq<Seq<char>>) -> (Map<Seq<char>, Seq<char>>, Seq<char>)
    decreases lines.len(),
{
    if lines.len() == 0 {
        (Map::empty(), Seq::empty())
    } else {
        let (captions, path) = recovered(lines.drop_last());
        let line = lines.last();
        match quoted_value(line) {
            Some(v) => if PATH_LINE@.is_prefix_of(line) {
                (captions, v)
            } else if CAPTION_LINE@.is_prefix_of(line) {
                (captions.insert(path, v), path)
            } else {
                (captions, path)
            },
            None => (captions, path),
        }
    }
}

/// The captions that survive from an earlier run: those of the caption file
/// where there is one, else those of the old record file, else none.
pub open spec fn known_captions(sidecar: Option<Seq<char>>, records: Option<Seq<char>>) -> Map<
    Seq<char>,
    Seq<char>,
> {
    match sidecar {
        Some(text) => sidecar_captions(lines(text)),
        None => match records {
            Some(text) => recovered(lines(text)).0,
            None => Map::empty(),
        },
    }
}

/// The captions that a caption file gives.
pub fn read_caption_file(text: &str) -> (m: TextMap)
    ensures
        m@ == sidecar_captions(lines(text@)),
{
    let all = lines_of(&chars_of(text));
    let mut m = TextMap::new();
    let mut i: usize = 0;
    assert(texts(all@).take(0) =~= Seq::empty());
    while i < all.len()
        invariant
            i <= all.len(),
            texts(all@) == lines(text@),
            m@ == sidecar_captions(texts(all@).take(i as int)),
        decreases all.len() - i,
    {
        let line = &all[i];
        proof {
            let upto = texts(all@).take(i + 1);
            assert(upto.drop_last() =~= texts(all@).take(i as int));
            assert(upto.last() == line@);
            lemma_first_index(line@, ' ');
        }
        let at = find_char(line, 0, ' ');
        assert(line@.skip(0) == line@);
        if at < line.len() {
            let name = string_of(line, 0, at);
            let caption = string_of(line, at + 1, line.len());
            assert(name@ =~= line@.take(at as int));
            assert(caption@ =~= line@.skip(at + 1));
            m.insert(name, caption);
        }
        i += 1;
    }
    assert(texts(all@).take(i as int) =~= texts(all@));
    m
}

/// The captions that an old record file gives.
pub fn recover_captions(text: &str) -> (m: TextMap)
    ensures
        m@ == recovered(lines(text@)).0,
{
    let all = lines_of(&chars_of(text));
    let path_line = chars_of(PATH_LINE);
    let caption_line = chars_of(CAPTION_LINE);
    let mut m = TextMap::new();
    let mut path = String::new();
    let mut i: usize = 0;
    assert(texts(all@).take(0) =~= Seq::empty());
    while i < all.len()
        invariant
            i <= all.len(),
            texts(all@) == lines(text@),
            path_line@ == PATH_LINE@,
            caption_line@ == CAPTION_LINE@,
            (m@, path@) == recovered(texts(all@).take(i as int)),
        decreases all.len() - i,
    {
        let line = &all[i];
        proof {
            let upto = texts(all@).take(i + 1);
            assert(upto.drop_last() =~= texts(all@).take(i as int));
            assert(upto.last() == line@);
        }
        match value_in_quotes(line) {
            Some(v) => {
                if starts_with(line, &path_line) {
                    path = to_string(&v);
                } else if starts_with(line, &caption_line) {
                    m.insert(path.clone(), to_string(&v));
                }
            },
            None => {},
        }
        i += 1;
    }
    assert(texts(all@).take(i as int) =~= texts(all@));
    m
}

/// The captions that survive from an earlier run, given the text of the
/// caption file and that of the old record file, where each exists.
pub fn load_captions(sidecar: Option<&str>, records: Option<&str>) -> (m: TextMap)
    ensures
        m@ == known_captions(
            match sidecar {
                Some(t) => Some(t@),
                None => None,
            },
            match records {
                Some(t) => Some(t@),
                None => None,
            },
        ),
{
    match sidecar {
        Some(text) => read_caption_file(text),
        None => match records {
            Some(text) => recover_captions(text),
            None => TextMap::new(),
        },
    }
}

/// How the line that names a file begins in the probe's output.
pub const PATH_DELIMITER: &'static str = "======== ";

/// How the line with the time a picture was taken begins.
pub const ORIGINAL_TAG: &'static str = "Date/Time Original";

/// How the line with the time a file's content was created begins.
pub const CREATED_TAG: &'static str = "Create Date";

/// How the line with the time a file was last written begins.
pub const MODIFIED_TAG: &'static str = "File Modification Date";

/// How the line with the width in pixels begins.
pub const WIDTH_TAG: &'static str = "Image Width";

/// How the line with the height in pixels begins.
pub const HEIGHT_TAG: &'static str = "Image Height";

/// What the probe says of one file: its name, and the lines that follow it.
#[derive(Clone, Debug, PartialEq, Eq)]
pub struct ProbeBlock {
    pub path: String,
    pub fields: Vec<String>,
}

/// A `ProbeBlock` with its texts as sequences of characters.
pub struct BlockView {
    pub path: Seq<char>,
    pub fields: Seq<Seq<char>>,
}

impl View for ProbeBlock {
    type V = BlockView;

    open spec fn view(&self) -> BlockView {
        BlockView { path: self.path@, fields: strings(self.fields@) }
    }
}

/// What a list of blocks holds: the view of each, in order.
pub open spec fn block_views(v: Seq<ProbeBlock>) -> Seq<BlockView> {
    Seq::new(v.len(), |i: int| v[i]@)
}

/// The blocks that the lines of the probe's output fall into. A line that
/// begins with the delimiter opens a block for the file it names; any other
/// line belongs to the block that is open, and to none before the first.
pub open spec fn blocks(lines: Seq<Seq<char>>) -> Seq<BlockView>
    decreases lines.len(),
{
    if lines.len() == 0 {
        Seq::empty()
    } else {
        let before = blocks(lines.drop_last());
        let line = lines.last();
        if PATH_DELIMITER@.is_prefix_of(line) {
            before.push(
                BlockView { path: line.skip(PATH_DELIMITER@.len() as int), fields: Seq::empty() },
            )
        } else if before.len() == 0 {
            before
        } else {
            before.update(
                before.len() - 1,
                BlockView { path: before.last().path, fields: before.last().fields.push(line) },
            )
        }
    }
}

/// The blocks that the probe's output falls into.
pub fn probe_blocks(output: &str) -> (r: Vec<ProbeBlock>)
    ensures
        block_views(r@) == blocks(lines(output@)),
{
    let all = lines_of(&chars_of(output));
    let delimiter = chars_of(PATH_DELIMITER);
    let mut done: Vec<ProbeBlock> = Vec::new();
    let mut open: bool = false;
    let mut path: String = String::new();
    let mut fields: Vec<String> = Vec::new();
    let mut i: usize = 0;
    assert(texts(all@).take(0) =~= Seq::empty());
    assert(block_views(done@) =~= Seq::empty());
    while i < all.len()
        invariant
            i <= all.len(),
            texts(all@) == lines(output@),
            delimiter@ == PATH_DELIMITER@,
            !open ==> done.len() == 0 && blocks(texts(all@).take(i as int)).len() == 0,
            open ==> blocks(texts(all@).take(i as int)) == block_views(done@).push(
                BlockView { path: path@, fields: strings(fields@) },
            ),
        decreases all.len() - i,
    {
        let line = &all[i];
        let ghost before = blocks(texts(all@).take(i as int));
        proof {
            let upto = texts(all@).take(i + 1);
            assert(upto.drop_last() =~= texts(all@).take(i as int));
            assert(upto.last() == line@);
        }
        if starts_with(line, &delimiter) {
            if open {
                let ghost views = block_views(done@);
                let block = ProbeBlock { path, fields };
                done.push(block);
                assert(block_views(done@) =~= views.push(block@));
            }
            let end = line.len();
            path = string_of(line, delimiter.len(), end);
            fields = Vec::new();
            open = true;
            assert(path@ =~= line@.skip(delimiter@.len() as int));
            assert(strings(fields@) =~= Seq::empty());
        } else if open {
            let field = to_string(line);
            proof {
                lemma_strings_push(fields@, field);
            }
            fields.push(field);
            assert(before.update(
                before.len() - 1,
                BlockView { path: before.last().path, fields: before.last().fields.push(line@) },
            ) =~= block_views(done@).push(BlockView { path: path@, fields: strings(fields@) }));
        }
        i += 1;
    }
    assert(texts(all@).take(i as int) =~= texts(all@));
    if open {
        let ghost views = block_views(done@);
        let block = ProbeBlock { path, fields };
        done.push(block);
        assert(block_views(done@) =~= views.push(block@));
    }
    done
}

/// The real capture time that a line states under the tag `tag`, if it
/// begins with that tag and states one.
pub open spec fn tagged_time(line: Seq<char>, tag: Seq<char>) -> Option<Timestamp> {
    if tag.is_prefix_of(line) {
        real_time(probe_time(line))
    } else {
        None
    }
}

/// The real capture time among what a date was read as: the time read,
/// unless none was read or it is the epoch, which stands for no time.
pub open spec fn real_time(read: Option<Timestamp>) -> Option<Timestamp> {
    match read {
        Some(t) => if t.is_resolved() {
            Some(t)
        } else {
            None
        },
        None => None,
    }
}

/// The real capture time among what a date was read as.
pub fn real_time_of(read: Option<Timestamp>) -> (r: Option<Timestamp>)
    ensures
        r == real_time(read),
{
    match read {
        Some(t) => if t.is_resolved() {
            Some(t)
        } else {
            None
        },
        None => None,
    }
}

/// The time of a record, given the time that its file name states, if the
/// name was asked, and the first real times that the probe states for when it
/// was taken, created and last written: the name's where it is a real time,
/// else the first of the three that there is, else the epoch.
pub open spec fn choice_of_time(
    named: Option<Timestamp>,
    taken: Option<Timestamp>,
    created: Option<Timestamp>,
    written: Option<Timestamp>,
) -> Timestamp {
    if named is Some && named->Some_0.is_resolved() {
        named->Some_0
    } else {
        match taken {
            Some(t) => t,
            None => match created {
                Some(t) => t,
                None => match written {
                    Some(t) => t,
                    None => Timestamp::epoch(),
                },
            },
        }
    }
}

/// The time of a record, given the time that its file name states and the
/// times that the probe states.
pub fn resolve_time(
    named: Option<Timestamp>,
    taken: Option<Timestamp>,
    created: Option<Timestamp>,
    written: Option<Timestamp>,
) -> (r: Timestamp)
    ensures
        r == choice_of_time(named, taken, created, written),
{
    match named {
        Some(t) => {
            if t.is_resolved() {
                return t;
            }
        },
        None => {},
    }
    match taken {
        Some(t) => t,
        None => match created {
            Some(t) => t,
            None => match written {
                Some(t) => t,
                None => Timestamp::epoch(),
            },
        },
    }
}

/// The first real capture time that the lines state under `tag`: that of the
/// lines before the last where they state one, else that of the last.
pub open spec fn first_time(fields: Seq<Seq<char>>, tag: Seq<char>) -> Option<Timestamp>
    decreases fields.len(),
{
    if fields.len() == 0 {
        None
    } else {
        match first_time(fields.drop_last(), tag) {
            Some(t) => Some(t),
            None => tagged_time(fields.last(), tag),
        }
    }
}

/// The time that the probe's lines give a file: the time it was taken where
/// one is stated, else the time it was created, else the time it was last
/// written, else the epoch.
pub open spec fn resolved_time(fields: Seq<Seq<char>>) -> Timestamp {
    choice_of_time(
        None,
        first_time(fields, ORIGINAL_TAG@),
        first_time(fields, CREATED_TAG@),
        first_time(fields, MODIFIED_TAG@),
    )
}

/// The number that a line states under the tag `tag`, if it begins with that
/// tag and states one that sixteen bits hold.
pub open spec fn tagged_number(line: Seq<char>, tag: Seq<char>) -> Option<u16> {
    if tag.is_prefix_of(line) {
        match field_value(line) {
            Some(v) => match parsed_number(v, u16::MAX as nat) {
                Some(n) => Some(n as u16),
                None => None,
            },
            None => None,
        }
    } else {
        None
    }
}

/// The last number that the lines state under `tag`, or 0.
pub open spec fn last_number(fields: Seq<Seq<char>>, tag: Seq<char>) -> u16
    decreases fields.len(),
{
    if fields.len() == 0 {
        0
    } else {
        match tagged_number(fields.last(), tag) {
            Some(n) => n,
            None => last_number(fields.drop_last(), tag),
        }
    }
}

/// Whether a file is a left-over of an earlier run: a preview, a downscaled
/// video or a sheet of thumbnails.
pub open spec fn is_stale(path: Seq<char>) -> bool {
    ||| ".preview.jpg"@.is_suffix_of(path)
    ||| ".scaled.mp4"@.is_suffix_of(path)
    ||| "thumbnails"@.is_prefix_of(path)
}

/// The caption known for a file, or the empty one.
pub open spec fn caption_of(captions: Map<Seq<char>, Seq<char>>, path: Seq<char>) -> Seq<char> {
    if captions.contains_key(path) {
        captions[path]
    } else {
        Seq::empty()
    }
}

/// The record of the file that a block describes. With `use_fn_date` the time
/// is the one its name states, and the probe's only where the name states the
/// epoch; a name that states no time is an error.
pub open spec fn block_record(
    block: BlockView,
    captions: Map<Seq<char>, Seq<char>>,
    use_fn_date: bool,
) -> Result<ImageView, DateError> {
    let named = if use_fn_date {
        filename_time(block.path)
    } else {
        Ok(Timestamp::epoch())
    };
    match named {
        Err(e) => Err(e),
        Ok(t) => Ok(
            ImageView {
                path: block.path,
                caption: caption_of(captions, block.path),
                time: choice_of_time(
                    Some(t),
                    first_time(block.fields, ORIGINAL_TAG@),
                    first_time(block.fields, CREATED_TAG@),
                    first_time(block.fields, MODIFIED_TAG@),
                ),
                width: last_number(block.fields, WIDTH_TAG@),
                height: last_number(block.fields, HEIGHT_TAG@),
                mp4_scaled: false,
                location: None,
            },
        ),
    }
}

/// What a run over the blocks yields: the records of the files to keep and
/// the names of the left-overs to delete, each in the order of the blocks; or
/// the first file whose name had to state a time and did not, with the error.
pub open spec fn scanned(
    blocks: Seq<BlockView>,
    captions: Map<Seq<char>, Seq<char>>,
    use_fn_date: bool,
) -> Result<(Seq<ImageView>, Seq<Seq<char>>), (Seq<char>, DateError)>
    decreases blocks.len(),
{
    if blocks.len() == 0 {
        Ok((Seq::empty(), Seq::empty()))
    } else {
        match scanned(blocks.drop_last(), captions, use_fn_date) {
            Err(e) => Err(e),
            Ok((images, stale)) => {
                let block = blocks.last();
                if is_stale(block.path) {
                    Ok((images, stale.push(block.path)))
                } else {
                    match block_record(block, captions, use_fn_date) {
                        Err(e) => Err((block.path, e)),
                        Ok(image) => Ok((images.push(image), stale)),
                    }
                }
            },
        }
    }
}

/// Where the probe states a real time at which a file was taken, that is the
/// file's time, whatever it states of the file's creation and last writing.
pub proof fn lemma_time_taken_comes_first(
    block: BlockView,
    captions: Map<Seq<char>, Seq<char>>,
    taken: Timestamp,
)
    requires
        first_time(block.fields, ORIGINAL_TAG@) == Some(taken),
    ensures
        resolved_time(block.fields) == taken,
        block_record(block, captions, false) is Ok,
        block_record(block, captions, false)->Ok_0.time == taken,
{
}

/// The first real capture time that the lines state under `tag`.
pub fn find_time(fields: &Vec<String>, tag: &str) -> (r: Option<Timestamp>)
    ensures
        r == first_time(strings(fields@), tag@),
        r matches Some(t) ==> t.wf(),
{
    let tag_chars = chars_of(tag);
    let mut found: Option<Timestamp> = None;
    let mut i: usize = 0;
    assert(strings(fields@).take(0) =~= Seq::empty());
    while i < fields.len()
        invariant
            i <= fields.len(),
            tag_chars@ == tag@,
            found == first_time(strings(fields@).take(i as int), tag@),
            found matches Some(t) ==> t.wf(),
        decreases fields.len() - i,
    {
        proof {
            let upto = strings(fields@).take(i + 1);
            assert(upto.drop_last() =~= strings(fields@).take(i as int));
            assert(upto.last() == fields@[i as int]@);
        }
        if found.is_none() {
            let line = chars_of(fields[i].as_str());
            if starts_with(&line, &tag_chars) {
                found = real_time_of(time_of_field(&line));
            }
        }
        i += 1;
    }
    assert(strings(fields@).take(i as int) =~= strings(fields@));
    found
}

/// The last number that the lines state under `tag`, or 0.
pub fn find_number(fields: &Vec<String>, tag: &str) -> (r: u16)
    ensures
        r == last_number(strings(fields@), tag@),
{
    let tag_chars = chars_of(tag);
    let mut found: u16 = 0;
    let mut i: usize = 0;
    assert(strings(fields@).take(0) =~= Seq::empty());
    while i < fields.len()
        invariant
            i <= fields.len(),
            tag_chars@ == tag@,
            found == last_number(strings(fields@).take(i as int), tag@),
        decreases fields.len() - i,
    {
        proof {
            let upto = strings(fields@).take(i + 1);
            assert(upto.drop_last() =~= strings(fields@).take(i as int));
            assert(upto.last() == fields@[i as int]@);
        }
        let line = chars_of(fields[i].as_str());
        if starts_with(&line, &tag_chars) {
            match value_of_field(&line) {
                Some(v) => {
                    assert(v@.skip(0) == v@);
                    match parse_number(&v, 0, 65535) {
                        Some(n) => {
                            found = n as u16;
                        },
                        None => {},
                    }
                },
                None => {},
            }
        }
        i += 1;
    }
    assert(strings(fields@).take(i as int) =~= strings(fields@));
    found
}

/// Whether a file is a left-over of an earlier run.
pub fn is_stale_path(path: &str) -> (r: bool)
    ensures
        r == is_stale(path@),
{
    let p = chars_of(path);
    ends_with(&p, &chars_of(".preview.jpg")) || ends_with(&p, &chars_of(".scaled.mp4"))
        || starts_with(&p, &chars_of("thumbnails"))
}

/// The record of the file that a block describes.
pub fn block_image(block: &ProbeBlock, captions: &TextMap, use_fn_date: bool) -> (r: Result<
    Image,
    DateError,
>)
    ensures
        match r {
            Ok(image) => block_record(block@, captions@, use_fn_date) == Ok::<
                ImageView,
                DateError,
            >(image@) && image.time.wf(),
            Err(e) => block_record(block@, captions@, use_fn_date) == Err::<ImageView, DateError>(
                e,
            ),
        },
{
    let caption = match captions.get(block.path.as_str()) {
        Some(c) => c.clone(),
        None => String::new(),
    };
    let mut image = Image {
        path: block.path.clone(),
        caption,
        time: Timestamp::epoch(),
        width: find_number(&block.fields, WIDTH_TAG),
        height: find_number(&block.fields, HEIGHT_TAG),
        mp4_scaled: false,
        location: None,
    };
    if use_fn_date {
        match assign_date_from_filename(&mut image) {
            Ok(_) => {},
            Err(e) => {
                return Err(e);
            },
        }
    }
    let named = image.time;
    let mut taken: Option<Timestamp> = None;
    let mut created: Option<Timestamp> = None;
    let mut written: Option<Timestamp> = None;
    if !named.is_resolved() {
        taken = find_time(&block.fields, ORIGINAL_TAG);
        if taken.is_none() {
            created = find_time(&block.fields, CREATED_TAG);
            if created.is_none() {
                written = find_time(&block.fields, MODIFIED_TAG);
            }
        }
    }
    image.time = resolve_time(Some(named), taken, created, written);
    Ok(image)
}

/// A file whose name had to state a time and did not, and why not.
#[derive(Clone, Debug, PartialEq, Eq)]
pub struct FileDateError {
    pub path: String,
    pub reason: DateError,
}

/// What a run of the indexer over the probe's output yields.
#[derive(Clone, Debug, PartialEq, Eq)]
pub struct Scan {
    /// The records of the files to keep, in the order of the output.
    pub images: Vec<Image>,
    /// The names of the left-overs of an earlier run, to be deleted.
    pub stale: Vec<String>,
}

/// Reads the probe's output: a record for each file it describes, with the
/// caption known for it, and the names of the left-overs it lists.
pub fn read_exif(output: &str, captions: &TextMap, use_fn_date: bool) -> (r: Result<
    Scan,
    FileDateError,
>)
    ensures
        match r {
            Ok(scan) => scanned(blocks(lines(output@)), captions@, use_fn_date) == Ok::<
                (Seq<ImageView>, Seq<Seq<char>>),
                (Seq<char>, DateError),
            >((gallery(scan.images@), strings(scan.stale@))) && forall|i: int|
                0 <= i < scan.images.len() ==> (#[trigger] scan.images[i]).time.wf(),
            Err(e) => scanned(blocks(lines(output@)), captions@, use_fn_date) == Err::<
                (Seq<ImageView>, Seq<Seq<char>>),
                (Seq<char>, DateError),
            >((e.path@, e.reason)),
        },
{
    let all = probe_blocks(output);
    let mut images: Vec<Image> = Vec::new();
    let mut stale: Vec<String> = Vec::new();
    let mut i: usize = 0;
    assert(block_views(all@).take(0) =~= Seq::empty());
    assert(gallery(images@) =~= Seq::empty());
    assert(strings(stale@) =~= Seq::empty());
    while i < all.len()
        invariant
            i <= all.len(),
            block_views(all@) == blocks(lines(output@)),
            scanned(block_views(all@).take(i as int), captions@, use_fn_date) == Ok::<
                (Seq<ImageView>, Seq<Seq<char>>),
                (Seq<char>, DateError),
            >((gallery(images@), strings(stale@))),
            forall|j: int| 0 <= j < images.len() ==> (#[trigger] images[j]).time.wf(),
        decreases all.len() - i,
    {
        let block = &all[i];
        proof {
            let upto = block_views(all@).take(i + 1);
            assert(upto.drop_last() =~= block_views(all@).take(i as int));
            assert(upto.last() == block@);
        }
        if is_stale_path(block.path.as_str()) {
            let name = block.path.clone();
            proof {
                lemma_strings_push(stale@, name);
            }
            stale.push(name);
        } else {
            match block_image(block, captions, use_fn_date) {
                Ok(image) => {
                    let ghost before = gallery(images@);
                    images.push(image);
                    assert(gallery(images@) =~= before.push(image@));
                },
                Err(e) => {
                    proof {
                        lemma_scan_fails(block_views(all@), i + 1, captions@, use_fn_date);
                    }
                    return Err(FileDateError { path: block.path.clone(), reason: e });
                },
            }
        }
        i += 1;
    }
    assert(block_views(all@).take(i as int) =~= block_views(all@));
    Ok(Scan { images, stale })
}

/// A run that fails on the first `k` blocks fails in the same way on all.
pub proof fn lemma_scan_fails(
    blocks: Seq<BlockView>,
    k: int,
    captions: Map<Seq<char>, Seq<char>>,
    use_fn_date: bool,
)
    requires
        0 <= k <= blocks.len(),
        scanned(blocks.take(k), captions, use_fn_date) is Err,
    ensures
        scanned(blocks, captions, use_fn_date) == scanned(blocks.take(k), captions, use_fn_date),
    decreases blocks.len() - k,
{
    if k < blocks.len() {
        assert(blocks.take(k + 1).drop_last() =~= blocks.take(k));
        lemma_scan_fails(blocks, k + 1, captions, use_fn_date);
    } else {
        assert(blocks.take(k) =~= blocks);
    }
}

/// Where the last six of fourteen digits are no time of day but count fewer
/// than 6000 seconds, the file name states the day as written, hour 0, and
/// the count as two digits of minutes and two of seconds, read as a date
/// again.
pub proof fn lemma_counter_fallback(path: Seq<char>)
    requires
        digits_of(path).len() == 14,
        parsed_datetime(digits_of(path), FILENAME_FORMAT@) is None,
        decimal_value(digits_of(path).skip(8)) < 6000,
    ensures
        ({
            let digits = digits_of(path);
            let count = decimal_value(digits.skip(8));
            let minutes = count / 60;
            let seconds = count % 60;
            let text = digits.take(8) + seq![
                '0',
                '0',
                digit_char(minutes / 10),
                digit_char(minutes % 10),
                digit_char(seconds / 10),
                digit_char(seconds % 10),
            ];
            &&& counter_text(digits) == text
            &&& text.len() == 14
            &&& filename_time(path) == match parsed_datetime(text, FILENAME_FORMAT@) {
                Some(t) => Ok::<Timestamp, DateError>(t),
                None => Err(DateError::InvalidDate),
            }
        }),
{
    let digits = digits_of(path);
    let count = decimal_value(digits.skip(8));
    lemma_two_digits(count / 60);
    lemma_two_digits(count % 60);
    let minutes = count / 60;
    let seconds = count % 60;
    let text = digits.take(8) + seq![
        '0',
        '0',
        digit_char(minutes / 10),
        digit_char(minutes % 10),
        digit_char(seconds / 10),
        digit_char(seconds % 10),
    ];
    assert(counter_text(digits) =~= text);
}

/// A number below a hundred, padded to two places, is its two digits.
pub proof fn lemma_two_digits(n: nat)
    requires
        n < 100,
    ensures
        zero_padded(n, 2) == seq![digit_char(n / 10), digit_char(n % 10)],
{
    reveal_with_fuel(decimal_text, 3);
    if n < 10 {
        assert(decimal_text(n) == seq![digit_char(n)]);
        assert(zero_padded(n, 2) =~= seq![digit_char(0), digit_char(n)]);
    } else {
        assert(decimal_text(n / 10) == seq![digit_char(n / 10)]);
        assert(decimal_text(n) =~= seq![digit_char(n / 10), digit_char(n % 10)]);
    }
}

/// The command that has the probe describe every picture and video of the
/// directory it runs in.
pub const PROBE_COMMAND: &'static str =
    "shopt -s nullglob &&\n                exiftool -m -d '%Y:%m:%d %H:%M:%S' -CreateDate -DateTimeOriginal -FileModifyDate -ImageWidth -ImageHeight *.{jpg,JPG,mp4,MP4,mov,MOV,avi,AVI}";

/// What a command that ran to its end yields: what it wrote to its output
/// where it succeeded, else all it wrote, output first and errors after.
pub fn run_outcome(success: bool, stdout: Vec<u8>, stderr: Vec<u8>) -> (r: Result<Vec<u8>, Vec<u8>>)
    requires
        stdout.len() + stderr.len() <= usize::MAX,
    ensures
        match r {
            Ok(out) => success && out@ == stdout@,
            Err(all) => !success && all@ == stdout@ + stderr@,
        },
{
    if success {
        Ok(stdout)
    } else {
        let mut error: Vec<u8> = Vec::with_capacity(stdout.len() + stderr.len());
        error.extend_from_slice(stdout.as_slice());
        error.extend_from_slice(stderr.as_slice());
        assert(error@ =~= stdout@ + stderr@);
        Err(error)
    }
}

/// The greatest width, in pixels, at which a video is served as it is.
pub const MAX_VIDEO_WIDTH: u16 = 1920;

/// The command that asks for the codec of a video.
pub fn codec_command(path: &str) -> (r: String)
    ensures
        r@ == "ffprobe -v error -select_streams v:0 -show_entries stream=codec_name "@ + path@,
{
    let mut r = String::from_str(
        "ffprobe -v error -select_streams v:0 -show_entries stream=codec_name ",
    );
    r.append(path);
    r
}

/// The command that makes the downscaled copy of a video: at most 1920
/// pixels wide, the sound as it is, the picture in H.264.
pub fn downscale_command(path: &str) -> (r: String)
    ensures
        r@ == "ffmpeg -y -i "@ + path@ + " -vf scale=1920:-2 -c:a copy -c:v libx264 -f mp4 "@
            + path@ + ".scaled.mp4"@,
{
    let mut r = String::from_str("ffmpeg -y -i ");
    r.append(path);
    r.append(" -vf scale=1920:-2 -c:a copy -c:v libx264 -f mp4 ");
    r.append(path);
    r.append(".scaled.mp4");
    r
}

/// Whether a video of `width` pixels needs a downscaled copy, given what the
/// codec probe wrote, or `None` where the probe failed: it does where it is
/// wider than `MAX_VIDEO_WIDTH`, and where the codec is known to be one that
/// browsers play badly.
pub open spec fn scaling_needed(width: u16, codec: Option<Seq<char>>) -> bool {
    width > MAX_VIDEO_WIDTH || match codec {
        None => false,
        Some(c) => contains_text(c, "codec_name=hevc"@) || contains_text(c, "codec_name=mjpeg"@),
    }
}

/// Whether the video `image` needs a downscaled copy, given what the codec
/// probe wrote of it, or `None` where the probe failed.
pub fn needs_scaling(image: &Image, codec: Option<&str>) -> (r: bool)
    ensures
        r == scaling_needed(
            image.width,
            match codec {
                Some(c) => Some(c@),
                None => None,
            },
        ),
{
    if image.width > MAX_VIDEO_WIDTH {
        return true;
    }
    match codec {
        None => false,
        Some(c) => {
            let text = chars_of(c);
            contains(&text, &chars_of("codec_name=hevc")) || contains(
                &text,
                &chars_of("codec_name=mjpeg"),
            )
        },
    }
}

/// The texts of a list of optional strings.
pub open spec fn codec_views(codecs: Seq<Option<String>>) -> Seq<Option<Seq<char>>> {
    Seq::new(
        codecs.len(),
        |i: int|
            match codecs[i] {
                Some(c) => Some(c@),
                None => None,
            },
    )
}

/// Whether record `image` gets a downscaled copy: it is a video and needs
/// one.
pub open spec fn to_downscale(image: ImageView, codec: Option<Seq<char>>) -> bool {
    mp4_name(image.path) && scaling_needed(image.width, codec)
}

/// The gallery with every record marked that gets a downscaled copy.
pub open spec fn marked(images: Seq<ImageView>, codecs: Seq<Option<Seq<char>>>) -> Seq<ImageView> {
    Seq::new(
        images.len(),
        |i: int|
            if to_downscale(images[i], codecs[i]) {
                ImageView { mp4_scaled: true, ..images[i] }
            } else {
                images[i]
            },
    )
}

/// The commands that make the downscaled copies, in the order of the
/// records.
pub open spec fn downscale_commands(images: Seq<ImageView>, codecs: Seq<Option<Seq<char>>>) -> Seq<
    Seq<char>,
>
    decreases images.len(),
{
    if images.len() == 0 {
        Seq::empty()
    } else {
        let before = downscale_commands(images.drop_last(), codecs.take(images.len() - 1));
        if to_downscale(images.last(), codecs[images.len() - 1]) {
            before.push(
                "ffmpeg -y -i "@ + images.last().path
                    + " -vf scale=1920:-2 -c:a copy -c:v libx264 -f mp4 "@ + images.last().path
                    + ".scaled.mp4"@,
            )
        } else {
            before
        }
    }
}

/// Marks every video that needs a downscaled copy, and gives the commands
/// that make the copies. `codecs` holds for each record what the codec probe
/// wrote of it, or `None` where it failed or was not run.
pub fn downscale_videos(images: &mut Vec<Image>, codecs: &Vec<Option<String>>) -> (commands: Vec<
    String,
>)
    requires
        codecs.len() == old(images).len(),
    ensures
        gallery(final(images)@) == marked(gallery(old(images)@), codec_views(codecs@)),
        strings(commands@) == downscale_commands(gallery(old(images)@), codec_views(codecs@)),
        times_wf(old(images)@) ==> times_wf(final(images)@),
{
    let mut commands: Vec<String> = Vec::new();
    let ghost before = gallery(images@);
    let ghost probes = codec_views(codecs@);
    let n = images.len();
    let mut i: usize = 0;
    assert(strings(commands@) =~= Seq::empty());
    assert(before.take(0) =~= Seq::empty());
    while i < n
        invariant
            i <= n == images.len() == codecs.len(),
            before == gallery(old(images)@),
            before.len() == n,
            probes == codec_views(codecs@),
            forall|j: int| 0 <= j < i ==> (#[trigger] images[j])@ == marked(before, probes)[j],
            forall|j: int| i <= j < n ==> (#[trigger] images[j])@ == before[j],
            strings(commands@) == downscale_commands(before.take(i as int), probes.take(i as int)),
            times_wf(old(images)@) ==> times_wf(images@),
        decreases n - i,
    {
        let codec: Option<&str> = match &codecs[i] {
            Some(c) => Some(c.as_str()),
            None => None,
        };
        proof {
            assert(before.take(i + 1).drop_last() =~= before.take(i as int));
            assert(probes.take(i + 1).take(i as int) =~= probes.take(i as int));
            assert(before.take(i + 1).last() == before[i as int]);
            assert(probes.take(i + 1)[i as int] == probes[i as int]);
        }
        if images[i].is_mp4() && needs_scaling(&images[i], codec) {
            let mut image = images[i].duplicate();
            image.mp4_scaled = true;
            let command = downscale_command(image.path.as_str());
            proof {
                lemma_strings_push(commands@, command);
            }
            commands.push(command);
            images.set(i, image);
        }
        i += 1;
    }
    assert(before.take(n as int) =~= before);
    assert(probes.take(n as int) =~= probes);
    assert(gallery(images@) =~= marked(before, probes));
    commands
}

/// Why a gallery could not be built.
#[derive(Clone, Debug, PartialEq, Eq)]
pub enum IndexError {
    /// The name of a file had to state a time and did not.
    Date(FileDateError),
    /// The gallery is ordered by number, and the name of this file holds
    /// none.
    NoNumber(String),
}

/// What ordering the records that a run yields should give: a stable sort by
/// the number in each file name, or by the time of each record.
pub open spec fn ordered(images: Seq<ImageView>, by_number: bool, sorted: Seq<ImageView>) -> bool {
    if by_number {
        first_without_number(images) == images.len() && is_stable_sort(
            KeySeq::Numbers(numbers_of(images)),
            images,
            sorted,
        )
    } else {
        is_stable_sort(KeySeq::Times(times_of(images)), images, sorted)
    }
}

/// Builds the gallery of a directory from the probe's output: a record for
/// each file, with the caption known for it and the time resolved, in the
/// order of their times or, with `by_number`, of the numbers in their names;
/// and the names of the left-overs to delete.
pub fn index_gallery(output: &str, captions: &TextMap, use_fn_date: bool, by_number: bool) -> (r:
    Result<Scan, IndexError>)
    ensures
        match r {
            Ok(scan) => {
                let run = scanned(blocks(lines(output@)), captions@, use_fn_date);
                &&& run is Ok
                &&& strings(scan.stale@) == run->Ok_0.1
                &&& ordered(run->Ok_0.0, by_number, gallery(scan.images@))
                &&& times_wf(scan.images@)
            },
            Err(IndexError::Date(e)) => scanned(blocks(lines(output@)), captions@, use_fn_date)
                == Err::<(Seq<ImageView>, Seq<Seq<char>>), (Seq<char>, DateError)>(
                (e.path@, e.reason),
            ),
            Err(IndexError::NoNumber(path)) => {
                let run = scanned(blocks(lines(output@)), captions@, use_fn_date);
                &&& by_number
                &&& run is Ok
                &&& first_without_number(run->Ok_0.0) < run->Ok_0.0.len()
                &&& path@ == run->Ok_0.0[first_without_number(run->Ok_0.0)].path
            },
        },
{
    let scan = match read_exif(output, captions, use_fn_date) {
        Ok(scan) => scan,
        Err(e) => {
            return Err(IndexError::Date(e));
        },
    };
    let mut images = scan.images;
    if by_number {
        match sort_by_number(&mut images) {
            Ok(_) => {},
            Err(i) => {
                assert(gallery(images@)[i as int] == images[i as int]@);
                return Err(IndexError::NoNumber(images[i].path.clone()));
            },
        }
    } else {
        sort_by_time(&mut images);
    }
    Ok(Scan { images, stale: scan.stale })
}

} // verus!
