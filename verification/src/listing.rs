//! Reading the collaborator's listing of streams.
//!
//! The listing is plain text. Tabs carry no meaning and are dropped. A blank
//! line parts one stream's block from the next, and within a block each line
//! is looked at on its own: the first one holds the id, and later ones are
//! told apart by the marker they begin with.

use crate::error::ParseError;
use crate::number::{parse_i32, parse_int};
use crate::pattern::{capture, first_capture};
use crate::text::{
    after_bytes, chars_of, contains, has_infix, has_prefix, remove_char, skip_bytes, split,
    split_on, string_of, views, without,
};
use vstd::prelude::*;

verus! {

/// One stream as the collaborator reports it. The id holds until the next
/// listing and no longer.
#[derive(Debug, PartialEq, Eq)]
pub struct StreamRecord {
    pub id: i32,
    pub name: String,
    pub volume: i32,
    pub mute: bool,
}

/// A stream record as a mathematical value.
pub struct RecordView {
    pub id: int,
    pub name: Seq<char>,
    pub volume: int,
    pub mute: bool,
}

impl View for StreamRecord {
    type V = RecordView;

    open spec fn view(&self) -> RecordView {
        RecordView { id: self.id as int, name: self.name@, volume: self.volume as int, mute: self.mute }
    }
}

impl Clone for StreamRecord {
    fn clone(&self) -> (copy: StreamRecord)
        ensures
            copy@ == self@,
    {
        StreamRecord { id: self.id, name: self.name.clone(), volume: self.volume, mute: self.mute }
    }
}

/// The records that `records` hold, as values.
pub open spec fn record_views(records: Seq<StreamRecord>) -> Seq<RecordView> {
    records.map_values(|r: StreamRecord| r@)
}

/// How many bytes the first line spends on its prefix, `Sink Input #`.
pub const ID_OFFSET: usize = 12;

/// How many bytes a name line spends before the name: the marker and the
/// quote that opens the name.
pub const NAME_OFFSET: usize = 20;

/// What a mute line begins with.
pub const MUTE_MARKER: &'static str = "Mute: ";

/// What a mute line holds when the stream is muted.
pub const MUTE_TOKEN: &'static str = "yes";

/// What a volume line begins with.
pub const VOLUME_MARKER: &'static str = "Volume: ";

/// What a name line begins with.
pub const NAME_MARKER: &'static str = "application.name = ";

/// The shape of a volume line, as a regular expression: two channels, each
/// a raw value, a percentage and a level in decibels. The first group is the
/// left channel's percentage.
pub const VOLUME_PATTERN: &'static str =
    r"Volume: front-left: \d+ / +(\d+)% / (-?[\d.]+|-inf) dB,   front-right: \d+ / +(\d+)% / (-?[\d.]+|-inf) dB";

/// What a mute line begins with.
pub open spec fn mute_marker() -> Seq<char> {
    MUTE_MARKER@
}

/// What a mute line holds when the stream is muted.
pub open spec fn mute_token() -> Seq<char> {
    MUTE_TOKEN@
}

/// What a volume line begins with.
pub open spec fn volume_marker() -> Seq<char> {
    VOLUME_MARKER@
}

/// What a name line begins with.
pub open spec fn name_marker() -> Seq<char> {
    NAME_MARKER@
}

/// The shape of a volume line.
pub open spec fn volume_pattern() -> Seq<char> {
    VOLUME_PATTERN@
}

/// The volume that a captured percentage stands for.
pub open spec fn capture_volume(capture: Option<Seq<char>>) -> Result<int, ParseError> {
    match capture {
        Some(digits) => match parse_int(digits) {
            Some(volume) => Ok(volume),
            None => Err(ParseError::Volume),
        },
        None => Err(ParseError::Volume),
    }
}

/// The volume that a volume line states.
pub open spec fn line_volume(line: Seq<char>) -> Result<int, ParseError> {
    match capture(volume_pattern(), line) {
        Ok(found) => capture_volume(found),
        Err(e) => Err(e),
    }
}

/// The name that a name line states: what follows the marker and the
/// opening quote, without any quote characters.
pub open spec fn line_name(line: Seq<char>) -> Result<Seq<char>, ParseError> {
    match after_bytes(line, NAME_OFFSET as int) {
        Some(rest) => Ok(without(rest, '"')),
        None => Err(ParseError::Name),
    }
}

/// The id that the first line of a block states.
pub open spec fn line_id(line: Seq<char>) -> Result<int, ParseError> {
    match after_bytes(line, ID_OFFSET as int) {
        Some(digits) => match parse_int(digits) {
            Some(id) => Ok(id),
            None => Err(ParseError::Id),
        },
        None => Err(ParseError::Id),
    }
}

/// The record after one more line. A mute line sets the flag to whether
/// the line holds the token, a volume line and a name line replace what was
/// there, and any other line changes nothing.
pub open spec fn read_line(record: RecordView, line: Seq<char>) -> Result<RecordView, ParseError> {
    if mute_marker().is_prefix_of(line) {
        Ok(RecordView { mute: contains(line, mute_token()), ..record })
    } else if volume_marker().is_prefix_of(line) {
        match line_volume(line) {
            Ok(volume) => Ok(RecordView { volume, ..record }),
            Err(e) => Err(e),
        }
    } else if name_marker().is_prefix_of(line) {
        match line_name(line) {
            Ok(name) => Ok(RecordView { name, ..record }),
            Err(e) => Err(e),
        }
    } else {
        Ok(record)
    }
}

/// The record after all of `lines`, read in order; the first line that
/// fails decides the error.
pub open spec fn read_lines(lines: Seq<Seq<char>>, record: RecordView) -> Result<
    RecordView,
    ParseError,
>
    decreases lines.len(),
{
    if lines.len() == 0 {
        Ok(record)
    } else {
        match read_lines(lines.drop_last(), record) {
            Ok(before) => read_line(before, lines.last()),
            Err(e) => Err(e),
        }
    }
}

/// The lines of a block.
pub open spec fn lines_of(block: Seq<char>) -> Seq<Seq<char>> {
    split(block, seq!['\n'])
}

/// The blocks of a listing: what stands between its blank lines, once the
/// tabs are gone.
pub open spec fn blocks_of(listing: Seq<char>) -> Seq<Seq<char>> {
    split(without(listing, '\t'), seq!['\n', '\n'])
}

/// The record that one block of the listing states. A block without volume
/// or name lines has volume 0 or an empty name.
pub open spec fn block_record(block: Seq<char>) -> Result<RecordView, ParseError> {
    let lines = lines_of(block);
    match line_id(lines[0]) {
        Ok(id) => read_lines(lines, RecordView { id, name: Seq::empty(), volume: 0, mute: false }),
        Err(e) => Err(e),
    }
}

/// The records of `blocks`, in order; the first block that fails decides
/// the error.
pub open spec fn block_records(blocks: Seq<Seq<char>>) -> Result<Seq<RecordView>, ParseError>
    decreases blocks.len(),
{
    if blocks.len() == 0 {
        Ok(Seq::empty())
    } else {
        match block_records(blocks.drop_last()) {
            Ok(before) => match block_record(blocks.last()) {
                Ok(record) => Ok(before.push(record)),
                Err(e) => Err(e),
            },
            Err(e) => Err(e),
        }
    }
}

/// The records that a listing states, in the listing's order. A listing
/// that is empty once its tabs are gone states none.
pub open spec fn listing_records(listing: Seq<char>) -> Result<Seq<RecordView>, ParseError> {
    if without(listing, '\t').len() == 0 {
        Ok(Seq::empty())
    } else {
        block_records(blocks_of(listing))
    }
}

/// The same result with the record as a value.
pub open spec fn record_result(r: Result<StreamRecord, ParseError>) -> Result<
    RecordView,
    ParseError,
> {
    match r {
        Ok(record) => Ok(record@),
        Err(e) => Err(e),
    }
}

/// The same result with the records as values.
pub open spec fn records_result(r: Result<Vec<StreamRecord>, ParseError>) -> Result<
    Seq<RecordView>,
    ParseError,
> {
    match r {
        Ok(records) => Ok(record_views(records@)),
        Err(e) => Err(e),
    }
}

/// Turns what the pattern captured on a volume line into the volume: the
/// capture has to be there and has to be a 32-bit integer.
pub fn volume_from_capture(capture: Option<String>) -> (volume: Result<i32, ParseError>)
    ensures
        match volume {
            Ok(v) => capture_volume(option_text(capture)) == Ok::<int, ParseError>(v as int),
            Err(e) => capture_volume(option_text(capture)) == Err::<int, ParseError>(e),
        },
{
    match capture {
        Some(text) => {
            let digits = chars_of(text.as_str());
            match parse_i32(digits.as_slice()) {
                Some(v) => Ok(v),
                None => Err(ParseError::Volume),
            }
        },
        None => Err(ParseError::Volume),
    }
}

/// The characters of an optional string.
pub open spec fn option_text(text: Option<String>) -> Option<Seq<char>> {
    match text {
        Some(t) => Some(t@),
        None => None,
    }
}

/// Reads the volume off a volume line.
pub fn volume_of_line(line: &[char]) -> (volume: Result<i32, ParseError>)
    ensures
        match volume {
            Ok(v) => line_volume(line@) == Ok::<int, ParseError>(v as int),
            Err(e) => line_volume(line@) == Err::<int, ParseError>(e),
        },
{
    let text = string_of(line);
    match first_capture(VOLUME_PATTERN, text.as_str()) {
        Ok(found) => volume_from_capture(found),
        Err(e) => Err(e),
    }
}

/// The markers as characters, made once for a block.
struct Markers {
    mute: Vec<char>,
    token: Vec<char>,
    volume: Vec<char>,
    name: Vec<char>,
}

impl Markers {
    spec fn wf(&self) -> bool {
        &&& self.mute@ == mute_marker()
        &&& self.token@ == mute_token()
        &&& self.volume@ == volume_marker()
        &&& self.name@ == name_marker()
    }

    fn new() -> (markers: Markers)
        ensures
            markers.wf(),
    {
        Markers {
            mute: chars_of(MUTE_MARKER),
            token: chars_of(MUTE_TOKEN),
            volume: chars_of(VOLUME_MARKER),
            name: chars_of(NAME_MARKER),
        }
    }
}

/// Lets one line act on the record read so far.
fn apply_line(record: StreamRecord, line: &[char], markers: &Markers) -> (r: Result<
    StreamRecord,
    ParseError,
>)
    requires
        markers.wf(),
    ensures
        record_result(r) == read_line(record@, line@),
{
    let mut record = record;
    if has_prefix(line, markers.mute.as_slice()) {
        record.mute = has_infix(line, markers.token.as_slice());
        Ok(record)
    } else if has_prefix(line, markers.volume.as_slice()) {
        match volume_of_line(line) {
            Ok(volume) => {
                record.volume = volume;
                Ok(record)
            },
            Err(e) => Err(e),
        }
    } else if has_prefix(line, markers.name.as_slice()) {
        match skip_bytes(line, NAME_OFFSET) {
            Some(rest) => {
                let name = remove_char(rest.as_slice(), '"');
                record.name = string_of(name.as_slice());
                Ok(record)
            },
            None => Err(ParseError::Name),
        }
    } else {
        Ok(record)
    }
}

/// Reads the id off the first line of a block.
pub fn id_of_line(line: &[char]) -> (id: Result<i32, ParseError>)
    ensures
        match id {
            Ok(v) => line_id(line@) == Ok::<int, ParseError>(v as int),
            Err(e) => line_id(line@) == Err::<int, ParseError>(e),
        },
{
    match skip_bytes(line, ID_OFFSET) {
        Some(digits) => match parse_i32(digits.as_slice()) {
            Some(id) => Ok(id),
            None => Err(ParseError::Id),
        },
        None => Err(ParseError::Id),
    }
}

/// Reads one block of the listing.
pub fn parse_block(block: &[char]) -> (r: Result<StreamRecord, ParseError>)
    ensures
        record_result(r) == block_record(block@),
{
    let newline: Vec<char> = vec!['\n'];
    let lines = split_on(block, newline.as_slice());
    assert(newline@ =~= seq!['\n']);
    let id = match id_of_line(lines[0].as_slice()) {
        Ok(id) => id,
        Err(e) => {
            return Err(e);
        },
    };
    let markers = Markers::new();
    let mut record = StreamRecord { id, name: String::new(), volume: 0, mute: false };
    let ghost start = record@;
    let ghost all = views(lines@);
    let mut i: usize = 0;
    while i < lines.len()
        invariant
            i <= lines.len(),
            markers.wf(),
            all == views(lines@),
            block_record(block@) == read_lines(all, start),
            read_lines(all.take(i as int), start) == Ok::<RecordView, ParseError>(record@),
        decreases lines.len() - i,
    {
        proof {
            assert(all.take(i + 1).drop_last() =~= all.take(i as int));
            assert(all.take(i + 1).last() == lines@[i as int]@);
        }
        match apply_line(record, lines[i].as_slice(), &markers) {
            Ok(next) => {
                record = next;
            },
            Err(e) => {
                proof {
                    lemma_read_lines_fails(all, start, i + 1);
                }
                return Err(e);
            },
        }
        i += 1;
    }
    proof {
        assert(all.take(lines.len() as int) =~= all);
    }
    Ok(record)
}

/// Once a prefix of the lines has failed, the whole has failed in the same
/// way.
pub proof fn lemma_read_lines_fails(lines: Seq<Seq<char>>, record: RecordView, k: int)
    requires
        0 <= k <= lines.len(),
        read_lines(lines.take(k), record) is Err,
    ensures
        read_lines(lines, record) == read_lines(lines.take(k), record),
    decreases lines.len(),
{
    if k == lines.len() {
        assert(lines.take(k) =~= lines);
    } else {
        assert(lines.drop_last().take(k) =~= lines.take(k));
        lemma_read_lines_fails(lines.drop_last(), record, k);
    }
}

/// Once a prefix of the blocks has failed, the whole has failed in the same
/// way.
pub proof fn lemma_block_records_fails(blocks: Seq<Seq<char>>, k: int)
    requires
        0 <= k <= blocks.len(),
        block_records(blocks.take(k)) is Err,
    ensures
        block_records(blocks) == block_records(blocks.take(k)),
    decreases blocks.len(),
{
    if k == blocks.len() {
        assert(blocks.take(k) =~= blocks);
    } else {
        assert(blocks.drop_last().take(k) =~= blocks.take(k));
        lemma_block_records_fails(blocks.drop_last(), k);
    }
}

/// Reads a whole listing: the records it states, in its order, or the
/// first thing that is wrong with it.
pub fn snapshot(listing: &str) -> (r: Result<Vec<StreamRecord>, ParseError>)
    ensures
        records_result(r) == listing_records(listing@),
{
    let raw = chars_of(listing);
    let text = remove_char(raw.as_slice(), '\t');
    let mut records: Vec<StreamRecord> = Vec::new();
    if text.len() == 0 {
        assert(record_views(records@) =~= Seq::<RecordView>::empty());
        return Ok(records);
    }
    let blank: Vec<char> = vec!['\n', '\n'];
    let blocks = split_on(text.as_slice(), blank.as_slice());
    assert(blank@ =~= seq!['\n', '\n']);
    let ghost all = views(blocks@);
    let mut i: usize = 0;
    assert(record_views(records@) =~= Seq::<RecordView>::empty());
    while i < blocks.len()
        invariant
            i <= blocks.len(),
            all == views(blocks@),
            listing_records(listing@) == block_records(all),
            block_records(all.take(i as int)) == Ok::<Seq<RecordView>, ParseError>(
                record_views(records@),
            ),
        decreases blocks.len() - i,
    {
        proof {
            assert(all.take(i + 1).drop_last() =~= all.take(i as int));
            assert(all.take(i + 1).last() == blocks@[i as int]@);
        }
        match parse_block(blocks[i].as_slice()) {
            Ok(record) => {
                proof {
                    assert(record_views(records@.push(record)) =~= record_views(records@).push(
                        record@,
                    ));
                }
                records.push(record);
            },
            Err(e) => {
                proof {
                    lemma_block_records_fails(all, i + 1);
                }
                return Err(e);
            },
        }
        i += 1;
    }
    proof {
        assert(all.take(blocks.len() as int) =~= all);
    }
    Ok(records)
}

/// A listing that can be read states one record for each of its blocks,
/// in the order of the blocks.
pub proof fn law_one_record_per_block(blocks: Seq<Seq<char>>)
    ensures
        block_records(blocks) matches Ok(records) ==> {
            &&& records.len() == blocks.len()
            &&& forall|b: int|
                0 <= b < blocks.len() ==> block_record(#[trigger] blocks[b]) == Ok::<
                    RecordView,
                    ParseError,
                >(records[b])
        },
    decreases blocks.len(),
{
    if blocks.len() > 0 {
        law_one_record_per_block(blocks.drop_last());
        if let Ok(records) = block_records(blocks) {
            let before = block_records(blocks.drop_last())->Ok_0;
            assert forall|b: int| 0 <= b < blocks.len() implies block_record(
                #[trigger] blocks[b],
            ) == Ok::<RecordView, ParseError>(records[b]) by {
                if b < blocks.len() - 1 {
                    assert(blocks.drop_last()[b] == blocks[b]);
                    assert(records[b] == before[b]);
                }
            }
        }
    }
}

/// A block with a line that fails cannot be read.
pub proof fn lemma_bad_line_fails(lines: Seq<Seq<char>>, record: RecordView, index: int)
    requires
        0 <= index < lines.len(),
        forall|before: RecordView| read_line(before, lines[index]) is Err,
    ensures
        read_lines(lines, record) is Err,
{
    let upto = lines.take(index + 1);
    assert(upto.drop_last() =~= lines.take(index));
    assert(upto.last() == lines[index]);
    lemma_read_lines_fails(lines, record, index + 1);
}

/// A listing with a block that cannot be read cannot be read.
pub proof fn lemma_bad_block_fails(blocks: Seq<Seq<char>>, index: int)
    requires
        0 <= index < blocks.len(),
        block_record(blocks[index]) is Err,
    ensures
        block_records(blocks) is Err,
{
    let upto = blocks.take(index + 1);
    assert(upto.drop_last() =~= blocks.take(index));
    assert(upto.last() == blocks[index]);
    lemma_block_records_fails(blocks, index + 1);
}

/// A volume line that does not state a volume spoils the whole listing:
/// wherever in the listing it stands, no records come out.
pub proof fn law_malformed_volume_line_fails(listing: Seq<char>, block: int, line: int)
    requires
        without(listing, '\t').len() > 0,
        0 <= block < blocks_of(listing).len(),
        0 <= line < lines_of(blocks_of(listing)[block]).len(),
        volume_marker().is_prefix_of(lines_of(blocks_of(listing)[block])[line]),
        line_volume(lines_of(blocks_of(listing)[block])[line]) is Err,
    ensures
        listing_records(listing) is Err,
{
    let blocks = blocks_of(listing);
    let lines = lines_of(blocks[block]);
    let bad = lines[line];
    assert(!mute_marker().is_prefix_of(bad)) by {
        reveal_strlit("Mute: ");
        reveal_strlit("Volume: ");
        if mute_marker().is_prefix_of(bad) {
            assert(bad[0] == mute_marker()[0]);
            assert(bad[0] == volume_marker()[0]);
        }
    }
    assert forall|before: RecordView| read_line(before, bad) is Err by {}
    if line_id(lines[0]) is Ok {
        lemma_bad_line_fails(
            lines,
            RecordView { id: line_id(lines[0])->Ok_0, name: Seq::empty(), volume: 0, mute: false },
            line,
        );
    }
    lemma_bad_block_fails(blocks, block);
}

} // verus!
