//! The segments of a file: how a file is cut, and how one segment is downloaded.
use vstd::prelude::*;
use crate::download::source::{FileSourceTracker, SourceFailureKind, SourceState};
use crate::error::BGUMCLError;
use crate::external::MAX_NANOS;
use crate::text::{
    concat2, concat3, concat4, contains, decimal, decimal_text, decimals_tell_their_number, has, holds,
    i64_value, is_digit, lower, occurs_at, opt_text, parse_i64, parted, parts_make_up_the_text,
    prefixes_are_taken_off, signed_decimal, signed_decimal_text, split_once, strip_prefix,
    texts_are_parted_at_the_first_mark, to_lower, without_prefix, written_numbers_are_read,
};

verus! {

/// How often a segment is tried.
pub const SEGMENT_DOWNLOAD_RETRIES: usize = 4;

/// The size from which a file is cut.
pub const SEGMENTED_DOWNLOAD_THRESHOLD: i64 = 8_388_608;

/// The most segments of a file.
pub const MAX_DOWNLOAD_SEGMENTS: i64 = 8;

/// The wait before the next attempt, in milliseconds: it doubles from half a second to four
/// seconds.
pub open spec fn delay_after(attempt: nat) -> nat {
    if attempt == 0 {
        500
    } else if attempt == 1 {
        1000
    } else if attempt == 2 {
        2000
    } else {
        4000
    }
}

/// The wait after a failed attempt, counted from zero, in milliseconds.
pub fn retry_delay(attempt: usize) -> (r: u64)
    ensures
        r == delay_after(attempt as nat),
{
    if attempt == 0 {
        500
    } else if attempt == 1 {
        1000
    } else if attempt == 2 {
        2000
    } else {
        4000
    }
}

/// A message that says that a download cannot go on from where it stopped.
pub open spec fn tells_range_reset(message: Seq<char>) -> bool {
    let m = lower(message);
    contains(m, "416"@) || contains(m, "range not satisfiable"@) || contains(m, "invalid resumed"@)
        || contains(m, "resumed response starts"@)
}

/// Whether an error says that a download cannot go on from where it stopped and has to begin
/// anew.
pub fn is_range_reset_error(error: &BGUMCLError) -> (r: bool)
    ensures
        r == tells_range_reset(error@),
{
    let message = to_lower(error.0.as_str());
    has(message.as_str(), "416") || has(message.as_str(), "range not satisfiable") || has(
        message.as_str(),
        "invalid resumed",
    ) || has(message.as_str(), "resumed response starts")
}

// ---------------------------------------------------------------------------------------------
// Cutting a file
// ---------------------------------------------------------------------------------------------
/// In how many segments a file of a size is downloaded.
pub open spec fn segment_count_of(total_size: int) -> int {
    if total_size >= 67_108_864 {
        8
    } else if total_size >= 33_554_432 {
        4
    } else if total_size >= SEGMENTED_DOWNLOAD_THRESHOLD {
        2
    } else {
        1
    }
}

/// The size of a segment, the last of which may be smaller.
pub open spec fn segment_size_of(total_size: int, count: int) -> int {
    (total_size + count - 1) / count
}

/// The first byte of a segment.
pub open spec fn segment_start_of(total_size: int, count: int, index: int) -> int {
    index * segment_size_of(total_size, count)
}

/// The last byte of a segment.
pub open spec fn segment_end_of(total_size: int, count: int, index: int) -> int {
    let end = (index + 1) * segment_size_of(total_size, count) - 1;
    if end < total_size - 1 {
        end
    } else {
        total_size - 1
    }
}

/// In how many segments a file of a size is downloaded: only a large one in more than one.
pub fn segment_count_for_size(total_size: i64) -> (r: i64)
    ensures
        r == segment_count_of(total_size as int),
        1 <= r <= MAX_DOWNLOAD_SEGMENTS,
{
    let count: i64 = if total_size >= 67_108_864 {
        8
    } else if total_size >= 33_554_432 {
        4
    } else if total_size >= SEGMENTED_DOWNLOAD_THRESHOLD {
        2
    } else {
        1
    };
    if count < MAX_DOWNLOAD_SEGMENTS {
        count
    } else {
        MAX_DOWNLOAD_SEGMENTS
    }
}

proof fn lemma_sizes(total: int, count: int, index: int)
    requires
        0 < total,
        1 <= count <= 8,
        0 <= index < count,
    ensures
        1 <= segment_size_of(total, count) <= total,
        count * segment_size_of(total, count) >= total,
        count * segment_size_of(total, count) <= total + count - 1,
        0 <= segment_start_of(total, count, index) <= total + count - 1,
        (index + 1) * segment_size_of(total, count) <= total + count - 1,
{
    let size = segment_size_of(total, count);
    assert(count * size <= total + count - 1 < count * size + count && size >= 1 && size <= total)
        by (nonlinear_arith)
        requires
            size == (total + count - 1) / count,
            count >= 1,
            total > 0,
    ;
    assert((index + 1) * size <= count * size) by (nonlinear_arith)
        requires
            index + 1 <= count,
            size >= 0,
    ;
    assert(0 <= index * size <= (index + 1) * size) by (nonlinear_arith)
        requires
            index >= 0,
            size >= 0,
    ;
}

/// The segments of a file: the first byte and the last byte of each.
pub fn segment_bounds(total_size: i64, count: i64, index: i64) -> (r: (i64, i64))
    requires
        0 < total_size <= i64::MAX - 8,
        1 <= count <= 8,
        0 <= index < count,
    ensures
        r.0 == segment_start_of(total_size as int, count as int, index as int),
        r.1 == segment_end_of(total_size as int, count as int, index as int),
{
    proof {
        lemma_sizes(total_size as int, count as int, index as int);
    }
    let size: i64 = (total_size + count - 1) / count;
    let start: i64 = index * size;
    let end: i64 = (index + 1) * size - 1;
    (
        start,
        if end < total_size - 1 {
            end
        } else {
            total_size - 1
        },
    )
}

/// The segments of a file that is large enough to be cut, be they as many as its size allows or
/// fewer, follow each other without a gap and without an overlap from its first byte to its last,
/// and none is empty.
pub proof fn segments_partition_the_file(total_size: int, count: int, index: int)
    requires
        total_size >= SEGMENTED_DOWNLOAD_THRESHOLD,
        1 <= count <= segment_count_of(total_size),
        0 <= index < count,
    ensures
        ({
            let start = segment_start_of(total_size, count, index);
            let end = segment_end_of(total_size, count, index);
            &&& 0 <= start <= end < total_size
            &&& index == 0 ==> start == 0
            &&& index + 1 < count ==> segment_start_of(total_size, count, index + 1) == end + 1
            &&& index + 1 == count ==> end == total_size - 1
        }),
{
    let size = segment_size_of(total_size, count);
    lemma_sizes(total_size, count, index);
    assert(index * size < total_size) by (nonlinear_arith)
        requires
            0 <= index <= count - 1,
            count <= 8,
            count * size <= total_size + count - 1,
            size >= 1,
            total_size >= 8_388_608,
            size * count >= total_size,
    ;
    assert((index + 1) * size == index * size + size) by (nonlinear_arith);
    if index + 1 < count {
        assert((index + 1) * size <= (count - 1) * size) by (nonlinear_arith)
            requires
                index + 1 <= count - 1,
                size >= 1,
        ;
        assert((count - 1) * size == count * size - size) by (nonlinear_arith);
        assert(size > 8) by (nonlinear_arith)
            requires
                size * count >= total_size,
                count <= 8,
                count >= 1,
                total_size >= 8_388_608,
        ;
    } else {
        assert((index + 1) * size == count * size);
    }
    if index == 0 {
        assert(0 * size == 0);
    }
}

/// The mark of a directory of parts: parts of another total or another count are of no use.
pub fn segment_marker(total_size: i64, count: i64) -> (r: String)
    ensures
        r@ == signed_decimal(total_size as int) + ":"@ + signed_decimal(count as int),
{
    let a = signed_decimal_text(total_size);
    let b = signed_decimal_text(count);
    concat3(a.as_str(), ":", b.as_str())
}

/// The name of the directory that holds the parts of a file.
pub fn segment_directory_name(file_name: &Option<String>) -> (r: String)
    ensures
        r@ == "."@ + (match opt_text(*file_name) {
            Some(name) => name,
            None => "download"@,
        }) + ".bgumcl-parts"@,
{
    match file_name {
        Some(name) => concat3(".", name.as_str(), ".bgumcl-parts"),
        None => concat3(".", "download", ".bgumcl-parts"),
    }
}

/// The name of the file that holds a part.
pub fn part_name(index: i64) -> (r: String)
    ensures
        r@ == "part-"@ + signed_decimal(index as int),
{
    let n = signed_decimal_text(index);
    concat2("part-", n.as_str())
}

/// Whether the parts that are there can be used: they were made for the same cut.
pub fn parts_usable(existing_marker: &Option<String>, total_size: i64, count: i64) -> (r: bool)
    ensures
        r == (opt_text(*existing_marker) == Some(
            signed_decimal(total_size as int) + ":"@ + signed_decimal(count as int),
        )),
{
    let marker = segment_marker(total_size, count);
    match existing_marker {
        Some(existing) => crate::text::same(existing.as_str(), marker.as_str()),
        None => false,
    }
}

/// The sum of the lengths of the parts that are there.
pub open spec fn sum_of(lengths: Seq<i64>) -> int
    decreases lengths.len(),
{
    if lengths.len() == 0 {
        0
    } else {
        sum_of(lengths.drop_last()) + lengths.last()
    }
}

/// The first lengths add up to no more than all.
proof fn lemma_sum_grows(lengths: Seq<i64>, k: int)
    requires
        0 <= k <= lengths.len(),
        forall|i: int| 0 <= i < lengths.len() ==> #[trigger] lengths[i] >= 0,
    ensures
        0 <= sum_of(lengths.take(k)) <= sum_of(lengths),
    decreases lengths.len(), k,
{
    if k < lengths.len() {
        lemma_sum_grows(lengths.drop_last(), k);
        assert(lengths.drop_last().take(k) =~= lengths.take(k));
        assert(lengths[lengths.len() - 1] >= 0);
    } else {
        assert(lengths.take(k) =~= lengths);
        if lengths.len() > 0 {
            lemma_sum_grows(lengths.drop_last(), k - 1);
            assert(lengths.drop_last().take(k - 1) =~= lengths.drop_last());
            assert(lengths[lengths.len() - 1] >= 0);
        }
    }
}

/// The progress with which to begin, given the lengths of the parts that are there, where it
/// differs from the recorded one.
pub fn aligned_progress(lengths: &Vec<i64>, recorded: i64) -> (r: Option<i64>)
    requires
        forall|i: int| 0 <= i < lengths.len() ==> #[trigger] lengths@[i] >= 0,
        sum_of(lengths@) <= i64::MAX,
    ensures
        r == (if sum_of(lengths@) == recorded {
            None
        } else {
            Some(sum_of(lengths@) as i64)
        }),
{
    let mut sum: i64 = 0;
    let mut i: usize = 0;
    while i < lengths.len()
        invariant
            i <= lengths.len(),
            sum == sum_of(lengths@.take(i as int)),
            forall|j: int| 0 <= j < lengths.len() ==> #[trigger] lengths@[j] >= 0,
            sum_of(lengths@) <= i64::MAX,
        decreases lengths.len() - i,
    {
        proof {
            lemma_sum_grows(lengths@, i + 1);
            assert(lengths@.take(i + 1).drop_last() =~= lengths@.take(i as int));
            assert(lengths@.take(i + 1).last() == lengths@[i as int]);
        }
        sum = sum + lengths[i];
        i += 1;
    }
    assert(lengths@.take(lengths.len() as int) =~= lengths@);
    if sum == recorded {
        None
    } else {
        Some(sum)
    }
}

// ---------------------------------------------------------------------------------------------
// Downloading one segment
// ---------------------------------------------------------------------------------------------
/// What the sources of the file are to be told.
#[derive(Clone, Copy, Debug, PartialEq, Eq, Structural)]
pub enum SourceNote {
    Nothing,
    /// The source in use failed.
    Failed { kind: SourceFailureKind },
    /// Every failure is to be forgotten.
    Recover,
}

/// What the sources know after a note.
pub open spec fn noted(
    state: SourceState,
    source: Seq<char>,
    note: SourceNote,
    now: u128,
) -> SourceState {
    match note {
        SourceNote::Nothing => state,
        SourceNote::Failed { kind } => state.after_failure(source, kind, now),
        SourceNote::Recover => state.recovered(),
    }
}

/// Tells the sources of a file what they are to be told.
pub fn take_note(tracker: &mut FileSourceTracker, source: &str, note: SourceNote, now: u128)
    requires
        now <= MAX_NANOS,
    ensures
        final(tracker)@ == noted(old(tracker)@, source@, note, now),
{
    match note {
        SourceNote::Nothing => {},
        SourceNote::Failed { kind } => {
            tracker.record_failure_at(source, kind, now);
        },
        SourceNote::Recover => {
            tracker.reset_for_recovery();
        },
    }
}

/// The first and the last byte that a `Content-Range` header tells.
pub open spec fn range_told(content_range: Option<Seq<char>>) -> Option<(int, int)> {
    match content_range {
        None => None,
        Some(value) => match without_prefix(value, "bytes "@) {
            None => None,
            Some(rest) => match parted(rest, "/"@) {
                None => None,
                Some((range, _)) => match parted(range, "-"@) {
                    None => None,
                    Some((start, end)) => if i64_value(start) is Some && i64_value(end) is Some {
                        Some((i64_value(start)->0, i64_value(end)->0))
                    } else {
                        None
                    },
                },
            },
        },
    }
}

/// Whether a `Content-Range` header tells the range that was asked for.
pub fn range_matches(content_range: &Option<String>, start: i64, end: i64) -> (r: bool)
    ensures
        r == (range_told(opt_text(*content_range)) == Some((start as int, end as int))),
{
    let value = match content_range {
        Some(value) => value,
        None => {
            return false;
        },
    };
    let rest = match strip_prefix(value.as_str(), "bytes ") {
        Some(rest) => rest,
        None => {
            return false;
        },
    };
    let (range, _total) = match split_once(rest.as_str(), "/") {
        Some(pair) => pair,
        None => {
            return false;
        },
    };
    let (from, to) = match split_once(range.as_str(), "-") {
        Some(pair) => pair,
        None => {
            return false;
        },
    };
    match (parse_i64(from.as_str()), parse_i64(to.as_str())) {
        (Some(a), Some(b)) => a == start && b == end,
        _ => false,
    }
}

/// Where the download of a segment stands.
#[derive(Clone, Copy, Debug, PartialEq, Eq, Structural)]
pub enum SegmentPhase {
    /// The part on disk is to be looked at.
    Checking,
    /// The bytes from `from` on were asked for.
    Asked { from: i64 },
    /// An answer is being written to the part.
    Receiving,
    /// It is over.
    Over,
}

/// What happened.
#[derive(Debug)]
pub enum SegmentEvent {
    /// The part on disk has a length; none if it is not there.
    PartLength { length: i64 },
    /// A source answered with a range and a length.
    Answered { content_range: Option<String>, content_length: Option<u64> },
    /// No source answered.
    NoAnswer { error: BGUMCLError },
    /// The answer was written; the part has a length now.
    Received { length: i64 },
    /// The transfer broke off.
    BrokenOff { error: BGUMCLError },
}

/// What to do next.
#[derive(Debug)]
pub enum SegmentNext {
    /// Look at the part on disk.
    Check,
    /// Ask for the bytes from `from` to the end of the segment, beginning with the source that
    /// stands `offset` behind the first.
    Ask { from: i64, offset: usize },
    /// Append the answer to the part.
    Receive,
    /// The segment is complete.
    Done,
    /// The segment failed.
    Fail { error: BGUMCLError },
}

/// What to do after an event: first what concerns the sources and the part, then the wait, then
/// the next step.
#[derive(Debug)]
pub struct SegmentStep {
    pub note: SourceNote,
    pub remove_part: bool,
    pub delay_ms: u64,
    pub next: SegmentNext,
}

/// What to do next, as texts.
pub enum SegmentNextModel {
    Check,
    Ask { from: i64, offset: int },
    Receive,
    Done,
    Fail { error: Seq<char> },
}

/// A step as texts.
pub struct SegmentStepModel {
    pub note: SourceNote,
    pub remove_part: bool,
    pub delay_ms: nat,
    pub next: SegmentNextModel,
}

impl View for SegmentNext {
    type V = SegmentNextModel;

    open spec fn view(&self) -> SegmentNextModel {
        match *self {
            SegmentNext::Check => SegmentNextModel::Check,
            SegmentNext::Ask { from, offset } => SegmentNextModel::Ask {
                from,
                offset: offset as int,
            },
            SegmentNext::Receive => SegmentNextModel::Receive,
            SegmentNext::Done => SegmentNextModel::Done,
            SegmentNext::Fail { error } => SegmentNextModel::Fail { error: error@ },
        }
    }
}

impl View for SegmentStep {
    type V = SegmentStepModel;

    open spec fn view(&self) -> SegmentStepModel {
        SegmentStepModel {
            note: self.note,
            remove_part: self.remove_part,
            delay_ms: self.delay_ms as nat,
            next: self.next@,
        }
    }
}

/// A segment being downloaded: its bounds, the attempt, counted from zero, and where it stands.
#[derive(Clone, Copy, Debug, PartialEq, Eq, Structural)]
pub struct SegmentDownload {
    pub start: i64,
    pub end: i64,
    pub source_offset: usize,
    pub attempt: usize,
    pub phase: SegmentPhase,
}

/// A boolean as it is shown.
pub open spec fn shown_bool(b: bool) -> Seq<char> {
    if b {
        "true"@
    } else {
        "false"@
    }
}

/// An optional length as it is shown.
pub open spec fn shown_length(length: Option<u64>) -> Seq<char> {
    match length {
        Some(n) => "Some("@ + decimal(n as nat) + ")"@,
        None => "None"@,
    }
}

/// The message for an answer that is not what was asked for.
pub open spec fn mismatch_message(
    from: int,
    end: int,
    expected: int,
    matches: bool,
    length: Option<u64>,
) -> Seq<char> {
    "Segment response mismatch: expected range "@ + signed_decimal(from) + "-"@ + signed_decimal(end)
        + " and length "@ + signed_decimal(expected) + ", got range="@ + shown_bool(matches)
        + " length="@ + shown_length(length)
}

/// The message for a segment that did not become complete.
pub open spec fn incomplete_message(start: int, end: int) -> Seq<char> {
    "Segment download did not complete: "@ + signed_decimal(start) + "-"@ + signed_decimal(end)
}

impl SegmentDownload {
    /// The segment has at least one byte, and the attempt is one of those allowed.
    pub open spec fn wf(self) -> bool {
        &&& 0 <= self.start <= self.end < i64::MAX
        &&& self.attempt < SEGMENT_DOWNLOAD_RETRIES
        &&& self.source_offset <= usize::MAX - SEGMENT_DOWNLOAD_RETRIES
        &&& self.phase matches SegmentPhase::Asked { from } ==> self.start <= from <= self.end
    }

    /// The length of the complete segment.
    pub open spec fn expected(self) -> int {
        self.end - self.start + 1
    }

    /// An event that can happen where the download stands. A length is never below zero.
    pub open spec fn expects(self, event: SegmentEvent) -> bool {
        match self.phase {
            SegmentPhase::Checking => event matches SegmentEvent::PartLength { length } && length >= 0,
            SegmentPhase::Asked { .. } => event is Answered || event is NoAnswer,
            SegmentPhase::Receiving => event is BrokenOff || (event matches SegmentEvent::Received {
                length,
            } && length >= 0),
            SegmentPhase::Over => false,
        }
    }

    /// The download at its next attempt, or failed if there is none: with the given error, or
    /// else as incomplete.
    pub open spec fn retried(
        self,
        note: SourceNote,
        remove_part: bool,
        delay: bool,
        error: Option<Seq<char>>,
    ) -> (SegmentDownload, SegmentStepModel) {
        if self.attempt + 1 < SEGMENT_DOWNLOAD_RETRIES {
            (
                SegmentDownload {
                    attempt: (self.attempt + 1) as usize,
                    phase: SegmentPhase::Checking,
                    ..self
                },
                SegmentStepModel {
                    note,
                    remove_part,
                    delay_ms: if delay {
                        delay_after(self.attempt as nat)
                    } else {
                        0
                    },
                    next: SegmentNextModel::Check,
                },
            )
        } else {
            (
                SegmentDownload { phase: SegmentPhase::Over, ..self },
                SegmentStepModel {
                    note,
                    remove_part,
                    delay_ms: 0,
                    next: SegmentNextModel::Fail {
                        error: match error {
                            Some(message) => message,
                            None => incomplete_message(self.start as int, self.end as int),
                        },
                    },
                },
            )
        }
    }

    /// An answer is what was asked for.
    pub open spec fn fits(
        self,
        from: i64,
        content_range: Option<Seq<char>>,
        length: Option<u64>,
    ) -> bool {
        range_told(content_range) == Some((from as int, self.end as int)) && length == Some(
            (self.end - from + 1) as u64,
        )
    }

    /// How the download goes on after an event:
    /// - a part that is too long is thrown away, a complete one ends the download, the rest of
    ///   another one is asked for;
    /// - an answer for another range counts as a failure of its source;
    /// - an error that says that the part is stale throws it away;
    /// - every other failure is followed by another attempt, as long as there is one.
    pub open spec fn next(self, event: SegmentEvent) -> (SegmentDownload, SegmentStepModel) {
        match event {
            SegmentEvent::PartLength { length } => {
                let too_long = length > self.expected();
                let existing = if too_long {
                    0
                } else {
                    length as int
                };
                if existing == self.expected() {
                    (
                        SegmentDownload { phase: SegmentPhase::Over, ..self },
                        SegmentStepModel {
                            note: SourceNote::Nothing,
                            remove_part: false,
                            delay_ms: 0,
                            next: SegmentNextModel::Done,
                        },
                    )
                } else {
                    let from = (self.start + existing) as i64;
                    (
                        SegmentDownload { phase: SegmentPhase::Asked { from }, ..self },
                        SegmentStepModel {
                            note: SourceNote::Nothing,
                            remove_part: too_long,
                            delay_ms: 0,
                            next: SegmentNextModel::Ask {
                                from,
                                offset: self.source_offset + self.attempt,
                            },
                        },
                    )
                }
            },
            SegmentEvent::NoAnswer { error } => if tells_range_reset(error@) {
                self.retried(SourceNote::Recover, true, false, None)
            } else {
                self.retried(SourceNote::Nothing, false, true, Some(error@))
            },
            SegmentEvent::Answered { content_range, content_length } => match self.phase {
                SegmentPhase::Asked { from } => if self.fits(
                    from,
                    opt_text(content_range),
                    content_length,
                ) {
                    (
                        SegmentDownload { phase: SegmentPhase::Receiving, ..self },
                        SegmentStepModel {
                            note: SourceNote::Nothing,
                            remove_part: false,
                            delay_ms: 0,
                            next: SegmentNextModel::Receive,
                        },
                    )
                } else {
                    self.retried(
                        SourceNote::Failed { kind: SourceFailureKind::Range },
                        false,
                        false,
                        Some(
                            mismatch_message(
                                from as int,
                                self.end as int,
                                self.end - from + 1,
                                range_told(opt_text(content_range)) == Some(
                                    (from as int, self.end as int),
                                ),
                                content_length,
                            ),
                        ),
                    )
                },
                _ => arbitrary(),
            },
            SegmentEvent::BrokenOff { error } => self.retried(
                SourceNote::Failed { kind: SourceFailureKind::Transfer },
                false,
                true,
                Some(error@),
            ),
            SegmentEvent::Received { length } => if length == self.expected() {
                (
                    SegmentDownload { phase: SegmentPhase::Over, ..self },
                    SegmentStepModel {
                        note: SourceNote::Nothing,
                        remove_part: false,
                        delay_ms: 0,
                        next: SegmentNextModel::Done,
                    },
                )
            } else {
                self.retried(
                    SourceNote::Failed { kind: SourceFailureKind::Transfer },
                    false,
                    true,
                    None,
                )
            },
        }
    }

    /// How many events the download can still take at most.
    pub open spec fn events_left(self) -> int {
        let later = 3 * (SEGMENT_DOWNLOAD_RETRIES - 1 - self.attempt);
        match self.phase {
            SegmentPhase::Checking => later + 3,
            SegmentPhase::Asked { .. } => later + 2,
            SegmentPhase::Receiving => later + 1,
            SegmentPhase::Over => 0,
        }
    }

    /// Begins the download of a segment.
    pub fn begin(start: i64, end: i64, source_offset: usize) -> (r: SegmentDownload)
        requires
            0 <= start <= end < i64::MAX,
            source_offset <= usize::MAX - SEGMENT_DOWNLOAD_RETRIES,
        ensures
            r.wf(),
            r == (SegmentDownload {
                start,
                end,
                source_offset,
                attempt: 0,
                phase: SegmentPhase::Checking,
            }),
    {
        SegmentDownload { start, end, source_offset, attempt: 0, phase: SegmentPhase::Checking }
    }

    fn incomplete(&self) -> (r: BGUMCLError)
        ensures
            r@ == incomplete_message(self.start as int, self.end as int),
    {
        let a = signed_decimal_text(self.start);
        let b = signed_decimal_text(self.end);
        BGUMCLError(concat4("Segment download did not complete: ", a.as_str(), "-", b.as_str()))
    }

    fn mismatch(&self, from: i64, matches: bool, length: Option<u64>) -> (r: BGUMCLError)
        requires
            self.wf(),
            self.start <= from <= self.end,
        ensures
            r@ == mismatch_message(
                from as int,
                self.end as int,
                self.end - from + 1,
                matches,
                length,
            ),
    {
        let a = signed_decimal_text(from);
        let b = signed_decimal_text(self.end);
        let c = signed_decimal_text(self.end - from + 1);
        let shown = match length {
            Some(n) => {
                let d = decimal_text(n);
                concat3("Some(", d.as_str(), ")")
            },
            None => "None".to_owned(),
        };
        let mut message = concat4(
            "Segment response mismatch: expected range ",
            a.as_str(),
            "-",
            b.as_str(),
        );
        message.append(" and length ");
        message.append(c.as_str());
        message.append(", got range=");
        if matches {
            message.append("true");
        } else {
            message.append("false");
        }
        message.append(" length=");
        message.append(shown.as_str());
        BGUMCLError(message)
    }

    fn retry(
        &mut self,
        note: SourceNote,
        remove_part: bool,
        delay: bool,
        error: Option<BGUMCLError>,
    ) -> (r: SegmentStep)
        requires
            old(self).wf(),
        ensures
            (*final(self), r@) == old(self).retried(
                note,
                remove_part,
                delay,
                match error {
                    Some(e) => Some(e@),
                    None => None,
                },
            ),
    {
        if self.attempt + 1 < SEGMENT_DOWNLOAD_RETRIES {
            let delay_ms = if delay {
                retry_delay(self.attempt)
            } else {
                0
            };
            self.attempt = self.attempt + 1;
            self.phase = SegmentPhase::Checking;
            SegmentStep { note, remove_part, delay_ms, next: SegmentNext::Check }
        } else {
            self.phase = SegmentPhase::Over;
            let error = match error {
                Some(error) => error,
                None => self.incomplete(),
            };
            SegmentStep { note, remove_part, delay_ms: 0, next: SegmentNext::Fail { error } }
        }
    }

    /// Takes an event that can happen now, and says what to do.
    pub fn step(&mut self, event: SegmentEvent) -> (r: SegmentStep)
        requires
            old(self).wf(),
            old(self).expects(event),
        ensures
            final(self).wf(),
            (*final(self), r@) == old(self).next(event),
    {
        let expected: i64 = self.end - self.start + 1;
        match event {
            SegmentEvent::PartLength { length } => {
                let too_long = length > expected;
                let existing: i64 = if too_long {
                    0
                } else {
                    length
                };
                if existing == expected {
                    self.phase = SegmentPhase::Over;
                    SegmentStep {
                        note: SourceNote::Nothing,
                        remove_part: false,
                        delay_ms: 0,
                        next: SegmentNext::Done,
                    }
                } else {
                    let from: i64 = self.start + existing;
                    self.phase = SegmentPhase::Asked { from };
                    SegmentStep {
                        note: SourceNote::Nothing,
                        remove_part: too_long,
                        delay_ms: 0,
                        next: SegmentNext::Ask { from, offset: self.source_offset + self.attempt },
                    }
                }
            },
            SegmentEvent::NoAnswer { error } => {
                if is_range_reset_error(&error) {
                    self.retry(SourceNote::Recover, true, false, None)
                } else {
                    self.retry(SourceNote::Nothing, false, true, Some(error))
                }
            },
            SegmentEvent::Answered { content_range, content_length } => {
                let from = match self.phase {
                    SegmentPhase::Asked { from } => from,
                    _ => self.start,
                };
                let wanted: i64 = self.end - from + 1;
                let matches = range_matches(&content_range, from, self.end);
                let length_fits = match content_length {
                    Some(length) => length == wanted as u64,
                    None => false,
                };
                if matches && length_fits {
                    self.phase = SegmentPhase::Receiving;
                    SegmentStep {
                        note: SourceNote::Nothing,
                        remove_part: false,
                        delay_ms: 0,
                        next: SegmentNext::Receive,
                    }
                } else {
                    let error = self.mismatch(from, matches, content_length);
                    self.retry(
                        SourceNote::Failed { kind: SourceFailureKind::Range },
                        false,
                        false,
                        Some(error),
                    )
                }
            },
            SegmentEvent::BrokenOff { error } => self.retry(
                SourceNote::Failed { kind: SourceFailureKind::Transfer },
                false,
                true,
                Some(error),
            ),
            SegmentEvent::Received { length } => {
                if length == expected {
                    self.phase = SegmentPhase::Over;
                    SegmentStep {
                        note: SourceNote::Nothing,
                        remove_part: false,
                        delay_ms: 0,
                        next: SegmentNext::Done,
                    }
                } else {
                    self.retry(
                        SourceNote::Failed { kind: SourceFailureKind::Transfer },
                        false,
                        true,
                        None,
                    )
                }
            },
        }
    }
}

/// A segment takes only so many events: each brings it nearer to its end.
pub proof fn segments_come_to_an_end(s: SegmentDownload, event: SegmentEvent)
    requires
        s.wf(),
        s.expects(event),
    ensures
        s.next(event).0.wf(),
        0 <= s.next(event).0.events_left() < s.events_left(),
        s.next(event).0.phase == SegmentPhase::Over <==> s.next(event).1.next is Done
            || s.next(event).1.next is Fail,
{
}

/// A segment is complete only when its part has exactly the length of the segment.
pub proof fn segments_complete_only_at_full_length(s: SegmentDownload, event: SegmentEvent)
    requires
        s.wf(),
        s.expects(event),
        s.next(event).1.next is Done,
    ensures
        match event {
            SegmentEvent::PartLength { length } => length == s.expected(),
            SegmentEvent::Received { length } => length == s.expected(),
            _ => false,
        },
{
}

/// What is asked for is exactly what the part lacks: the part and the answer make up the segment.
pub proof fn segments_ask_for_what_is_missing(s: SegmentDownload, event: SegmentEvent)
    requires
        s.wf(),
        s.expects(event),
        s.next(event).1.next is Ask,
    ensures
        ({
            let from = s.next(event).1.next->from;
            let kept = if s.next(event).1.remove_part {
                0
            } else {
                event->PartLength_length as int
            };
            &&& s.start <= from <= s.end
            &&& kept + (s.end - from + 1) == s.expected()
        }),
{
}

/// A part that is complete ends the download of a segment. One that is longer is thrown away, and the
/// whole segment is asked for; what another one lacks is asked for.
pub proof fn parts_are_completed(s: SegmentDownload, length: i64)
    requires
        s.wf(),
        s.phase == SegmentPhase::Checking,
        length >= 0,
    ensures
        ({
            let (after, step) = s.next(SegmentEvent::PartLength { length });
            let whole = s.end - s.start + 1;
            &&& step.note == SourceNote::Nothing && step.delay_ms == 0
            &&& step.next is Done <==> length == whole
            &&& length == whole ==> !step.remove_part
            &&& length < whole ==> step.next == (SegmentNextModel::Ask {
                from: (s.start + length) as i64,
                offset: s.source_offset + s.attempt,
            }) && !step.remove_part
            &&& length > whole ==> step.next == (SegmentNextModel::Ask {
                from: s.start,
                offset: s.source_offset + s.attempt,
            }) && step.remove_part
            &&& step.next matches SegmentNextModel::Ask { from, .. } ==> after.phase == (
            SegmentPhase::Asked { from })
        }),
{
}

/// A segment from a source that serves a file is that segment of the file. While the part is a
/// beginning of the segment, what is asked for and appended makes up the segment, which is then
/// complete; less of it is not taken for the segment.
pub proof fn served_segments_arrive_whole(
    s: SegmentDownload,
    content: Seq<u8>,
    part: Seq<u8>,
    content_range: Option<String>,
    arrived: int,
)
    requires
        s.wf(),
        s.phase == SegmentPhase::Checking,
        s.end < content.len(),
        part.is_prefix_of(content.subrange(s.start as int, s.end + 1)),
        part.len() < s.end - s.start + 1,
        0 <= arrived <= s.end - s.start + 1 - part.len(),
        range_told(opt_text(content_range)) == Some((s.start + part.len(), s.end as int)),
    ensures
        ({
            let (asked, request) = s.next(SegmentEvent::PartLength { length: part.len() as i64 });
            let from = request.next->Ask_from;
            let (open, answer) = asked.next(
                SegmentEvent::Answered {
                    content_range,
                    content_length: Some((s.end - from + 1) as u64),
                },
            );
            let written = part + content.subrange(from as int, from + arrived);
            let (_, end) = open.next(SegmentEvent::Received { length: written.len() as i64 });
            &&& request.next is Ask && !request.remove_part
            &&& from == s.start + part.len()
            &&& answer.next is Receive && !answer.remove_part
            &&& written.is_prefix_of(content.subrange(s.start as int, s.end + 1))
            &&& from + arrived == s.end + 1 ==> written == content.subrange(s.start as int, s.end + 1)
                && end.next is Done
            &&& from + arrived <= s.end ==> !(end.next is Done) && !end.remove_part
        }),
{
    let segment = content.subrange(s.start as int, s.end + 1);
    let from = s.start + part.len();
    let written = part + content.subrange(from, from + arrived);
    assert(part =~= segment.subrange(0, part.len() as int));
    assert(written =~= segment.subrange(0, part.len() + arrived));
    if from + arrived == s.end + 1 {
        assert(written =~= segment);
    }
}

/// What a source answers is taken exactly where its range and its length are those that were asked
/// for. Another answer is a failure of the source: the next attempt follows at once.
pub proof fn answers_for_other_ranges_are_refused(
    s: SegmentDownload,
    content_range: Option<String>,
    content_length: Option<u64>,
)
    requires
        s.wf(),
        s.phase is Asked,
    ensures
        ({
            let from = s.phase->from;
            let (after, step) = s.next(SegmentEvent::Answered { content_range, content_length });
            let fits = range_told(opt_text(content_range)) == Some((from as int, s.end as int))
                && (content_length matches Some(n) && n == s.end - from + 1);
            &&& step.next is Receive <==> fits
            &&& !step.remove_part && step.delay_ms == 0
            &&& fits ==> step.note == SourceNote::Nothing && after.phase == SegmentPhase::Receiving
            &&& !fits ==> step.note == (SourceNote::Failed { kind: SourceFailureKind::Range })
            &&& !fits && s.attempt < 3 ==> step.next is Check
        }),
{
}

/// Every failure of a segment brings the next of four attempts, each with a source further on, and
/// after a wait that the kind of failure calls for. A part is thrown away only where it is stale. The
/// last attempt fails with the error.
pub proof fn failed_segments_are_tried_again(s: SegmentDownload, error: BGUMCLError, length: i64)
    requires
        s.wf(),
        0 <= length,
        length != s.end - s.start + 1,
    ensures
        ({
            let (unanswered, repeat) = s.next(SegmentEvent::NoAnswer { error });
            let (broken, rest) = s.next(SegmentEvent::BrokenOff { error });
            let (short, more) = s.next(SegmentEvent::Received { length });
            let stale = tells_range_reset(error@);
            &&& repeat.note == (if stale {
                SourceNote::Recover
            } else {
                SourceNote::Nothing
            })
            &&& repeat.remove_part == stale
            &&& rest.note == (SourceNote::Failed { kind: SourceFailureKind::Transfer })
            &&& more.note == (SourceNote::Failed { kind: SourceFailureKind::Transfer })
            &&& !rest.remove_part && !more.remove_part
            &&& s.attempt < 3 ==> {
                &&& repeat.next is Check && rest.next is Check && more.next is Check
                &&& unanswered.attempt == s.attempt + 1 && broken.attempt == s.attempt + 1
                    && short.attempt == s.attempt + 1
                &&& repeat.delay_ms == (if stale {
                    0
                } else {
                    delay_after(s.attempt as nat)
                })
                &&& rest.delay_ms == delay_after(s.attempt as nat)
                &&& more.delay_ms == delay_after(s.attempt as nat)
                &&& unanswered.source_offset == s.source_offset && unanswered.start == s.start
                    && unanswered.end == s.end
            }
            &&& s.attempt == 3 ==> {
                &&& !stale ==> repeat.next == (SegmentNextModel::Fail { error: error@ })
                &&& rest.next == (SegmentNextModel::Fail { error: error@ })
                &&& more.next is Fail
            }
        }),
{
}

/// A download stands where its next step takes it: at the check of its part, at the request for what is
/// missing, at the bytes of the answer, or at its end. It stays with its segment, and every attempt asks
/// one source further on.
pub proof fn downloads_stand_where_their_next_step_takes_them(s: SegmentDownload, event: SegmentEvent)
    requires
        s.wf(),
        s.expects(event),
    ensures
        ({
            let (after, step) = s.next(event);
            &&& step.next is Check <==> after.phase == SegmentPhase::Checking
            &&& step.next is Ask <==> after.phase is Asked
            &&& step.next matches SegmentNextModel::Ask { from, offset } ==> after.phase->from == from
                && offset == s.source_offset + s.attempt
            &&& step.next is Receive <==> after.phase == SegmentPhase::Receiving
            &&& step.next is Done || step.next is Fail <==> after.phase == SegmentPhase::Over
            &&& after.start == s.start && after.end == s.end && after.source_offset == s.source_offset
        }),
{
}

/// A segment that never became complete fails with its range.
pub proof fn incomplete_segments_fail_with_their_range(s: SegmentDownload, length: i64)
    requires
        s.wf(),
        s.attempt == 3,
        0 <= length,
        length != s.end - s.start + 1,
    ensures
        s.next(SegmentEvent::Received { length }).1.next == (SegmentNextModel::Fail {
            error: "Segment download did not complete: "@ + decimal(s.start as nat) + "-"@ + decimal(
                s.end as nat,
            ),
        }),
{
}

/// The wait doubles with every attempt, from half a second to four seconds.
pub proof fn waits_double(attempt: nat)
    ensures
        delay_after(0) == 500,
        delay_after(attempt + 1) == (if 2 * delay_after(attempt) > 4000 {
            4000
        } else {
            2 * delay_after(attempt)
        }),
{
}

/// A message tells that a position is stale exactly where it names the status 416, an unsatisfiable
/// range, or an answer that does not go on from the position; capitals do not count.
pub proof fn stale_positions_are_told(front: Seq<char>, back: Seq<char>, message: Seq<char>)
    ensures
        tells_range_reset(front + "416"@ + back),
        tells_range_reset(front + "Range Not Satisfiable"@ + back),
        tells_range_reset(front + "Invalid resumed"@ + back),
        tells_range_reset(front + "Resumed response starts"@ + back),
        tells_range_reset(message) ==> contains(lower(message), "416"@) || contains(
            lower(message),
            "range not satisfiable"@,
        ) || contains(lower(message), "invalid resumed"@) || contains(
            lower(message),
            "resumed response starts"@,
        ),
{
    reveal_strlit("416");
    reveal_strlit("Range Not Satisfiable");
    reveal_strlit("range not satisfiable");
    reveal_strlit("Invalid resumed");
    reveal_strlit("invalid resumed");
    reveal_strlit("Resumed response starts");
    reveal_strlit("resumed response starts");
    assert(lower("416"@) =~= "416"@);
    assert(lower("Range Not Satisfiable"@) =~= "range not satisfiable"@);
    assert(lower("Invalid resumed"@) =~= "invalid resumed"@);
    assert(lower("Resumed response starts"@) =~= "resumed response starts"@);
    lemma_lower_holds(front, "416"@, back);
    lemma_lower_holds(front, "Range Not Satisfiable"@, back);
    lemma_lower_holds(front, "Invalid resumed"@, back);
    lemma_lower_holds(front, "Resumed response starts"@, back);
}

proof fn lemma_lower_holds(front: Seq<char>, middle: Seq<char>, back: Seq<char>)
    ensures
        contains(lower(front + middle + back), lower(middle)),
{
    let whole = lower(front + middle + back);
    let at = front.len() as int;
    assert(whole.subrange(at, at + middle.len()) =~= lower(middle));
    assert(occurs_at(whole, lower(middle), at));
}

/// A file of less than eight mebibytes is not cut; a larger one is cut in two, from 32 mebibytes on in
/// four and from 64 on in eight.
pub proof fn larger_files_have_more_segments(total_size: int)
    ensures
        segment_count_of(total_size) == 1 <==> total_size < 8 * 1024 * 1024,
        segment_count_of(total_size) == 2 <==> 8 * 1024 * 1024 <= total_size < 32 * 1024 * 1024,
        segment_count_of(total_size) == 4 <==> 32 * 1024 * 1024 <= total_size < 64 * 1024 * 1024,
        segment_count_of(total_size) == 8 <==> 64 * 1024 * 1024 <= total_size,
{
}

/// All segments of a file but the last are of one size, and the last is no larger.
pub proof fn segments_are_of_one_size(total_size: int, count: int, i: int, j: int)
    requires
        total_size >= 8 * 1024 * 1024,
        1 <= count <= segment_count_of(total_size),
        0 <= i < j < count,
    ensures
        ({
            let first = segment_end_of(total_size, count, i) - segment_start_of(total_size, count, i);
            let second = segment_end_of(total_size, count, j) - segment_start_of(
                total_size,
                count,
                j,
            );
            &&& second <= first
            &&& j + 1 < count ==> second == first
            &&& (first + 1) * count < total_size + count
        }),
{
    let size = segment_size_of(total_size, count);
    lemma_sizes(total_size, count, i);
    lemma_sizes(total_size, count, j);
    segments_partition_the_file(total_size, count, i);
    segments_partition_the_file(total_size, count, j);
    assert((i + 1) * size == i * size + size) by (nonlinear_arith);
    assert((j + 1) * size == j * size + size) by (nonlinear_arith);
    assert(size * count == count * size) by (nonlinear_arith);
    if j + 1 < count {
        segments_partition_the_file(total_size, count, j + 1);
    }
    segments_partition_the_file(total_size, count, i + 1);
}

/// A header that tells a range is written as one: the word, two numbers with a hyphen between them, a
/// slash, and something behind it. Every other header tells none.
pub proof fn only_ranges_are_read_as_ranges(header: Seq<char>)
    ensures
        range_told(None) is None,
        range_told(Some(header)) matches Some((first, last)) ==> exists|
            a: Seq<char>,
            b: Seq<char>,
            total: Seq<char>,
        | #[trigger]
            header_of(a, b, total) == header && i64_value(a) == Some(first) && i64_value(b) == Some(
                last,
            ),
{
    if range_told(Some(header)) is Some {
        let rest = without_prefix(header, "bytes "@)->0;
        let (range, total) = parted(rest, "/"@)->0;
        let (a, b) = parted(range, "-"@)->0;
        prefixes_are_taken_off(header, "bytes "@);
        parts_make_up_the_text(rest, "/"@);
        parts_make_up_the_text(range, "-"@);
        assert(header_of(a, b, total) =~= header);
    }
}

/// A header of a range from `a` to `b`.
pub open spec fn header_of(a: Seq<char>, b: Seq<char>, total: Seq<char>) -> Seq<char> {
    "bytes "@ + a + "-"@ + b + "/"@ + total
}

/// A segment that fails tells its range, and what an answer told where it was another one.
pub proof fn failed_segments_tell_their_range(first: nat, last: nat, expected: nat, length: u64)
    ensures
        incomplete_message(first as int, last as int) == "Segment download did not complete: "@
            + decimal(first) + "-"@ + decimal(last),
        mismatch_message(first as int, last as int, expected as int, false, None)
            == "Segment response mismatch: expected range "@ + decimal(first) + "-"@ + decimal(last)
            + " and length "@ + decimal(expected) + ", got range=false length=None"@,
        mismatch_message(first as int, last as int, expected as int, true, Some(length))
            == "Segment response mismatch: expected range "@ + decimal(first) + "-"@ + decimal(last)
            + " and length "@ + decimal(expected) + ", got range=true length=Some("@ + decimal(
            length as nat,
        ) + ")"@,
{
    reveal_strlit(", got range=false length=None");
    reveal_strlit(", got range=true length=Some(");
    reveal_strlit(", got range=");
    reveal_strlit(" length=");
    reveal_strlit("true");
    reveal_strlit("false");
    reveal_strlit("None");
    reveal_strlit("Some(");
    assert(", got range=false length=None"@ =~= ", got range="@ + "false"@ + " length="@ + "None"@);
    assert(", got range=true length=Some("@ =~= ", got range="@ + "true"@ + " length="@ + "Some("@);
    let front = "Segment response mismatch: expected range "@ + decimal(first) + "-"@ + decimal(last)
        + " and length "@ + decimal(expected);
    assert(front + ", got range="@ + "false"@ + " length="@ + "None"@ =~= front
        + ", got range=false length=None"@);
    assert(front + ", got range="@ + "true"@ + " length="@ + ("Some("@ + decimal(length as nat)
        + ")"@) =~= front + ", got range=true length=Some("@ + decimal(length as nat) + ")"@);
}

/// The lengths of parts add up.
pub proof fn lengths_of_parts_add_up(first: Seq<i64>, second: Seq<i64>, length: i64)
    ensures
        sum_of(first + second) == sum_of(first) + sum_of(second),
        sum_of(seq![length]) == length,
    decreases second.len(),
{
    assert(seq![length].drop_last() =~= Seq::<i64>::empty());
    assert(sum_of(Seq::<i64>::empty()) == 0);
    if second.len() == 0 {
        assert(first + second =~= first);
    } else {
        let front = second.drop_last();
        lengths_of_parts_add_up(first, front, length);
        assert((first + second).drop_last() =~= first + front);
        assert((first + second).last() == second.last());
    }
}

/// The range that a header names is the one that it was written with.
pub proof fn ranges_are_read_as_written(first: nat, last: nat, total: Seq<char>)
    requires
        first <= i64::MAX,
        last <= i64::MAX,
    ensures
        range_told(Some("bytes "@ + decimal(first) + "-"@ + decimal(last) + "/"@ + total)) == Some(
            (first as int, last as int),
        ),
{
    reveal_strlit("/");
    reveal_strlit("-");
    let a = decimal(first);
    let b = decimal(last);
    let range = a + "-"@ + b;
    let rest = range + "/"@ + total;
    decimals_tell_their_number(first);
    decimals_tell_their_number(last);
    written_numbers_are_read(first as int);
    written_numbers_are_read(last as int);
    assert("bytes "@ + a + "-"@ + b + "/"@ + total =~= "bytes "@ + rest);
    prefixes_are_taken_off(rest, "bytes "@);
    assert(!holds(range, '/')) by {
        if holds(range, '/') {
            let i = choose|i: int| 0 <= i < range.len() && #[trigger] range[i] == '/';
            if i < a.len() {
                assert(is_digit(a[i]));
            } else if i > a.len() {
                assert(is_digit(b[i - a.len() - 1]));
            }
        }
    }
    texts_are_parted_at_the_first_mark(range, "/"@, total);
    assert(!holds(a, '-')) by {
        if holds(a, '-') {
            let i = choose|i: int| 0 <= i < a.len() && #[trigger] a[i] == '-';
            assert(is_digit(a[i]));
        }
    }
    texts_are_parted_at_the_first_mark(a, "-"@, b);
}

/// An answer is received only where it is for exactly the range that was asked for.
pub proof fn segments_receive_only_what_was_asked(s: SegmentDownload, event: SegmentEvent)
    requires
        s.wf(),
        s.expects(event),
        s.next(event).1.next is Receive,
    ensures
        event matches SegmentEvent::Answered { content_range, content_length } && (s.phase matches
            SegmentPhase::Asked { from } && s.fits(from, opt_text(content_range), content_length)),
{
}

} // verus!
