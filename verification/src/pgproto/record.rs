//! Records of the text format: a stream of bytes is cut into lines, which come in pieces of any
//! size.
use crate::ascii::{escaped_at, lemma_escaped_at_prefix, BACKSLASH, CARRIAGE_RETURN, LINE_FEED};
use crate::buffer::{buffered, buffered_slice, content};
use crate::errors::{bad_copy_format, PgErrorView, PgResult};
use crate::pgproto::row::bad_format;
use crate::text::concat3;
use bytes::{Bytes, BytesMut};
use vstd::prelude::*;

verus! {

/// How the lines of a stream end.
#[derive(Clone, Copy, Debug, PartialEq, Eq, Structural)]
pub enum EolStyle {
    Unknown,
    Lf,
    Cr,
    CrLf,
}

impl EolStyle {
    /// The name of a style.
    pub open spec fn text(self) -> Seq<char> {
        match self {
            EolStyle::Unknown => "unknown"@,
            EolStyle::Lf => "LF"@,
            EolStyle::Cr => "CR"@,
            EolStyle::CrLf => "CRLF"@,
        }
    }

    /// The name of a style.
    pub fn name(self) -> (name: &'static str)
        ensures
            name@ == self.text(),
    {
        match self {
            EolStyle::Unknown => "unknown",
            EolStyle::Lf => "LF",
            EolStyle::Cr => "CR",
            EolStyle::CrLf => "CRLF",
        }
    }
}

impl Default for EolStyle {
    fn default() -> (style: Self)
        ensures
            style == EolStyle::Unknown,
    {
        EolStyle::Unknown
    }
}

/// Whether the byte at `at` is a line feed or a carriage return that is not escaped.
pub open spec fn is_mark(data: Seq<u8>, at: int) -> bool {
    (data[at] == LINE_FEED || data[at] == CARRIAGE_RETURN) && !escaped_at(data, at)
}

/// Whether a record ends before the byte at `at`. What a carriage return ends is open until the
/// byte behind it is there.
pub open spec fn ends_record(data: Seq<u8>, at: int) -> bool {
    is_mark(data, at) && (data[at] == LINE_FEED || at + 1 < data.len())
}

/// The first place from `from` on where a record ends.
pub open spec fn first_end(data: Seq<u8>, from: int) -> Option<int>
    decreases data.len() - from,
{
    if from < 0 || from >= data.len() {
        None
    } else if ends_record(data, from) {
        Some(from)
    } else {
        first_end(data, from + 1)
    }
}

/// How the line ends whose record ends before the byte at `at`.
pub open spec fn style_at(data: Seq<u8>, at: int) -> EolStyle {
    if data[at] == LINE_FEED {
        EolStyle::Lf
    } else if data[at + 1] == LINE_FEED {
        EolStyle::CrLf
    } else {
        EolStyle::Cr
    }
}

/// How many bytes end a line.
pub open spec fn ending_len(style: EolStyle) -> int {
    if style == EolStyle::CrLf {
        2
    } else {
        1
    }
}

/// Whether the data ends with a carriage return that is not escaped.
pub open spec fn ends_with_cr(data: Seq<u8>) -> bool {
    data.len() > 0 && data.last() == CARRIAGE_RETURN && !escaped_at(data, data.len() - 1)
}

/// The answer to a stream whose lines end in more than one way.
pub open spec fn mixed_endings(expected: EolStyle, found: EolStyle) -> PgErrorView {
    bad_format(
        "COPY data has mixed line endings: expected "@ + expected.text() + " but found "@
            + found.text(),
    )
}

/// Whether a line may end in the way `found` in a stream whose lines end in the way `known`.
pub open spec fn accepts(known: EolStyle, found: EolStyle) -> bool {
    known == EolStyle::Unknown || known == found
}

/// Cuts a stream into records.
pub struct TextRecordReader {
    pub pending: BytesMut,
    pub eol_style: EolStyle,
    pub scan_offset: usize,
    pub scan_escaped: bool,
}

impl TextRecordReader {
    /// The bytes that no record has taken yet.
    pub open spec fn unread(&self) -> Seq<u8> {
        buffered(self.pending)
    }

    /// What is kept of the last search: no line ends before `scan_offset`, and `scan_escaped` says
    /// whether the byte there is escaped.
    pub open spec fn wf(&self) -> bool {
        &&& self.scan_offset <= self.unread().len()
        &&& self.scan_escaped == escaped_at(self.unread(), self.scan_offset as int)
        &&& forall|at: int| 0 <= at < self.scan_offset ==> !is_mark(self.unread(), at)
    }

    /// Whether the last search has gone through all the bytes, up to a carriage return at the end.
    pub open spec fn caught_up(&self) -> bool {
        self.scan_offset == if ends_with_cr(self.unread()) {
            self.unread().len() - 1
        } else {
            self.unread().len() as int
        }
    }

    /// A reader at the start of a stream.
    pub fn new() -> (reader: Self)
        ensures
            reader.wf(),
            reader.caught_up(),
            reader.unread() == Seq::<u8>::empty(),
            reader.eol_style == EolStyle::Unknown,
    {
        TextRecordReader {
            pending: BytesMut::new(),
            eol_style: EolStyle::Unknown,
            scan_offset: 0,
            scan_escaped: false,
        }
    }

    /// Takes the next bytes of the stream in.
    pub fn push(&mut self, bytes: &[u8])
        requires
            old(self).wf(),
            old(self).unread().len() + bytes@.len() <= isize::MAX,
        ensures
            final(self).wf(),
            final(self).unread() == old(self).unread() + bytes@,
            final(self).eol_style == old(self).eol_style,
    {
        let ghost before = self.unread();
        self.pending.extend_from_slice(bytes);
        proof {
            let offset = self.scan_offset as int;
            assert(self.unread().take(offset) =~= before.take(offset));
            lemma_escaped_at_prefix(before, self.unread(), offset);
            assert forall|at: int| 0 <= at < offset implies !is_mark(self.unread(), at) by {
                assert(self.unread().take(at) =~= before.take(at));
                lemma_escaped_at_prefix(before, self.unread(), at);
                assert(!is_mark(before, at));
            }
        }
    }

    /// Forgets the last search.
    pub fn reset_scan(&mut self)
        ensures
            final(self).pending == old(self).pending,
            final(self).eol_style == old(self).eol_style,
            final(self).scan_offset == 0,
            final(self).scan_escaped == false,
    {
        self.scan_offset = 0;
        self.scan_escaped = false;
    }

    /// Notes how a line ends, and refuses a way that differs from that of the lines before it.
    pub fn register_eol(&mut self, eol_style: EolStyle) -> (result: PgResult<()>)
        ensures
            final(self).pending == old(self).pending,
            final(self).scan_offset == old(self).scan_offset,
            final(self).scan_escaped == old(self).scan_escaped,
            if accepts(old(self).eol_style, eol_style) {
                result is Ok && final(self).eol_style == eol_style
            } else {
                &&& result matches Err(answer)
                &&& answer@ == mixed_endings(old(self).eol_style, eol_style)
                &&& final(self).eol_style == old(self).eol_style
            },
    {
        if self.eol_style == EolStyle::Unknown {
            self.eol_style = eol_style;
            return Ok(());
        }
        if self.eol_style == eol_style {
            return Ok(());
        }
        Err(
            bad_copy_format(
                concat3(
                    "COPY data has mixed line endings: expected ",
                    self.eol_style.name(),
                    " but found ",
                ).concat(eol_style.name()),
            ),
        )
    }

    /// Finds where the first record of the unread bytes ends: the number of its bytes, the number
    /// of bytes that end its line, and how it ends.
    pub fn find_record_end(&mut self) -> (result: Option<(usize, usize, EolStyle)>)
        requires
            old(self).wf(),
        ensures
            final(self).wf(),
            final(self).pending == old(self).pending,
            final(self).eol_style == old(self).eol_style,
            match first_end(old(self).unread(), 0) {
                Some(end) => {
                    &&& result matches Some((line_end, line_ending_len, style))
                    &&& line_end == end
                    &&& style == style_at(old(self).unread(), end)
                    &&& line_ending_len == ending_len(style)
                    &&& end + line_ending_len <= old(self).unread().len()
                    &&& end + line_ending_len <= usize::MAX
                    &&& final(self).scan_offset == 0
                },
                None => result is None && final(self).caught_up(),
            },
    {
        let mut idx: usize = self.scan_offset;
        let mut escaped = self.scan_escaped;
        let data = buffered_slice(&self.pending);
        proof {
            lemma_first_end_skips(data@, 0, idx as int);
        }
        let mut at_end_cr = false;
        while idx < data.len()
            invariant_except_break
                !at_end_cr,
            invariant
                data@ == old(self).unread(),
                self.pending == old(self).pending,
                self.eol_style == old(self).eol_style,
                idx <= data@.len(),
                escaped == escaped_at(data@, idx as int),
                forall|at: int| 0 <= at < idx ==> !is_mark(data@, at),
                first_end(data@, 0) == first_end(data@, idx as int),
            ensures
                !at_end_cr ==> idx == data@.len(),
                at_end_cr ==> idx == data@.len() - 1 && ends_with_cr(data@) && !escaped,
            decreases data@.len() - idx,
        {
            if escaped {
                escaped = false;
                idx += 1;
                continue ;
            }
            let byte = data[idx];
            if byte == BACKSLASH {
                escaped = true;
                idx += 1;
            } else if byte == LINE_FEED {
                self.reset_scan();
                return Some((idx, 1, EolStyle::Lf));
            } else if byte == CARRIAGE_RETURN {
                if idx + 1 < data.len() {
                    let eol_style = if data[idx + 1] == LINE_FEED {
                        EolStyle::CrLf
                    } else {
                        EolStyle::Cr
                    };
                    let line_ending_len: usize = if eol_style == EolStyle::CrLf {
                        2
                    } else {
                        1
                    };
                    self.reset_scan();
                    return Some((idx, line_ending_len, eol_style));
                }
                at_end_cr = true;
                break ;
            } else {
                idx += 1;
            }
        }
        proof {
            assert(first_end(data@, data@.len() as int) is None);
            assert(data@.len() > 0 && !at_end_cr ==> !is_mark(data@, data@.len() - 1));
        }
        self.scan_offset = idx;
        self.scan_escaped = escaped;
        None
    }

    /// Takes the next record out of the unread bytes, without the bytes that end its line.
    pub fn next_record(&mut self) -> (result: PgResult<Option<Bytes>>)
        requires
            old(self).wf(),
        ensures
            final(self).wf(),
            match next_in(old(self).unread(), old(self).eol_style) {
                Ok(None) => {
                    &&& result matches Ok(None)
                    &&& final(self).unread() == old(self).unread()
                    &&& final(self).eol_style == old(self).eol_style
                    &&& final(self).caught_up()
                },
                Ok(Some(cut)) => {
                    &&& result matches Ok(Some(record))
                    &&& content(record) == cut.record
                    &&& final(self).unread() == cut.rest
                    &&& final(self).eol_style == cut.style
                },
                Err(error) => {
                    &&& result matches Err(answer)
                    &&& answer@ == error
                    &&& final(self).unread() == old(self).unread()
                    &&& final(self).eol_style == old(self).eol_style
                },
            },
    {
        let (line_end, line_ending_len, eol_style) = match self.find_record_end() {
            Some(found) => found,
            None => return Ok(None),
        };
        match self.register_eol(eol_style) {
            Ok(()) => {},
            Err(error) => return Err(error),
        }
        let mut record = self.pending.split_to(line_end + line_ending_len);
        record.truncate(line_end);
        self.reset_scan();
        assert(buffered(record) =~= old(self).unread().take(line_end as int));
        Ok(Some(record.freeze()))
    }

    /// Takes all unread bytes out as the last record of the stream, without a carriage return at
    /// the end. After an error the reader holds nothing and what it kept of the last search has no
    /// meaning.
    pub fn finish_record(&mut self) -> (result: PgResult<Option<Bytes>>)
        requires
            old(self).wf(),
        ensures
            result is Ok ==> final(self).wf() && final(self).caught_up(),
            final(self).unread() == Seq::<u8>::empty(),
            match last_in(old(self).unread(), old(self).eol_style) {
                Ok(None) => {
                    &&& result matches Ok(None)
                    &&& final(self).eol_style == old(self).eol_style
                },
                Ok(Some(cut)) => {
                    &&& result matches Ok(Some(record))
                    &&& content(record) == cut.record
                    &&& final(self).eol_style == cut.style
                },
                Err(error) => {
                    &&& result matches Err(answer)
                    &&& answer@ == error
                    &&& final(self).eol_style == old(self).eol_style
                },
            },
    {
        if buffered_slice(&self.pending).len() == 0 {
            assert(self.unread() =~= Seq::<u8>::empty());
            return Ok(None);
        }
        let mut record = self.pending.split();
        if ends_with_unescaped_cr(buffered_slice(&record)) {
            match self.register_eol(EolStyle::Cr) {
                Ok(()) => {},
                Err(error) => return Err(error),
            }
            let len = buffered_slice(&record).len();
            record.truncate(len - 1);
            assert(buffered(record) =~= old(self).unread().drop_last());
        }
        self.reset_scan();
        Ok(Some(record.freeze()))
    }
}

/// A record, what is left behind it, and how the lines of the stream end by then.
pub struct Cut {
    pub record: Seq<u8>,
    pub rest: Seq<u8>,
    pub style: EolStyle,
}

/// The first record of `unread`, where one has ended, in a stream whose lines end in the way
/// `style`.
pub open spec fn next_in(unread: Seq<u8>, style: EolStyle) -> Result<Option<Cut>, PgErrorView> {
    match first_end(unread, 0) {
        None => Ok(None),
        Some(end) => {
            let found = style_at(unread, end);
            if accepts(style, found) {
                Ok(
                    Some(
                        Cut {
                            record: unread.take(end),
                            rest: unread.skip(end + ending_len(found)),
                            style: found,
                        },
                    ),
                )
            } else {
                Err(mixed_endings(style, found))
            }
        },
    }
}

/// What is left of a stream at its end, as a record, where anything is.
pub open spec fn last_in(unread: Seq<u8>, style: EolStyle) -> Result<Option<Cut>, PgErrorView> {
    if unread.len() == 0 {
        Ok(None)
    } else if !ends_with_cr(unread) {
        Ok(Some(Cut { record: unread, rest: seq![], style }))
    } else if accepts(style, EolStyle::Cr) {
        Ok(Some(Cut { record: unread.drop_last(), rest: seq![], style: EolStyle::Cr }))
    } else {
        Err(mixed_endings(style, EolStyle::Cr))
    }
}

/// Whether the data ends with a carriage return that is not escaped.
pub fn ends_with_unescaped_cr(data: &[u8]) -> (result: bool)
    ensures
        result == ends_with_cr(data@),
{
    if data.len() == 0 || data[data.len() - 1] != CARRIAGE_RETURN {
        return false;
    }
    let mut escaped = false;
    let mut idx: usize = 0;
    while idx < data.len() - 1
        invariant
            data@.len() > 0,
            idx <= data@.len() - 1,
            escaped == escaped_at(data@, idx as int),
        decreases data@.len() - idx,
    {
        if escaped {
            escaped = false;
        } else if data[idx] == BACKSLASH {
            escaped = true;
        }
        idx += 1;
    }
    !escaped
}

/// How many bytes the record has that `data` is the start of.
pub open spec fn open_record_len(data: Seq<u8>) -> int {
    if ends_with_cr(data) {
        data.len() - 1
    } else {
        data.len() as int
    }
}

/// How many bytes the record has that `data` is the start of: a carriage return at the end is not
/// part of it.
pub fn pending_record_len(data: &[u8]) -> (len: usize)
    ensures
        len == open_record_len(data@),
{
    if ends_with_unescaped_cr(data) {
        data.len() - 1
    } else {
        data.len()
    }
}

/// Whether the byte at `at` of `incoming` is escaped, where `escaped` says so of its first.
pub open spec fn escaped_in(incoming: Seq<u8>, escaped: bool, at: int) -> bool
    decreases at,
{
    if at <= 0 {
        escaped
    } else {
        incoming[at - 1] == BACKSLASH && !escaped_in(incoming, escaped, at - 1)
    }
}

/// How many bytes the record has that is open behind `incoming[..at]`, where `len` bytes of it
/// stand before `incoming`.
pub open spec fn open_len_in(incoming: Seq<u8>, escaped: bool, len: int, at: int) -> int
    decreases at,
{
    if at <= 0 {
        len
    } else if (incoming[at - 1] == LINE_FEED || incoming[at - 1] == CARRIAGE_RETURN)
        && !escaped_in(incoming, escaped, at - 1) {
        0
    } else {
        open_len_in(incoming, escaped, len, at - 1) + 1
    }
}

/// Whether a record grows beyond the limit at any byte of `incoming`. `pending` is what has come
/// of a record before it, and `escaped` says whether the first byte is escaped.
pub open spec fn exceeds_limit(
    pending: Seq<u8>,
    escaped: bool,
    incoming: Seq<u8>,
    limit: int,
) -> bool {
    let ended = ends_with_cr(pending);
    let len = if ended {
        0
    } else {
        pending.len() as int
    };
    pending.len() + incoming.len() > limit && grows_beyond(incoming, escaped && !ended, len, limit)
}

/// Whether a record that has `len` bytes already grows beyond the limit at any byte of `incoming`,
/// or another does behind it.
pub open spec fn grows_beyond(incoming: Seq<u8>, escaped: bool, len: int, limit: int) -> bool {
    exists|at: int|
        0 <= at <= incoming.len() && #[trigger] open_len_in(incoming, escaped, len, at) > limit
}

/// Whether a record grows beyond the limit with the bytes that come in.
pub fn incoming_exceeds_record_limit(
    pending: &[u8],
    pending_escaped: bool,
    incoming: &[u8],
    record_byte_limit: usize,
) -> (result: bool)
    requires
        pending@.len() + incoming@.len() <= usize::MAX,
    ensures
        result == exceeds_limit(pending@, pending_escaped, incoming@, record_byte_limit as int),
{
    if pending.len() + incoming.len() <= record_byte_limit {
        return false;
    }
    let mut record_len: usize = pending.len();
    let mut escaped = pending_escaped;
    let mut awaiting_lf_after_cr = false;
    if ends_with_unescaped_cr(pending) {
        record_len = 0;
        escaped = false;
        awaiting_lf_after_cr = true;
    }
    let ghost first = escaped;
    let ghost start = record_len as int;
    assert(open_len_in(incoming@, first, start, 0) == start);
    if record_len > record_byte_limit {
        return true;
    }
    let mut idx: usize = 0;
    while idx < incoming.len()
        invariant
            idx <= incoming@.len(),
            pending@.len() + incoming@.len() <= usize::MAX,
            pending@.len() + incoming@.len() > record_byte_limit,
            first == (pending_escaped && !ends_with_cr(pending@)),
            start == if ends_with_cr(pending@) {
                0
            } else {
                pending@.len() as int
            },
            escaped == escaped_in(incoming@, first, idx as int),
            record_len == open_len_in(incoming@, first, start, idx as int),
            record_len <= pending@.len() + idx,
            awaiting_lf_after_cr ==> !escaped && record_len == 0,
            forall|at: int|
                0 <= at <= idx ==> #[trigger] open_len_in(incoming@, first, start, at)
                    <= record_byte_limit,
        decreases incoming@.len() - idx,
    {
        let byte = incoming[idx];
        idx += 1;
        if awaiting_lf_after_cr {
            awaiting_lf_after_cr = false;
            if byte == LINE_FEED {
                continue ;
            }
        }
        if escaped {
            escaped = false;
            record_len = record_len + 1;
        } else if byte == BACKSLASH {
            escaped = true;
            record_len = record_len + 1;
        } else if byte == LINE_FEED {
            record_len = 0;
        } else if byte == CARRIAGE_RETURN {
            record_len = 0;
            awaiting_lf_after_cr = true;
        } else {
            record_len = record_len + 1;
        }
        assert(record_len == open_len_in(incoming@, first, start, idx as int));
        if record_len > record_byte_limit {
            return true;
        }
    }
    false
}

/// Where no line ends, no record ends.
proof fn lemma_first_end_skips(data: Seq<u8>, from: int, to: int)
    requires
        0 <= from <= to <= data.len(),
        forall|at: int| from <= at < to ==> !is_mark(data, at),
    ensures
        first_end(data, from) == first_end(data, to),
    decreases to - from,
{
    if from < to {
        assert(!is_mark(data, from));
        lemma_first_end_skips(data, from + 1, to);
    }
}

}
