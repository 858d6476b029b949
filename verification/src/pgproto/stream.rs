//! What holds of a whole stream, however it is cut into pieces on its way.
use crate::ascii::{
    escaped_at, lemma_escaped_at_prefix, lemma_escaped_at_suffix, CARRIAGE_RETURN, LINE_FEED,
};
use crate::pgproto::record::{
    ending_len, ends_record, ends_with_cr, escaped_in, exceeds_limit, first_end, grows_beyond,
    is_mark, last_in, next_in, open_len_in, open_record_len, style_at, Cut, EolStyle,
};
use crate::errors::PgErrorView;
use crate::pgproto::row_laws::unmarked;
use vstd::prelude::*;

verus! {

/// The first end lies where it was looked for, and no record ends before it.
pub proof fn lemma_first_end(data: Seq<u8>, from: int)
    requires
        0 <= from,
    ensures
        first_end(data, from) matches Some(end) ==> {
            &&& from <= end < data.len()
            &&& ends_record(data, end)
            &&& end + ending_len(style_at(data, end)) <= data.len()
            &&& forall|at: int| from <= at < end ==> !ends_record(data, at)
        },
        first_end(data, from) is None ==> forall|at: int|
            from <= at < data.len() ==> !ends_record(data, at),
    decreases data.len() - from,
{
    if from < data.len() && !ends_record(data, from) {
        lemma_first_end(data, from + 1);
    }
}

/// Where a record ends before which none does, that is the first end.
pub proof fn lemma_is_first_end(data: Seq<u8>, from: int, end: int)
    requires
        0 <= from <= end < data.len(),
        ends_record(data, end),
        forall|at: int| from <= at < end ==> !ends_record(data, at),
    ensures
        first_end(data, from) == Some(end),
    decreases end - from,
{
    if from < end {
        assert(!ends_record(data, from));
        lemma_is_first_end(data, from + 1, end);
    }
}

/// The records of a stream that have ended, in order.
pub open spec fn complete_records(data: Seq<u8>) -> Seq<Seq<u8>>
    decreases data.len(),
{
    match first_end(data, 0) {
        None => seq![],
        Some(end) => {
            proof {
                lemma_first_end(data, 0);
            }
            seq![data.take(end)] + complete_records(
                data.skip(end + ending_len(style_at(data, end))),
            )
        },
    }
}

/// What stands behind the last record that has ended.
pub open spec fn open_part(data: Seq<u8>) -> Seq<u8>
    decreases data.len(),
{
    match first_end(data, 0) {
        None => data,
        Some(end) => {
            proof {
                lemma_first_end(data, 0);
            }
            open_part(data.skip(end + ending_len(style_at(data, end))))
        },
    }
}

/// How the lines end whose records have ended, in order.
pub open spec fn line_styles(data: Seq<u8>) -> Seq<EolStyle>
    decreases data.len(),
{
    match first_end(data, 0) {
        None => seq![],
        Some(end) => {
            proof {
                lemma_first_end(data, 0);
            }
            seq![style_at(data, end)] + line_styles(
                data.skip(end + ending_len(style_at(data, end))),
            )
        },
    }
}

/// What ends a line.
pub open spec fn ending_bytes(style: EolStyle) -> Seq<u8> {
    match style {
        EolStyle::Unknown => seq![],
        EolStyle::Lf => seq![LINE_FEED],
        EolStyle::Cr => seq![CARRIAGE_RETURN],
        EolStyle::CrLf => seq![CARRIAGE_RETURN, LINE_FEED],
    }
}

/// Lines of the records and endings given.
pub open spec fn lines(records: Seq<Seq<u8>>, styles: Seq<EolStyle>) -> Seq<u8>
    decreases records.len(),
{
    if records.len() == 0 {
        seq![]
    } else {
        records[0] + ending_bytes(styles[0]) + lines(records.skip(1), styles.skip(1))
    }
}

/// No byte of a stream is lost: its records, each with what ends its line, and the part that is
/// still open make up the stream.
pub proof fn law_stream_is_kept(data: Seq<u8>)
    ensures
        complete_records(data).len() == line_styles(data).len(),
        lines(complete_records(data), line_styles(data)) + open_part(data) == data,
    decreases data.len(),
{
    lemma_first_end(data, 0);
    match first_end(data, 0) {
        None => {
            assert(lines(seq![], seq![]) + data =~= data);
        },
        Some(end) => {
            let style = style_at(data, end);
            let rest = data.skip(end + ending_len(style));
            law_stream_is_kept(rest);
            assert(complete_records(data).skip(1) =~= complete_records(rest));
            assert(line_styles(data).skip(1) =~= line_styles(rest));
            assert(data.take(end) + ending_bytes(style) + rest =~= data);
            assert(lines(complete_records(data), line_styles(data)) + open_part(data) =~= data.take(
                end,
            ) + ending_bytes(style) + (lines(complete_records(rest), line_styles(rest))
                + open_part(rest)));
        },
    }
}

/// Bytes that come later change nothing about what has ended.
proof fn lemma_ends_record_extends(data: Seq<u8>, more: Seq<u8>, at: int)
    requires
        0 <= at < data.len(),
    ensures
        is_mark(data + more, at) == is_mark(data, at),
        ends_record(data, at) ==> ends_record(data + more, at) && style_at(data + more, at)
            == style_at(data, at),
        ends_record(data + more, at) && at + 1 < data.len() ==> ends_record(data, at),
{
    assert((data + more).take(at) =~= data.take(at));
    lemma_escaped_at_prefix(data, data + more, at);
}

/// A record that has ended ends where it does whatever comes behind it.
proof fn lemma_first_end_extends(data: Seq<u8>, more: Seq<u8>)
    ensures
        first_end(data, 0) matches Some(end) ==> {
            let cut = end + ending_len(style_at(data, end));
            &&& first_end(data + more, 0) == Some(end)
            &&& style_at(data + more, end) == style_at(data, end)
            &&& (data + more).take(end) == data.take(end)
            &&& (data + more).skip(cut) == data.skip(cut) + more
        },
{
    lemma_first_end(data, 0);
    if let Some(end) = first_end(data, 0) {
        let cut = end + ending_len(style_at(data, end));
        lemma_ends_record_extends(data, more, end);
        assert forall|at: int| 0 <= at < end implies !ends_record(data + more, at) by {
            lemma_ends_record_extends(data, more, at);
        }
        lemma_is_first_end(data + more, 0, end);
        assert((data + more).take(end) =~= data.take(end));
        assert((data + more).skip(cut) =~= data.skip(cut) + more);
    }
}

/// What is taken out of a stream, or refused, is so whatever comes behind it.
pub proof fn lemma_next_in_extends(unread: Seq<u8>, style: EolStyle, more: Seq<u8>)
    ensures
        match next_in(unread, style) {
            Ok(None) => true,
            Ok(Some(cut)) => next_in(unread + more, style) == Ok::<Option<Cut>, PgErrorView>(
                Some(Cut { rest: cut.rest + more, ..cut }),
            ),
            Err(error) => next_in(unread + more, style) == Err::<Option<Cut>, PgErrorView>(error),
        },
{
    lemma_first_end_extends(unread, more);
}

/// What is taken out of a stream record by record, until no other has ended or one is refused.
#[verifier::ext_equal]
pub struct Taken {
    pub records: Seq<Seq<u8>>,
    /// What no record has taken.
    pub rest: Seq<u8>,
    pub style: EolStyle,
    pub error: Option<PgErrorView>,
}

/// What is taken out of `unread`, in a stream whose lines end in the way `style`.
pub open spec fn taken(unread: Seq<u8>, style: EolStyle) -> Taken
    decreases unread.len(),
{
    match next_in(unread, style) {
        Err(error) => Taken { records: seq![], rest: unread, style, error: Some(error) },
        Ok(None) => Taken { records: seq![], rest: unread, style, error: None },
        Ok(Some(cut)) => {
            proof {
                lemma_first_end(unread, 0);
            }
            let behind = taken(cut.rest, cut.style);
            Taken { records: seq![cut.record] + behind.records, ..behind }
        },
    }
}

/// It does not matter to a reader whether bytes come in one piece or in two: it gives the same
/// records out, up to the same first error, and has the same bytes left. What comes behind an error
/// stays unread.
pub proof fn law_reader_takes_any_pieces(
    unread: Seq<u8>,
    style: EolStyle,
    first: Seq<u8>,
    second: Seq<u8>,
)
    ensures
        ({
            let whole = taken(unread + (first + second), style);
            let before = taken(unread + first, style);
            let behind = taken(before.rest + second, before.style);
            if before.error is None {
                whole == (Taken { records: before.records + behind.records, ..behind })
            } else {
                whole == (Taken { rest: before.rest + second, ..before })
            }
        }),
{
    assert(unread + (first + second) =~= (unread + first) + second);
    lemma_taken_extends(unread + first, style, second);
}

proof fn lemma_taken_extends(unread: Seq<u8>, style: EolStyle, more: Seq<u8>)
    ensures
        ({
            let whole = taken(unread + more, style);
            let before = taken(unread, style);
            let behind = taken(before.rest + more, before.style);
            if before.error is None {
                whole == (Taken { records: before.records + behind.records, ..behind })
            } else {
                whole == (Taken { rest: before.rest + more, ..before })
            }
        }),
    decreases unread.len(),
{
    lemma_first_end(unread, 0);
    lemma_next_in_extends(unread, style, more);
    let whole = taken(unread + more, style);
    let before = taken(unread, style);
    match next_in(unread, style) {
        Ok(Some(cut)) => {
            lemma_taken_extends(cut.rest, cut.style, more);
            let behind = taken(before.rest + more, before.style);
            if before.error is None {
                assert(whole.records =~= before.records + behind.records);
            }
        },
        Ok(None) => {
            assert(before.records + whole.records =~= whole.records);
        },
        Err(_) => {},
    }
}

/// The bytes of pieces, one behind the other.
pub open spec fn joined_pieces(pieces: Seq<Seq<u8>>) -> Seq<u8>
    decreases pieces.len(),
{
    if pieces.len() == 0 {
        seq![]
    } else {
        pieces[0] + joined_pieces(pieces.skip(1))
    }
}

/// What is taken out of a stream that comes in pieces behind `unread`: behind each piece all
/// records that have ended by then, up to the first error.
pub open spec fn taken_in_pieces(unread: Seq<u8>, style: EolStyle, pieces: Seq<Seq<u8>>) -> Taken
    decreases pieces.len(),
{
    if pieces.len() == 0 {
        Taken { records: seq![], rest: unread, style, error: None }
    } else {
        let before = taken(unread + pieces[0], style);
        if before.error is Some {
            before
        } else {
            let behind = taken_in_pieces(before.rest, before.style, pieces.skip(1));
            Taken { records: before.records + behind.records, ..behind }
        }
    }
}

/// It does not matter to a reader how a stream is cut into pieces, and into how many: it gives the
/// same records out as of the whole stream, up to the same first error, and where there is none, it
/// has the same bytes left, of which the same last record comes.
pub proof fn law_reader_takes_any_number_of_pieces(
    unread: Seq<u8>,
    style: EolStyle,
    pieces: Seq<Seq<u8>>,
)
    requires
        first_end(unread, 0) is None,
    ensures
        ({
            let whole = taken(unread + joined_pieces(pieces), style);
            let cut = taken_in_pieces(unread, style, pieces);
            &&& cut.records == whole.records
            &&& cut.error == whole.error
            &&& whole.error is None ==> cut == whole && last_in(cut.rest, cut.style) == last_in(
                whole.rest,
                whole.style,
            )
        }),
    decreases pieces.len(),
{
    if pieces.len() == 0 {
        assert(unread + joined_pieces(pieces) =~= unread);
    } else {
        let first = pieces[0];
        let others = joined_pieces(pieces.skip(1));
        let before = taken(unread + first, style);
        law_reader_takes_any_pieces(unread, style, first, others);
        lemma_nothing_left_to_take(unread + first, style);
        if before.error is None {
            law_reader_takes_any_number_of_pieces(before.rest, before.style, pieces.skip(1));
        }
    }
}

proof fn lemma_nothing_left_to_take(unread: Seq<u8>, style: EolStyle)
    ensures
        taken(unread, style).error is None ==> first_end(taken(unread, style).rest, 0) is None,
    decreases unread.len(),
{
    lemma_first_end(unread, 0);
    if let Ok(Some(cut)) = next_in(unread, style) {
        lemma_nothing_left_to_take(cut.rest, cut.style);
    }
}

/// It does not matter how a stream is cut into pieces: the records that have ended once `more` is
/// there are those that had ended before, and then those of the part that was open and `more`.
pub proof fn law_pieces_do_not_matter(data: Seq<u8>, more: Seq<u8>)
    ensures
        complete_records(data + more) == complete_records(data) + complete_records(
            open_part(data) + more,
        ),
        line_styles(data + more) == line_styles(data) + line_styles(open_part(data) + more),
        open_part(data + more) == open_part(open_part(data) + more),
    decreases data.len(),
{
    lemma_first_end(data, 0);
    match first_end(data, 0) {
        None => {
            assert(complete_records(data + more) =~= seq![] + complete_records(data + more));
            assert(line_styles(data + more) =~= seq![] + line_styles(data + more));
        },
        Some(end) => {
            let style = style_at(data, end);
            let cut = end + ending_len(style);
            lemma_first_end_extends(data, more);
            law_pieces_do_not_matter(data.skip(cut), more);
            let rest = data.skip(cut);
            assert(complete_records(data + more) =~= complete_records(data) + complete_records(
                open_part(data) + more,
            ));
            assert(line_styles(data + more) =~= line_styles(data) + line_styles(
                open_part(data) + more,
            ));
        },
    }
}

/// How many bytes the record has that is open behind `data[..at]`.
pub open spec fn open_len(data: Seq<u8>, at: int) -> int
    decreases at,
{
    if at <= 0 || is_mark(data, at - 1) {
        0
    } else {
        open_len(data, at - 1) + 1
    }
}

/// Whether a record of the stream, ended or open, is longer than the limit.
pub open spec fn has_long_record(data: Seq<u8>, limit: int) -> bool {
    ||| exists|i: int|
        0 <= i < complete_records(data).len() && #[trigger] complete_records(data)[i].len() > limit
    ||| open_record_len(open_part(data)) > limit
}

/// Whether the open record is longer than the limit at any byte of the stream.
pub open spec fn ever_long(data: Seq<u8>, limit: int) -> bool {
    exists|at: int| 0 <= at <= data.len() && #[trigger] open_len(data, at) > limit
}

proof fn lemma_open_len_bound(data: Seq<u8>, at: int)
    requires
        0 <= at,
    ensures
        0 <= open_len(data, at) <= at,
    decreases at,
{
    if at > 0 {
        lemma_open_len_bound(data, at - 1);
    }
}

proof fn lemma_open_len_unmarked(data: Seq<u8>, at: int)
    requires
        0 <= at <= data.len(),
        forall|i: int| 0 <= i < at ==> !is_mark(data, i),
    ensures
        open_len(data, at) == at,
    decreases at,
{
    if at > 0 {
        lemma_open_len_unmarked(data, at - 1);
    }
}

/// Behind the end of a line the count starts anew.
proof fn lemma_open_len_suffix(data: Seq<u8>, from: int, at: int)
    requires
        0 < from <= at <= data.len(),
        is_mark(data, from - 1),
    ensures
        open_len(data, at) == open_len(data.skip(from), at - from),
    decreases at,
{
    if at > from {
        lemma_open_len_suffix(data, from, at - 1);
        lemma_escaped_at_suffix(data, from, at - 1);
        assert(data.skip(from)[at - from - 1] == data[at - 1]);
    }
}

/// A record is longer than the limit exactly where the open record once was.
proof fn lemma_ever_long(data: Seq<u8>, limit: int)
    requires
        0 <= limit,
    ensures
        ever_long(data, limit) == has_long_record(data, limit),
    decreases data.len(),
{
    lemma_first_end(data, 0);
    match first_end(data, 0) {
        None => {
            let len = open_record_len(data);
            assert forall|i: int| 0 <= i < len implies !is_mark(data, i) by {
                assert(!ends_record(data, i));
            }
            lemma_open_len_unmarked(data, len);
            if ever_long(data, limit) {
                let at = choose|at: int|
                    0 <= at <= data.len() && #[trigger] open_len(data, at) > limit;
                lemma_open_len_bound(data, at);
                if at > len {
                    assert(is_mark(data, at - 1));
                }
            }
            assert(complete_records(data).len() == 0);
        },
        Some(end) => {
            let style = style_at(data, end);
            let cut = end + ending_len(style);
            let rest = data.skip(cut);
            let records = complete_records(data);
            lemma_ever_long(rest, limit);
            assert(records[0] == data.take(end));
            assert(records.skip(1) =~= complete_records(rest));
            assert forall|i: int| 0 <= i < end implies !is_mark(data, i) by {
                assert(!ends_record(data, i));
            }
            lemma_open_len_unmarked(data, end);
            assert(is_mark(data, cut - 1)) by {
                if style == EolStyle::CrLf {
                    assert(!escaped_at(data, end + 1));
                }
            }
            if has_long_record(data, limit) {
                if open_record_len(open_part(data)) > limit {
                    assert(has_long_record(rest, limit));
                } else {
                    let i = choose|i: int|
                        0 <= i < records.len() && #[trigger] records[i].len() > limit;
                    if i == 0 {
                        assert(open_len(data, end) > limit);
                    } else {
                        assert(complete_records(rest)[i - 1] == records[i]);
                        assert(has_long_record(rest, limit));
                    }
                }
                if has_long_record(rest, limit) {
                    let at = choose|at: int|
                        0 <= at <= rest.len() && #[trigger] open_len(rest, at) > limit;
                    lemma_open_len_suffix(data, cut, cut + at);
                    assert(open_len(data, cut + at) > limit);
                }
                assert(ever_long(data, limit));
            }
            if ever_long(data, limit) {
                let at = choose|at: int|
                    0 <= at <= data.len() && #[trigger] open_len(data, at) > limit;
                lemma_open_len_bound(data, at);
                if at <= end {
                    assert(records[0].len() > limit);
                } else if at < cut {
                    assert(is_mark(data, at - 1));
                } else {
                    lemma_open_len_suffix(data, cut, at);
                    assert(open_len(rest, at - cut) > limit);
                    assert(has_long_record(rest, limit));
                    if open_record_len(open_part(rest)) <= limit {
                        let i = choose|i: int|
                            0 <= i < complete_records(rest).len() && #[trigger] complete_records(
                                rest,
                            )[i].len() > limit;
                        assert(records[i + 1] == complete_records(rest)[i]);
                    }
                }
                assert(has_long_record(data, limit));
            }
        },
    }
}

/// The count of the open record does not depend on what comes behind.
proof fn lemma_open_len_prefix(data: Seq<u8>, more: Seq<u8>, at: int)
    requires
        0 <= at <= data.len(),
    ensures
        open_len(data + more, at) == open_len(data, at),
    decreases at,
{
    if at > 0 {
        lemma_ends_record_extends(data, more, at - 1);
        lemma_open_len_prefix(data, more, at - 1);
    }
}

/// A record that is too long stays so whatever comes behind it.
pub proof fn lemma_long_record_stays(data: Seq<u8>, more: Seq<u8>, limit: int)
    requires
        0 <= limit,
        has_long_record(data, limit),
    ensures
        has_long_record(data + more, limit),
{
    lemma_ever_long(data, limit);
    lemma_ever_long(data + more, limit);
    let at = choose|at: int| 0 <= at <= data.len() && #[trigger] open_len(data, at) > limit;
    lemma_open_len_prefix(data, more, at);
    assert(open_len(data + more, at) > limit);
}

/// Behind a record that is not too long, what is left and what comes have a record that is exactly
/// where the stream has.
pub proof fn lemma_long_record_is_behind(data: Seq<u8>, more: Seq<u8>, limit: int)
    ensures
        first_end(data, 0) matches Some(end) ==> end <= limit ==> has_long_record(
            data + more,
            limit,
        ) == has_long_record(data.skip(end + ending_len(style_at(data, end))) + more, limit),
{
    lemma_first_end(data, 0);
    lemma_first_end_extends(data, more);
    if let Some(end) = first_end(data, 0) {
        let rest = data.skip(end + ending_len(style_at(data, end))) + more;
        let records = complete_records(data + more);
        let fewer = complete_records(rest);
        assert(records == seq![data.take(end)] + fewer);
        if end <= limit {
            if exists|i: int| 0 <= i < records.len() && #[trigger] records[i].len() > limit {
                let i = choose|i: int|
                    0 <= i < records.len() && #[trigger] records[i].len() > limit;
                assert(fewer[i - 1] == records[i]);
            }
            if exists|i: int| 0 <= i < fewer.len() && #[trigger] fewer[i].len() > limit {
                let i = choose|i: int| 0 <= i < fewer.len() && #[trigger] fewer[i].len() > limit;
                assert(records[i + 1] == fewer[i]);
            }
        }
    }
}

/// What is counted along the bytes that come in is the length of the open record.
proof fn lemma_open_len_in(pending: Seq<u8>, incoming: Seq<u8>, escaped: bool, at: int)
    requires
        first_end(pending, 0) is None,
        ends_with_cr(pending) || escaped == escaped_at(pending, pending.len() as int),
        0 <= at <= incoming.len(),
    ensures
        escaped_in(incoming, escaped && !ends_with_cr(pending), at) == escaped_at(
            pending + incoming,
            pending.len() + at,
        ),
        open_len_in(
            incoming,
            escaped && !ends_with_cr(pending),
            if ends_with_cr(pending) {
                0
            } else {
                pending.len() as int
            },
            at,
        ) == open_len(pending + incoming, pending.len() + at),
    decreases at,
{
    let data = pending + incoming;
    if at > 0 {
        lemma_open_len_in(pending, incoming, escaped, at - 1);
        assert(data[pending.len() + at - 1] == incoming[at - 1]);
    } else {
        assert(data.take(pending.len() as int) =~= pending.take(pending.len() as int));
        lemma_escaped_at_prefix(pending, data, pending.len() as int);
        lemma_first_end(pending, 0);
        assert forall|i: int| 0 <= i < open_record_len(pending) implies !is_mark(data, i) by {
            assert(!ends_record(pending, i));
            lemma_ends_record_extends(pending, incoming, i);
        }
        if ends_with_cr(pending) {
            lemma_ends_record_extends(pending, incoming, pending.len() - 1);
            assert(is_mark(data, pending.len() - 1));
        } else {
            lemma_open_len_unmarked(data, pending.len() as int);
        }
    }
}

/// The limit is checked before the bytes are taken in, and the check is exact: of a stream whose
/// open part is within the limit it refuses the next bytes if and only if they make a record that
/// is longer than the limit, be it ended or still open.
pub proof fn law_limit_check_is_exact(
    pending: Seq<u8>,
    escaped: bool,
    incoming: Seq<u8>,
    limit: int,
)
    requires
        0 <= limit,
        first_end(pending, 0) is None,
        ends_with_cr(pending) || escaped == escaped_at(pending, pending.len() as int),
        open_record_len(pending) <= limit,
    ensures
        exceeds_limit(pending, escaped, incoming, limit) == has_long_record(
            pending + incoming,
            limit,
        ),
{
    let data = pending + incoming;
    let first = escaped && !ends_with_cr(pending);
    let start = if ends_with_cr(pending) {
        0
    } else {
        pending.len() as int
    };
    lemma_ever_long(data, limit);
    if ever_long(data, limit) {
        let at = choose|at: int| 0 <= at <= data.len() && #[trigger] open_len(data, at) > limit;
        lemma_open_len_bound(data, at);
        if at < pending.len() {
            assert(false);
        }
        lemma_open_len_in(pending, incoming, escaped, at - pending.len());
        assert(open_len_in(incoming, first, start, at - pending.len()) > limit);
        assert(grows_beyond(incoming, first, start, limit));
    }
    if grows_beyond(incoming, first, start, limit) {
        let at = choose|at: int|
            0 <= at <= incoming.len() && #[trigger] open_len_in(incoming, first, start, at) > limit;
        lemma_open_len_in(pending, incoming, escaped, at);
        assert(open_len(data, pending.len() + at) > limit);
        assert(ever_long(data, limit));
    }
}

/// All records of a stream that is at its end: those that have ended, and what is left as the
/// last one, without a carriage return at its end.
pub open spec fn stream_records(data: Seq<u8>) -> Seq<Seq<u8>> {
    let rest = open_part(data);
    if rest.len() == 0 {
        complete_records(data)
    } else {
        complete_records(data).push(rest.take(open_record_len(rest)))
    }
}

/// How the lines of a stream end that is at its end.
pub open spec fn stream_styles(data: Seq<u8>) -> Seq<EolStyle> {
    if ends_with_cr(open_part(data)) {
        line_styles(data).push(EolStyle::Cr)
    } else {
        line_styles(data)
    }
}

/// A record at the start of a stream, with a line ending behind it, is the first that ends.
proof fn lemma_first_line(record: Seq<u8>, style: EolStyle, rest: Seq<u8>)
    requires
        unmarked(record),
        !escaped_at(record, record.len() as int),
        style != EolStyle::Unknown,
        style == EolStyle::Cr ==> rest.len() > 0 && rest[0] != LINE_FEED,
    ensures
        first_end(record + ending_bytes(style) + rest, 0) == Some(record.len() as int),
        style_at(record + ending_bytes(style) + rest, record.len() as int) == style,
        (record + ending_bytes(style) + rest).take(record.len() as int) == record,
        (record + ending_bytes(style) + rest).skip(record.len() + ending_len(style)) == rest,
{
    let data = record + ending_bytes(style) + rest;
    let end = record.len() as int;
    assert(data.take(end) =~= record);
    assert(record.take(end) =~= record);
    assert(data.skip(end + ending_len(style)) =~= rest);
    lemma_escaped_at_prefix(record, data, end);
    assert forall|at: int| 0 <= at < end implies !ends_record(data, at) by {
        assert(data.take(at) =~= record.take(at));
        lemma_escaped_at_prefix(record, data, at);
        assert(!is_mark(record, at));
    }
    lemma_is_first_end(data, 0, end);
}

/// What is written line by line is found again: records in which no line ends, each with the same
/// line ending behind it, are the records of the stream that they make up, and its lines end in
/// that way.
pub proof fn law_written_lines_are_found_again(records: Seq<Seq<u8>>, style: EolStyle)
    requires
        style != EolStyle::Unknown,
        forall|i: int|
            0 <= i < records.len() ==> unmarked(#[trigger] records[i]) && !escaped_at(
                records[i],
                records[i].len() as int,
            ),
    ensures
        stream_records(lines(records, Seq::new(records.len(), |i: int| style))) == records,
        stream_styles(lines(records, Seq::new(records.len(), |i: int| style))) == Seq::new(
            records.len(),
            |i: int| style,
        ),
    decreases records.len(),
{
    let styles = Seq::new(records.len(), |i: int| style);
    let data = lines(records, styles);
    if records.len() == 0 {
        assert(complete_records(data) =~= records);
        assert(line_styles(data) =~= styles);
    } else {
        let first = records[0];
        let others = records.skip(1);
        let fewer = Seq::new(others.len(), |i: int| style);
        let rest = lines(others, fewer);
        assert(styles.skip(1) =~= fewer);
        assert(data == first + ending_bytes(style) + rest);
        assert(unmarked(first));
        assert forall|i: int| 0 <= i < others.len() implies unmarked(#[trigger] others[i])
            && !escaped_at(others[i], others[i].len() as int) by {
            assert(unmarked(records[i + 1]));
        }
        law_written_lines_are_found_again(others, style);
        if style == EolStyle::Cr && others.len() == 0 {
            assert(rest =~= seq![]);
            assert(data =~= first.push(CARRIAGE_RETURN));
            let end = first.len() as int;
            assert(data.take(end) =~= first);
            assert(first.take(end) =~= first);
            lemma_escaped_at_prefix(first, data, end);
            assert forall|at: int| 0 <= at < data.len() implies !ends_record(data, at) by {
                if at < end {
                    assert(data.take(at) =~= first.take(at));
                    lemma_escaped_at_prefix(first, data, at);
                    assert(!is_mark(first, at));
                }
            }
            lemma_first_end(data, 0);
            assert(ends_with_cr(data));
            assert(stream_records(data) =~= records);
            assert(stream_styles(data) =~= styles);
        } else {
            if style == EolStyle::Cr {
                let second = others[0];
                assert(unmarked(second));
                if second.len() > 0 {
                    assert(!is_mark(second, 0));
                    assert(rest[0] == second[0]);
                } else {
                    assert(rest[0] == CARRIAGE_RETURN);
                }
            }
            lemma_first_line(first, style, rest);
            assert(stream_records(data) =~= seq![first] + stream_records(rest));
            assert(stream_records(data) =~= records);
            assert(stream_styles(data) =~= seq![style] + stream_styles(rest));
            assert(stream_styles(data) =~= styles);
        }
    }
}

}
