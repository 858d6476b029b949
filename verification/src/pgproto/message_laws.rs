//! What holds of a session however the client cuts its data into messages.
use crate::ascii::escaped_at;
use crate::errors::{CopyTargetErrorView, PgErrorView};
use crate::pgproto::record::{exceeds_limit, first_end, next_in, open_record_len};
use crate::pgproto::session::{
    adding_effect, data_effect, encoded_effect, encoding_failed_effect, failed, flush_failed_effect,
    flushed_effect, reading_effect, reading_wf, record_effect, record_limit_answer, CopyActionView,
    CopyFieldView, CopySettings, CopyState, SessionPhase, StepView,
};
use crate::pgproto::stream::{
    has_long_record, joined_pieces, law_limit_check_is_exact, lemma_first_end,
    lemma_long_record_is_behind, lemma_long_record_stays, lemma_next_in_extends,
};
use vstd::prelude::*;

verus! {

/// What a session has had done so far.
#[verifier::ext_equal]
pub struct History {
    /// The rows that were to be encoded.
    pub rows: Seq<Seq<CopyFieldView>>,
    /// The batches that were to be written.
    pub batches: Seq<Seq<Seq<u8>>>,
}

/// How what a session has done turns out, each time by all that it has had done up to then.
pub struct Surroundings {
    /// What comes of the last of the rows.
    pub encode: spec_fn(History) -> Result<Seq<u8>, PgErrorView>,
    /// What comes of the last of the batches.
    pub write: spec_fn(History) -> Result<nat, CopyTargetErrorView>,
}

/// Where a session stands when there is nothing left to do for it but to wait for the client.
#[verifier::ext_equal]
pub struct Outcome {
    pub state: CopyState,
    pub history: History,
    /// What the client is answered, where the session has failed.
    pub error: Option<PgErrorView>,
}

/// How much data is unread behind a step.
pub open spec fn unread_behind(step: StepView) -> nat {
    match step {
        Ok((state, _)) => state.unread.len(),
        Err(_) => 0,
    }
}

/// How much is to be done behind a step before data is read again.
pub open spec fn due_behind(step: StepView) -> nat {
    match step {
        Ok((_, CopyActionView::EncodeRow(_))) => 3,
        Ok((state, CopyActionView::FlushBatch(_))) => if state.held is Some {
            2
        } else {
            1
        },
        _ => 0,
    }
}

/// Reading on leaves less data, or waits for more.
pub proof fn lemma_reading_leaves_less(settings: CopySettings, state: CopyState)
    ensures
        unread_behind(reading_effect(settings, state)) <= state.unread.len(),
        match reading_effect(settings, state) {
            Ok((next, CopyActionView::EncodeRow(_))) => next.unread.len() < state.unread.len(),
            Ok((_, CopyActionView::AwaitData)) => true,
            Ok(_) => false,
            Err(_) => true,
        },
    decreases state.unread.len(),
{
    lemma_first_end(state.unread, 0);
    if let Ok(Some(cut)) = next_in(state.unread, state.eol_style) {
        let rest = CopyState { unread: cut.rest, eol_style: cut.style, ..state };
        if let Ok((next, None)) = record_effect(settings, rest, cut.record) {
            lemma_reading_leaves_less(settings, next);
        }
    }
}

/// What comes of a step once all is done that it asks for.
pub open spec fn driven(
    settings: CopySettings,
    around: Surroundings,
    step: StepView,
    history: History,
) -> Outcome
    decreases unread_behind(step), due_behind(step),
{
    match step {
        Err((state, error)) => Outcome { state, history, error: Some(error) },
        Ok((state, CopyActionView::EncodeRow(fields))) => {
            let asked = History { rows: history.rows.push(fields), ..history };
            let next = match (around.encode)(asked) {
                Ok(tuple) => encoded_effect(settings, state, tuple),
                Err(error) => encoding_failed_effect(state, error),
            };
            proof {
                if let Ok(tuple) = (around.encode)(asked) {
                    lemma_reading_leaves_less(
                        settings,
                        CopyState { batch: state.batch.push(tuple), held: None, ..state },
                    );
                }
            }
            driven(settings, around, next, asked)
        },
        Ok((state, CopyActionView::FlushBatch(_))) => {
            let asked = History { batches: history.batches.push(state.batch), ..history };
            let next = match (around.write)(asked) {
                Ok(inserted) => flushed_effect(settings, state, inserted as int),
                Err(error) => flush_failed_effect(settings, state, error),
            };
            proof {
                if let Ok(inserted) = (around.write)(asked) {
                    let emptied = CopyState {
                        batch: seq![],
                        inserted_rows: state.inserted_rows + inserted,
                        ..state
                    };
                    lemma_reading_leaves_less(settings, emptied);
                    if let Some(tuple) = state.held {
                        lemma_reading_leaves_less(
                            settings,
                            CopyState { batch: emptied.batch.push(tuple), held: None, ..emptied },
                        );
                    }
                }
            }
            driven(settings, around, next, asked)
        },
        Ok((state, _)) => Outcome { state, history, error: None },
    }
}

/// What comes of a message of the client.
pub open spec fn fed(
    settings: CopySettings,
    around: Surroundings,
    state: CopyState,
    history: History,
    data: Seq<u8>,
) -> Outcome {
    driven(settings, around, data_effect(settings, state, data), history)
}

/// A session with more data behind what it has.
pub open spec fn with_more(state: CopyState, more: Seq<u8>) -> CopyState {
    CopyState { unread: state.unread + more, ..state }
}

/// Whether less is left behind a step than so much unread data and so much to be done.
spec fn is_nearer(step: StepView, unread: nat, due: nat) -> bool {
    unread_behind(step) < unread || (unread_behind(step) == unread && due_behind(step) < due)
}

/// Reading on does not depend on what the session has waited for.
proof fn lemma_reading_in_any_phase(
    settings: CopySettings,
    state: CopyState,
    phase: SessionPhase,
)
    ensures
        reading_effect(settings, CopyState { phase, ..state }) == reading_effect(settings, state),
    decreases state.unread.len(),
{
    lemma_first_end(state.unread, 0);
    if let Ok(Some(cut)) = next_in(state.unread, state.eol_style) {
        let rest = CopyState { unread: cut.rest, eol_style: cut.style, ..state };
        if let Ok((next, None)) = record_effect(settings, rest, cut.record) {
            lemma_reading_in_any_phase(settings, next, phase);
        }
    }
}

/// Reading on takes no record that is too long, so that one among what is there and what comes is
/// one among what is left and what comes.
proof fn lemma_reading_leaves_long_records(
    settings: CopySettings,
    state: CopyState,
    more: Seq<u8>,
)
    ensures
        reading_effect(settings, state) matches Ok((next, action)) ==> {
            &&& has_long_record(next.unread + more, settings.record_byte_limit as int)
                == has_long_record(state.unread + more, settings.record_byte_limit as int)
            &&& next.finishing == state.finishing
            &&& action is AwaitData ==> next.phase == SessionPhase::Reading && first_end(
                next.unread,
                0,
            ) is None && open_record_len(next.unread) <= settings.record_byte_limit
        },
    decreases state.unread.len(),
{
    lemma_first_end(state.unread, 0);
    lemma_next_in_extends(state.unread, state.eol_style, more);
    if let Ok(Some(cut)) = next_in(state.unread, state.eol_style) {
        lemma_long_record_is_behind(state.unread, more, settings.record_byte_limit as int);
        let rest = CopyState { unread: cut.rest, eol_style: cut.style, ..state };
        if let Ok((next, None)) = record_effect(settings, rest, cut.record) {
            lemma_reading_leaves_long_records(settings, next, more);
        }
    }
}

/// Whether `longer` is what comes of a step where `more` is there already, which comes behind
/// `step` otherwise.
spec fn goes_on(settings: CopySettings, step: StepView, more: Seq<u8>, longer: StepView) -> bool {
    match step {
        Err((state, error)) => longer == Err::<(CopyState, CopyActionView), _>(
            (with_more(state, more), error),
        ),
        Ok((state, action)) => {
            &&& !state.finishing
            &&& !has_long_record(state.unread + more, settings.record_byte_limit as int)
            &&& match action {
                CopyActionView::EncodeRow(_) | CopyActionView::FlushBatch(_) => longer == Ok::<
                    _,
                    (CopyState, PgErrorView),
                >((with_more(state, more), action)),
                CopyActionView::AwaitData => {
                    &&& reading_wf(settings, state)
                    &&& state.phase == SessionPhase::Reading
                    &&& longer == reading_effect(settings, with_more(state, more))
                },
                CopyActionView::Complete { .. } => false,
            }
        },
    }
}

proof fn lemma_reading_goes_on(settings: CopySettings, state: CopyState, more: Seq<u8>)
    requires
        !state.finishing,
        !has_long_record(state.unread + more, settings.record_byte_limit as int),
    ensures
        goes_on(
            settings,
            reading_effect(settings, state),
            more,
            reading_effect(settings, with_more(state, more)),
        ),
    decreases state.unread.len(),
{
    let limit = settings.record_byte_limit as int;
    lemma_first_end(state.unread, 0);
    lemma_next_in_extends(state.unread, state.eol_style, more);
    match next_in(state.unread, state.eol_style) {
        Err(_) => {},
        Ok(None) => {
            if open_record_len(state.unread) > limit {
                assert(has_long_record(state.unread, limit));
                lemma_long_record_stays(state.unread, more, limit);
            }
            lemma_reading_in_any_phase(settings, with_more(state, more), SessionPhase::Reading);
        },
        Ok(Some(cut)) => {
            lemma_long_record_is_behind(state.unread, more, limit);
            let rest = CopyState { unread: cut.rest, eol_style: cut.style, ..state };
            match record_effect(settings, rest, cut.record) {
                Ok((next, None)) => {
                    lemma_reading_goes_on(settings, next, more);
                },
                _ => {},
            }
        },
    }
}

proof fn lemma_adding_goes_on(
    settings: CopySettings,
    state: CopyState,
    tuple: Seq<u8>,
    more: Seq<u8>,
)
    requires
        !state.finishing,
        !has_long_record(state.unread + more, settings.record_byte_limit as int),
    ensures
        goes_on(
            settings,
            adding_effect(settings, state, tuple),
            more,
            adding_effect(settings, with_more(state, more), tuple),
        ),
{
    lemma_reading_goes_on(
        settings,
        CopyState { batch: state.batch.push(tuple), held: None, ..state },
        more,
    );
}

proof fn lemma_encoded_goes_on(
    settings: CopySettings,
    state: CopyState,
    tuple: Seq<u8>,
    more: Seq<u8>,
)
    requires
        !state.finishing,
        !has_long_record(state.unread + more, settings.record_byte_limit as int),
    ensures
        goes_on(
            settings,
            encoded_effect(settings, state, tuple),
            more,
            encoded_effect(settings, with_more(state, more), tuple),
        ),
        is_nearer(encoded_effect(settings, state, tuple), state.unread.len(), 3),
{
    lemma_adding_goes_on(settings, state, tuple, more);
    lemma_reading_leaves_less(
        settings,
        CopyState { batch: state.batch.push(tuple), held: None, ..state },
    );
}

proof fn lemma_flushed_goes_on(
    settings: CopySettings,
    state: CopyState,
    inserted: nat,
    more: Seq<u8>,
)
    requires
        !state.finishing,
        !has_long_record(state.unread + more, settings.record_byte_limit as int),
    ensures
        goes_on(
            settings,
            flushed_effect(settings, state, inserted as int),
            more,
            flushed_effect(settings, with_more(state, more), inserted as int),
        ),
        is_nearer(
            flushed_effect(settings, state, inserted as int),
            state.unread.len(),
            if state.held is Some {
                2
            } else {
                1
            },
        ),
{
    let emptied = CopyState {
        batch: seq![],
        inserted_rows: state.inserted_rows + inserted,
        ..state
    };
    match state.held {
        Some(tuple) => {
            lemma_adding_goes_on(settings, emptied, tuple, more);
            lemma_reading_leaves_less(
                settings,
                CopyState { batch: emptied.batch.push(tuple), held: None, ..emptied },
            );
        },
        None => {
            lemma_reading_goes_on(settings, emptied, more);
            lemma_reading_leaves_less(settings, emptied);
        },
    }
}

proof fn lemma_driving_goes_on(
    settings: CopySettings,
    around: Surroundings,
    step: StepView,
    history: History,
    more: Seq<u8>,
    longer: StepView,
)
    requires
        goes_on(settings, step, more, longer),
    ensures
        ({
            let before = driven(settings, around, step, history);
            let whole = driven(settings, around, longer, history);
            if before.error is None {
                &&& before.state.phase == SessionPhase::Reading
                &&& reading_wf(settings, before.state)
                &&& !has_long_record(
                    before.state.unread + more,
                    settings.record_byte_limit as int,
                )
                &&& whole == driven(
                    settings,
                    around,
                    reading_effect(settings, with_more(before.state, more)),
                    before.history,
                )
            } else {
                whole == (Outcome { state: with_more(before.state, more), ..before })
            }
        }),
    decreases unread_behind(step), due_behind(step),
{
    match step {
        Err(_) => {},
        Ok((state, CopyActionView::EncodeRow(fields))) => {
            let asked = History { rows: history.rows.push(fields), ..history };
            if let Ok(tuple) = (around.encode)(asked) {
                lemma_encoded_goes_on(settings, state, tuple, more);
                lemma_driving_goes_on(
                    settings,
                    around,
                    encoded_effect(settings, state, tuple),
                    asked,
                    more,
                    encoded_effect(settings, with_more(state, more), tuple),
                );
            } else {
                reveal_with_fuel(driven, 2);
            }
        },
        Ok((state, CopyActionView::FlushBatch(_))) => {
            let asked = History { batches: history.batches.push(state.batch), ..history };
            if let Ok(inserted) = (around.write)(asked) {
                lemma_flushed_goes_on(settings, state, inserted, more);
                lemma_driving_goes_on(
                    settings,
                    around,
                    flushed_effect(settings, state, inserted as int),
                    asked,
                    more,
                    flushed_effect(settings, with_more(state, more), inserted as int),
                );
            } else {
                reveal_with_fuel(driven, 2);
            }
        },
        Ok(_) => {},
    }
}

/// It does not matter whether the client sends data in one message or in two. Of two sessions that
/// stand in one place, of which one is sent `first` and then `second` and the other both in one,
/// both have the same rows encoded and the same batches written, and end in the same place. Where
/// `first` already ends the session with an error, the other is answered the same, and all that
/// differs is that it has `second` unread.
///
/// This is so of data that makes no record longer than the limit: such data is refused before a
/// row of it is taken, so that in one message it takes the rows before the long record with it.
pub proof fn law_messages_do_not_matter(
    settings: CopySettings,
    around: Surroundings,
    state: CopyState,
    history: History,
    first: Seq<u8>,
    second: Seq<u8>,
)
    requires
        state.phase == SessionPhase::Reading,
        reading_wf(settings, state),
        !exceeds_limit(
            state.unread,
            escaped_at(state.unread, state.unread.len() as int),
            first + second,
            settings.record_byte_limit as int,
        ),
    ensures
        ({
            let whole = fed(settings, around, state, history, first + second);
            let before = fed(settings, around, state, history, first);
            if before.error is None {
                whole == fed(settings, around, before.state, before.history, second)
            } else {
                whole == (Outcome { state: with_more(before.state, second), ..before })
            }
        }),
{
    let limit = settings.record_byte_limit as int;
    let unread = state.unread;
    let escaped = escaped_at(unread, unread.len() as int);
    let before = fed(settings, around, state, history, first);
    assert(unread + (first + second) =~= (unread + first) + second);
    law_limit_check_is_exact(unread, escaped, first + second, limit);
    law_limit_check_is_exact(unread, escaped, first, limit);
    if has_long_record(unread + first, limit) {
        lemma_long_record_stays(unread + first, second, limit);
    }
    let reading = with_more(state, first);
    lemma_reading_goes_on(settings, reading, second);
    lemma_driving_goes_on(
        settings,
        around,
        reading_effect(settings, reading),
        history,
        second,
        reading_effect(settings, with_more(reading, second)),
    );
    if before.error is None {
        let left = before.state.unread;
        law_limit_check_is_exact(left, escaped_at(left, left.len() as int), second, limit);
    }
}

/// What comes of messages of the client, up to the first that ends the session with an error.
pub open spec fn fed_all(
    settings: CopySettings,
    around: Surroundings,
    state: CopyState,
    history: History,
    messages: Seq<Seq<u8>>,
) -> Outcome
    decreases messages.len(),
{
    if messages.len() == 0 {
        Outcome { state, history, error: None }
    } else {
        let before = fed(settings, around, state, history, messages[0]);
        if before.error is Some {
            before
        } else {
            fed_all(settings, around, before.state, before.history, messages.skip(1))
        }
    }
}

/// It does not matter how the client cuts its data into messages, and into how many: what a session
/// has encoded and written, and what the client is answered, is what comes of all data in one
/// message; and where no error ends the session, it ends in the same place.
///
/// This is so of data that makes no record longer than the limit, as for two messages.
pub proof fn law_any_number_of_messages_is_one(
    settings: CopySettings,
    around: Surroundings,
    state: CopyState,
    history: History,
    messages: Seq<Seq<u8>>,
)
    requires
        state.phase == SessionPhase::Reading,
        reading_wf(settings, state),
        !exceeds_limit(
            state.unread,
            escaped_at(state.unread, state.unread.len() as int),
            joined_pieces(messages),
            settings.record_byte_limit as int,
        ),
    ensures
        ({
            let whole = fed(settings, around, state, history, joined_pieces(messages));
            let cut = fed_all(settings, around, state, history, messages);
            &&& cut.history == whole.history
            &&& cut.error == whole.error
            &&& whole.error is None ==> cut == whole
        }),
    decreases messages.len(),
{
    if messages.len() == 0 {
        assert(state.unread + joined_pieces(messages) =~= state.unread);
        assert(with_more(state, joined_pieces(messages)) == state);
    } else {
        let first = messages[0];
        let others = joined_pieces(messages.skip(1));
        law_messages_do_not_matter(settings, around, state, history, first, others);
        let before = fed(settings, around, state, history, first);
        if before.error is None {
            lemma_message_leaves_no_long_record(settings, around, state, history, first, others);
            law_any_number_of_messages_is_one(
                settings,
                around,
                before.state,
                before.history,
                messages.skip(1),
            );
        }
    }
}

proof fn lemma_message_leaves_no_long_record(
    settings: CopySettings,
    around: Surroundings,
    state: CopyState,
    history: History,
    first: Seq<u8>,
    second: Seq<u8>,
)
    requires
        state.phase == SessionPhase::Reading,
        reading_wf(settings, state),
        !exceeds_limit(
            state.unread,
            escaped_at(state.unread, state.unread.len() as int),
            first + second,
            settings.record_byte_limit as int,
        ),
        fed(settings, around, state, history, first).error is None,
    ensures
        ({
            let left = fed(settings, around, state, history, first).state;
            &&& left.phase == SessionPhase::Reading
            &&& reading_wf(settings, left)
            &&& !exceeds_limit(
                left.unread,
                escaped_at(left.unread, left.unread.len() as int),
                second,
                settings.record_byte_limit as int,
            )
        }),
{
    let limit = settings.record_byte_limit as int;
    let unread = state.unread;
    let escaped = escaped_at(unread, unread.len() as int);
    assert(unread + (first + second) =~= (unread + first) + second);
    law_limit_check_is_exact(unread, escaped, first + second, limit);
    law_limit_check_is_exact(unread, escaped, first, limit);
    if has_long_record(unread + first, limit) {
        lemma_long_record_stays(unread + first, second, limit);
    }
    let reading = with_more(state, first);
    lemma_reading_goes_on(settings, reading, second);
    lemma_driving_goes_on(
        settings,
        around,
        reading_effect(settings, reading),
        history,
        second,
        reading_effect(settings, with_more(reading, second)),
    );
    let left = fed(settings, around, state, history, first).state.unread;
    law_limit_check_is_exact(left, escaped_at(left, left.len() as int), second, limit);
}

/// Whether a step goes on with data, if it does not fail.
spec fn is_open(settings: CopySettings, step: StepView) -> bool {
    step matches Ok((state, action)) ==> {
        &&& !state.finishing
        &&& action !is Complete
        &&& action is AwaitData ==> state.phase == SessionPhase::Reading && reading_wf(
            settings,
            state,
        )
    }
}

/// Whether a record is too long among what a step leaves and what comes.
spec fn has_long_behind(settings: CopySettings, step: StepView, more: Seq<u8>) -> bool {
    step matches Ok((state, _)) && has_long_record(
        state.unread + more,
        settings.record_byte_limit as int,
    )
}

proof fn lemma_adding_leaves_long_records(
    settings: CopySettings,
    state: CopyState,
    tuple: Seq<u8>,
    more: Seq<u8>,
)
    requires
        !state.finishing,
    ensures
        is_open(settings, adding_effect(settings, state, tuple)),
        adding_effect(settings, state, tuple) is Ok ==> has_long_behind(
            settings,
            adding_effect(settings, state, tuple),
            more,
        ) == has_long_record(state.unread + more, settings.record_byte_limit as int),
        is_nearer(adding_effect(settings, state, tuple), state.unread.len(), 2),
{
    let added = CopyState { batch: state.batch.push(tuple), held: None, ..state };
    lemma_reading_leaves_long_records(settings, added, more);
    lemma_reading_leaves_less(settings, added);
}

proof fn lemma_driving_leaves_long_records(
    settings: CopySettings,
    around: Surroundings,
    step: StepView,
    history: History,
    more: Seq<u8>,
)
    requires
        is_open(settings, step),
    ensures
        ({
            let after = driven(settings, around, step, history);
            after.error is None ==> {
                &&& after.state.phase == SessionPhase::Reading
                &&& reading_wf(settings, after.state)
                &&& has_long_record(after.state.unread + more, settings.record_byte_limit as int)
                    == has_long_behind(settings, step, more)
            }
        }),
    decreases unread_behind(step), due_behind(step),
{
    match step {
        Err(_) => {},
        Ok((state, CopyActionView::EncodeRow(fields))) => {
            let asked = History { rows: history.rows.push(fields), ..history };
            if let Ok(tuple) = (around.encode)(asked) {
                let next = encoded_effect(settings, state, tuple);
                lemma_adding_leaves_long_records(settings, state, tuple, more);
                lemma_driving_leaves_long_records(settings, around, next, asked, more);
                lemma_failure_is_told(settings, around, next, asked);
            } else {
                reveal_with_fuel(driven, 2);
            }
        },
        Ok((state, CopyActionView::FlushBatch(_))) => {
            let asked = History { batches: history.batches.push(state.batch), ..history };
            if let Ok(inserted) = (around.write)(asked) {
                let next = flushed_effect(settings, state, inserted as int);
                let emptied = CopyState {
                    batch: seq![],
                    inserted_rows: state.inserted_rows + inserted,
                    ..state
                };
                match state.held {
                    Some(tuple) => {
                        lemma_adding_leaves_long_records(settings, emptied, tuple, more);
                    },
                    None => {
                        lemma_reading_leaves_long_records(settings, emptied, more);
                        lemma_reading_leaves_less(settings, emptied);
                    },
                }
                lemma_driving_leaves_long_records(settings, around, next, asked, more);
                lemma_failure_is_told(settings, around, next, asked);
            } else {
                reveal_with_fuel(driven, 2);
            }
        },
        Ok(_) => {},
    }
}

proof fn lemma_failure_is_told(
    settings: CopySettings,
    around: Surroundings,
    step: StepView,
    history: History,
)
    ensures
        step is Err ==> driven(settings, around, step, history).error is Some,
{
}

/// Data that makes a record longer than the limit is refused with the same answer whether it comes
/// in one message or in two. In one, nothing of it is taken in; in two, what comes of the first is
/// kept, and nothing of the second is taken in.
pub proof fn law_long_record_is_refused_in_any_message(
    settings: CopySettings,
    around: Surroundings,
    state: CopyState,
    history: History,
    first: Seq<u8>,
    second: Seq<u8>,
)
    requires
        state.phase == SessionPhase::Reading,
        reading_wf(settings, state),
        exceeds_limit(
            state.unread,
            escaped_at(state.unread, state.unread.len() as int),
            first + second,
            settings.record_byte_limit as int,
        ),
    ensures
        ({
            let answer = Some(record_limit_answer(settings.record_byte_limit));
            let whole = fed(settings, around, state, history, first + second);
            let before = fed(settings, around, state, history, first);
            &&& whole == (Outcome { state: failed(state), history, error: answer })
            &&& before.error is None ==> fed(
                settings,
                around,
                before.state,
                before.history,
                second,
            ) == (Outcome { state: failed(before.state), error: answer, ..before })
        }),
{
    let limit = settings.record_byte_limit as int;
    let unread = state.unread;
    let escaped = escaped_at(unread, unread.len() as int);
    let before = fed(settings, around, state, history, first);
    assert(unread + (first + second) =~= (unread + first) + second);
    law_limit_check_is_exact(unread, escaped, first + second, limit);
    if before.error is None {
        let reading = with_more(state, first);
        let step = reading_effect(settings, reading);
        lemma_reading_leaves_long_records(settings, reading, second);
        lemma_reading_leaves_less(settings, reading);
        lemma_driving_leaves_long_records(settings, around, step, history, second);
        let left = before.state.unread;
        law_limit_check_is_exact(left, escaped_at(left, left.len() as int), second, limit);
    }
}

}
