//! The instrumented call wrapper: the pattern every workflow stage follows
//! around its one call into the external collaborator.
//!
//! [`begin_stage`] starts and enters a span named for the stage and records
//! the model input; the caller then performs the external call (the only
//! point a stage may block) and hands its outcome to [`finish_stage`],
//! which records the output or the error, releases the active-span context
//! back to its pre-stage state on every path, and ends the span with the
//! matching status. A failing call is propagated with the stage's name
//! attached; it never skips span closure.
use vstd::prelude::*;
use vstd::string::StringExecFns;

use crate::payload::PayloadValue;
use crate::payload::preview_of;
use crate::payload::rendered;
use crate::span::AttrImage;
use crate::span::AttrValue;
use crate::span::SpanStatus;
use crate::tracer::Tracer;
use crate::tracer::UsageError;
use crate::tracer::lemma_index_of_present;
use crate::tracer::span_index;
use crate::tracer::tick;

verus! {

/// Why a stage reported an error to its caller.
#[derive(Debug, Clone, PartialEq, Eq)]
pub enum StageError {
    /// The external collaborator call failed; `stage` names the failing
    /// stage and `detail` carries the collaborator's error text.
    Call { stage: String, detail: String },
    /// The telemetry around the call was misused.
    Misuse(UsageError),
}

impl StageError {
    /// The error's message: the stage name, a separator, and the detail.
    pub fn message(&self) -> (r: String)
        ensures
            self matches StageError::Call { stage, detail } ==> r@ == stage@ + ": "@ + detail@,
            self matches StageError::Misuse(_) ==> r@ == "telemetry misuse"@,
    {
        match self {
            StageError::Call { stage, detail } => {
                let mut out = stage.clone();
                out.append(": ");
                out.append(detail.as_str());
                out
            },
            StageError::Misuse(_) => String::from_str("telemetry misuse"),
        }
    }
}

/// Start and enter a span named for the stage, then record the model
/// input. The new span's identifier is handed back for [`finish_stage`].
pub fn begin_stage(t: &mut Tracer, stage: &str, attrs: Vec<(String, AttrValue)>, input: &PayloadValue)
    -> (r: Result<u64, UsageError>)
    requires
        old(t).wf(),
        old(t).next_id < u64::MAX,
    ensures
        final(t).wf(),
        final(t).same_setup(old(t)),
        old(t).closed ==> r == Result::<u64, UsageError>::Err(UsageError::TracerClosed)
            && *final(t) == *old(t),
        !old(t).closed ==> {
            let id = old(t).next_id;
            let ix = old(t).open_spans@.len() as int;
            &&& r == Result::<u64, UsageError>::Ok(id)
            &&& final(t).next_id == old(t).next_id + 1
            &&& final(t).clock == tick(old(t).clock)
            &&& final(t).stack@ == old(t).stack@.push(id)
            &&& final(t).buffer == old(t).buffer
            &&& final(t).closed == old(t).closed
            &&& final(t).open_spans@.len() == old(t).open_spans@.len() + 1
            &&& forall|j: int|
                0 <= j < old(t).open_spans@.len() ==> final(t).open_spans@[j] == old(
                    t,
                ).open_spans@[j]
            &&& final(t).open_spans@[ix].id == id
            &&& final(t).open_spans@[ix].name@ == stage@
            &&& final(t).open_spans@[ix].parent == (if old(t).stack@.len() == 0 {
                Option::<u64>::None
            } else {
                Option::Some(old(t).stack@.last())
            })
            &&& final(t).open_spans@[ix].start == tick(old(t).clock)
            &&& final(t).open_spans@[ix].end is None
            &&& final(t).open_spans@[ix].status == SpanStatus::Unset
            &&& final(t).open_spans@[ix].entered
            &&& final(t).open_spans@[ix].attrs_view() == crate::span::attrs_map(attrs@).insert(
                "model_input"@,
                AttrImage::Text(preview_of(rendered(*input), old(t).preview_bound as int)),
            ).insert("model_input_len"@, AttrImage::Count(rendered(*input).len() as u64))
        },
{
    let started = t.start_span(String::from_str(stage), attrs);
    match started {
        Err(e) => Err(e),
        Ok(id) => {
            proof {
                let ix = old(t).open_spans@.len() as int;
                assert(t.open_spans@[ix].id == id);
                lemma_index_of_present(t.open_spans@, id, ix);
            }
            let entered = t.enter(id);
            proof {
                let ix = old(t).open_spans@.len() as int;
                assert(t.open_spans@[ix].id == id);
                lemma_index_of_present(t.open_spans@, id, ix);
            }
            match entered {
                Err(e) => Err(e),
                Ok(()) => {
                    let recorded = t.record_input(id, input);
                    match recorded {
                        Err(e) => Err(e),
                        Ok(()) => Ok(id),
                    }
                },
            }
        },
    }
}

/// Close a stage around the outcome of its external call. On success the
/// model output is recorded and the span ends with the okay status; on
/// failure the error text is recorded under the `error` attribute, the
/// span ends with the failed status, and the error is handed on with the
/// stage's name. On both paths the span is exited, so the active-span
/// context returns to its pre-stage state.
pub fn finish_stage(t: &mut Tracer, id: u64, stage: &str, outcome: Result<String, String>) -> (r:
    Result<String, StageError>)
    requires
        old(t).wf(),
    ensures
        final(t).wf(),
        final(t).same_setup(old(t)),
        old(t).closed ==> r == Result::<String, StageError>::Err(
            StageError::Misuse(UsageError::TracerClosed),
        ) && *final(t) == *old(t),
        !old(t).closed && span_index(old(t).open_spans@, id) < 0 ==> r == Result::<
            String,
            StageError,
        >::Err(StageError::Misuse(UsageError::UnknownSpan)) && *final(t) == *old(t),
        !old(t).closed && span_index(old(t).open_spans@, id) >= 0 && !(old(t).stack@.len() > 0
            && old(t).stack@.last() == id) ==> r == Result::<String, StageError>::Err(
            StageError::Misuse(UsageError::NotInnermost),
        ) && *final(t) == *old(t),
        !old(t).closed && span_index(old(t).open_spans@, id) >= 0 && old(t).stack@.len() > 0 && old(
            t,
        ).stack@.last() == id ==> {
            let ix = span_index(old(t).open_spans@, id);
            let sp = old(t).open_spans@[ix];
            &&& final(t).stack@ == old(t).stack@.drop_last()
            &&& final(t).open_spans@ == old(t).open_spans@.remove(ix)
            &&& final(t).clock == tick(old(t).clock)
            &&& final(t).next_id == old(t).next_id
            &&& final(t).closed == old(t).closed
            &&& (match outcome {
                Ok(text) => r == Result::<String, StageError>::Ok(text),
                Err(detail) => r matches Result::<String, StageError>::Err(e)
                    && (e matches StageError::Call { stage: s2, detail: d2 } && s2@ == stage@
                    && d2@ == detail@),
            })
            &&& old(t).buffer.spans@.len() < old(t).buffer.capacity ==> {
                &&& final(t).buffer.spans@.len() == old(t).buffer.spans@.len() + 1
                &&& forall|j: int|
                    0 <= j < old(t).buffer.spans@.len() ==> final(t).buffer.spans@[j] == old(
                        t,
                    ).buffer.spans@[j]
                &&& {
                    let ended = final(t).buffer.spans@.last();
                    &&& ended.id == sp.id
                    &&& ended.name == sp.name
                    &&& ended.parent == sp.parent
                    &&& ended.start == sp.start
                    &&& ended.end == Option::Some(tick(old(t).clock))
                    &&& sp.start <= tick(old(t).clock)
                    &&& (match outcome {
                        Ok(text) => ended.status == SpanStatus::Okay && ended.attrs_view()
                            == sp.attrs_view().insert(
                            "model_output"@,
                            AttrImage::Text(
                                preview_of(
                                    rendered(PayloadValue::Text(text)),
                                    old(t).preview_bound as int,
                                ),
                            ),
                        ).insert(
                            "model_output_len"@,
                            AttrImage::Count(rendered(PayloadValue::Text(text)).len() as u64),
                        ),
                        Err(detail) => ended.status == SpanStatus::Failed && ended.attrs_view()
                            == sp.attrs_view().insert("error"@, AttrImage::Text(detail@)),
                    })
                }
            }
            &&& old(t).buffer.spans@.len() >= old(t).buffer.capacity ==> {
                &&& final(t).buffer.spans@ == old(t).buffer.spans@
                &&& final(t).buffer.dropped == if old(t).buffer.dropped < u64::MAX {
                    old(t).buffer.dropped + 1
                } else {
                    old(t).buffer.dropped as int
                }
            }
        },
{
    proof {
        crate::tracer::lemma_span_index(old(t).open_spans@, id);
    }
    if t.closed {
        return Err(StageError::Misuse(UsageError::TracerClosed));
    }
    let found = t.find_span(id);
    match found {
        None => {
            proof {
                crate::tracer::lemma_span_index(t.open_spans@, id);
            }
            Err(StageError::Misuse(UsageError::UnknownSpan))
        },
        Some(i) => {
            proof {
                lemma_index_of_present(t.open_spans@, id, i as int);
            }
            if t.stack.len() == 0 || t.stack[t.stack.len() - 1] != id {
                return Err(StageError::Misuse(UsageError::NotInnermost));
            }
            let ghost ix = i as int;
            proof {
                assert(t.stack@[t.stack@.len() - 1] == id);
                assert(crate::tracer::stack_entry_ok(t.open_spans@, id));
                let w = choose|w: int|
                    0 <= w < t.open_spans@.len() && (#[trigger] t.open_spans@[w]).id == id
                        && t.open_spans@[w].entered;
                if w < ix {
                    assert(t.open_spans@[w].id != t.open_spans@[ix].id);
                } else if w > ix {
                    assert(t.open_spans@[ix].id != t.open_spans@[w].id);
                }
                assert(t.open_spans@[ix].entered);
            }
            match outcome {
                Ok(text) => {
                    let out_payload = PayloadValue::Text(text.clone());
                    let rec = t.record_output(id, &out_payload);
                    proof {
                        assert(rec is Ok);
                        assert(t.open_spans@[ix].id == id);
                        lemma_index_of_present(t.open_spans@, id, ix);
                    }
                    let ex = t.exit(id);
                    proof {
                        assert(ex is Ok);
                        assert(t.open_spans@[ix].id == id);
                        lemma_index_of_present(t.open_spans@, id, ix);
                        assert(!t.stack@.contains(id)) by {
                            if t.stack@.contains(id) {
                                let w = choose|w: int| 0 <= w < t.stack@.len() && t.stack@[w] == id;
                                assert(old(t).stack@[w] == old(t).stack@[old(t).stack@.len() - 1]);
                            }
                        }
                        assert(t.open_spans@[ix].entered);
                    }
                    let ended = t.end_span(id, SpanStatus::Okay);
                    proof {
                        assert(ended is Ok);
                    }
                    Ok(text)
                },
                Err(detail) => {
                    let rec = t.record_attr(
                        id,
                        String::from_str("error"),
                        AttrValue::Text(detail.clone()),
                    );
                    proof {
                        assert(rec is Ok);
                        assert(t.open_spans@[ix].id == id);
                        lemma_index_of_present(t.open_spans@, id, ix);
                    }
                    let ex = t.exit(id);
                    proof {
                        assert(ex is Ok);
                        assert(t.open_spans@[ix].id == id);
                        lemma_index_of_present(t.open_spans@, id, ix);
                        assert(!t.stack@.contains(id)) by {
                            if t.stack@.contains(id) {
                                let w = choose|w: int| 0 <= w < t.stack@.len() && t.stack@[w] == id;
                                assert(old(t).stack@[w] == old(t).stack@[old(t).stack@.len() - 1]);
                            }
                        }
                        assert(t.open_spans@[ix].entered);
                    }
                    let ended = t.end_span(id, SpanStatus::Failed);
                    proof {
                        assert(ended is Ok);
                    }
                    Err(StageError::Call { stage: String::from_str(stage), detail })
                },
            }
        },
    }
}

} // verus!
