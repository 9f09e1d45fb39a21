//! The tracer: the process-wide owner of span creation and the export
//! pipeline, with an explicit init/shutdown lifecycle.
//!
//! Spans are nested through the active-span context, a LIFO stack of
//! currently entered spans: a new span's parent is whatever span is on top
//! of the stack. Ending a span stamps its end time and status and moves it
//! into the batch buffer; [`Tracer::shutdown`] drains the buffer and closes
//! the tracer, after which every operation fails with
//! [`UsageError::TracerClosed`] instead of panicking the host workflow.
//!
//! Time is a logical clock: it advances by one at every span start and end
//! (saturating at the greatest representable value), so an end time never
//! precedes the matching start time.
use vstd::prelude::*;
use vstd::string::StrSliceExecFns;
use vstd::string::StringExecFns;

use crate::buffer::BatchBuffer;
use crate::config::ExportConfig;
use crate::config::InitError;
use crate::payload::PayloadValue;
use crate::payload::preview;
use crate::payload::preview_of;
use crate::payload::rendered;
use crate::span::AttrImage;
use crate::span::AttrValue;
use crate::span::SpanData;
use crate::span::SpanStatus;
use crate::span::lemma_attrs_map_push;

verus! {

/// A misuse of the span lifecycle. Each is reported to the caller rather
/// than silently ignored.
#[derive(Debug, Clone, Copy, PartialEq, Eq)]
pub enum UsageError {
    /// The tracer was already shut down.
    TracerClosed,
    /// No open span carries the given identifier (it never existed, or it
    /// has already ended).
    UnknownSpan,
    /// The span was entered before; a span is entered at most once.
    AlreadyEntered,
    /// The span is not the innermost entered span, so it cannot be exited.
    NotInnermost,
    /// The span is still on the active-span context; exit it before ending.
    StillEntered,
    /// The span was never entered, so ending it is a programming error.
    NeverEntered,
}

/// The logical clock after one more event; saturates instead of wrapping.
pub open spec fn tick(c: u64) -> u64 {
    if c < u64::MAX {
        (c + 1) as u64
    } else {
        c
    }
}

/// The position of the span with identifier `id`, or `-1` when no span of
/// the sequence carries it.
pub open spec fn span_index(s: Seq<SpanData>, id: u64) -> int
    decreases s.len(),
{
    if s.len() == 0 {
        -1
    } else if s[0].id == id {
        0
    } else {
        if span_index(s.drop_first(), id) < 0 {
            -1
        } else {
            span_index(s.drop_first(), id) + 1
        }
    }
}

/// What [`span_index`] finds: a valid position holding the identifier, or
/// the identifier's absence from the whole sequence.
pub proof fn lemma_span_index(s: Seq<SpanData>, id: u64)
    ensures
        span_index(s, id) < 0 ==> forall|i: int| 0 <= i < s.len() ==> (#[trigger] s[i]).id != id,
        span_index(s, id) >= 0 ==> span_index(s, id) < s.len() && s[span_index(s, id)].id == id,
    decreases s.len(),
{
    if s.len() > 0 && s[0].id != id {
        let t = s.drop_first();
        lemma_span_index(t, id);
        if span_index(t, id) < 0 {
            assert forall|i: int| 0 <= i < s.len() implies (#[trigger] s[i]).id != id by {
                if i > 0 {
                    assert(t[i - 1] == s[i]);
                }
            }
        } else {
            assert(t[span_index(t, id)] == s[span_index(t, id) + 1]);
        }
    }
}

/// In a sequence of spans with pairwise distinct identifiers,
/// [`span_index`] finds exactly the position that holds `id`.
pub proof fn lemma_index_of_present(s: Seq<SpanData>, id: u64, ix: int)
    requires
        0 <= ix < s.len(),
        s[ix].id == id,
        forall|i: int, j: int|
            #![trigger s[i], s[j]]
            0 <= i < j < s.len() ==> s[i].id != s[j].id,
    ensures
        span_index(s, id) == ix,
{
    lemma_span_index(s, id);
    if span_index(s, id) < 0 {
        assert(s[ix].id != id);
    } else {
        let r = span_index(s, id);
        if r < ix {
            assert(s[r].id != s[ix].id);
        } else if r > ix {
            assert(s[ix].id != s[r].id);
        }
    }
}

/// Some open span carries identifier `id` and was entered.
pub open spec fn stack_entry_ok(open_seq: Seq<SpanData>, id: u64) -> bool {
    exists|i: int|
        0 <= i < open_seq.len() && (#[trigger] open_seq[i]).id == id && open_seq[i].entered
}

/// The tracer. It composes the service's resource attributes with the
/// batch buffer of its export transport, and tracks the open spans and the
/// active-span context.
pub struct Tracer {
    /// Identifying attributes of the service instance, shared by every
    /// span exported through this tracer.
    pub resource: Vec<(String, String)>,
    /// Greatest number of characters a recorded payload preview keeps.
    pub preview_bound: usize,
    /// Logical clock; advances at span starts and ends.
    pub clock: u64,
    /// Identifier handed to the next started span.
    pub next_id: u64,
    /// Spans that were started and not yet ended.
    pub open_spans: Vec<SpanData>,
    /// The active-span context: identifiers of entered spans, innermost
    /// last.
    pub stack: Vec<u64>,
    /// Ended spans awaiting a flush.
    pub buffer: BatchBuffer,
    /// Whether the tracer was shut down.
    pub closed: bool,
}

impl Tracer {
    /// Well-formedness: identifiers are unique and below `next_id`; open
    /// spans have no end time and started no later than the clock; the
    /// stack names distinct, entered, open spans; buffered spans carry an
    /// end time no earlier than their start; a closed tracer's buffer is
    /// drained.
    pub open spec fn wf(&self) -> bool {
        &&& forall|i: int, j: int|
            #![trigger self.open_spans@[i], self.open_spans@[j]]
            0 <= i < j < self.open_spans@.len() ==> self.open_spans@[i].id != self.open_spans@[j].id
        &&& forall|i: int| 0 <= i < self.open_spans@.len() ==> {
            let sp = #[trigger] self.open_spans@[i];
            sp.id < self.next_id && sp.start <= self.clock && sp.end is None
        }
        &&& forall|i: int, j: int|
            #![trigger self.stack@[i], self.stack@[j]]
            0 <= i < j < self.stack@.len() ==> self.stack@[i] != self.stack@[j]
        &&& forall|k: int|
            0 <= k < self.stack@.len() ==> stack_entry_ok(self.open_spans@, #[trigger] self.stack@[k])
        &&& self.buffer.wf()
        &&& forall|i: int| 0 <= i < self.buffer.spans@.len() ==> {
            let sp = #[trigger] self.buffer.spans@[i];
            sp.id < self.next_id && (sp.end matches Some(e) && sp.start <= e)
        }
        &&& self.closed ==> self.buffer.spans@.len() == 0
    }

    /// The administrative part of the tracer that no span operation may
    /// touch.
    pub open spec fn same_setup(&self, other: &Tracer) -> bool {
        &&& self.resource == other.resource
        &&& self.preview_bound == other.preview_bound
        &&& self.buffer.capacity == other.buffer.capacity
    }

    /// Build a tracer over a checked configuration: the resource carries
    /// the service name and the SDK language tag, the clock and the span
    /// journal start empty. A faulty configuration is a fatal startup
    /// error and no tracer is built.
    pub fn init(service_name: &str, config: ExportConfig) -> (r: Result<Tracer, InitError>)
        ensures
            r is Ok <==> config.acceptable(),
            r == Result::<Tracer, InitError>::Err(InitError::MissingEndpoint)
                <==> config.endpoint@.len() == 0,
            r == Result::<Tracer, InitError>::Err(InitError::MalformedEndpoint)
                <==> (config.endpoint@.len() > 0
                    && !crate::config::endpoint_accepted(config.endpoint@)),
            r == Result::<Tracer, InitError>::Err(InitError::MalformedKey)
                <==> (config.endpoint@.len() > 0
                    && crate::config::endpoint_accepted(config.endpoint@)
                    && (config.ingestion_key matches Option::Some(k)
                        && !crate::config::key_ok(k@))),
            r matches Ok(t) ==> {
                &&& t.wf()
                &&& !t.closed
                &&& t.clock == 0
                &&& t.next_id == 1
                &&& t.open_spans@.len() == 0
                &&& t.stack@.len() == 0
                &&& t.buffer.spans@.len() == 0
                &&& t.buffer.dropped == 0
                &&& t.buffer.capacity == config.queue_capacity
                &&& t.preview_bound == config.preview_bound
                &&& t.resource@.len() == 2
                &&& t.resource@[0].0@ == "service.name"@
                &&& t.resource@[0].1@ == service_name@
                &&& t.resource@[1].0@ == "telemetry.sdk.language"@
                &&& t.resource@[1].1@ == "rust"@
            },
    {
        match config.validate() {
            Err(e) => Err(e),
            Ok(()) => {
                let mut resource: Vec<(String, String)> = Vec::new();
                resource.push((String::from_str("service.name"), String::from_str(service_name)));
                resource.push((
                    String::from_str("telemetry.sdk.language"),
                    String::from_str("rust"),
                ));
                Ok(Tracer {
                    resource,
                    preview_bound: config.preview_bound,
                    clock: 0,
                    next_id: 1,
                    open_spans: Vec::new(),
                    stack: Vec::new(),
                    buffer: BatchBuffer::new(config.queue_capacity),
                    closed: false,
                })
            },
        }
    }

    /// The position of the open span with identifier `id`.
    pub(crate) fn find_span(&self, id: u64) -> (r: Option<usize>)
        ensures
            match r {
                Some(i) => i < self.open_spans@.len() && self.open_spans@[i as int].id == id,
                None => forall|i: int|
                    0 <= i < self.open_spans@.len() ==> (#[trigger] self.open_spans@[i]).id != id,
            },
    {
        let mut i: usize = 0;
        while i < self.open_spans.len()
            invariant
                i <= self.open_spans@.len(),
                forall|j: int| 0 <= j < i ==> (#[trigger] self.open_spans@[j]).id != id,
            decreases self.open_spans@.len() - i,
        {
            if self.open_spans[i].id == id {
                return Some(i);
            }
            i = i + 1;
        }
        None
    }

    /// Whether `id` is on the active-span context.
    fn on_stack(&self, id: u64) -> (r: bool)
        ensures
            r == self.stack@.contains(id),
    {
        let mut i: usize = 0;
        while i < self.stack.len()
            invariant
                i <= self.stack@.len(),
                forall|j: int| 0 <= j < i ==> self.stack@[j] != id,
            decreases self.stack@.len() - i,
        {
            if self.stack[i] == id {
                assert(self.stack@.contains(id));
                return true;
            }
            i = i + 1;
        }
        assert(!self.stack@.contains(id));
        false
    }

    /// Start a span. Its parent is the innermost entered span, or nothing
    /// when the active-span context is empty — then the span is a root.
    /// After shutdown no span is created and the caller is told so.
    pub fn start_span(&mut self, name: String, attrs: Vec<(String, AttrValue)>) -> (r: Result<
        u64,
        UsageError,
    >)
        requires
            old(self).wf(),
            old(self).next_id < u64::MAX,
        ensures
            final(self).wf(),
            final(self).same_setup(old(self)),
            final(self).closed == old(self).closed,
            old(self).closed ==> r == Result::<u64, UsageError>::Err(UsageError::TracerClosed)
                && *final(self) == *old(self),
            !old(self).closed ==> {
                &&& r == Result::<u64, UsageError>::Ok(old(self).next_id)
                &&& final(self).next_id == old(self).next_id + 1
                &&& final(self).clock == tick(old(self).clock)
                &&& final(self).stack == old(self).stack
                &&& final(self).buffer == old(self).buffer
                &&& final(self).open_spans@ == old(self).open_spans@.push(
                    (SpanData {
                        id: old(self).next_id,
                        name: name,
                        parent: if old(self).stack@.len() == 0 {
                            Option::None
                        } else {
                            Option::Some(old(self).stack@.last())
                        },
                        start: tick(old(self).clock),
                        end: Option::None,
                        status: SpanStatus::Unset,
                        entered: false,
                        attrs: attrs,
                    }),
                )
            },
    {
        if self.closed {
            return Err(UsageError::TracerClosed);
        }
        self.clock = if self.clock < u64::MAX {
            self.clock + 1
        } else {
            self.clock
        };
        let id = self.next_id;
        self.next_id = self.next_id + 1;
        let parent: Option<u64> = if self.stack.len() == 0 {
            None
        } else {
            Some(self.stack[self.stack.len() - 1])
        };
        let sp = SpanData {
            id,
            name,
            parent,
            start: self.clock,
            end: None,
            status: SpanStatus::Unset,
            entered: false,
            attrs,
        };
        self.open_spans.push(sp);
        proof {
            assert forall|k: int|
                0 <= k < self.stack@.len() implies stack_entry_ok(
                self.open_spans@,
                self.stack@[k],
            ) by {
                assert(stack_entry_ok(old(self).open_spans@, old(self).stack@[k]));
                let i = choose|i: int|
                    0 <= i < old(self).open_spans@.len() && (#[trigger] old(
                        self,
                    ).open_spans@[i]).id == self.stack@[k] && old(self).open_spans@[i].entered;
                assert(self.open_spans@[i] == old(self).open_spans@[i]);
            }
        }
        Ok(id)
    }

    /// Push an open span onto the active-span context. A span is entered
    /// at most once over its lifetime.
    pub fn enter(&mut self, id: u64) -> (r: Result<(), UsageError>)
        requires
            old(self).wf(),
        ensures
            final(self).wf(),
            final(self).same_setup(old(self)),
            old(self).closed ==> r == Result::<(), UsageError>::Err(UsageError::TracerClosed)
                && *final(self) == *old(self),
            !old(self).closed && span_index(old(self).open_spans@, id) < 0 ==> r == Result::<
                (),
                UsageError,
            >::Err(UsageError::UnknownSpan) && *final(self) == *old(self),
            !old(self).closed && span_index(old(self).open_spans@, id) >= 0 && old(
                self,
            ).open_spans@[span_index(old(self).open_spans@, id)].entered ==> r == Result::<
                (),
                UsageError,
            >::Err(UsageError::AlreadyEntered) && *final(self) == *old(self),
            !old(self).closed && span_index(old(self).open_spans@, id) >= 0 && !old(
                self,
            ).open_spans@[span_index(old(self).open_spans@, id)].entered ==> {
                let ix = span_index(old(self).open_spans@, id);
                &&& r == Result::<(), UsageError>::Ok(())
                &&& final(self).stack@ == old(self).stack@.push(id)
                &&& final(self).open_spans@ == old(self).open_spans@.update(
                    ix,
                    (SpanData { entered: true, ..old(self).open_spans@[ix] }),
                )
                &&& final(self).clock == old(self).clock
                &&& final(self).next_id == old(self).next_id
                &&& final(self).buffer == old(self).buffer
                &&& final(self).closed == old(self).closed
            },
    {
        proof {
            lemma_span_index(old(self).open_spans@, id);
        }
        if self.closed {
            return Err(UsageError::TracerClosed);
        }
        let found = self.find_span(id);
        match found {
            None => {
                proof {
                    lemma_span_index(self.open_spans@, id);
                }
                Err(UsageError::UnknownSpan)
            },
            Some(i) => {
                proof {
                    let ix = span_index(self.open_spans@, id);
                    assert(self.open_spans@[ix].id == id);
                    assert(ix == i as int);
                }
                if self.open_spans[i].entered {
                    return Err(UsageError::AlreadyEntered);
                }
                let mut sp = self.open_spans.remove(i);
                sp.entered = true;
                self.open_spans.insert(i, sp);
                self.stack.push(id);
                proof {
                    let ghost pre = old(self).open_spans@;
                    let ghost ix = i as int;
                    assert(self.open_spans@ =~= pre.update(
                        ix,
                        (SpanData { entered: true, ..pre[ix] }),
                    ));
                    assert forall|k: int|
                        0 <= k < self.stack@.len() implies stack_entry_ok(
                        self.open_spans@,
                        self.stack@[k],
                    ) by {
                        if k == self.stack@.len() - 1 {
                            assert(self.open_spans@[ix].id == id && self.open_spans@[ix].entered);
                        } else {
                            assert(stack_entry_ok(pre, old(self).stack@[k]));
                            let i2 = choose|i2: int|
                                0 <= i2 < pre.len() && (#[trigger] pre[i2]).id == old(
                                    self,
                                ).stack@[k] && pre[i2].entered;
                            assert(i2 != ix);
                            assert(self.open_spans@[i2] == pre[i2]);
                        }
                    }
                    assert forall|i2: int, j2: int|
                        #![trigger self.stack@[i2], self.stack@[j2]]
                        0 <= i2 < j2 < self.stack@.len() implies self.stack@[i2]
                        != self.stack@[j2] by {
                        if j2 == self.stack@.len() - 1 {
                            assert(stack_entry_ok(pre, old(self).stack@[i2]));
                            let w = choose|w: int|
                                0 <= w < pre.len() && (#[trigger] pre[w]).id == old(
                                    self,
                                ).stack@[i2] && pre[w].entered;
                            assert(pre[w].entered && !pre[ix].entered);
                            assert(w != ix);
                        }
                    }
                }
                Ok(())
            },
        }
    }

    /// Pop the innermost entered span off the active-span context. Pops
    /// must mirror pushes in reverse order; exiting anything but the
    /// innermost span is refused.
    pub fn exit(&mut self, id: u64) -> (r: Result<(), UsageError>)
        requires
            old(self).wf(),
        ensures
            final(self).wf(),
            final(self).same_setup(old(self)),
            old(self).closed ==> r == Result::<(), UsageError>::Err(UsageError::TracerClosed)
                && *final(self) == *old(self),
            !old(self).closed && !(old(self).stack@.len() > 0 && old(self).stack@.last() == id)
                ==> r == Result::<(), UsageError>::Err(UsageError::NotInnermost) && *final(self)
                == *old(self),
            !old(self).closed && old(self).stack@.len() > 0 && old(self).stack@.last() == id ==> {
                &&& r == Result::<(), UsageError>::Ok(())
                &&& final(self).stack@ == old(self).stack@.drop_last()
                &&& final(self).open_spans == old(self).open_spans
                &&& final(self).clock == old(self).clock
                &&& final(self).next_id == old(self).next_id
                &&& final(self).buffer == old(self).buffer
                &&& final(self).closed == old(self).closed
            },
    {
        if self.closed {
            return Err(UsageError::TracerClosed);
        }
        if self.stack.len() == 0 {
            return Err(UsageError::NotInnermost);
        }
        if self.stack[self.stack.len() - 1] != id {
            return Err(UsageError::NotInnermost);
        }
        self.stack.pop();
        Ok(())
    }

    /// Append one attribute entry to an open span; the span's attribute
    /// mapping afterwards is the old mapping with `key` bound to `value`
    /// (a later write to the same key wins). A span that is not tracked
    /// any more — it ended, or never existed — is refused.
    pub fn record_attr(&mut self, id: u64, key: String, value: AttrValue) -> (r: Result<
        (),
        UsageError,
    >)
        requires
            old(self).wf(),
        ensures
            final(self).wf(),
            final(self).same_setup(old(self)),
            old(self).closed ==> r == Result::<(), UsageError>::Err(UsageError::TracerClosed)
                && *final(self) == *old(self),
            !old(self).closed && span_index(old(self).open_spans@, id) < 0 ==> r == Result::<
                (),
                UsageError,
            >::Err(UsageError::UnknownSpan) && *final(self) == *old(self),
            !old(self).closed && span_index(old(self).open_spans@, id) >= 0 ==> {
                let ix = span_index(old(self).open_spans@, id);
                let sp = old(self).open_spans@[ix];
                &&& r == Result::<(), UsageError>::Ok(())
                &&& final(self).open_spans@.len() == old(self).open_spans@.len()
                &&& forall|j: int|
                    0 <= j < final(self).open_spans@.len() && j != ix
                        ==> final(self).open_spans@[j] == old(self).open_spans@[j]
                &&& final(self).open_spans@[ix].attrs@ == sp.attrs@.push((key, value))
                &&& final(self).open_spans@[ix].attrs_view() == sp.attrs_view().insert(
                    key@,
                    value@,
                )
                &&& final(self).open_spans@[ix].id == sp.id
                &&& final(self).open_spans@[ix].name == sp.name
                &&& final(self).open_spans@[ix].entered == sp.entered
                &&& final(self).open_spans@[ix].parent == sp.parent
                &&& final(self).open_spans@[ix].start == sp.start
                &&& final(self).open_spans@[ix].end == sp.end
                &&& final(self).open_spans@[ix].status == sp.status
                &&& final(self).stack == old(self).stack
                &&& final(self).clock == old(self).clock
                &&& final(self).next_id == old(self).next_id
                &&& final(self).buffer == old(self).buffer
                &&& final(self).closed == old(self).closed
            },
    {
        proof {
            lemma_span_index(old(self).open_spans@, id);
        }
        if self.closed {
            return Err(UsageError::TracerClosed);
        }
        let found = self.find_span(id);
        match found {
            None => {
                proof {
                    lemma_span_index(self.open_spans@, id);
                }
                Err(UsageError::UnknownSpan)
            },
            Some(i) => {
                proof {
                    let ix = span_index(self.open_spans@, id);
                    assert(self.open_spans@[ix].id == id);
                    assert(ix == i as int);
                }
                let mut sp = self.open_spans.remove(i);
                proof {
                    lemma_attrs_map_push(sp.attrs@, key, value);
                }
                sp.attrs.push((key, value));
                self.open_spans.insert(i, sp);
                proof {
                    let ghost pre = old(self).open_spans@;
                    let ghost ix = i as int;
                    assert forall|j: int|
                        0 <= j < self.open_spans@.len() && j != ix implies self.open_spans@[j]
                        == pre[j] by {
                        if j < ix {
                            assert(self.open_spans@[j] == pre.remove(ix)[j]);
                        } else {
                            assert(self.open_spans@[j] == pre.remove(ix)[j - 1]);
                        }
                    }
                    assert forall|k: int|
                        0 <= k < self.stack@.len() implies stack_entry_ok(
                        self.open_spans@,
                        self.stack@[k],
                    ) by {
                        assert(stack_entry_ok(pre, old(self).stack@[k]));
                        let i2 = choose|i2: int|
                            0 <= i2 < pre.len() && (#[trigger] pre[i2]).id == old(self).stack@[k]
                                && pre[i2].entered;
                        assert(self.open_spans@[i2].id == pre[i2].id);
                        assert(self.open_spans@[i2].entered == pre[i2].entered);
                    }
                }
                Ok(())
            },
        }
    }

    /// Record a structured payload under a reserved attribute slot: the
    /// slot key takes a bounded preview of the rendered payload, and the
    /// companion key takes the full rendered length.
    fn record_payload(&mut self, id: u64, payload: &PayloadValue, slot: &str, len_slot: &str)
        -> (r: Result<(), UsageError>)
        requires
            old(self).wf(),
        ensures
            final(self).wf(),
            final(self).same_setup(old(self)),
            old(self).closed ==> r == Result::<(), UsageError>::Err(UsageError::TracerClosed)
                && *final(self) == *old(self),
            !old(self).closed && span_index(old(self).open_spans@, id) < 0 ==> r == Result::<
                (),
                UsageError,
            >::Err(UsageError::UnknownSpan) && *final(self) == *old(self),
            !old(self).closed && span_index(old(self).open_spans@, id) >= 0 ==> {
                let ix = span_index(old(self).open_spans@, id);
                let sp = old(self).open_spans@[ix];
                &&& r == Result::<(), UsageError>::Ok(())
                &&& final(self).open_spans@.len() == old(self).open_spans@.len()
                &&& final(self).open_spans@[ix].attrs_view() == sp.attrs_view().insert(
                    slot@,
                    AttrImage::Text(preview_of(rendered(*payload), old(self).preview_bound as int)),
                ).insert(len_slot@, AttrImage::Count(rendered(*payload).len() as u64))
                &&& forall|j: int|
                    0 <= j < final(self).open_spans@.len() && j != ix
                        ==> final(self).open_spans@[j] == old(self).open_spans@[j]
                &&& final(self).open_spans@[ix].id == sp.id
                &&& final(self).open_spans@[ix].name == sp.name
                &&& final(self).open_spans@[ix].entered == sp.entered
                &&& final(self).open_spans@[ix].parent == sp.parent
                &&& final(self).open_spans@[ix].start == sp.start
                &&& final(self).open_spans@[ix].end == sp.end
                &&& final(self).open_spans@[ix].status == sp.status
                &&& final(self).stack == old(self).stack
                &&& final(self).clock == old(self).clock
                &&& final(self).next_id == old(self).next_id
                &&& final(self).buffer == old(self).buffer
                &&& final(self).closed == old(self).closed
            },
    {
        let text = payload.render();
        let full_len = text.as_str().unicode_len();
        let cut = preview(text.as_str(), self.preview_bound);
        let r1 = self.record_attr(id, String::from_str(slot), AttrValue::Text(cut));
        match r1 {
            Err(e) => Err(e),
            Ok(()) => {
                proof {
                    lemma_span_index(old(self).open_spans@, id);
                    let ix = span_index(old(self).open_spans@, id);
                    lemma_span_index(self.open_spans@, id);
                    assert(self.open_spans@[ix].id == id);
                    if span_index(self.open_spans@, id) < 0 {
                        assert(false);
                    }
                    let ix2 = span_index(self.open_spans@, id);
                    assert(self.open_spans@[ix2].id == id);
                    if ix2 != ix {
                        assert(false);
                    }
                }
                let ghost mid = *self;
                let r2 = self.record_attr(
                    id,
                    String::from_str(len_slot),
                    AttrValue::Count(full_len as u64),
                );
                match r2 {
                    Err(e) => Err(e),
                    Ok(()) => {
                        proof {
                            let ix = span_index(old(self).open_spans@, id);
                            assert forall|j: int|
                                0 <= j < self.open_spans@.len() && j != ix implies self.open_spans@[j]
                                == old(self).open_spans@[j] by {
                                assert(self.open_spans@[j] == mid.open_spans@[j]);
                            }
                        }
                        Ok(())
                    },
                }
            },
        }
    }

    /// Record the span's model input: the payload's rendered preview under
    /// `model_input` and its full rendered length under `model_input_len`.
    pub fn record_input(&mut self, id: u64, payload: &PayloadValue) -> (r: Result<(), UsageError>)
        requires
            old(self).wf(),
        ensures
            final(self).wf(),
            final(self).same_setup(old(self)),
            old(self).closed ==> r == Result::<(), UsageError>::Err(UsageError::TracerClosed)
                && *final(self) == *old(self),
            !old(self).closed && span_index(old(self).open_spans@, id) < 0 ==> r == Result::<
                (),
                UsageError,
            >::Err(UsageError::UnknownSpan) && *final(self) == *old(self),
            !old(self).closed && span_index(old(self).open_spans@, id) >= 0 ==> {
                let ix = span_index(old(self).open_spans@, id);
                let sp = old(self).open_spans@[ix];
                &&& r == Result::<(), UsageError>::Ok(())
                &&& final(self).open_spans@[ix].attrs_view() == sp.attrs_view().insert(
                    "model_input"@,
                    AttrImage::Text(preview_of(rendered(*payload), old(self).preview_bound as int)),
                ).insert("model_input_len"@, AttrImage::Count(rendered(*payload).len() as u64))
                &&& final(self).open_spans@.len() == old(self).open_spans@.len()
                &&& forall|j: int|
                    0 <= j < final(self).open_spans@.len() && j != ix
                        ==> final(self).open_spans@[j] == old(self).open_spans@[j]
                &&& final(self).open_spans@[ix].id == sp.id
                &&& final(self).open_spans@[ix].name == sp.name
                &&& final(self).open_spans@[ix].entered == sp.entered
                &&& final(self).open_spans@[ix].parent == sp.parent
                &&& final(self).open_spans@[ix].start == sp.start
                &&& final(self).open_spans@[ix].end == sp.end
                &&& final(self).open_spans@[ix].status == sp.status
                &&& final(self).stack == old(self).stack
                &&& final(self).clock == old(self).clock
                &&& final(self).next_id == old(self).next_id
                &&& final(self).buffer == old(self).buffer
                &&& final(self).closed == old(self).closed
            },
    {
        self.record_payload(id, payload, "model_input", "model_input_len")
    }

    /// Record the span's model output: the payload's rendered preview
    /// under `model_output` and its full rendered length under
    /// `model_output_len`.
    pub fn record_output(&mut self, id: u64, payload: &PayloadValue) -> (r: Result<(), UsageError>)
        requires
            old(self).wf(),
        ensures
            final(self).wf(),
            final(self).same_setup(old(self)),
            old(self).closed ==> r == Result::<(), UsageError>::Err(UsageError::TracerClosed)
                && *final(self) == *old(self),
            !old(self).closed && span_index(old(self).open_spans@, id) < 0 ==> r == Result::<
                (),
                UsageError,
            >::Err(UsageError::UnknownSpan) && *final(self) == *old(self),
            !old(self).closed && span_index(old(self).open_spans@, id) >= 0 ==> {
                let ix = span_index(old(self).open_spans@, id);
                let sp = old(self).open_spans@[ix];
                &&& r == Result::<(), UsageError>::Ok(())
                &&& final(self).open_spans@[ix].attrs_view() == sp.attrs_view().insert(
                    "model_output"@,
                    AttrImage::Text(preview_of(rendered(*payload), old(self).preview_bound as int)),
                ).insert("model_output_len"@, AttrImage::Count(rendered(*payload).len() as u64))
                &&& final(self).open_spans@.len() == old(self).open_spans@.len()
                &&& forall|j: int|
                    0 <= j < final(self).open_spans@.len() && j != ix
                        ==> final(self).open_spans@[j] == old(self).open_spans@[j]
                &&& final(self).open_spans@[ix].id == sp.id
                &&& final(self).open_spans@[ix].name == sp.name
                &&& final(self).open_spans@[ix].entered == sp.entered
                &&& final(self).open_spans@[ix].parent == sp.parent
                &&& final(self).open_spans@[ix].start == sp.start
                &&& final(self).open_spans@[ix].end == sp.end
                &&& final(self).open_spans@[ix].status == sp.status
                &&& final(self).stack == old(self).stack
                &&& final(self).clock == old(self).clock
                &&& final(self).next_id == old(self).next_id
                &&& final(self).buffer == old(self).buffer
                &&& final(self).closed == old(self).closed
            },
    {
        self.record_payload(id, payload, "model_output", "model_output_len")
    }

    /// End a span: stamp the end time (never before the start time) and
    /// the status, and move the span into the batch buffer. The span must
    /// have been entered and exited again; ending a never-entered or a
    /// still-entered span is a programming error and is reported.
    pub fn end_span(&mut self, id: u64, status: SpanStatus) -> (r: Result<(), UsageError>)
        requires
            old(self).wf(),
        ensures
            final(self).wf(),
            final(self).same_setup(old(self)),
            old(self).closed ==> r == Result::<(), UsageError>::Err(UsageError::TracerClosed)
                && *final(self) == *old(self),
            !old(self).closed && span_index(old(self).open_spans@, id) < 0 ==> r == Result::<
                (),
                UsageError,
            >::Err(UsageError::UnknownSpan) && *final(self) == *old(self),
            !old(self).closed && span_index(old(self).open_spans@, id) >= 0 && old(
                self,
            ).stack@.contains(id) ==> r == Result::<(), UsageError>::Err(UsageError::StillEntered)
                && *final(self) == *old(self),
            !old(self).closed && span_index(old(self).open_spans@, id) >= 0 && !old(
                self,
            ).stack@.contains(id) && !old(self).open_spans@[span_index(old(self).open_spans@, id)].entered
                ==> r == Result::<(), UsageError>::Err(UsageError::NeverEntered) && *final(self)
                == *old(self),
            !old(self).closed && span_index(old(self).open_spans@, id) >= 0 && !old(
                self,
            ).stack@.contains(id) && old(self).open_spans@[span_index(old(self).open_spans@, id)].entered
                ==> {
                let ix = span_index(old(self).open_spans@, id);
                let sp = old(self).open_spans@[ix];
                let ended = (SpanData {
                    end: Option::Some(tick(old(self).clock)),
                    status: status,
                    ..sp
                });
                &&& r == Result::<(), UsageError>::Ok(())
                &&& final(self).open_spans@ == old(self).open_spans@.remove(ix)
                &&& final(self).clock == tick(old(self).clock)
                &&& sp.start <= tick(old(self).clock)
                &&& final(self).stack == old(self).stack
                &&& final(self).next_id == old(self).next_id
                &&& final(self).closed == old(self).closed
                &&& old(self).buffer.spans@.len() < old(self).buffer.capacity ==> {
                    &&& final(self).buffer.spans@ == old(self).buffer.spans@.push(ended)
                    &&& final(self).buffer.dropped == old(self).buffer.dropped
                }
                &&& old(self).buffer.spans@.len() >= old(self).buffer.capacity ==> {
                    &&& final(self).buffer.spans@ == old(self).buffer.spans@
                    &&& final(self).buffer.dropped == if old(self).buffer.dropped < u64::MAX {
                        old(self).buffer.dropped + 1
                    } else {
                        old(self).buffer.dropped as int
                    }
                }
            },
    {
        proof {
            lemma_span_index(old(self).open_spans@, id);
        }
        if self.closed {
            return Err(UsageError::TracerClosed);
        }
        let found = self.find_span(id);
        match found {
            None => {
                proof {
                    lemma_span_index(self.open_spans@, id);
                }
                Err(UsageError::UnknownSpan)
            },
            Some(i) => {
                proof {
                    let ix = span_index(self.open_spans@, id);
                    assert(self.open_spans@[ix].id == id);
                    assert(ix == i as int);
                }
                if self.on_stack(id) {
                    return Err(UsageError::StillEntered);
                }
                if !self.open_spans[i].entered {
                    return Err(UsageError::NeverEntered);
                }
                self.clock = if self.clock < u64::MAX {
                    self.clock + 1
                } else {
                    self.clock
                };
                let mut sp = self.open_spans.remove(i);
                sp.end = Some(self.clock);
                sp.status = status;
                self.buffer.enqueue(sp);
                proof {
                    let ghost pre = old(self).open_spans@;
                    let ghost ix = i as int;
                    assert forall|j: int|
                        0 <= j < self.open_spans@.len() implies (#[trigger] self.open_spans@[j])
                        == (if j < ix {
                            pre[j]
                        } else {
                            pre[j + 1]
                        }) by {}
                    assert forall|i2: int, j2: int|
                        #![trigger self.open_spans@[i2], self.open_spans@[j2]]
                        0 <= i2 < j2 < self.open_spans@.len() implies self.open_spans@[i2].id
                        != self.open_spans@[j2].id by {
                        let a = if i2 < ix { i2 } else { i2 + 1 };
                        let b = if j2 < ix { j2 } else { j2 + 1 };
                        assert(self.open_spans@[i2] == pre[a]);
                        assert(self.open_spans@[j2] == pre[b]);
                    }
                    assert forall|j: int| 0 <= j < self.buffer.spans@.len() implies {
                        let bsp = #[trigger] self.buffer.spans@[j];
                        bsp.id < self.next_id && (bsp.end matches Some(e) && bsp.start <= e)
                    } by {
                        if j < old(self).buffer.spans@.len() {
                            assert(self.buffer.spans@[j] == old(self).buffer.spans@[j]);
                        }
                    }
                    assert forall|k: int|
                        0 <= k < self.stack@.len() implies stack_entry_ok(
                        self.open_spans@,
                        self.stack@[k],
                    ) by {
                        assert(stack_entry_ok(pre, old(self).stack@[k]));
                        let w = choose|w: int|
                            0 <= w < pre.len() && (#[trigger] pre[w]).id == old(self).stack@[k]
                                && pre[w].entered;
                        assert(old(self).stack@.contains(old(self).stack@[k]));
                        assert(pre[w].id != id);
                        assert(w != ix);
                        if w < ix {
                            assert(self.open_spans@[w] == pre[w]);
                        } else {
                            assert(self.open_spans@[w - 1] == pre[w]);
                        }
                    }
                }
                Ok(())
            },
        }
    }

    /// Shut the tracer down: drain the batch buffer synchronously and hand
    /// the batch to the caller for its final flush. Afterwards the buffer
    /// stays empty and every span operation fails closed, so no further
    /// flush of previously buffered spans can happen. Shutting down twice
    /// yields an empty batch.
    pub fn shutdown(&mut self) -> (batch: Vec<SpanData>)
        requires
            old(self).wf(),
        ensures
            final(self).wf(),
            final(self).same_setup(old(self)),
            batch@ == old(self).buffer.spans@,
            final(self).buffer.spans@.len() == 0,
            final(self).buffer.dropped == old(self).buffer.dropped,
            final(self).closed,
            final(self).clock == old(self).clock,
            final(self).next_id == old(self).next_id,
            final(self).open_spans == old(self).open_spans,
            final(self).stack == old(self).stack,
            old(self).closed ==> batch@.len() == 0,
    {
        self.closed = true;
        let batch = self.buffer.drain();
        proof {
            assert forall|k: int|
                0 <= k < self.stack@.len() implies stack_entry_ok(
                self.open_spans@,
                self.stack@[k],
            ) by {
                assert(stack_entry_ok(old(self).open_spans@, old(self).stack@[k]));
            }
        }
        batch
    }
}

} // verus!
