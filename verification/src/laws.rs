//! Properties of the library that relate several operations, stated once
//! and proved from what the operations' own contracts and the tracer's
//! well-formedness already pin down.
use vstd::prelude::*;


use crate::span::AttrValue;
use crate::span::attrs_map;
use crate::tracer::Tracer;

verus! {

/// No exported span's end time precedes its start time: every span a
/// well-formed tracer has buffered carries an end time, and it is no
/// earlier than the span's start time.
pub proof fn lemma_buffered_spans_well_timed(t: &Tracer)
    requires
        t.wf(),
    ensures
        forall|i: int| 0 <= i < t.buffer.spans@.len() ==> {
            let sp = #[trigger] t.buffer.spans@[i];
            sp.end matches Some(e) && sp.start <= e
        },
{
}

/// Attribute recording is idempotent-safe: writing a key twice leaves the
/// same attribute mapping as writing only the later value — the last write
/// wins.
pub proof fn lemma_attr_last_write_wins(
    s: Seq<(String, AttrValue)>,
    k1: String,
    k2: String,
    v1: AttrValue,
    v2: AttrValue,
)
    requires
        k1@ == k2@,
    ensures
        attrs_map(s.push((k1, v1)).push((k2, v2))) =~= attrs_map(s.push((k2, v2))),
        attrs_map(s.push((k1, v1)).push((k2, v2))) =~= attrs_map(s).insert(k2@, v2@),
{
    crate::span::lemma_attrs_map_push(s, k1, v1);
    crate::span::lemma_attrs_map_push(s, k2, v2);
    crate::span::lemma_attrs_map_push(s.push((k1, v1)), k2, v2);
}

/// A root span is one created while the active-span context is empty; a
/// span created under an entered parent carries exactly that parent. This
/// restates what [`Tracer::start_span`] ensures, as one statement over the
/// context: the parent reference a new span would get is the innermost
/// entered span, or nothing when there is none.
pub open spec fn parent_for_context(stack: Seq<u64>) -> Option<u64> {
    if stack.len() == 0 {
        Option::None
    } else {
        Option::Some(stack.last())
    }
}

/// The parent chosen for a new span is on the active-span context — so it
/// is an entered, still-open span of a well-formed tracer — unless the
/// span is a root.
pub proof fn lemma_parent_is_entered(t: &Tracer)
    requires
        t.wf(),
    ensures
        parent_for_context(t.stack@) matches Some(p) ==> crate::tracer::stack_entry_ok(
            t.open_spans@,
            p,
        ),
{
    if t.stack@.len() > 0 {
        assert(t.stack@[t.stack@.len() - 1] == t.stack@.last());
    }
}

} // verus!
