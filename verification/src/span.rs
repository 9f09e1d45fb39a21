//! Span data: a timed, named unit of work with scalar attributes and an
//! optional parent reference, forming one node of a trace tree.
use vstd::prelude::*;

verus! {

/// A scalar attribute value attached to a span: free-form text or a count.
#[derive(Debug, Clone, PartialEq, Eq)]
pub enum AttrValue {
    Text(String),
    Count(u64),
}

/// The mathematical image of an [`AttrValue`]: text becomes its character
/// sequence, counts stay as they are.
pub enum AttrImage {
    Text(Seq<char>),
    Count(u64),
}

impl View for AttrValue {
    type V = AttrImage;

    open spec fn view(&self) -> AttrImage {
        match self {
            AttrValue::Text(s) => AttrImage::Text(s@),
            AttrValue::Count(n) => AttrImage::Count(*n),
        }
    }
}

/// The status a span carries when it ends.
#[derive(Debug, Clone, Copy, PartialEq, Eq)]
pub enum SpanStatus {
    Unset,
    Okay,
    Failed,
}

/// One span. While the span is open its `end` is `None`; ending it stamps the
/// end time and status. Attributes are kept as an append-only journal of
/// key/value pairs whose meaning is the induced mapping ([`attrs_map`]):
/// the last entry for a key is its value.
#[derive(Debug, Clone)]
pub struct SpanData {
    pub id: u64,
    pub name: String,
    /// Identifier of the direct ancestor; `None` for a root span.
    pub parent: Option<u64>,
    pub start: u64,
    pub end: Option<u64>,
    pub status: SpanStatus,
    /// Whether the span has ever been entered on the active-span context.
    pub entered: bool,
    pub attrs: Vec<(String, AttrValue)>,
}

/// The mapping induced by an attribute journal: later entries overwrite
/// earlier ones with the same key.
pub open spec fn attrs_map(s: Seq<(String, AttrValue)>) -> Map<Seq<char>, AttrImage>
    decreases s.len(),
{
    if s.len() == 0 {
        Map::empty()
    } else {
        attrs_map(s.drop_last()).insert(s.last().0@, s.last().1@)
    }
}

/// Appending one entry to a journal updates its induced mapping at exactly
/// that key.
pub proof fn lemma_attrs_map_push(s: Seq<(String, AttrValue)>, k: String, v: AttrValue)
    ensures
        attrs_map(s.push((k, v))) == attrs_map(s).insert(k@, v@),
{
    assert(s.push((k, v)).drop_last() =~= s);
}

impl SpanData {
    /// The induced attribute mapping of this span.
    pub open spec fn attrs_view(&self) -> Map<Seq<char>, AttrImage> {
        attrs_map(self.attrs@)
    }
}

} // verus!
