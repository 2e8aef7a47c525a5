//! The span record: one completed unit of traced work.
//!
//! The exporter never interprets a record beyond encoding it, so the record
//! holds its content as plain values: identifiers and timestamps as integers,
//! the name and every attribute key and value as byte strings.

use vstd::prelude::*;

verus! {

/// Mathematical model of one attribute: a key and a value.
pub struct AttrModel {
    pub key: Seq<u8>,
    pub value: Seq<u8>,
}

/// Mathematical model of one span record.
pub struct SpanModel {
    pub trace_id_hi: u64,
    pub trace_id_lo: u64,
    pub span_id: u64,
    pub parent_span_id: u64,
    pub start_ns: u64,
    pub end_ns: u64,
    pub name: Seq<u8>,
    pub attrs: Seq<AttrModel>,
}

/// One key/value attribute of a span.
#[derive(Debug, Clone, PartialEq, Eq)]
pub struct Attribute {
    pub key: Vec<u8>,
    pub value: Vec<u8>,
}

/// One completed span: identifiers, parent linkage, timing, a name, and its
/// attributes. The two halves of the trace identifier are carried separately
/// so that every field is a plain integer.
#[derive(Debug, Clone, PartialEq, Eq)]
pub struct SpanRecord {
    pub trace_id_hi: u64,
    pub trace_id_lo: u64,
    pub span_id: u64,
    pub parent_span_id: u64,
    pub start_ns: u64,
    pub end_ns: u64,
    pub name: Vec<u8>,
    pub attributes: Vec<Attribute>,
}

impl View for Attribute {
    type V = AttrModel;

    open spec fn view(&self) -> AttrModel {
        AttrModel { key: self.key@, value: self.value@ }
    }
}

/// The models of a sequence of attributes, in order.
pub open spec fn attrs_view(v: Seq<Attribute>) -> Seq<AttrModel> {
    v.map_values(|a: Attribute| a@)
}

impl View for SpanRecord {
    type V = SpanModel;

    open spec fn view(&self) -> SpanModel {
        SpanModel {
            trace_id_hi: self.trace_id_hi,
            trace_id_lo: self.trace_id_lo,
            span_id: self.span_id,
            parent_span_id: self.parent_span_id,
            start_ns: self.start_ns,
            end_ns: self.end_ns,
            name: self.name@,
            attrs: attrs_view(self.attributes@),
        }
    }
}

/// The models of a batch of records, in order.
pub open spec fn batch_view(b: Seq<SpanRecord>) -> Seq<SpanModel> {
    b.map_values(|r: SpanRecord| r@)
}

/// Each length field of the wire format is two bytes wide.
pub const MAX_FIELD_LEN: usize = 0xFFFF;

impl AttrModel {
    /// An attribute fits the wire format when its key and value each fit a
    /// two-byte length field.
    pub open spec fn encodable(self) -> bool {
        &&& self.key.len() <= MAX_FIELD_LEN
        &&& self.value.len() <= MAX_FIELD_LEN
    }
}

impl SpanModel {
    /// A record fits the wire format when its name, its attribute count and
    /// every attribute fit the two-byte length fields.
    pub open spec fn encodable(self) -> bool {
        &&& self.name.len() <= MAX_FIELD_LEN
        &&& self.attrs.len() <= MAX_FIELD_LEN
        &&& forall|i: int| 0 <= i < self.attrs.len() ==> #[trigger] self.attrs[i].encodable()
    }
}

} // verus!
