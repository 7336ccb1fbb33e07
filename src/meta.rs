//! The value tree, the per-node metadata record and the annotated container.

use vstd::prelude::*;

verus! {

/// One key of an object together with its annotated value.
pub type Entry = (String, Annotated<Value>);

/// A node of the dynamic value tree.
#[derive(Debug, PartialEq)]
pub enum Value {
    Null,
    Bool(bool),
    I64(i64),
    U64(u64),
    /// A double, held as its IEEE-754 bit pattern.
    F64Bits(u64),
    String(String),
    Array(Vec<Annotated<Value>>),
    /// Key/value pairs in insertion order.
    Object(Vec<Entry>),
}

/// The kind of a data-quality error.
#[derive(Debug, PartialEq)]
pub enum ErrorKind {
    MissingField,
    UnexpectedType,
    UnexpectedValue,
    InvalidEnumVariant,
    Custom(String),
}

/// A recorded error, with the offending raw value where there was one.
#[derive(Debug, PartialEq)]
pub struct ErrorEntry {
    pub kind: ErrorKind,
    pub value: Option<Value>,
}

/// What a rule did to a value.
#[derive(Debug, PartialEq)]
pub enum RemarkKind {
    Removed,
    Replaced,
    Pseudonymized,
    Masked,
}

/// A redaction or rewrite note.
#[derive(Debug, PartialEq)]
pub struct Remark {
    pub rule_id: String,
    pub kind: RemarkKind,
    pub range: Option<(usize, usize)>,
}

/// Errors, remarks and the pre-transformation value of one node.
#[derive(Debug, PartialEq)]
pub struct Meta {
    pub errors: Vec<ErrorEntry>,
    pub remarks: Vec<Remark>,
    pub original_value: Option<Value>,
}

/// An optional value paired with its metadata.
#[derive(Debug, PartialEq)]
pub struct Annotated<T> {
    pub value: Option<T>,
    pub meta: Meta,
}

/// A meta record that holds nothing.
pub open spec fn meta_is_empty(m: Meta) -> bool {
    &&& m.errors@.len() == 0
    &&& m.remarks@.len() == 0
    &&& m.original_value is None
}

/// A node that is absent and carries no metadata: projection leaves it out.
pub open spec fn skips<T>(a: Annotated<T>) -> bool {
    a.value is None && meta_is_empty(a.meta)
}

/// The error entry recorded for a field of the given kind.
pub open spec fn error_of(kind: ErrorKind, value: Option<Value>) -> ErrorEntry {
    ErrorEntry { kind, value }
}

impl Meta {
    /// An empty meta record.
    pub fn new() -> (r: Meta)
        ensures
            meta_is_empty(r),
    {
        Meta { errors: Vec::new(), remarks: Vec::new(), original_value: None }
    }

    /// Whether nothing is recorded.
    pub fn is_empty(&self) -> (r: bool)
        ensures
            r == meta_is_empty(*self),
    {
        self.errors.len() == 0 && self.remarks.len() == 0 && self.original_value.is_none()
    }

    /// Appends an error.
    pub fn add_error(&mut self, kind: ErrorKind, value: Option<Value>)
        ensures
            final(self).errors@ == old(self).errors@.push(error_of(kind, value)),
            final(self).remarks == old(self).remarks,
            final(self).original_value == old(self).original_value,
    {
        self.errors.push(ErrorEntry { kind, value });
    }

    /// Appends a remark.
    pub fn add_remark(&mut self, remark: Remark)
        ensures
            final(self).remarks@ == old(self).remarks@.push(remark),
            final(self).errors == old(self).errors,
            final(self).original_value == old(self).original_value,
    {
        self.remarks.push(remark);
    }

    /// Whether an error is recorded.
    pub fn has_errors(&self) -> (r: bool)
        ensures
            r == (self.errors@.len() > 0),
    {
        self.errors.len() > 0
    }
}

impl<T> Annotated<T> {
    /// A present value with empty metadata.
    pub fn new(value: T) -> (r: Annotated<T>)
        ensures
            r.value == Some(value),
            meta_is_empty(r.meta),
    {
        Annotated { value: Some(value), meta: Meta::new() }
    }

    /// An absent value with empty metadata.
    pub fn empty() -> (r: Annotated<T>)
        ensures
            skips(r),
    {
        Annotated { value: None, meta: Meta::new() }
    }

    /// Whether projection omits this node: no value and no metadata.
    pub fn skip_serialization(&self) -> (r: bool)
        ensures
            r == skips(*self),
    {
        self.value.is_none() && self.meta.is_empty()
    }
}

} // verus!
