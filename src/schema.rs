//! Declarations that describe a record: fields, their attributes, variants.

use vstd::prelude::*;
use crate::meta::{Annotated, Entry, Value};

verus! {

/// Size class that a capping pass applies to a field.
#[derive(Clone, Copy, PartialEq, Eq, Structural, Debug)]
pub enum CapSize {
    EnumLike,
    Summary,
    Message,
    Symbol,
    Path,
    ShortPath,
}

/// Sensitivity class that a scrubbing pass applies to a field.
#[derive(Clone, Copy, PartialEq, Eq, Structural, Debug)]
pub enum PiiKind {
    Freeform,
    Ip,
    Id,
    Username,
    Hostname,
    Sensitive,
    Name,
    Email,
    Location,
    Databag,
}

/// Static, declarative metadata of one field.
pub struct FieldAttrs {
    pub name: String,
    pub required: bool,
    pub cap_size: Option<CapSize>,
    pub pii_kind: Option<PiiKind>,
}

/// The type a field binds its value into.
#[derive(Clone, Copy, PartialEq, Eq, Structural, Debug)]
pub enum LeafKind {
    /// Any value, kept as it is.
    Any,
    Bool,
    Int,
    Str,
}

/// One declared field: its attributes, its legacy aliases in order, its type.
pub struct FieldDecl {
    pub attrs: FieldAttrs,
    pub aliases: Vec<String>,
    pub kind: LeafKind,
}

/// A record type: its declared fields, whether remaining keys are collected,
/// and whether the processor's record hook runs after a walk.
pub struct RecordSchema {
    pub fields: Vec<FieldDecl>,
    pub additional_properties: bool,
    pub post_hook: bool,
}

/// One variant of a tagged type: the tag that selects it and its payload.
pub struct VariantDecl {
    pub tag: String,
    pub payload: RecordSchema,
}

/// A tagged type: the discriminator key, the variants, and whether
/// unrecognised objects are kept verbatim.
pub struct TaggedSchema {
    pub tag_key: String,
    pub variants: Vec<VariantDecl>,
    pub fallback: bool,
    pub post_hook: bool,
}

/// A bound leaf value.
#[derive(Debug, PartialEq)]
pub enum Typed {
    Bool(bool),
    Int(i64),
    Str(String),
    Any(Value),
}

/// A bound record: one annotated value per declared field, in declaration
/// order, and the collected remaining keys in the order of the input.
#[derive(Debug, PartialEq)]
pub struct Record {
    pub fields: Vec<Annotated<Typed>>,
    pub other: Vec<Entry>,
}

/// A bound tagged value: a known variant by index, or the verbatim object.
#[derive(Debug, PartialEq)]
pub enum Tagged {
    Variant(usize, Record),
    Fallback(Vec<Entry>),
}

/// A newtype over a single inner value.
#[derive(Debug, PartialEq)]
pub struct Wrapped<T>(pub T);

/// The keys under which a field is looked up: its name, then its aliases.
pub open spec fn lookup_keys(d: FieldDecl) -> Seq<Seq<char>> {
    seq![d.attrs.name@] + d.aliases@.map_values(|s: String| s@)
}

/// The size class of each name.
pub open spec fn cap_size_of(name: Seq<char>) -> Option<CapSize> {
    if name == "enumlike"@ { Some(CapSize::EnumLike) }
    else if name == "summary"@ { Some(CapSize::Summary) }
    else if name == "message"@ { Some(CapSize::Message) }
    else if name == "symbol"@ { Some(CapSize::Symbol) }
    else if name == "path"@ { Some(CapSize::Path) }
    else if name == "short_path"@ { Some(CapSize::ShortPath) }
    else { None }
}

/// The sensitivity class of each name.
pub open spec fn pii_kind_of(name: Seq<char>) -> Option<PiiKind> {
    if name == "freeform"@ { Some(PiiKind::Freeform) }
    else if name == "ip"@ { Some(PiiKind::Ip) }
    else if name == "id"@ { Some(PiiKind::Id) }
    else if name == "username"@ { Some(PiiKind::Username) }
    else if name == "hostname"@ { Some(PiiKind::Hostname) }
    else if name == "sensitive"@ { Some(PiiKind::Sensitive) }
    else if name == "name"@ { Some(PiiKind::Name) }
    else if name == "email"@ { Some(PiiKind::Email) }
    else if name == "location"@ { Some(PiiKind::Location) }
    else if name == "databag"@ { Some(PiiKind::Databag) }
    else { None }
}

/// Compares two strings by their characters.
pub fn str_eq(a: &str, b: &str) -> (r: bool)
    ensures
        r == (a@ == b@),
{
    a.to_owned() == b.to_owned()
}

/// Reads a size class from its declared name; `None` for an unknown name.
pub fn parse_cap_size(name: &str) -> (r: Option<CapSize>)
    ensures
        r == cap_size_of(name@),
{
    if str_eq(name, "enumlike") { Some(CapSize::EnumLike) }
    else if str_eq(name, "summary") { Some(CapSize::Summary) }
    else if str_eq(name, "message") { Some(CapSize::Message) }
    else if str_eq(name, "symbol") { Some(CapSize::Symbol) }
    else if str_eq(name, "path") { Some(CapSize::Path) }
    else if str_eq(name, "short_path") { Some(CapSize::ShortPath) }
    else { None }
}

/// Reads a sensitivity class from its declared name; `None` for an unknown name.
pub fn parse_pii_kind(kind: &str) -> (r: Option<PiiKind>)
    ensures
        r == pii_kind_of(kind@),
{
    if str_eq(kind, "freeform") { Some(PiiKind::Freeform) }
    else if str_eq(kind, "ip") { Some(PiiKind::Ip) }
    else if str_eq(kind, "id") { Some(PiiKind::Id) }
    else if str_eq(kind, "username") { Some(PiiKind::Username) }
    else if str_eq(kind, "hostname") { Some(PiiKind::Hostname) }
    else if str_eq(kind, "sensitive") { Some(PiiKind::Sensitive) }
    else if str_eq(kind, "name") { Some(PiiKind::Name) }
    else if str_eq(kind, "email") { Some(PiiKind::Email) }
    else if str_eq(kind, "location") { Some(PiiKind::Location) }
    else if str_eq(kind, "databag") { Some(PiiKind::Databag) }
    else { None }
}

} // verus!
