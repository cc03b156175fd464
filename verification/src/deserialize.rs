//! Decoding of an evaluated term, one step at a time.

use vstd::prelude::*;
use crate::accessor::{ArrayDeserializer, MapState, RecordDeserializer, SeqState};
use crate::error::{view_result, ErrorView, RustDeserializationError};
use crate::number::{
    narrow,
    narrow_to_single,
    round_to_i128,
    round_to_i16,
    round_to_i32,
    round_to_i64,
    round_to_i8,
    round_to_range,
    round_to_u128,
    round_to_u16,
    round_to_u32,
    round_to_u64,
    round_to_u8,
};
use crate::term::{lemma_array_view, option_view, spec_type_of, Term, TermView};

verus! {

/// The term inside the metadata around it: the first term, going inwards, that
/// is not metadata. Metadata around nothing has no such term.
pub open spec fn spec_unwrap(t: TermView) -> Result<TermView, ErrorView>
    decreases t,
{
    match t {
        TermView::MetaValue(Some(inner)) => spec_unwrap(*inner),
        TermView::MetaValue(None) => Err(ErrorView::EmptyMetaValue),
        other => Ok(other),
    }
}

/// What is found inside metadata is not metadata.
pub proof fn lemma_unwrapped_is_plain(t: TermView)
    ensures
        spec_unwrap(t) matches Ok(inner) ==> !(inner is MetaValue),
    decreases t,
{
    match t {
        TermView::MetaValue(Some(inner)) => {
            lemma_unwrapped_is_plain(*inner);
        },
        _ => {},
    }
}

/// Strips the metadata from around a term.
pub fn unwrap_term(rich_term: Term) -> (r: Result<Term, RustDeserializationError>)
    ensures
        view_result(r) == spec_unwrap(rich_term@),
{
    let mut current = rich_term;
    loop
        invariant
            spec_unwrap(current@) == spec_unwrap(rich_term@),
        decreases current,
    {
        match current {
            Term::MetaValue(Some(inner)) => {
                current = *inner;
            },
            Term::MetaValue(None) => {
                return Err(RustDeserializationError::EmptyMetaValue);
            },
            other => {
                return Ok(other);
            },
        }
    }
}

/// The name under which an error reports the kind of a term.
pub open spec fn spec_occurred(t: TermView) -> Seq<char> {
    match spec_type_of(t) {
        Some(name) => name,
        None => "Other"@,
    }
}

/// The error for a term of another kind than the one asked for.
pub open spec fn spec_invalid_type(expected: Seq<char>, found: TermView) -> ErrorView {
    ErrorView::InvalidType { expected, occurred: spec_occurred(found) }
}

/// The error for a term of another kind than the one asked for.
fn invalid_type(expected: &str, found: &Term) -> (e: RustDeserializationError)
    ensures
        e@ == spec_invalid_type(expected@, found@),
{
    let occurred = match found.type_of() {
        Some(name) => name,
        None => "Other".to_owned(),
    };
    RustDeserializationError::InvalidType { expected: expected.to_owned(), occurred }
}

/// A tag and, where the variant carries something, the term that it carries.
pub struct EnumState {
    pub variant: Seq<char>,
    pub payload: Option<TermView>,
}

/// A term read as a variant of an enumeration: the tag, and what it carries.
#[derive(Debug)]
pub struct EnumDeserializer {
    variant: String,
    rich_term: Option<Term>,
}

impl View for EnumDeserializer {
    type V = EnumState;

    closed spec fn view(&self) -> EnumState {
        EnumState { variant: self.variant@, payload: option_view(self.rich_term) }
    }
}

/// What a variant carries, if anything, to be read as the variant's kind asks.
#[derive(Debug)]
pub struct VariantDeserializer {
    rich_term: Option<Term>,
}

impl View for VariantDeserializer {
    type V = Option<TermView>;

    closed spec fn view(&self) -> Option<TermView> {
        option_view(self.rich_term)
    }
}

/// What the consumer is handed when a term was decoded for it.
#[derive(Debug)]
pub enum Visit {
    /// Nothing.
    Unit,
    Bool(bool),
    I8(i8),
    I16(i16),
    I32(i32),
    I64(i64),
    I128(i128),
    U8(u8),
    U16(u16),
    U32(u32),
    U64(u64),
    U128(u128),
    /// A single-precision number, as its bit pattern.
    F32(u32),
    /// A double-precision number, as its bit pattern.
    F64(u64),
    Text(String),
    /// An optional value that is not there.
    Absent,
    /// An optional value that is there: the term to decode for it.
    Present(Term),
    /// The term to decode for the value inside a wrapper.
    Newtype(Term),
    /// The elements of an array, to be pulled.
    Array(ArrayDeserializer),
    /// The fields of a record, to be pulled.
    Record(RecordDeserializer),
    /// A variant of an enumeration.
    Variant(EnumDeserializer),
}

/// What a [`Visit`] stands for.
pub enum VisitView {
    Unit,
    Bool(bool),
    I8(i8),
    I16(i16),
    I32(i32),
    I64(i64),
    I128(i128),
    U8(u8),
    U16(u16),
    U32(u32),
    U64(u64),
    U128(u128),
    F32(u32),
    F64(u64),
    Text(Seq<char>),
    Absent,
    Present(TermView),
    Newtype(TermView),
    Array(SeqState),
    Record(MapState),
    Variant(EnumState),
}

impl View for Visit {
    type V = VisitView;

    open spec fn view(&self) -> VisitView {
        match self {
            Visit::Unit => VisitView::Unit,
            Visit::Bool(v) => VisitView::Bool(*v),
            Visit::I8(v) => VisitView::I8(*v),
            Visit::I16(v) => VisitView::I16(*v),
            Visit::I32(v) => VisitView::I32(*v),
            Visit::I64(v) => VisitView::I64(*v),
            Visit::I128(v) => VisitView::I128(*v),
            Visit::U8(v) => VisitView::U8(*v),
            Visit::U16(v) => VisitView::U16(*v),
            Visit::U32(v) => VisitView::U32(*v),
            Visit::U64(v) => VisitView::U64(*v),
            Visit::U128(v) => VisitView::U128(*v),
            Visit::F32(v) => VisitView::F32(*v),
            Visit::F64(v) => VisitView::F64(*v),
            Visit::Text(v) => VisitView::Text(v@),
            Visit::Absent => VisitView::Absent,
            Visit::Present(t) => VisitView::Present(t@),
            Visit::Newtype(t) => VisitView::Newtype(t@),
            Visit::Array(a) => VisitView::Array(a@),
            Visit::Record(r) => VisitView::Record(r@),
            Visit::Variant(e) => VisitView::Variant(e@),
        }
    }
}

/// How a term is read where the consumer asks for whatever is there. Metadata
/// is not looked into here: it reads as nothing.
pub open spec fn spec_deserialize_any(t: TermView) -> Result<VisitView, ErrorView> {
    match t {
        TermView::Null => Ok(VisitView::Unit),
        TermView::Bool(v) => Ok(VisitView::Bool(v)),
        TermView::Num(v) => Ok(VisitView::F64(v)),
        TermView::Str(v) => Ok(VisitView::Text(v)),
        TermView::Enum(label) => Ok(VisitView::Variant(EnumState { variant: label, payload: None })),
        TermView::Record(entries) => Ok(VisitView::Record(MapState::start(entries))),
        TermView::Array(items) => Ok(VisitView::Array(SeqState::start(items))),
        TermView::MetaValue(_) => Ok(VisitView::Unit),
        TermView::Other(_) => Err(ErrorView::UnimplementedType { occurred: spec_occurred(t) }),
    }
}

/// How a term is read as a number: the bit pattern of the number inside the
/// metadata.
pub open spec fn spec_deserialize_number(t: TermView) -> Result<u64, ErrorView> {
    match spec_unwrap(t) {
        Err(e) => Err(e),
        Ok(TermView::Num(n)) => Ok(n),
        Ok(other) => Err(spec_invalid_type("Num"@, other)),
    }
}

/// How a term is read as a single-precision number: the number inside the
/// metadata, narrowed.
pub open spec fn spec_deserialize_single(t: TermView) -> Result<u32, ErrorView> {
    match spec_deserialize_number(t) {
        Err(e) => Err(e),
        Ok(n) => Ok(narrow(n)),
    }
}

/// How a term is read as an integer of a range: the number inside the
/// metadata, rounded into the range.
pub open spec fn spec_deserialize_integer(t: TermView, lo: int, hi: int) -> Result<
    int,
    ErrorView,
> {
    match spec_deserialize_number(t) {
        Err(e) => Err(e),
        Ok(n) => Ok(round_to_range(n, lo, hi)),
    }
}

/// How a term is read as an optional value: null is the value that is not
/// there, and any other term inside the metadata is to be decoded for the
/// value that is.
pub open spec fn spec_deserialize_option(t: TermView) -> Result<Option<TermView>, ErrorView> {
    match spec_unwrap(t) {
        Err(e) => Err(e),
        Ok(TermView::Null) => Ok(None),
        Ok(some) => Ok(Some(some)),
    }
}

/// How a term is read as a boolean.
pub open spec fn spec_deserialize_bool(t: TermView) -> Result<bool, ErrorView> {
    match spec_unwrap(t) {
        Err(e) => Err(e),
        Ok(TermView::Bool(v)) => Ok(v),
        Ok(other) => Err(spec_invalid_type("Bool"@, other)),
    }
}

/// How a term is read as a text.
pub open spec fn spec_deserialize_string(t: TermView) -> Result<Seq<char>, ErrorView> {
    match spec_unwrap(t) {
        Err(e) => Err(e),
        Ok(TermView::Str(v)) => Ok(v),
        Ok(other) => Err(spec_invalid_type("Str"@, other)),
    }
}

/// How a term is read as a sequence of bytes: a text stands for its bytes, an
/// array for its elements.
pub open spec fn spec_deserialize_byte_buf(t: TermView) -> Result<VisitView, ErrorView> {
    match spec_unwrap(t) {
        Err(e) => Err(e),
        Ok(TermView::Str(v)) => Ok(VisitView::Text(v)),
        Ok(TermView::Array(items)) => Ok(VisitView::Array(SeqState::start(items))),
        Ok(other) => Err(spec_invalid_type("Str or Array"@, other)),
    }
}

/// How a term is read as nothing: it has to be null.
pub open spec fn spec_deserialize_unit(t: TermView) -> Result<(), ErrorView> {
    match spec_unwrap(t) {
        Err(e) => Err(e),
        Ok(TermView::Null) => Ok(()),
        Ok(other) => Err(spec_invalid_type("Null"@, other)),
    }
}

/// How a term is read as a sequence.
pub open spec fn spec_deserialize_seq(t: TermView) -> Result<SeqState, ErrorView> {
    match spec_unwrap(t) {
        Err(e) => Err(e),
        Ok(TermView::Array(items)) => Ok(SeqState::start(items)),
        Ok(other) => Err(spec_invalid_type("Array"@, other)),
    }
}

/// How a term is read as a mapping.
pub open spec fn spec_deserialize_map(t: TermView) -> Result<MapState, ErrorView> {
    match spec_unwrap(t) {
        Err(e) => Err(e),
        Ok(TermView::Record(entries)) => Ok(MapState::start(entries)),
        Ok(other) => Err(spec_invalid_type("Record"@, other)),
    }
}

/// How a term is read as a structure: an array gives the fields by their
/// place, a record gives them by their name.
pub open spec fn spec_deserialize_struct(t: TermView) -> Result<VisitView, ErrorView> {
    match spec_unwrap(t) {
        Err(e) => Err(e),
        Ok(TermView::Array(items)) => Ok(VisitView::Array(SeqState::start(items))),
        Ok(TermView::Record(entries)) => Ok(VisitView::Record(MapState::start(entries))),
        Ok(other) => Err(spec_invalid_type("Record"@, other)),
    }
}

/// How a record or an enum tag is read as a variant: a tag stands for itself
/// and carries nothing; a record of one field stands for the variant named by
/// the field's label, which carries the field's value.
pub open spec fn spec_deserialize_enum(t: TermView) -> Result<EnumState, ErrorView> {
    match spec_unwrap(t) {
        Err(e) => Err(e),
        Ok(TermView::Enum(label)) => Ok(EnumState { variant: label, payload: None }),
        Ok(TermView::Record(entries)) => if entries.len() == 0 {
            Err(
                ErrorView::InvalidType {
                    expected: "single-key record"@,
                    occurred: "record without keys"@,
                },
            )
        } else if entries.len() > 1 {
            Err(
                ErrorView::InvalidType {
                    expected: "single-key record"@,
                    occurred: "record with multiple keys"@,
                },
            )
        } else {
            Ok(EnumState { variant: entries[0].0, payload: Some(entries[0].1) })
        },
        Ok(other) => Err(spec_invalid_type("enum tag or record"@, other)),
    }
}

impl Term {
    /// Reads an enum tag, or a record of one field, as a variant of an
    /// enumeration.
    pub fn deserialize_enum(self) -> (r: Result<EnumDeserializer, RustDeserializationError>)
        ensures
            view_result(r) == spec_deserialize_enum(self@),
    {
        match unwrap_term(self)? {
            Term::Enum(ident) => Ok(EnumDeserializer { variant: ident.label, rich_term: None }),
            Term::Record(v) => {
                let mut entries = v.into_entries();
                if entries.len() == 0 {
                    return Err(
                        RustDeserializationError::InvalidType {
                            expected: "single-key record".to_owned(),
                            occurred: "record without keys".to_owned(),
                        },
                    );
                }
                if entries.len() > 1 {
                    return Err(
                        RustDeserializationError::InvalidType {
                            expected: "single-key record".to_owned(),
                            occurred: "record with multiple keys".to_owned(),
                        },
                    );
                }
                let (variant, value) = entries.pop().unwrap();
                Ok(EnumDeserializer { variant: variant.label, rich_term: Some(value) })
            },
            other => Err(invalid_type("enum tag or record", &other)),
        }
    }

    /// Reads whatever the term holds.
    pub fn deserialize_any(self) -> (r: Result<Visit, RustDeserializationError>)
        ensures
            view_result(r) == spec_deserialize_any(self@),
    {
        match self {
            Term::Null => Ok(Visit::Unit),
            Term::Bool(v) => Ok(Visit::Bool(v)),
            Term::Num(v) => Ok(Visit::F64(v)),
            Term::Str(v) => Ok(Visit::Text(v)),
            Term::Enum(v) => Ok(Visit::Variant(EnumDeserializer { variant: v.label, rich_term: None })),
            Term::Record(v) => Ok(Visit::Record(RecordDeserializer::new(v))),
            Term::Array(v) => {
                proof {
                    lemma_array_view(v);
                }
                Ok(Visit::Array(ArrayDeserializer::new(v)))
            },
            Term::MetaValue(_) => Ok(Visit::Unit),
            other => {
                let occurred = match other.type_of() {
                    Some(name) => name,
                    None => "Other".to_owned(),
                };
                Err(RustDeserializationError::UnimplementedType { occurred })
            },
        }
    }

    /// Reads a number, as its bit pattern.
    fn deserialize_number(self) -> (r: Result<u64, RustDeserializationError>)
        ensures
            view_result(r) == spec_deserialize_number(self@),
    {
        match unwrap_term(self)? {
            Term::Num(n) => Ok(n),
            other => Err(invalid_type("Num", &other)),
        }
    }

    /// Reads a number as an `i8`: rounded to the nearest integer, halves away
    /// from zero, and brought into the range of `i8`.
    pub fn deserialize_i8(self) -> (r: Result<i8, RustDeserializationError>)
        ensures
            match r {
                Ok(v) => spec_deserialize_integer(self@, i8::MIN as int, i8::MAX as int) == Ok::<
                    int,
                    ErrorView,
                >(v as int),
                Err(e) => spec_deserialize_integer(self@, i8::MIN as int, i8::MAX as int)
                    == Err::<int, ErrorView>(e@),
            },
    {
        Ok(round_to_i8(self.deserialize_number()?))
    }

    /// Reads a number as an `i16`: rounded to the nearest integer, halves away
    /// from zero, and brought into the range of `i16`.
    pub fn deserialize_i16(self) -> (r: Result<i16, RustDeserializationError>)
        ensures
            match r {
                Ok(v) => spec_deserialize_integer(self@, i16::MIN as int, i16::MAX as int) == Ok::<
                    int,
                    ErrorView,
                >(v as int),
                Err(e) => spec_deserialize_integer(self@, i16::MIN as int, i16::MAX as int)
                    == Err::<int, ErrorView>(e@),
            },
    {
        Ok(round_to_i16(self.deserialize_number()?))
    }

    /// Reads a number as an `i32`: rounded to the nearest integer, halves away
    /// from zero, and brought into the range of `i32`.
    pub fn deserialize_i32(self) -> (r: Result<i32, RustDeserializationError>)
        ensures
            match r {
                Ok(v) => spec_deserialize_integer(self@, i32::MIN as int, i32::MAX as int) == Ok::<
                    int,
                    ErrorView,
                >(v as int),
                Err(e) => spec_deserialize_integer(self@, i32::MIN as int, i32::MAX as int)
                    == Err::<int, ErrorView>(e@),
            },
    {
        Ok(round_to_i32(self.deserialize_number()?))
    }

    /// Reads a number as an `i64`: rounded to the nearest integer, halves away
    /// from zero, and brought into the range of `i64`.
    pub fn deserialize_i64(self) -> (r: Result<i64, RustDeserializationError>)
        ensures
            match r {
                Ok(v) => spec_deserialize_integer(self@, i64::MIN as int, i64::MAX as int) == Ok::<
                    int,
                    ErrorView,
                >(v as int),
                Err(e) => spec_deserialize_integer(self@, i64::MIN as int, i64::MAX as int)
                    == Err::<int, ErrorView>(e@),
            },
    {
        Ok(round_to_i64(self.deserialize_number()?))
    }

    /// Reads a number as an `i128`: rounded to the nearest integer, halves away
    /// from zero, and brought into the range of `i128`.
    pub fn deserialize_i128(self) -> (r: Result<i128, RustDeserializationError>)
        ensures
            match r {
                Ok(v) => spec_deserialize_integer(self@, i128::MIN as int, i128::MAX as int) == Ok::<
                    int,
                    ErrorView,
                >(v as int),
                Err(e) => spec_deserialize_integer(self@, i128::MIN as int, i128::MAX as int)
                    == Err::<int, ErrorView>(e@),
            },
    {
        Ok(round_to_i128(self.deserialize_number()?))
    }

    /// Reads a number as a `u8`: rounded to the nearest integer, halves away
    /// from zero, and brought into the range of `u8`.
    pub fn deserialize_u8(self) -> (r: Result<u8, RustDeserializationError>)
        ensures
            match r {
                Ok(v) => spec_deserialize_integer(self@, 0, u8::MAX as int) == Ok::<
                    int,
                    ErrorView,
                >(v as int),
                Err(e) => spec_deserialize_integer(self@, 0, u8::MAX as int) == Err::<
                    int,
                    ErrorView,
                >(e@),
            },
    {
        Ok(round_to_u8(self.deserialize_number()?))
    }

    /// Reads a number as a `u16`: rounded to the nearest integer, halves away
    /// from zero, and brought into the range of `u16`.
    pub fn deserialize_u16(self) -> (r: Result<u16, RustDeserializationError>)
        ensures
            match r {
                Ok(v) => spec_deserialize_integer(self@, 0, u16::MAX as int) == Ok::<
                    int,
                    ErrorView,
                >(v as int),
                Err(e) => spec_deserialize_integer(self@, 0, u16::MAX as int) == Err::<
                    int,
                    ErrorView,
                >(e@),
            },
    {
        Ok(round_to_u16(self.deserialize_number()?))
    }

    /// Reads a number as a `u32`: rounded to the nearest integer, halves away
    /// from zero, and brought into the range of `u32`.
    pub fn deserialize_u32(self) -> (r: Result<u32, RustDeserializationError>)
        ensures
            match r {
                Ok(v) => spec_deserialize_integer(self@, 0, u32::MAX as int) == Ok::<
                    int,
                    ErrorView,
                >(v as int),
                Err(e) => spec_deserialize_integer(self@, 0, u32::MAX as int) == Err::<
                    int,
                    ErrorView,
                >(e@),
            },
    {
        Ok(round_to_u32(self.deserialize_number()?))
    }

    /// Reads a number as a `u64`: rounded to the nearest integer, halves away
    /// from zero, and brought into the range of `u64`.
    pub fn deserialize_u64(self) -> (r: Result<u64, RustDeserializationError>)
        ensures
            match r {
                Ok(v) => spec_deserialize_integer(self@, 0, u64::MAX as int) == Ok::<
                    int,
                    ErrorView,
                >(v as int),
                Err(e) => spec_deserialize_integer(self@, 0, u64::MAX as int) == Err::<
                    int,
                    ErrorView,
                >(e@),
            },
    {
        Ok(round_to_u64(self.deserialize_number()?))
    }

    /// Reads a number as a `u128`: rounded to the nearest integer, halves away
    /// from zero, and brought into the range of `u128`.
    pub fn deserialize_u128(self) -> (r: Result<u128, RustDeserializationError>)
        ensures
            match r {
                Ok(v) => spec_deserialize_integer(self@, 0, u128::MAX as int) == Ok::<
                    int,
                    ErrorView,
                >(v as int),
                Err(e) => spec_deserialize_integer(self@, 0, u128::MAX as int) == Err::<
                    int,
                    ErrorView,
                >(e@),
            },
    {
        Ok(round_to_u128(self.deserialize_number()?))
    }

    /// Reads a number in single precision, as its bit pattern: the nearest
    /// single, and of two that are equally near the even one.
    pub fn deserialize_f32(self) -> (r: Result<u32, RustDeserializationError>)
        ensures
            view_result(r) == spec_deserialize_single(self@),
    {
        Ok(narrow_to_single(self.deserialize_number()?))
    }

    /// Reads a number, as its bit pattern.
    pub fn deserialize_f64(self) -> (r: Result<u64, RustDeserializationError>)
        ensures
            view_result(r) == spec_deserialize_number(self@),
    {
        self.deserialize_number()
    }

    /// Reads an optional value.
    pub fn deserialize_option(self) -> (r: Result<Option<Term>, RustDeserializationError>)
        ensures
            match r {
                Ok(v) => spec_deserialize_option(self@) == Ok::<Option<TermView>, ErrorView>(
                    option_view(v),
                ),
                Err(e) => spec_deserialize_option(self@) == Err::<Option<TermView>, ErrorView>(e@),
            },
    {
        match unwrap_term(self)? {
            Term::Null => Ok(None),
            some => Ok(Some(some)),
        }
    }

    /// Reads a boolean.
    pub fn deserialize_bool(self) -> (r: Result<bool, RustDeserializationError>)
        ensures
            view_result(r) == spec_deserialize_bool(self@),
    {
        match unwrap_term(self)? {
            Term::Bool(v) => Ok(v),
            other => Err(invalid_type("Bool", &other)),
        }
    }

    /// Reads a text.
    pub fn deserialize_string(self) -> (r: Result<String, RustDeserializationError>)
        ensures
            view_result(r) == spec_deserialize_string(self@),
    {
        match unwrap_term(self)? {
            Term::Str(v) => Ok(v),
            other => Err(invalid_type("Str", &other)),
        }
    }

    /// Reads a sequence of bytes, from a text or from an array.
    pub fn deserialize_byte_buf(self) -> (r: Result<Visit, RustDeserializationError>)
        ensures
            view_result(r) == spec_deserialize_byte_buf(self@),
    {
        match unwrap_term(self)? {
            Term::Str(v) => Ok(Visit::Text(v)),
            Term::Array(v) => {
                proof {
                    lemma_array_view(v);
                }
                Ok(Visit::Array(ArrayDeserializer::new(v)))
            },
            other => Err(invalid_type("Str or Array", &other)),
        }
    }

    /// Reads null as nothing.
    pub fn deserialize_unit(self) -> (r: Result<(), RustDeserializationError>)
        ensures
            view_result(r) == spec_deserialize_unit(self@),
    {
        match unwrap_term(self)? {
            Term::Null => Ok(()),
            other => Err(invalid_type("Null", &other)),
        }
    }

    /// Reads an array as a sequence.
    pub fn deserialize_seq(self) -> (r: Result<ArrayDeserializer, RustDeserializationError>)
        ensures
            view_result(r) == spec_deserialize_seq(self@),
    {
        match unwrap_term(self)? {
            Term::Array(v) => {
                proof {
                    lemma_array_view(v);
                }
                Ok(ArrayDeserializer::new(v))
            },
            other => Err(invalid_type("Array", &other)),
        }
    }

    /// Reads a record as a mapping.
    pub fn deserialize_map(self) -> (r: Result<RecordDeserializer, RustDeserializationError>)
        ensures
            view_result(r) == spec_deserialize_map(self@),
    {
        match unwrap_term(self)? {
            Term::Record(v) => Ok(RecordDeserializer::new(v)),
            other => Err(invalid_type("Record", &other)),
        }
    }

    /// Reads an array or a record as a structure.
    pub fn deserialize_struct(self) -> (r: Result<Visit, RustDeserializationError>)
        ensures
            view_result(r) == spec_deserialize_struct(self@),
    {
        match unwrap_term(self)? {
            Term::Array(v) => {
                proof {
                    lemma_array_view(v);
                }
                Ok(Visit::Array(ArrayDeserializer::new(v)))
            },
            Term::Record(v) => Ok(Visit::Record(RecordDeserializer::new(v))),
            other => Err(invalid_type("Record", &other)),
        }
    }
}

impl EnumDeserializer {
    /// The tag, and what the variant carries.
    pub fn variant(self) -> (r: (String, VariantDeserializer))
        ensures
            r.0@ == self@.variant,
            r.1@ == self@.payload,
    {
        (self.variant, VariantDeserializer { rich_term: self.rich_term })
    }
}

/// How what a variant carries is read for a variant that carries nothing:
/// where there is a term all the same, it has to be null.
pub open spec fn spec_unit_variant(payload: Option<TermView>) -> Result<(), ErrorView> {
    match payload {
        Some(value) => spec_deserialize_unit(value),
        None => Ok(()),
    }
}

/// How what a variant carries is read for a variant of one value: the term to
/// decode for that value.
pub open spec fn spec_newtype_variant(payload: Option<TermView>) -> Result<TermView, ErrorView> {
    match payload {
        Some(value) => Ok(value),
        None => Err(ErrorView::MissingValue),
    }
}

/// How what a variant carries is read for a variant of values by place: an
/// array; one without elements reads as nothing.
pub open spec fn spec_tuple_variant(payload: Option<TermView>) -> Result<VisitView, ErrorView> {
    match payload {
        None => Err(ErrorView::MissingValue),
        Some(value) => match spec_unwrap(value) {
            Err(e) => Err(e),
            Ok(TermView::Array(items)) => if items.len() == 0 {
                Ok(VisitView::Unit)
            } else {
                Ok(VisitView::Array(SeqState::start(items)))
            },
            Ok(other) => Err(spec_invalid_type("Array variant"@, other)),
        },
    }
}

/// How what a variant carries is read for a variant of values by name: a
/// record.
pub open spec fn spec_struct_variant(payload: Option<TermView>) -> Result<MapState, ErrorView> {
    match payload {
        None => Err(ErrorView::MissingValue),
        Some(value) => match spec_unwrap(value) {
            Err(e) => Err(e),
            Ok(TermView::Record(entries)) => Ok(MapState::start(entries)),
            Ok(other) => Err(spec_invalid_type("Array variant"@, other)),
        },
    }
}

impl VariantDeserializer {
    /// Reads a variant that carries nothing.
    pub fn unit_variant(self) -> (r: Result<(), RustDeserializationError>)
        ensures
            view_result(r) == spec_unit_variant(self@),
    {
        match self.rich_term {
            Some(value) => value.deserialize_unit(),
            None => Ok(()),
        }
    }

    /// Reads a variant of one value: hands out the term to decode for it.
    pub fn newtype_variant(self) -> (r: Result<Term, RustDeserializationError>)
        ensures
            view_result(r) == spec_newtype_variant(self@),
    {
        match self.rich_term {
            Some(value) => Ok(value),
            None => Err(RustDeserializationError::MissingValue),
        }
    }

    /// Reads a variant of values by place.
    pub fn tuple_variant(self) -> (r: Result<Visit, RustDeserializationError>)
        ensures
            view_result(r) == spec_tuple_variant(self@),
    {
        match self.rich_term {
            Some(value) => match unwrap_term(value)? {
                Term::Array(v) => {
                    proof {
                        lemma_array_view(v);
                    }
                    if v.len() == 0 {
                        Ok(Visit::Unit)
                    } else {
                        Ok(Visit::Array(ArrayDeserializer::new(v)))
                    }
                },
                other => Err(invalid_type("Array variant", &other)),
            },
            None => Err(RustDeserializationError::MissingValue),
        }
    }

    /// Reads a variant of values by name.
    pub fn struct_variant(self) -> (r: Result<RecordDeserializer, RustDeserializationError>)
        ensures
            view_result(r) == spec_struct_variant(self@),
    {
        match self.rich_term {
            Some(value) => match unwrap_term(value)? {
                Term::Record(v) => Ok(RecordDeserializer::new(v)),
                other => Err(invalid_type("Array variant", &other)),
            },
            None => Err(RustDeserializationError::MissingValue),
        }
    }
}

/// What a consumer can ask a term to be read as.
#[derive(Debug, Clone, Copy, PartialEq, Eq, Structural)]
pub enum Target {
    /// Whatever is there.
    Any,
    Bool,
    I8,
    I16,
    I32,
    I64,
    I128,
    U8,
    U16,
    U32,
    U64,
    U128,
    F32,
    F64,
    /// One character, from a text.
    Char,
    /// A borrowed text.
    Str,
    /// An owned text.
    Text,
    /// A borrowed sequence of bytes.
    Bytes,
    /// An owned sequence of bytes.
    ByteBuf,
    /// A value that may be missing.
    Optional,
    Unit,
    /// A structure without fields.
    UnitStruct,
    /// A wrapper around one value.
    NewtypeStruct,
    /// A sequence of any length.
    Sequence,
    /// A sequence of a given length.
    Tuple,
    /// A structure of fields by place.
    TupleStruct,
    Mapping,
    /// A structure of fields by name.
    Struct,
    Enum,
    /// The name of a field or of a variant.
    Identifier,
    /// Anything, to be thrown away.
    IgnoredAny,
}

impl Target {
    /// Whether metadata around a term is looked through for this target. It is
    /// not where the consumer asks for whatever is there, where it throws the
    /// term away, and where the term is passed on whole to what a wrapper holds.
    pub open spec fn looks_through_metadata(self) -> bool {
        self != Target::Any && self != Target::IgnoredAny && self != Target::NewtypeStruct
    }
}

/// Lifts an outcome into what the consumer is handed.
pub open spec fn visit_with<T>(r: Result<T, ErrorView>, wrap: spec_fn(T) -> VisitView) -> Result<
    VisitView,
    ErrorView,
> {
    match r {
        Ok(v) => Ok(wrap(v)),
        Err(e) => Err(e),
    }
}

/// How a term is read for a target.
pub open spec fn spec_deserialize(t: TermView, target: Target) -> Result<VisitView, ErrorView> {
    match target {
        Target::Any => spec_deserialize_any(t),
        Target::Bool => visit_with(spec_deserialize_bool(t), |v: bool| VisitView::Bool(v)),
        Target::I8 => visit_with(
            spec_deserialize_integer(t, i8::MIN as int, i8::MAX as int),
            |v: int| VisitView::I8(v as i8),
        ),
        Target::I16 => visit_with(
            spec_deserialize_integer(t, i16::MIN as int, i16::MAX as int),
            |v: int| VisitView::I16(v as i16),
        ),
        Target::I32 => visit_with(
            spec_deserialize_integer(t, i32::MIN as int, i32::MAX as int),
            |v: int| VisitView::I32(v as i32),
        ),
        Target::I64 => visit_with(
            spec_deserialize_integer(t, i64::MIN as int, i64::MAX as int),
            |v: int| VisitView::I64(v as i64),
        ),
        Target::I128 => visit_with(
            spec_deserialize_integer(t, i128::MIN as int, i128::MAX as int),
            |v: int| VisitView::I128(v as i128),
        ),
        Target::U8 => visit_with(
            spec_deserialize_integer(t, 0, u8::MAX as int),
            |v: int| VisitView::U8(v as u8),
        ),
        Target::U16 => visit_with(
            spec_deserialize_integer(t, 0, u16::MAX as int),
            |v: int| VisitView::U16(v as u16),
        ),
        Target::U32 => visit_with(
            spec_deserialize_integer(t, 0, u32::MAX as int),
            |v: int| VisitView::U32(v as u32),
        ),
        Target::U64 => visit_with(
            spec_deserialize_integer(t, 0, u64::MAX as int),
            |v: int| VisitView::U64(v as u64),
        ),
        Target::U128 => visit_with(
            spec_deserialize_integer(t, 0, u128::MAX as int),
            |v: int| VisitView::U128(v as u128),
        ),
        Target::F32 => visit_with(spec_deserialize_single(t), |v: u32| VisitView::F32(v)),
        Target::F64 => visit_with(spec_deserialize_number(t), |v: u64| VisitView::F64(v)),
        Target::Char | Target::Str | Target::Text | Target::Identifier => visit_with(
            spec_deserialize_string(t),
            |v: Seq<char>| VisitView::Text(v),
        ),
        Target::Bytes | Target::ByteBuf => spec_deserialize_byte_buf(t),
        Target::Optional => visit_with(
            spec_deserialize_option(t),
            |v: Option<TermView>|
                match v {
                    Some(inner) => VisitView::Present(inner),
                    None => VisitView::Absent,
                },
        ),
        Target::Unit | Target::UnitStruct => visit_with(
            spec_deserialize_unit(t),
            |v: ()| VisitView::Unit,
        ),
        Target::NewtypeStruct => Ok(VisitView::Newtype(t)),
        Target::Sequence | Target::Tuple | Target::TupleStruct => visit_with(
            spec_deserialize_seq(t),
            |v: SeqState| VisitView::Array(v),
        ),
        Target::Mapping => visit_with(spec_deserialize_map(t), |v: MapState| VisitView::Record(v)),
        Target::Struct => spec_deserialize_struct(t),
        Target::Enum => visit_with(
            spec_deserialize_enum(t),
            |v: EnumState| VisitView::Variant(v),
        ),
        Target::IgnoredAny => Ok(VisitView::Unit),
    }
}

impl Term {
    /// Reads the term for a target.
    pub fn deserialize(self, target: Target) -> (r: Result<Visit, RustDeserializationError>)
        ensures
            view_result(r) == spec_deserialize(self@, target),
    {
        match target {
            Target::Any => self.deserialize_any(),
            Target::Bool => Ok(Visit::Bool(self.deserialize_bool()?)),
            Target::I8 => Ok(Visit::I8(self.deserialize_i8()?)),
            Target::I16 => Ok(Visit::I16(self.deserialize_i16()?)),
            Target::I32 => Ok(Visit::I32(self.deserialize_i32()?)),
            Target::I64 => Ok(Visit::I64(self.deserialize_i64()?)),
            Target::I128 => Ok(Visit::I128(self.deserialize_i128()?)),
            Target::U8 => Ok(Visit::U8(self.deserialize_u8()?)),
            Target::U16 => Ok(Visit::U16(self.deserialize_u16()?)),
            Target::U32 => Ok(Visit::U32(self.deserialize_u32()?)),
            Target::U64 => Ok(Visit::U64(self.deserialize_u64()?)),
            Target::U128 => Ok(Visit::U128(self.deserialize_u128()?)),
            Target::F32 => Ok(Visit::F32(self.deserialize_f32()?)),
            Target::F64 => Ok(Visit::F64(self.deserialize_f64()?)),
            Target::Char | Target::Str | Target::Text | Target::Identifier => Ok(
                Visit::Text(self.deserialize_string()?),
            ),
            Target::Bytes | Target::ByteBuf => self.deserialize_byte_buf(),
            Target::Optional => match self.deserialize_option()? {
                Some(inner) => Ok(Visit::Present(inner)),
                None => Ok(Visit::Absent),
            },
            Target::Unit | Target::UnitStruct => {
                self.deserialize_unit()?;
                Ok(Visit::Unit)
            },
            Target::NewtypeStruct => Ok(Visit::Newtype(self)),
            Target::Sequence | Target::Tuple | Target::TupleStruct => Ok(
                Visit::Array(self.deserialize_seq()?),
            ),
            Target::Mapping => Ok(Visit::Record(self.deserialize_map()?)),
            Target::Struct => self.deserialize_struct(),
            Target::Enum => Ok(Visit::Variant(self.deserialize_enum()?)),
            Target::IgnoredAny => Ok(Visit::Unit),
        }
    }
}

/// A term with a number of layers of metadata around it.
pub open spec fn annotated(t: TermView, layers: nat) -> TermView
    decreases layers,
{
    if layers == 0 {
        t
    } else {
        TermView::MetaValue(Some(Box::new(annotated(t, (layers - 1) as nat))))
    }
}

/// What is inside a term is inside the term with metadata around it.
pub proof fn lemma_unwrap_annotated(t: TermView, layers: nat)
    ensures
        spec_unwrap(annotated(t, layers)) == spec_unwrap(t),
    decreases layers,
{
    if layers > 0 {
        lemma_unwrap_annotated(t, (layers - 1) as nat);
    }
}

/// Metadata around a term changes nothing in how the term is read, but where
/// the consumer asks for whatever is there and where the term is passed on
/// whole to what a wrapper holds.
pub proof fn lemma_metadata_is_transparent(t: TermView, layers: nat, target: Target)
    requires
        target != Target::Any,
        target != Target::NewtypeStruct,
    ensures
        spec_deserialize(annotated(t, layers), target) == spec_deserialize(t, target),
{
    lemma_unwrap_annotated(t, layers);
}

/// A number inside any number of layers of metadata is read as the number
/// itself, as a double, as a single and as an integer of any range.
pub proof fn lemma_annotated_number(bits: u64, layers: nat, lo: int, hi: int)
    ensures
        spec_deserialize_number(annotated(TermView::Num(bits), layers)) == Ok::<u64, ErrorView>(
            bits,
        ),
        spec_deserialize_single(annotated(TermView::Num(bits), layers)) == Ok::<u32, ErrorView>(
            narrow(bits),
        ),
        spec_deserialize_integer(annotated(TermView::Num(bits), layers), lo, hi) == Ok::<
            int,
            ErrorView,
        >(round_to_range(bits, lo, hi)),
{
    lemma_unwrap_annotated(TermView::Num(bits), layers);
}

/// Where the consumer asks for whatever is there, a term with metadata around
/// it reads as nothing, whatever is inside.
pub proof fn lemma_any_reads_metadata_as_unit(t: TermView, layers: nat)
    requires
        layers > 0,
    ensures
        spec_deserialize(annotated(t, layers), Target::Any) == Ok::<VisitView, ErrorView>(
            VisitView::Unit,
        ),
{
}

/// Metadata around nothing, under any number of further layers, fails as
/// empty metadata for every target that looks through metadata, and so never
/// as a term of the wrong kind.
pub proof fn lemma_empty_metadata_fails(layers: nat, target: Target)
    requires
        target.looks_through_metadata(),
    ensures
        spec_deserialize(annotated(TermView::MetaValue(None), layers), target) == Err::<
            VisitView,
            ErrorView,
        >(ErrorView::EmptyMetaValue),
{
    lemma_unwrap_annotated(TermView::MetaValue(None), layers);
}

/// What a variant carries fails as empty metadata where it is metadata around
/// nothing, whatever the kind of the variant, but for the variant of one value,
/// which passes the term on unread.
pub proof fn lemma_empty_metadata_fails_in_variant(layers: nat)
    ensures
        spec_unit_variant(Some(annotated(TermView::MetaValue(None), layers))) == Err::<
            (),
            ErrorView,
        >(ErrorView::EmptyMetaValue),
        spec_tuple_variant(Some(annotated(TermView::MetaValue(None), layers))) == Err::<
            VisitView,
            ErrorView,
        >(ErrorView::EmptyMetaValue),
        spec_struct_variant(Some(annotated(TermView::MetaValue(None), layers))) == Err::<
            MapState,
            ErrorView,
        >(ErrorView::EmptyMetaValue),
{
    lemma_unwrap_annotated(TermView::MetaValue(None), layers);
}

/// A term of a kind that stands for no value is never read as nothing: the
/// failure names the kind, or says "Other" where the kind has no name.
pub proof fn lemma_other_is_not_unit(kind: Option<Seq<char>>)
    ensures
        spec_deserialize_unit(TermView::Other(kind)) == Err::<(), ErrorView>(
            ErrorView::InvalidType {
                expected: "Null"@,
                occurred: match kind {
                    Some(name) => name,
                    None => "Other"@,
                },
            },
        ),
{
}

/// How a term is read depends on nothing but what the term stands for and the
/// target: two readings of terms that stand for the same, for the same target,
/// have the same outcome. Positions of identifiers take no part in it.
pub proof fn lemma_reading_is_repeatable(
    a: Term,
    b: Term,
    target: Target,
    first: Result<Visit, RustDeserializationError>,
    second: Result<Visit, RustDeserializationError>,
)
    requires
        a@ == b@,
        view_result(first) == spec_deserialize(a@, target),
        view_result(second) == spec_deserialize(b@, target),
    ensures
        view_result(first) == view_result(second),
{
}

/// Whether a term, once the metadata around it is looked through, is of a
/// kind that a target reads.
pub open spec fn fits(t: TermView, target: Target) -> bool {
    match target {
        Target::Any => !(t is Other),
        Target::IgnoredAny | Target::NewtypeStruct => true,
        Target::Optional => spec_unwrap(t) is Ok,
        Target::Bool => spec_unwrap(t) matches Ok(TermView::Bool(_)),
        Target::I8 | Target::I16 | Target::I32 | Target::I64 | Target::I128 | Target::U8
        | Target::U16 | Target::U32 | Target::U64 | Target::U128 | Target::F32
        | Target::F64 => spec_unwrap(t) matches Ok(TermView::Num(_)),
        Target::Char | Target::Str | Target::Text | Target::Identifier => spec_unwrap(
            t,
        ) matches Ok(TermView::Str(_)),
        Target::Bytes | Target::ByteBuf => spec_unwrap(t) matches Ok(TermView::Str(_))
            || spec_unwrap(t) matches Ok(TermView::Array(_)),
        Target::Unit | Target::UnitStruct => spec_unwrap(t) == Ok::<TermView, ErrorView>(
            TermView::Null,
        ),
        Target::Sequence | Target::Tuple | Target::TupleStruct => spec_unwrap(t) matches Ok(
            TermView::Array(_),
        ),
        Target::Mapping => spec_unwrap(t) matches Ok(TermView::Record(_)),
        Target::Struct => spec_unwrap(t) matches Ok(TermView::Array(_)) || spec_unwrap(
            t,
        ) matches Ok(TermView::Record(_)),
        Target::Enum => spec_unwrap(t) matches Ok(TermView::Enum(_)) || (spec_unwrap(
            t,
        ) matches Ok(TermView::Record(entries)) && entries.len() == 1),
    }
}

/// A term is read with success for a target exactly when it fits the target.
pub proof fn lemma_success_is_owed(t: TermView, target: Target)
    ensures
        spec_deserialize(t, target) is Ok <==> fits(t, target),
{
}

} // verus!
