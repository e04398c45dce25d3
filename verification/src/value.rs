//! The values that are encoded and decoded, as the codec sees them.
//!
//! A value of the host is held here by what the codec reads of it. Each
//! type has a view, over which the contracts are stated.

use vstd::prelude::*;

verus! {

/// A string of the host. The host allows lone surrogates in a string; such
/// a string has no UTF-8 form.
#[derive(Clone, Debug, PartialEq, Eq)]
pub enum Text {
    /// A string that is well-formed Unicode.
    Utf8(String),
    /// A string that holds lone surrogates. `lossy` is the string with each
    /// of them replaced by a question mark, where the host could give it.
    Surrogates { lossy: Option<String> },
}

/// The view of a [`Text`].
pub enum TextView {
    Utf8(Seq<char>),
    Surrogates { lossy: Option<Seq<char>> },
}

impl View for Text {
    type V = TextView;

    open spec fn view(&self) -> TextView {
        match *self {
            Text::Utf8(s) => TextView::Utf8(s@),
            Text::Surrogates { lossy: Some(s) } => TextView::Surrogates { lossy: Some(s@) },
            Text::Surrogates { lossy: None } => TextView::Surrogates { lossy: None },
        }
    }
}

/// A calendar date, as the host holds it.
#[derive(Clone, Copy, Debug, PartialEq, Eq, Structural)]
pub struct DateValue {
    pub year: i32,
    pub month: i32,
    pub day: i32,
}

/// A time of day, as the host holds it.
#[derive(Clone, Copy, Debug, PartialEq, Eq, Structural)]
pub struct TimeValue {
    pub hour: i32,
    pub minute: i32,
    pub second: i32,
    pub microsecond: i32,
    /// Whether the time carries a time zone.
    pub tzinfo: bool,
}

/// What the time zone of a date and time says of its offset from UTC.
#[derive(Clone, Copy, Debug, PartialEq, Eq, Structural)]
pub enum TzInfo {
    /// There is no time zone.
    Naive,
    /// The offset, as the host's time difference: whole days, and seconds
    /// from 0 to 86399 on top of them.
    Delta { days: i32, seconds: i32 },
    /// The time zone answered to none of the ways of asking for an offset.
    Unsupported,
}

/// A date and time, as the host holds it.
#[derive(Clone, Copy, Debug, PartialEq, Eq, Structural)]
pub struct DateTimeValue {
    pub year: i32,
    pub month: i32,
    pub day: i32,
    pub hour: i32,
    pub minute: i32,
    pub second: i32,
    pub microsecond: i32,
    pub tzinfo: TzInfo,
}

/// The unit that a 64-bit timestamp of a numeric array counts in.
#[derive(Clone, Copy, Debug, PartialEq, Eq, Structural)]
pub enum DatetimeUnit {
    NaT,
    Years,
    Months,
    Weeks,
    Days,
    Hours,
    Minutes,
    Seconds,
    Milliseconds,
    Microseconds,
    Nanoseconds,
    Picoseconds,
    Femtoseconds,
    Attoseconds,
    Generic,
}

/// One element of a numeric array, standing alone. A floating-point number
/// is held as its bit pattern.
#[derive(Clone, Copy, Debug, PartialEq, Eq, Structural)]
pub enum Scalar {
    Bool(bool),
    Datetime64 { unit: DatetimeUnit, value: i64 },
    F16(u16),
    F32(u32),
    F64(u64),
    I8(i8),
    I16(i16),
    I32(i32),
    I64(i64),
    U8(u8),
    U16(u16),
    U32(u32),
    U64(u64),
}

/// A rectangular numeric array, as its array interface describes it.
#[derive(Clone, Debug, PartialEq, Eq)]
pub struct ArrayInterface {
    /// The version tag of the interface; 2 in a well-formed one.
    pub two: i32,
    /// The kind of the elements: a letter.
    pub typekind: u8,
    /// The size of one element in bytes.
    pub itemsize: i32,
    /// Bit 0 is set where the elements lie row by row without gaps.
    pub flags: i32,
    /// The extent of each dimension.
    pub shape: Vec<isize>,
    /// For each dimension, the bytes from one index to the next.
    pub strides: Vec<isize>,
    /// The memory of the array; an element's bytes are little-endian.
    pub data: Vec<u8>,
    /// The unit, where the elements are timestamps.
    pub unit: DatetimeUnit,
}

/// The view of an [`ArrayInterface`].
pub struct ArrayInterfaceView {
    pub two: i32,
    pub typekind: u8,
    pub itemsize: i32,
    pub flags: i32,
    pub shape: Seq<isize>,
    pub strides: Seq<isize>,
    pub data: Seq<u8>,
    pub unit: DatetimeUnit,
}

impl View for ArrayInterface {
    type V = ArrayInterfaceView;

    open spec fn view(&self) -> ArrayInterfaceView {
        ArrayInterfaceView {
            two: self.two,
            typekind: self.typekind,
            itemsize: self.itemsize,
            flags: self.flags,
            shape: self.shape@,
            strides: self.strides@,
            data: self.data@,
            unit: self.unit,
        }
    }
}

/// One field of a record.
#[derive(Debug, PartialEq, Eq)]
pub struct Field {
    pub name: String,
    /// Whether the field is one in name only: a class-level or init-only
    /// declaration that instances do not carry.
    pub pseudo: bool,
    /// Whether the instance holds the value in its own attribute table.
    pub stored: bool,
    pub value: Value,
}

/// A value of the host.
#[derive(Debug, PartialEq, Eq)]
pub enum Value {
    /// The host's one value that stands for nothing.
    Null,
    Bool(bool),
    /// An integer of any size that the host has; 128 bits hold more than
    /// the format does.
    Int(i128),
    /// A double-precision number, as its bit pattern.
    Float(u64),
    Str(Text),
    Bytes(Vec<u8>),
    List(Vec<Value>),
    /// A mapping: its entries in the order in which they were inserted.
    Dict(Vec<(Value, Value)>),
    DateTime(DateTimeValue),
    Date(DateValue),
    Time(TimeValue),
    Tuple(Vec<Value>),
    /// A UUID, as the 128-bit number that it is.
    Uuid(u128),
    /// A member of an enumeration, with the value that it stands for.
    Enum(Box<Value>),
    StrSubclass(Text),
    IntSubclass(i128),
    ListSubclass(Vec<Value>),
    DictSubclass(Vec<(Value, Value)>),
    /// An extension value: an application-defined tag and a payload.
    Ext { tag: i64, data: Vec<u8> },
    /// A record: named fields in the order of their declaration. `slots`
    /// says that instances have fixed slots and no attribute table.
    Record { slots: bool, fields: Vec<Field> },
    /// A validated model: its attribute table, where it has one, and the
    /// table of its extra attributes, where that is a mapping.
    Model { dict: Option<Vec<(Value, Value)>>, extra: Option<Vec<(Value, Value)>> },
    Scalar(Scalar),
    Array(ArrayInterface),
    ByteArray(Vec<u8>),
    /// A view of memory: its bytes, where they lie without gaps.
    MemoryView(Option<Vec<u8>>),
    /// Anything else, under a handle that the host knows it by.
    Other(u64),
}

/// The view of a [`Field`].
pub struct FieldView {
    pub name: Seq<char>,
    pub pseudo: bool,
    pub stored: bool,
    pub value: ValueView,
}

/// The view of a [`Value`].
pub enum ValueView {
    Null,
    Bool(bool),
    Int(int),
    Float(u64),
    Str(TextView),
    Bytes(Seq<u8>),
    List(Seq<ValueView>),
    Dict(Seq<(ValueView, ValueView)>),
    DateTime(DateTimeValue),
    Date(DateValue),
    Time(TimeValue),
    Tuple(Seq<ValueView>),
    Uuid(u128),
    Enum(Box<ValueView>),
    StrSubclass(TextView),
    IntSubclass(int),
    ListSubclass(Seq<ValueView>),
    DictSubclass(Seq<(ValueView, ValueView)>),
    Ext { tag: i64, data: Seq<u8> },
    Record { slots: bool, fields: Seq<FieldView> },
    Model { dict: Option<Seq<(ValueView, ValueView)>>, extra: Option<Seq<(ValueView, ValueView)>> },
    Scalar(Scalar),
    Array(ArrayInterfaceView),
    ByteArray(Seq<u8>),
    MemoryView(Option<Seq<u8>>),
    Other(u64),
}

/// The view of a value.
pub open spec fn value_view(v: Value) -> ValueView
    decreases v,
{
    match v {
        Value::Null => ValueView::Null,
        Value::Bool(b) => ValueView::Bool(b),
        Value::Int(n) => ValueView::Int(n as int),
        Value::Float(bits) => ValueView::Float(bits),
        Value::Str(t) => ValueView::Str(t@),
        Value::Bytes(b) => ValueView::Bytes(b@),
        Value::List(items) => ValueView::List(values_view(items)),
        Value::Dict(entries) => ValueView::Dict(entries_view(entries)),
        Value::DateTime(d) => ValueView::DateTime(d),
        Value::Date(d) => ValueView::Date(d),
        Value::Time(t) => ValueView::Time(t),
        Value::Tuple(items) => ValueView::Tuple(values_view(items)),
        Value::Uuid(n) => ValueView::Uuid(n),
        Value::Enum(inner) => ValueView::Enum(Box::new(value_view(*inner))),
        Value::StrSubclass(t) => ValueView::StrSubclass(t@),
        Value::IntSubclass(n) => ValueView::IntSubclass(n as int),
        Value::ListSubclass(items) => ValueView::ListSubclass(values_view(items)),
        Value::DictSubclass(entries) => ValueView::DictSubclass(entries_view(entries)),
        Value::Ext { tag, data } => ValueView::Ext { tag, data: data@ },
        Value::Record { slots, fields } => ValueView::Record { slots, fields: fields_view(fields) },
        Value::Model { dict, extra } => ValueView::Model {
            dict: match dict {
                Some(entries) => Some(entries_view(entries)),
                None => None,
            },
            extra: match extra {
                Some(entries) => Some(entries_view(entries)),
                None => None,
            },
        },
        Value::Scalar(s) => ValueView::Scalar(s),
        Value::Array(a) => ValueView::Array(a@),
        Value::ByteArray(b) => ValueView::ByteArray(b@),
        Value::MemoryView(Some(b)) => ValueView::MemoryView(Some(b@)),
        Value::MemoryView(None) => ValueView::MemoryView(None),
        Value::Other(handle) => ValueView::Other(handle),
    }
}

/// The views of the values of a vector, in order.
pub open spec fn values_view(items: Vec<Value>) -> Seq<ValueView>
    decreases items,
{
    Seq::new(
        items@.len(),
        |i: int|
            if 0 <= i < items@.len() {
                value_view(items@[i])
            } else {
                ValueView::Null
            },
    )
}

/// The views of the entries of a mapping, in order.
pub open spec fn entries_view(entries: Vec<(Value, Value)>) -> Seq<(ValueView, ValueView)>
    decreases entries,
{
    Seq::new(
        entries@.len(),
        |i: int|
            if 0 <= i < entries@.len() {
                (value_view(entries@[i].0), value_view(entries@[i].1))
            } else {
                (ValueView::Null, ValueView::Null)
            },
    )
}

/// The views of the fields of a record, in order.
pub open spec fn fields_view(fields: Vec<Field>) -> Seq<FieldView>
    decreases fields,
{
    Seq::new(
        fields@.len(),
        |i: int|
            if 0 <= i < fields@.len() {
                FieldView {
                    name: fields@[i].name@,
                    pseudo: fields@[i].pseudo,
                    stored: fields@[i].stored,
                    value: value_view(fields@[i].value),
                }
            } else {
                FieldView {
                    name: Seq::empty(),
                    pseudo: false,
                    stored: false,
                    value: ValueView::Null,
                }
            },
    )
}

impl View for Value {
    type V = ValueView;

    open spec fn view(&self) -> ValueView {
        value_view(*self)
    }
}

/// The view of a vector of values, member by member.
pub proof fn lemma_values_view(items: Vec<Value>)
    ensures
        values_view(items).len() == items@.len(),
        forall|i: int| 0 <= i < items@.len() ==> #[trigger] values_view(items)[i] == items@[i]@,
{
}

/// The view of a value, by its kind.
pub proof fn lemma_view(v: Value)
    ensures
        match v {
            Value::Null => v@ == ValueView::Null,
            Value::Bool(b) => v@ == ValueView::Bool(b),
            Value::Int(n) => v@ == ValueView::Int(n as int),
            Value::Float(bits) => v@ == ValueView::Float(bits),
            Value::Str(t) => v@ == ValueView::Str(t@),
            Value::Bytes(b) => v@ == ValueView::Bytes(b@),
            Value::List(items) => v@ == ValueView::List(values_view(items)),
            Value::Dict(entries) => v@ == ValueView::Dict(entries_view(entries)),
            Value::DateTime(d) => v@ == ValueView::DateTime(d),
            Value::Date(d) => v@ == ValueView::Date(d),
            Value::Time(t) => v@ == ValueView::Time(t),
            Value::Tuple(items) => v@ == ValueView::Tuple(values_view(items)),
            Value::Uuid(n) => v@ == ValueView::Uuid(n),
            Value::Enum(inner) => v@ == ValueView::Enum(Box::new((*inner)@)),
            Value::StrSubclass(t) => v@ == ValueView::StrSubclass(t@),
            Value::IntSubclass(n) => v@ == ValueView::IntSubclass(n as int),
            Value::ListSubclass(items) => v@ == ValueView::ListSubclass(values_view(items)),
            Value::DictSubclass(entries) => v@ == ValueView::DictSubclass(entries_view(entries)),
            Value::Ext { tag, data } => v@ == (ValueView::Ext { tag, data: data@ }),
            Value::Record { slots, fields } => v@ == (ValueView::Record {
                slots,
                fields: fields_view(fields),
            }),
            Value::Model { dict, extra } => v@ == (ValueView::Model {
                dict: match dict {
                    Some(entries) => Some(entries_view(entries)),
                    None => None,
                },
                extra: match extra {
                    Some(entries) => Some(entries_view(entries)),
                    None => None,
                },
            }),
            Value::Scalar(s) => v@ == ValueView::Scalar(s),
            Value::Array(a) => v@ == ValueView::Array(a@),
            Value::ByteArray(b) => v@ == ValueView::ByteArray(b@),
            Value::MemoryView(Some(b)) => v@ == ValueView::MemoryView(Some(b@)),
            Value::MemoryView(None) => v@ == ValueView::MemoryView(None),
            Value::Other(handle) => v@ == ValueView::Other(handle),
        },
        match v {
            Value::List(items) | Value::Tuple(items) | Value::ListSubclass(items) => values_view(
                items,
            ).len() == items@.len() && forall|i: int|
                0 <= i < items@.len() ==> #[trigger] values_view(items)[i] == items@[i]@,
            Value::Dict(entries) | Value::DictSubclass(entries) => entries_view(entries).len()
                == entries@.len() && forall|i: int|
                0 <= i < entries@.len() ==> #[trigger] entries_view(entries)[i] == (
                    entries@[i].0@,
                    entries@[i].1@,
                ),
            Value::Record { fields, .. } => fields_view(fields).len() == fields@.len() && forall|
                i: int,
            |
                0 <= i < fields@.len() ==> #[trigger] fields_view(fields)[i] == (FieldView {
                    name: fields@[i].name@,
                    pseudo: fields@[i].pseudo,
                    stored: fields@[i].stored,
                    value: fields@[i].value@,
                }),
            Value::Model { dict, extra } => (dict matches Some(d) ==> entries_view(d).len()
                == d@.len() && forall|i: int|
                0 <= i < d@.len() ==> #[trigger] entries_view(d)[i] == (d@[i].0@, d@[i].1@)) && (
            extra matches Some(e) ==> entries_view(e).len() == e@.len() && forall|i: int|
                0 <= i < e@.len() ==> #[trigger] entries_view(e)[i] == (e@[i].0@, e@[i].1@)),
            _ => true,
        },
{
}

} // verus!
