//! Shapes of target values, and the values themselves.
//!
//! A [`Shape`] says what a decode is to produce: which fields or positions there are and what
//! each of them holds. A [`Value`] is what a decode of that shape produces.

use vstd::prelude::*;

verus! {

broadcast use vstd::std_specs::vec::axiom_vec_index_decreases;

/// What a decode is to produce.
#[derive(Debug, PartialEq, Eq)]
pub enum Shape {
    /// A number of the type `u8`.
    U8,
    /// A number of the type `u16`.
    U16,
    /// A number of the type `u32`.
    U32,
    /// A number of the type `u64`.
    U64,
    /// A number of the type `usize`.
    Usize,
    /// A number of the type `i8`.
    I8,
    /// A number of the type `i16`.
    I16,
    /// A number of the type `i32`.
    I32,
    /// A number of the type `i64`.
    I64,
    /// A number of the type `isize`.
    Isize,
    /// A single character.
    Char,
    /// A text, as captured.
    Text,
    /// A value of the shape within, or none where the capture took no part in the match.
    Optional(Box<Shape>),
    /// One value of the shape within for every capture group after the whole-match group.
    Sequence(Box<Shape>),
    /// One value for each shape, from the capture groups at index 1, 2 and so on.
    Tuple(Vec<Shape>),
    /// One value for each field, from the capture group of the field's name.
    Struct(Vec<Field>),
    /// A truth value. No decode produces one.
    Bool,
    /// The value without content. No decode produces one.
    Unit,
    /// A structure of unnamed fields. No decode produces one.
    TupleStruct,
    /// A map from keys to values. No decode produces one.
    Mapping,
    /// A choice among variants. No decode produces one.
    Enum,
}

/// A field of a structure: its name and the shape of what it holds.
#[derive(Debug, PartialEq, Eq)]
pub struct Field {
    pub name: String,
    pub shape: Shape,
}

impl Field {
    /// A field of the given name that holds a value of the given shape.
    pub fn new(name: &str, shape: Shape) -> (field: Field)
        ensures
            field.name@ == name@,
            field.shape == shape,
    {
        Field { name: name.to_owned(), shape }
    }
}

/// What a decode produced.
#[derive(Debug, PartialEq, Eq)]
pub enum Value {
    U8(u8),
    U16(u16),
    U32(u32),
    U64(u64),
    Usize(usize),
    I8(i8),
    I16(i16),
    I32(i32),
    I64(i64),
    Isize(isize),
    Char(char),
    Text(String),
    /// The value of an optional shape whose capture took no part in the match.
    Absent,
    /// The value of an optional shape whose capture took part.
    Present(Box<Value>),
    Sequence(Vec<Value>),
    Tuple(Vec<Value>),
    Struct(Vec<Member>),
}

/// A field of a decoded structure: its name and what it holds.
#[derive(Debug, PartialEq, Eq)]
pub struct Member {
    pub name: String,
    pub value: Value,
}

/// A value as specifications see it, texts being sequences of characters.
pub enum ValueView {
    U8(u8),
    U16(u16),
    U32(u32),
    U64(u64),
    Usize(usize),
    I8(i8),
    I16(i16),
    I32(i32),
    I64(i64),
    Isize(isize),
    Char(char),
    Text(Seq<char>),
    Absent,
    Present(Box<ValueView>),
    Sequence(Seq<ValueView>),
    Tuple(Seq<ValueView>),
    Struct(Seq<MemberView>),
}

/// A field of a decoded structure as specifications see it.
pub struct MemberView {
    pub name: Seq<char>,
    pub value: ValueView,
}

/// What specifications see of `value`.
pub open spec fn value_view(value: Value) -> ValueView
    decreases value,
{
    match value {
        Value::U8(v) => ValueView::U8(v),
        Value::U16(v) => ValueView::U16(v),
        Value::U32(v) => ValueView::U32(v),
        Value::U64(v) => ValueView::U64(v),
        Value::Usize(v) => ValueView::Usize(v),
        Value::I8(v) => ValueView::I8(v),
        Value::I16(v) => ValueView::I16(v),
        Value::I32(v) => ValueView::I32(v),
        Value::I64(v) => ValueView::I64(v),
        Value::Isize(v) => ValueView::Isize(v),
        Value::Char(c) => ValueView::Char(c),
        Value::Text(text) => ValueView::Text(text@),
        Value::Absent => ValueView::Absent,
        Value::Present(inner) => ValueView::Present(Box::new(value_view(*inner))),
        Value::Sequence(items) => ValueView::Sequence(values_view(items)),
        Value::Tuple(items) => ValueView::Tuple(values_view(items)),
        Value::Struct(members) => ValueView::Struct(members_view(members)),
    }
}

/// What specifications see of each of `items`, in order.
pub open spec fn values_view(items: Vec<Value>) -> Seq<ValueView>
    decreases items,
{
    Seq::new(
        items.len() as nat,
        |i: int|
            if 0 <= i < items.len() {
                value_view(items[i])
            } else {
                ValueView::Absent
            },
    )
}

/// What specifications see of each of `members`, in order.
pub open spec fn members_view(members: Vec<Member>) -> Seq<MemberView>
    decreases members,
{
    Seq::new(
        members.len() as nat,
        |i: int|
            if 0 <= i < members.len() {
                MemberView { name: members[i].name@, value: value_view(members[i].value) }
            } else {
                MemberView { name: Seq::empty(), value: ValueView::Absent }
            },
    )
}

/// Whether `value` is a value of the shape `shape`: of the same kind, with as many parts, each
/// of the shape of its part and, in a structure, under the name of its field.
pub open spec fn has_shape(value: ValueView, shape: Shape) -> bool
    decreases shape,
{
    match shape {
        Shape::U8 => value is U8,
        Shape::U16 => value is U16,
        Shape::U32 => value is U32,
        Shape::U64 => value is U64,
        Shape::Usize => value is Usize,
        Shape::I8 => value is I8,
        Shape::I16 => value is I16,
        Shape::I32 => value is I32,
        Shape::I64 => value is I64,
        Shape::Isize => value is Isize,
        Shape::Char => value is Char,
        Shape::Text => value is Text,
        Shape::Optional(inner) => match value {
            ValueView::Absent => true,
            ValueView::Present(within) => has_shape(*within, *inner),
            _ => false,
        },
        Shape::Sequence(element) => match value {
            ValueView::Sequence(items) => forall|i: int|
                0 <= i < items.len() ==> has_shape(#[trigger] items[i], *element),
            _ => false,
        },
        Shape::Tuple(positions) => match value {
            ValueView::Tuple(items) => {
                &&& items.len() == positions.len()
                &&& forall|i: int|
                    0 <= i < positions.len() ==> has_shape(#[trigger] items[i], positions[i])
            },
            _ => false,
        },
        Shape::Struct(fields) => match value {
            ValueView::Struct(members) => {
                &&& members.len() == fields.len()
                &&& forall|i: int|
                    0 <= i < fields.len() ==> {
                        &&& (#[trigger] members[i]).name == fields[i].name@
                        &&& has_shape(members[i].value, fields[i].shape)
                    }
            },
            _ => false,
        },
        Shape::Bool | Shape::Unit | Shape::TupleStruct | Shape::Mapping | Shape::Enum => false,
    }
}

impl View for Value {
    type V = ValueView;

    open spec fn view(&self) -> ValueView {
        value_view(*self)
    }
}

impl View for Member {
    type V = MemberView;

    open spec fn view(&self) -> MemberView {
        MemberView { name: self.name@, value: value_view(self.value) }
    }
}

} // verus!
