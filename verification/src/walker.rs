//! The walk over a shape: which requests a decoder gets for a shape, and what comes of them.
//!
//! The walk enters a structure field by field, a tuple position by position and a sequence
//! element by element, in the order in which the shape lists them, and stops at the first
//! request that fails.

use crate::captures::{index_of_name, positional_texts, text_at};
use crate::decoder::{char_of, number_of, text_of, Decoder, DecoderView};
use crate::errors::DecodeError;
use crate::shape::{
    members_view, value_view, values_view, Field, Member, MemberView, Shape, Value, ValueView,
};
use vstd::prelude::*;

verus! {

broadcast use vstd::std_specs::vec::axiom_vec_index_decreases;

/// What came of a walk: what it returned, and the decoder as it left it.
pub struct Outcome<T> {
    pub result: Result<T, DecodeError>,
    pub decoder: DecoderView,
}

/// Whether `shape` is a number of one of the integer types.
pub open spec fn is_number(shape: Shape) -> bool {
    match shape {
        Shape::U8
        | Shape::U16
        | Shape::U32
        | Shape::U64
        | Shape::Usize
        | Shape::I8
        | Shape::I16
        | Shape::I32
        | Shape::I64
        | Shape::Isize => true,
        _ => false,
    }
}

/// Whether `shape` is converted from one staged text: a number, a character or a text.
pub open spec fn is_leaf(shape: Shape) -> bool {
    is_number(shape) || shape == Shape::Char || shape == Shape::Text
}

/// The least and the greatest number of the integer type that `shape` names.
pub open spec fn range_of(shape: Shape) -> (int, int) {
    match shape {
        Shape::U8 => (0, u8::MAX as int),
        Shape::U16 => (0, u16::MAX as int),
        Shape::U32 => (0, u32::MAX as int),
        Shape::U64 => (0, u64::MAX as int),
        Shape::Usize => (0, usize::MAX as int),
        Shape::I8 => (i8::MIN as int, i8::MAX as int),
        Shape::I16 => (i16::MIN as int, i16::MAX as int),
        Shape::I32 => (i32::MIN as int, i32::MAX as int),
        Shape::I64 => (i64::MIN as int, i64::MAX as int),
        _ => (isize::MIN as int, isize::MAX as int),
    }
}

/// The number `n` as a value of the integer type that `shape` names.
pub open spec fn number_value(shape: Shape, n: int) -> ValueView {
    match shape {
        Shape::U8 => ValueView::U8(n as u8),
        Shape::U16 => ValueView::U16(n as u16),
        Shape::U32 => ValueView::U32(n as u32),
        Shape::U64 => ValueView::U64(n as u64),
        Shape::Usize => ValueView::Usize(n as usize),
        Shape::I8 => ValueView::I8(n as i8),
        Shape::I16 => ValueView::I16(n as i16),
        Shape::I32 => ValueView::I32(n as i32),
        Shape::I64 => ValueView::I64(n as i64),
        _ => ValueView::Isize(n as isize),
    }
}

/// The number of the type that `shape` names which the staged text `current` denotes.
pub open spec fn leaf_number(shape: Shape, current: Option<Seq<char>>) -> Result<
    ValueView,
    DecodeError,
> {
    match number_of(current, range_of(shape).0, range_of(shape).1) {
        Ok(n) => Ok(number_value(shape, n)),
        Err(e) => Err(e),
    }
}

/// The value of the leaf shape `shape` that the staged text `current` is converted to.
pub open spec fn leaf_value(shape: Shape, current: Option<Seq<char>>) -> Result<
    ValueView,
    DecodeError,
> {
    match shape {
        Shape::Char => match char_of(current) {
            Ok(c) => Ok(ValueView::Char(c)),
            Err(e) => Err(e),
        },
        Shape::Text => match text_of(current) {
            Ok(text) => Ok(ValueView::Text(text)),
            Err(e) => Err(e),
        },
        _ => leaf_number(shape, current),
    }
}

/// The outcome `inner` of a walk over the shape within an optional one, as the outcome for
/// the optional shape.
pub open spec fn present(inner: Outcome<ValueView>) -> Outcome<ValueView> {
    Outcome {
        result: match inner.result {
            Ok(value) => Ok(ValueView::Present(Box::new(value))),
            Err(e) => Err(e),
        },
        decoder: inner.decoder,
    }
}

/// The outcome `rest` of a walk over the parts that follow, with the values `done` of the
/// parts before them put in front.
pub open spec fn after<T>(done: Seq<T>, rest: Outcome<Seq<T>>) -> Outcome<Seq<T>> {
    Outcome {
        result: match rest.result {
            Ok(values) => Ok(done + values),
            Err(e) => Err(e),
        },
        decoder: rest.decoder,
    }
}

/// The outcome `elements` of a walk over the elements of a sequence, as the outcome for the
/// sequence.
pub open spec fn as_sequence(elements: Outcome<Seq<ValueView>>) -> Outcome<ValueView> {
    Outcome {
        result: match elements.result {
            Ok(values) => Ok(ValueView::Sequence(values)),
            Err(e) => Err(e),
        },
        decoder: elements.decoder,
    }
}

/// The outcome `positions` of a walk over the positions of a tuple, as the outcome for the
/// tuple.
pub open spec fn as_tuple(positions: Outcome<Seq<ValueView>>) -> Outcome<ValueView> {
    Outcome {
        result: match positions.result {
            Ok(values) => Ok(ValueView::Tuple(values)),
            Err(e) => Err(e),
        },
        decoder: positions.decoder,
    }
}

/// The outcome `fields` of a walk over the fields of a structure, as the outcome for the
/// structure.
pub open spec fn as_struct(fields: Outcome<Seq<MemberView>>) -> Outcome<ValueView> {
    Outcome {
        result: match fields.result {
            Ok(members) => Ok(ValueView::Struct(members)),
            Err(e) => Err(e),
        },
        decoder: fields.decoder,
    }
}

/// What comes of a walk over `shape` that starts with the decoder `d`.
pub open spec fn walk(d: DecoderView, shape: Shape) -> Outcome<ValueView>
    decreases shape, 0nat,
{
    match shape {
        Shape::Optional(inner) => if d.current() is Some {
            present(walk(d, *inner))
        } else {
            Outcome { result: Ok(ValueView::Absent), decoder: d.taken() }
        },
        Shape::Sequence(element) => as_sequence(
            walk_elements(d.staging_all(), *element, positional_texts(d.groups).len()),
        ),
        Shape::Tuple(positions) => as_tuple(walk_positions(d, positions, 0)),
        Shape::Struct(fields) => as_struct(walk_fields(d, fields, 0)),
        Shape::Bool | Shape::Unit | Shape::TupleStruct | Shape::Mapping | Shape::Enum => Outcome {
            result: Err(DecodeError::Unimplemented),
            decoder: d,
        },
        _ => Outcome { result: leaf_value(shape, d.current()), decoder: d.taken() },
    }
}

/// What comes of walking `count` times over `element`, one time after the other.
pub open spec fn walk_elements(d: DecoderView, element: Shape, count: nat) -> Outcome<
    Seq<ValueView>,
>
    decreases element, count + 1,
{
    if count == 0 {
        Outcome { result: Ok(Seq::empty()), decoder: d }
    } else {
        let first = walk(d, element);
        match first.result {
            Err(e) => Outcome { result: Err(e), decoder: first.decoder },
            Ok(value) => after(
                seq![value],
                walk_elements(first.decoder, element, (count - 1) as nat),
            ),
        }
    }
}

/// What comes of a walk over the positions of a tuple from position `from` on: each stages the
/// text of the capture group one index above its own, which must have taken part in the match.
pub open spec fn walk_positions(d: DecoderView, positions: Vec<Shape>, from: int) -> Outcome<
    Seq<ValueView>,
>
    decreases positions, positions.len() - from + 1,
{
    if 0 <= from < positions.len() {
        match text_at(d.groups, from + 1) {
            None => Outcome { result: Err(DecodeError::MissingValue), decoder: d },
            Some(text) => {
                let here = walk(d.staging(Some(text)), positions[from]);
                match here.result {
                    Err(e) => Outcome { result: Err(e), decoder: here.decoder },
                    Ok(value) => after(
                        seq![value],
                        walk_positions(here.decoder, positions, from + 1),
                    ),
                }
            },
        }
    } else {
        Outcome { result: Ok(Seq::empty()), decoder: d }
    }
}

/// What comes of a walk over the fields of a structure from field `from` on: each stages what
/// the first capture group of its name captured, which the pattern must have.
pub open spec fn walk_fields(d: DecoderView, fields: Vec<Field>, from: int) -> Outcome<
    Seq<MemberView>,
>
    decreases fields, fields.len() - from + 1,
{
    if 0 <= from < fields.len() {
        match index_of_name(d.groups, fields[from].name@) {
            None => Outcome { result: Err(DecodeError::MissingField), decoder: d },
            Some(i) => {
                let here = walk(d.staging(d.groups[i].text), fields[from].shape);
                match here.result {
                    Err(e) => Outcome { result: Err(e), decoder: here.decoder },
                    Ok(value) => after(
                        seq![MemberView { name: fields[from].name@, value }],
                        walk_fields(here.decoder, fields, from + 1),
                    ),
                }
            },
        }
    } else {
        Outcome { result: Ok(Seq::empty()), decoder: d }
    }
}

/// The view of a character value holds the same character.
proof fn lemma_char_view(c: char)
    ensures
        value_view(Value::Char(c)) == ValueView::Char(c),
{
}

/// Putting one more value behind those done is the same as putting it before the rest.
proof fn lemma_after_push<T>(done: Seq<T>, value: T, rest: Outcome<Seq<T>>)
    ensures
        after(done.push(value), rest) == after(done, after(seq![value], rest)),
{
    match rest.result {
        Ok(values) => {
            assert(done.push(value) + values =~= done + (seq![value] + values));
        },
        Err(_) => {},
    }
}

/// With nothing done yet, the outcome of the rest is the outcome of the whole.
proof fn lemma_after_nothing_done<T>(rest: Outcome<Seq<T>>)
    ensures
        after(Seq::empty(), rest) == rest,
{
    if let Ok(values) = rest.result {
        assert(Seq::<T>::empty() + values =~= values);
    }
}

/// With nothing left to walk over, the values done are the result.
proof fn lemma_after_nothing<T>(done: Seq<T>, d: DecoderView)
    ensures
        after(done, Outcome { result: Ok(Seq::<T>::empty()), decoder: d }) == (Outcome {
            result: Ok(done),
            decoder: d,
        }),
{
    assert(done + Seq::<T>::empty() =~= done);
}

impl Decoder {
    /// Walks over `shape` and returns the value that the captures decode to.
    pub fn read_value(&mut self, shape: &Shape) -> (r: Result<Value, DecodeError>)
        ensures
            final(self)@ == walk(old(self)@, *shape).decoder,
            match walk(old(self)@, *shape).result {
                Ok(value) => r matches Ok(v) && v@ == value,
                Err(e) => r == Err::<Value, DecodeError>(e),
            },
        decreases shape, 0nat,
    {
        match shape {
            Shape::U8 => match self.read_u8() {
                Ok(v) => Ok(Value::U8(v)),
                Err(e) => Err(e),
            },
            Shape::U16 => match self.read_u16() {
                Ok(v) => Ok(Value::U16(v)),
                Err(e) => Err(e),
            },
            Shape::U32 => match self.read_u32() {
                Ok(v) => Ok(Value::U32(v)),
                Err(e) => Err(e),
            },
            Shape::U64 => match self.read_u64() {
                Ok(v) => Ok(Value::U64(v)),
                Err(e) => Err(e),
            },
            Shape::Usize => match self.read_usize() {
                Ok(v) => Ok(Value::Usize(v)),
                Err(e) => Err(e),
            },
            Shape::I8 => match self.read_i8() {
                Ok(v) => Ok(Value::I8(v)),
                Err(e) => Err(e),
            },
            Shape::I16 => match self.read_i16() {
                Ok(v) => Ok(Value::I16(v)),
                Err(e) => Err(e),
            },
            Shape::I32 => match self.read_i32() {
                Ok(v) => Ok(Value::I32(v)),
                Err(e) => Err(e),
            },
            Shape::I64 => match self.read_i64() {
                Ok(v) => Ok(Value::I64(v)),
                Err(e) => Err(e),
            },
            Shape::Isize => match self.read_isize() {
                Ok(v) => Ok(Value::Isize(v)),
                Err(e) => Err(e),
            },
            Shape::Char => match self.read_char() {
                Ok(c) => {
                    proof {
                        lemma_char_view(c);
                    }
                    Ok(Value::Char(c))
                },
                Err(e) => Err(e),
            },
            Shape::Text => match self.read_str() {
                Ok(text) => Ok(Value::Text(text)),
                Err(e) => Err(e),
            },
            Shape::Optional(inner) => if self.read_option() {
                match self.read_value(inner) {
                    Ok(value) => Ok(Value::Present(Box::new(value))),
                    Err(e) => Err(e),
                }
            } else {
                Ok(Value::Absent)
            },
            Shape::Sequence(element) => {
                let count = self.read_seq();
                match self.read_elements(element, count) {
                    Ok(values) => Ok(Value::Sequence(values)),
                    Err(e) => Err(e),
                }
            },
            Shape::Tuple(positions) => match self.read_tuple(positions.len()) {
                Err(e) => Err(e),
                Ok(_) => match self.read_positions(positions) {
                    Ok(values) => Ok(Value::Tuple(values)),
                    Err(e) => Err(e),
                },
            },
            Shape::Struct(fields) => match self.read_struct("", fields.len()) {
                Err(e) => Err(e),
                Ok(_) => match self.read_fields(fields) {
                    Ok(members) => Ok(Value::Struct(members)),
                    Err(e) => Err(e),
                },
            },
            Shape::Bool => match self.read_bool() {
                Ok(_) => Err(DecodeError::Unimplemented),
                Err(e) => Err(e),
            },
            Shape::Unit => match self.read_nil() {
                Ok(_) => Err(DecodeError::Unimplemented),
                Err(e) => Err(e),
            },
            Shape::TupleStruct => match self.read_tuple_struct("", 0) {
                Ok(_) => Err(DecodeError::Unimplemented),
                Err(e) => Err(e),
            },
            Shape::Mapping => match self.read_map() {
                Ok(_) => Err(DecodeError::Unimplemented),
                Err(e) => Err(e),
            },
            Shape::Enum => match self.read_enum("") {
                Ok(_) => Err(DecodeError::Unimplemented),
                Err(e) => Err(e),
            },
        }
    }

    /// Walks `count` times over `element` and returns the values in order.
    fn read_elements(&mut self, element: &Shape, count: usize) -> (r: Result<
        Vec<Value>,
        DecodeError,
    >)
        ensures
            final(self)@ == walk_elements(old(self)@, *element, count as nat).decoder,
            match walk_elements(old(self)@, *element, count as nat).result {
                Ok(values) => r matches Ok(v) && values_view(v) == values,
                Err(e) => r == Err::<Vec<Value>, DecodeError>(e),
            },
        decreases element, 1nat,
    {
        let ghost whole = walk_elements(self@, *element, count as nat);
        let mut values: Vec<Value> = Vec::new();
        let mut i: usize = 0;
        proof {
            assert(values_view(values) =~= Seq::empty());
            lemma_after_nothing_done(whole);
        }
        while i < count
            invariant
                0 <= i <= count,
                whole == walk_elements(old(self)@, *element, count as nat),
                whole == after(
                    values_view(values),
                    walk_elements(self@, *element, (count - i) as nat),
                ),
            decreases count - i,
        {
            let ghost here = self@;
            let ghost done = values_view(values);
            let ghost rest = walk_elements(
                walk(here, *element).decoder,
                *element,
                (count - i - 1) as nat,
            );
            match self.read_seq_elt(i) {
                Err(e) => {
                    return Err(e);
                },
                Ok(_) => {},
            }
            match self.read_value(element) {
                Err(e) => {
                    assert(walk_elements(here, *element, (count - i) as nat) == (Outcome {
                        result: Err::<Seq<ValueView>, DecodeError>(e),
                        decoder: self@,
                    }));
                    return Err(e);
                },
                Ok(value) => {
                    values.push(value);
                    proof {
                        assert(values_view(values) =~= done.push(value@));
                        lemma_after_push(done, value@, rest);
                    }
                },
            }
            i = i + 1;
        }
        proof {
            lemma_after_nothing(values_view(values), self@);
        }
        Ok(values)
    }

    /// Walks over the positions of a tuple and returns the values in order.
    fn read_positions(&mut self, positions: &Vec<Shape>) -> (r: Result<Vec<Value>, DecodeError>)
        ensures
            final(self)@ == walk_positions(old(self)@, *positions, 0).decoder,
            match walk_positions(old(self)@, *positions, 0).result {
                Ok(values) => r matches Ok(v) && values_view(v) == values,
                Err(e) => r == Err::<Vec<Value>, DecodeError>(e),
            },
        decreases positions, 1nat,
    {
        let ghost whole = walk_positions(self@, *positions, 0);
        let mut values: Vec<Value> = Vec::new();
        let mut i: usize = 0;
        proof {
            assert(values_view(values) =~= Seq::empty());
            lemma_after_nothing_done(whole);
        }
        while i < positions.len()
            invariant
                0 <= i <= positions.len(),
                whole == walk_positions(old(self)@, *positions, 0),
                whole == after(values_view(values), walk_positions(self@, *positions, i as int)),
            decreases positions.len() - i,
        {
            let ghost here = self@;
            let ghost done = values_view(values);
            match self.read_tuple_arg(i) {
                Err(e) => {
                    assert(walk_positions(here, *positions, i as int) == (Outcome {
                        result: Err::<Seq<ValueView>, DecodeError>(e),
                        decoder: self@,
                    }));
                    return Err(e);
                },
                Ok(_) => {},
            }
            let ghost rest = walk_positions(
                walk(self@, positions[i as int]).decoder,
                *positions,
                i + 1,
            );
            match self.read_value(&positions[i]) {
                Err(e) => {
                    assert(walk_positions(here, *positions, i as int) == (Outcome {
                        result: Err::<Seq<ValueView>, DecodeError>(e),
                        decoder: self@,
                    }));
                    return Err(e);
                },
                Ok(value) => {
                    values.push(value);
                    proof {
                        assert(values_view(values) =~= done.push(value@));
                        lemma_after_push(done, value@, rest);
                    }
                },
            }
            i = i + 1;
        }
        proof {
            lemma_after_nothing(values_view(values), self@);
        }
        Ok(values)
    }

    /// Walks over the fields of a structure and returns them with their values in order.
    fn read_fields(&mut self, fields: &Vec<Field>) -> (r: Result<Vec<Member>, DecodeError>)
        ensures
            final(self)@ == walk_fields(old(self)@, *fields, 0).decoder,
            match walk_fields(old(self)@, *fields, 0).result {
                Ok(members) => r matches Ok(m) && members_view(m) == members,
                Err(e) => r == Err::<Vec<Member>, DecodeError>(e),
            },
        decreases fields, 1nat,
    {
        let ghost whole = walk_fields(self@, *fields, 0);
        let mut members: Vec<Member> = Vec::new();
        let mut i: usize = 0;
        proof {
            assert(members_view(members) =~= Seq::empty());
            lemma_after_nothing_done(whole);
        }
        while i < fields.len()
            invariant
                0 <= i <= fields.len(),
                whole == walk_fields(old(self)@, *fields, 0),
                whole == after(members_view(members), walk_fields(self@, *fields, i as int)),
            decreases fields.len() - i,
        {
            let ghost here = self@;
            let ghost done = members_view(members);
            match self.read_struct_field(fields[i].name.as_str(), i) {
                Err(e) => {
                    assert(walk_fields(here, *fields, i as int) == (Outcome {
                        result: Err::<Seq<MemberView>, DecodeError>(e),
                        decoder: self@,
                    }));
                    return Err(e);
                },
                Ok(_) => {},
            }
            let ghost rest = walk_fields(
                walk(self@, fields[i as int].shape).decoder,
                *fields,
                i + 1,
            );
            match self.read_value(&fields[i].shape) {
                Err(e) => {
                    assert(walk_fields(here, *fields, i as int) == (Outcome {
                        result: Err::<Seq<MemberView>, DecodeError>(e),
                        decoder: self@,
                    }));
                    return Err(e);
                },
                Ok(value) => {
                    let member = Member { name: fields[i].name.clone(), value };
                    members.push(member);
                    proof {
                        assert(members_view(members) =~= done.push(member@));
                        lemma_after_push(done, member@, rest);
                    }
                },
            }
            i = i + 1;
        }
        proof {
            lemma_after_nothing(members_view(members), self@);
        }
        Ok(members)
    }
}

} // verus!
