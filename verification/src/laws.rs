//! What holds of every decode.
//!
//! The walk over a shape is defined request by request. For the shapes in common use, where
//! every field, position or element is a scalar (a number, a character, a text, or one of these
//! made optional), what it returns can be said at once: each part is converted from the text of
//! its own capture group, and the first part that fails decides the error. The proofs here
//! show that, and the laws of the single conversions.

use crate::captures::{index_of_name, positional_texts, text_at, GroupView};
use crate::decoder::{char_of, conforms, decode_result, decoded, number_of, DecoderView};
use crate::errors::DecodeError;
use crate::matcher::match_groups;
use crate::number::{all_digits, decimal_value, digits_of, is_digit};
use crate::shape::{has_shape, Field, MemberView, Shape, Value, ValueView};
use crate::walker::{
    is_leaf, is_number, leaf_value, number_value, range_of, walk, walk_elements, walk_fields,
    walk_positions, Outcome,
};
use regex::Regex;
use vstd::prelude::*;

verus! {

broadcast use vstd::std_specs::vec::axiom_vec_index_decreases;

/// Whether `shape` is converted from one staged value: a leaf, or a scalar made optional.
pub open spec fn is_scalar(shape: Shape) -> bool
    decreases shape,
{
    match shape {
        Shape::Optional(inner) => is_scalar(*inner),
        _ => is_leaf(shape),
    }
}

/// What the scalar shape `shape` makes of the staged value `staged`: the converted text, and
/// for an optional shape no value where the group took no part in the match.
pub open spec fn scalar_value(shape: Shape, staged: Option<Seq<char>>) -> Result<
    ValueView,
    DecodeError,
>
    decreases shape,
{
    match shape {
        Shape::Optional(inner) => if staged is Some {
            match scalar_value(*inner, staged) {
                Ok(value) => Ok(ValueView::Present(Box::new(value))),
                Err(e) => Err(e),
            }
        } else {
            Ok(ValueView::Absent)
        },
        _ => leaf_value(shape, staged),
    }
}

/// The values of `results` where each of them is a value, and else the first error among
/// them.
pub open spec fn collect<T>(results: Seq<Result<T, DecodeError>>) -> Result<Seq<T>, DecodeError>
    decreases results.len(),
{
    if results.len() == 0 {
        Ok(Seq::empty())
    } else {
        match results[0] {
            Err(e) => Err(e),
            Ok(value) => match collect(results.drop_first()) {
                Ok(values) => Ok(seq![value] + values),
                Err(e) => Err(e),
            },
        }
    }
}

/// `collect` returns values exactly where every result is a value, and then the value of
/// every result in order.
pub proof fn lemma_collect_values<T>(results: Seq<Result<T, DecodeError>>)
    ensures
        collect(results) is Ok <==> forall|k: int|
            0 <= k < results.len() ==> (#[trigger] results[k]) is Ok,
        collect(results) matches Ok(values) ==> {
            &&& values.len() == results.len()
            &&& forall|k: int|
                0 <= k < results.len() ==> results[k] == Ok::<T, DecodeError>(#[trigger] values[k])
        },
    decreases results.len(),
{
    if results.len() > 0 {
        let rest = results.drop_first();
        lemma_collect_values(rest);
        assert forall|k: int| 0 <= k < rest.len() implies rest[k] == results[k + 1] by {}
        if collect(results) is Ok {
            let values = collect(results)->Ok_0;
            let others = collect(rest)->Ok_0;
            assert forall|k: int| 0 <= k < results.len() implies (#[trigger] results[k]) is Ok
                && results[k] == Ok::<T, DecodeError>(values[k]) by {
                if k > 0 {
                    assert(rest[k - 1] == results[k]);
                    assert(values[k] == others[k - 1]);
                }
            }
        } else if results[0] is Ok {
            let k = choose|k: int| 0 <= k < rest.len() && !((#[trigger] rest[k]) is Ok);
            assert(rest[k] == results[k + 1]);
        }
    }
}

/// Whether the result at index `k` is an error and every result before it a value.
pub open spec fn is_first_error<T>(results: Seq<Result<T, DecodeError>>, k: int) -> bool {
    &&& 0 <= k < results.len()
    &&& results[k] is Err
    &&& forall|j: int| 0 <= j < k ==> (#[trigger] results[j]) is Ok
}

/// `collect` fails with the error of the first result that is no value.
pub proof fn lemma_collect_first_error<T>(results: Seq<Result<T, DecodeError>>, k: int)
    requires
        is_first_error(results, k),
    ensures
        collect(results) == Err::<Seq<T>, DecodeError>(results[k]->Err_0),
    decreases results.len(),
{
    if k > 0 {
        let rest = results.drop_first();
        assert(results[0] is Ok);
        assert forall|j: int| 0 <= j < k - 1 implies (#[trigger] rest[j]) is Ok by {
            assert(rest[j] == results[j + 1]);
        }
        lemma_collect_first_error(rest, k - 1);
    }
}

/// What position `position` of a tuple, of the scalar shape `shape`, is decoded to.
pub open spec fn position_value(groups: Seq<GroupView>, shape: Shape, position: int) -> Result<
    ValueView,
    DecodeError,
> {
    match text_at(groups, position + 1) {
        None => Err(DecodeError::MissingValue),
        Some(text) => scalar_value(shape, Some(text)),
    }
}

/// What each position of a tuple of scalar shapes is decoded to.
pub open spec fn position_values(groups: Seq<GroupView>, positions: Vec<Shape>) -> Seq<
    Result<ValueView, DecodeError>,
> {
    Seq::new(positions.len() as nat, |k: int| position_value(groups, positions[k], k))
}

/// What a field of a scalar shape is decoded to.
pub open spec fn field_value(groups: Seq<GroupView>, field: Field) -> Result<
    MemberView,
    DecodeError,
> {
    match index_of_name(groups, field.name@) {
        None => Err(DecodeError::MissingField),
        Some(i) => match scalar_value(field.shape, groups[i].text) {
            Ok(value) => Ok(MemberView { name: field.name@, value }),
            Err(e) => Err(e),
        },
    }
}

/// What each field of a structure of scalar fields is decoded to.
pub open spec fn field_values(groups: Seq<GroupView>, fields: Vec<Field>) -> Seq<
    Result<MemberView, DecodeError>,
> {
    Seq::new(fields.len() as nat, |k: int| field_value(groups, fields[k]))
}

/// What each element of a sequence of the scalar shape `element` is decoded to.
pub open spec fn element_values(groups: Seq<GroupView>, element: Shape) -> Seq<
    Result<ValueView, DecodeError>,
> {
    Seq::new(
        positional_texts(groups).len(),
        |k: int| scalar_value(element, positional_texts(groups)[k]),
    )
}

/// A walk over a scalar shape takes the staged value on top and converts it. Nothing else of
/// the decoder matters to it, and nothing else changes.
pub proof fn lemma_walk_scalar(d: DecoderView, shape: Shape)
    requires
        is_scalar(shape),
    ensures
        walk(d, shape) == (Outcome { result: scalar_value(shape, d.current()), decoder: d.taken() }),
    decreases shape,
{
    match shape {
        Shape::Optional(inner) => {
            if d.current() is Some {
                lemma_walk_scalar(d, *inner);
            }
        },
        _ => {},
    }
}

/// Staging a value and taking it again leaves the decoder as it was.
pub proof fn lemma_staged_then_taken(d: DecoderView, value: Option<Seq<char>>)
    ensures
        d.staging(value).taken() == d,
        d.staging(value).current() == value,
{
    assert(d.staging(value).taken().staged =~= d.staged);
}

proof fn lemma_walk_positions(d: DecoderView, positions: Vec<Shape>, from: int)
    requires
        0 <= from <= positions.len(),
        forall|k: int| 0 <= k < positions.len() ==> is_scalar(#[trigger] positions[k]),
    ensures
        walk_positions(d, positions, from).result == collect(
            position_values(d.groups, positions).skip(from),
        ),
    decreases positions.len() - from,
{
    let results = position_values(d.groups, positions).skip(from);
    if from < positions.len() {
        assert(results[0] == position_value(d.groups, positions[from], from));
        assert(results.drop_first() =~= position_values(d.groups, positions).skip(from + 1));
        match text_at(d.groups, from + 1) {
            None => {},
            Some(text) => {
                lemma_walk_scalar(d.staging(Some(text)), positions[from]);
                lemma_staged_then_taken(d, Some(text));
                lemma_walk_positions(d, positions, from + 1);
            },
        }
    } else {
        assert(results =~= Seq::empty());
    }
}

proof fn lemma_walk_fields(d: DecoderView, fields: Vec<Field>, from: int)
    requires
        0 <= from <= fields.len(),
        forall|k: int| 0 <= k < fields.len() ==> is_scalar((#[trigger] fields[k]).shape),
    ensures
        walk_fields(d, fields, from).result == collect(field_values(d.groups, fields).skip(from)),
    decreases fields.len() - from,
{
    let results = field_values(d.groups, fields).skip(from);
    if from < fields.len() {
        assert(results[0] == field_value(d.groups, fields[from]));
        assert(results.drop_first() =~= field_values(d.groups, fields).skip(from + 1));
        match index_of_name(d.groups, fields[from].name@) {
            None => {},
            Some(i) => {
                lemma_walk_scalar(d.staging(d.groups[i].text), fields[from].shape);
                lemma_staged_then_taken(d, d.groups[i].text);
                lemma_walk_fields(d, fields, from + 1);
            },
        }
    } else {
        assert(results =~= Seq::empty());
    }
}

proof fn lemma_walk_elements(
    d: DecoderView,
    element: Shape,
    texts: Seq<Option<Seq<char>>>,
    count: nat,
)
    requires
        is_scalar(element),
        count <= texts.len(),
        count <= d.staged.len(),
        d.staged.skip(d.staged.len() - count) == texts.skip(texts.len() - count).reverse(),
    ensures
        walk_elements(d, element, count).result == collect(
            Seq::new(count, |j: int| scalar_value(element, texts[texts.len() - count + j])),
        ),
    decreases count,
{
    let results = Seq::new(count, |j: int| scalar_value(element, texts[texts.len() - count + j]));
    let top = d.staged.skip(d.staged.len() - count);
    let left = texts.skip(texts.len() - count);
    if count > 0 {
        let fewer = (count - 1) as nat;
        lemma_walk_scalar(d, element);
        assert(d.current() == texts[texts.len() - count]) by {
            assert(d.staged.last() == top[count - 1]);
            assert(left.reverse()[count - 1] == left[0]);
        }
        assert(d.taken().staged.skip(d.taken().staged.len() - fewer) =~= texts.skip(
            texts.len() - fewer,
        ).reverse()) by {
            let top_after = d.taken().staged.skip(d.taken().staged.len() - fewer);
            let left_after = texts.skip(texts.len() - fewer);
            assert forall|j: int| 0 <= j < fewer implies top_after[j] == left_after.reverse()[j] by {
                assert(top_after[j] == top[j]);
                assert(left.reverse()[j] == left[count - 1 - j]);
                assert(left_after.reverse()[j] == left_after[fewer - 1 - j]);
            }
        }
        lemma_walk_elements(d.taken(), element, texts, fewer);
        assert(results.drop_first() =~= Seq::new(
            fewer,
            |j: int| scalar_value(element, texts[texts.len() - fewer + j]),
        ));
    } else {
        assert(results =~= Seq::empty());
    }
}

/// A structure of scalar fields decodes field by field, each from the first capture group of
/// its own name, whatever the order of the groups in the pattern: the result holds the value
/// of every field in the order of the fields, or the error of the first field that fails. A
/// field whose name no group bears fails with `MissingField`.
pub proof fn law_struct_by_name(groups: Seq<GroupView>, fields: Vec<Field>)
    requires
        forall|k: int| 0 <= k < fields.len() ==> is_scalar((#[trigger] fields[k]).shape),
    ensures
        decoded(groups, Shape::Struct(fields)) == match collect(field_values(groups, fields)) {
            Ok(members) => Ok(ValueView::Struct(members)),
            Err(e) => Err(e),
        },
        decoded(groups, Shape::Struct(fields)) is Ok <==> forall|k: int|
            0 <= k < fields.len() ==> (#[trigger] field_values(groups, fields)[k]) is Ok,
        forall|k: int| #[trigger]
            is_first_error(field_values(groups, fields), k) ==> decoded(
                groups,
                Shape::Struct(fields),
            ) == Err::<ValueView, DecodeError>(field_values(groups, fields)[k]->Err_0),
{
    let d = DecoderView { groups, staged: Seq::empty() };
    let results = field_values(groups, fields);
    lemma_walk_fields(d, fields, 0);
    assert(results.skip(0) =~= results);
    lemma_collect_values(results);
    assert forall|k: int| #[trigger] is_first_error(results, k) implies collect(results) == Err::<
        Seq<MemberView>,
        DecodeError,
    >(results[k]->Err_0) by {
        lemma_collect_first_error(results, k);
    }
}

/// A structure with one text field decodes to the text that the group of the field's name
/// captured, character for character.
pub proof fn law_text_field(groups: Seq<GroupView>, fields: Vec<Field>, text: Seq<char>)
    requires
        fields.len() == 1,
        fields[0].shape == Shape::Text,
        index_of_name(groups, fields[0].name@) matches Some(i) && groups[i].text == Some(text),
    ensures
        decoded(groups, Shape::Struct(fields)) == Ok::<ValueView, DecodeError>(
            ValueView::Struct(
                seq![MemberView { name: fields[0].name@, value: ValueView::Text(text) }],
            ),
        ),
{
    law_struct_by_name(groups, fields);
    let results = field_values(groups, fields);
    let member = MemberView { name: fields[0].name@, value: ValueView::Text(text) };
    assert(results[0] == Ok::<MemberView, DecodeError>(member));
    assert(collect(results.drop_first()) == Ok::<Seq<MemberView>, DecodeError>(Seq::empty()));
    assert(seq![member] + Seq::empty() =~= seq![member]);
}

/// A text of decimal digits, with a `-` before it for a negative number, decodes to exactly
/// the number it denotes where that lies in the range of the type asked for, and fails with
/// `InvalidPrimitive` where it lies outside.
pub proof fn law_decimal_number(digits: Seq<char>, negative: bool, lo: int, hi: int)
    requires
        digits.len() > 0,
        all_digits(digits),
        negative ==> lo < 0,
    ensures
        ({
            let text = if negative {
                seq!['-'] + digits
            } else {
                digits
            };
            let value = if negative {
                -(decimal_value(digits) as int)
            } else {
                decimal_value(digits) as int
            };
            &&& lo <= value <= hi ==> number_of(Some(text), lo, hi) == Ok::<int, DecodeError>(value)
            &&& !(lo <= value <= hi) ==> number_of(Some(text), lo, hi) matches Err(
                DecodeError::InvalidPrimitive(_),
            )
        }),
{
    if negative {
        let text = seq!['-'] + digits;
        assert(text[0] == '-');
        assert(digits_of(text, lo) =~= digits);
    } else {
        assert(is_digit(digits[0]));
        assert(digits_of(digits, lo) == digits);
    }
}

/// For every integer type, a text of decimal digits, with a `-` before it where the type has
/// negative numbers, decodes to exactly the number it denotes where that is a number of the
/// type, and fails with `InvalidPrimitive` where it is not.
pub proof fn law_number_of_every_width(shape: Shape, digits: Seq<char>, negative: bool)
    requires
        is_number(shape),
        digits.len() > 0,
        all_digits(digits),
        negative ==> range_of(shape).0 < 0,
    ensures
        ({
            let text = if negative {
                seq!['-'] + digits
            } else {
                digits
            };
            let value = if negative {
                -(decimal_value(digits) as int)
            } else {
                decimal_value(digits) as int
            };
            let (lo, hi) = range_of(shape);
            &&& lo <= value <= hi ==> leaf_value(shape, Some(text)) == Ok::<ValueView, DecodeError>(
                number_value(shape, value),
            )
            &&& !(lo <= value <= hi) ==> leaf_value(shape, Some(text)) matches Err(
                DecodeError::InvalidPrimitive(_),
            )
        }),
{
    law_decimal_number(digits, negative, range_of(shape).0, range_of(shape).1);
}

/// A text of one character decodes to that character, and a text of none or of more than one
/// fails.
pub proof fn law_single_character(text: Seq<char>)
    ensures
        text.len() == 1 ==> char_of(Some(text)) == Ok::<char, DecodeError>(text[0]),
        text.len() != 1 ==> char_of(Some(text)) is Err,
{
}

/// An optional shape decodes to no value where the staged capture took no part in the match,
/// and else to what the shape within makes of the captured text.
pub proof fn law_optional(d: DecoderView, inner: Shape)
    ensures
        d.current() is None ==> walk(d, Shape::Optional(Box::new(inner))).result == Ok::<
            ValueView,
            DecodeError,
        >(ValueView::Absent),
        d.current() is Some ==> walk(d, Shape::Optional(Box::new(inner))).result == match walk(
            d,
            inner,
        ).result {
            Ok(value) => Ok(ValueView::Present(Box::new(value))),
            Err(e) => Err(e),
        },
{
}

/// A structure with one optional field decodes the field to no value where the group of its
/// name took no part in the match, and else to what the shape within makes of the captured
/// text.
pub proof fn law_optional_field(groups: Seq<GroupView>, fields: Vec<Field>, inner: Shape)
    requires
        fields.len() == 1,
        fields[0].shape == Shape::Optional(Box::new(inner)),
        is_scalar(inner),
        index_of_name(groups, fields[0].name@) is Some,
    ensures
        ({
            let captured = groups[index_of_name(groups, fields[0].name@)->0].text;
            let name = fields[0].name@;
            &&& captured is None ==> decoded(groups, Shape::Struct(fields)) == Ok::<
                ValueView,
                DecodeError,
            >(ValueView::Struct(seq![MemberView { name, value: ValueView::Absent }]))
            &&& captured is Some ==> decoded(groups, Shape::Struct(fields)) == match scalar_value(
                inner,
                captured,
            ) {
                Ok(value) => Ok(
                    ValueView::Struct(
                        seq![MemberView { name, value: ValueView::Present(Box::new(value)) }],
                    ),
                ),
                Err(e) => Err(e),
            }
        }),
{
    law_struct_by_name(groups, fields);
    let results = field_values(groups, fields);
    let captured = groups[index_of_name(groups, fields[0].name@)->0].text;
    assert(results[0] == field_value(groups, fields[0]));
    assert(collect(results.drop_first()) == Ok::<Seq<MemberView>, DecodeError>(Seq::empty()));
    if let Ok(member) = results[0] {
        assert(seq![member] + Seq::empty() =~= seq![member]);
    }
}

/// A tuple of scalar shapes decodes position by position, position `k` from the capture group
/// at index `k + 1`, the group at index 0 never being used: the result holds the value of
/// every position in order, or the error of the first position that fails.
pub proof fn law_tuple_by_position(groups: Seq<GroupView>, positions: Vec<Shape>)
    requires
        forall|k: int| 0 <= k < positions.len() ==> is_scalar(#[trigger] positions[k]),
    ensures
        decoded(groups, Shape::Tuple(positions)) == match collect(
            position_values(groups, positions),
        ) {
            Ok(values) => Ok(ValueView::Tuple(values)),
            Err(e) => Err(e),
        },
        decoded(groups, Shape::Tuple(positions)) is Ok <==> forall|k: int|
            0 <= k < positions.len() ==> (#[trigger] position_values(groups, positions)[k]) is Ok,
        forall|k: int| #[trigger]
            is_first_error(position_values(groups, positions), k) ==> decoded(
                groups,
                Shape::Tuple(positions),
            ) == Err::<ValueView, DecodeError>(position_values(groups, positions)[k]->Err_0),
{
    let d = DecoderView { groups, staged: Seq::empty() };
    let results = position_values(groups, positions);
    lemma_walk_positions(d, positions, 0);
    assert(results.skip(0) =~= results);
    lemma_collect_values(results);
    assert forall|k: int| #[trigger] is_first_error(results, k) implies collect(results) == Err::<
        Seq<ValueView>,
        DecodeError,
    >(results[k]->Err_0) by {
        lemma_collect_first_error(results, k);
    }
}

/// A sequence of a scalar shape decodes to one element for every capture group after the
/// whole-match group, named or not, in the order of the groups: the result holds the value of
/// every element, or the error of the first element that fails.
pub proof fn law_sequence_of_all_groups(groups: Seq<GroupView>, element: Shape)
    requires
        is_scalar(element),
    ensures
        decoded(groups, Shape::Sequence(Box::new(element))) == match collect(
            element_values(groups, element),
        ) {
            Ok(values) => Ok(ValueView::Sequence(values)),
            Err(e) => Err(e),
        },
        decoded(groups, Shape::Sequence(Box::new(element))) is Ok <==> forall|k: int|
            0 <= k < positional_texts(groups).len() ==> (#[trigger] element_values(
                groups,
                element,
            )[k]) is Ok,
        forall|k: int| #[trigger]
            is_first_error(element_values(groups, element), k) ==> decoded(
                groups,
                Shape::Sequence(Box::new(element)),
            ) == Err::<ValueView, DecodeError>(element_values(groups, element)[k]->Err_0),
{
    let results = element_values(groups, element);
    lemma_collect_values(results);
    assert forall|k: int| #[trigger] is_first_error(results, k) implies collect(results) == Err::<
        Seq<ValueView>,
        DecodeError,
    >(results[k]->Err_0) by {
        lemma_collect_first_error(results, k);
    }
    let d = DecoderView { groups, staged: Seq::empty() };
    let texts = positional_texts(groups);
    let all = d.staging_all();
    assert(all.staged =~= texts.reverse());
    assert(all.staged.skip(0) =~= all.staged);
    assert(texts.skip(0) =~= texts);
    lemma_walk_elements(all, element, texts, texts.len());
    assert(Seq::new(texts.len(), |j: int| scalar_value(element, texts[texts.len() - texts.len() + j]))
        =~= element_values(groups, element));
}

/// A walk that returns a value returns one of the shape walked over, whatever the shape and
/// whatever is staged.
pub proof fn law_value_has_shape(d: DecoderView, shape: Shape)
    ensures
        walk(d, shape).result matches Ok(value) ==> has_shape(value, shape),
    decreases shape, 0nat,
{
    match shape {
        Shape::Optional(inner) => {
            if d.current() is Some {
                law_value_has_shape(d, *inner);
            }
        },
        Shape::Sequence(element) => {
            lemma_elements_have_shape(
                d.staging_all(),
                *element,
                positional_texts(d.groups).len(),
            );
        },
        Shape::Tuple(positions) => {
            lemma_positions_have_shape(d, positions, 0);
        },
        Shape::Struct(fields) => {
            lemma_fields_have_shape(d, fields, 0);
        },
        _ => {},
    }
}

proof fn lemma_elements_have_shape(d: DecoderView, element: Shape, count: nat)
    ensures
        walk_elements(d, element, count).result matches Ok(values) ==> forall|i: int|
            0 <= i < values.len() ==> has_shape(#[trigger] values[i], element),
    decreases element, count + 1,
{
    if count > 0 {
        let first = walk(d, element);
        law_value_has_shape(d, element);
        if let Ok(value) = first.result {
            lemma_elements_have_shape(first.decoder, element, (count - 1) as nat);
        }
    }
}

proof fn lemma_positions_have_shape(d: DecoderView, positions: Vec<Shape>, from: int)
    requires
        0 <= from <= positions.len(),
    ensures
        walk_positions(d, positions, from).result matches Ok(values) ==> {
            &&& values.len() == positions.len() - from
            &&& forall|i: int|
                0 <= i < values.len() ==> has_shape(#[trigger] values[i], positions[from + i])
        },
    decreases positions, positions.len() - from + 1,
{
    if from < positions.len() {
        if let Some(text) = text_at(d.groups, from + 1) {
            let here = walk(d.staging(Some(text)), positions[from]);
            law_value_has_shape(d.staging(Some(text)), positions[from]);
            if let Ok(value) = here.result {
                lemma_positions_have_shape(here.decoder, positions, from + 1);
            }
        }
    }
}

proof fn lemma_fields_have_shape(d: DecoderView, fields: Vec<Field>, from: int)
    requires
        0 <= from <= fields.len(),
    ensures
        walk_fields(d, fields, from).result matches Ok(members) ==> {
            &&& members.len() == fields.len() - from
            &&& forall|i: int|
                0 <= i < members.len() ==> {
                    &&& (#[trigger] members[i]).name == fields[from + i].name@
                    &&& has_shape(members[i].value, fields[from + i].shape)
                }
        },
    decreases fields, fields.len() - from + 1,
{
    if from < fields.len() {
        if let Some(i) = index_of_name(d.groups, fields[from].name@) {
            let here = walk(d.staging(d.groups[i].text), fields[from].shape);
            law_value_has_shape(d.staging(d.groups[i].text), fields[from].shape);
            if let Ok(value) = here.result {
                lemma_fields_have_shape(here.decoder, fields, from + 1);
            }
        }
    }
}

/// Where the pattern does not match, a decode fails with `NoMatch`, whatever the shape.
pub proof fn law_no_match(shape: Shape)
    ensures
        decode_result(None, shape) == Err::<ValueView, DecodeError>(DecodeError::NoMatch),
{
}

/// Two decodes of the same pattern, text and shape return the same: values with the same
/// view, or the same error.
pub proof fn law_same_inputs_same_result(
    regex: Regex,
    text: Seq<char>,
    shape: Shape,
    first: Result<Value, DecodeError>,
    second: Result<Value, DecodeError>,
)
    requires
        conforms(first, decode_result(match_groups(regex, text), shape)),
        conforms(second, decode_result(match_groups(regex, text), shape)),
    ensures
        match first {
            Ok(value) => second matches Ok(other) && other@ == value@,
            Err(e) => second == Err::<Value, DecodeError>(e),
        },
{
}

} // verus!
