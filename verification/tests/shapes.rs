use regex::Regex;
use regex_decode::{
    capture, decode, decode_captures, CaptureSet, DecodeError, Field, Group, Member, ParseFailure,
    Shape, Value,
};

fn text(s: &str) -> Value {
    Value::Text(s.to_string())
}

fn member(name: &str, value: Value) -> Member {
    Member { name: name.to_string(), value }
}

fn optional(shape: Shape) -> Shape {
    Shape::Optional(Box::new(shape))
}

fn present(value: Value) -> Value {
    Value::Present(Box::new(value))
}

fn sequence(shape: Shape) -> Shape {
    Shape::Sequence(Box::new(shape))
}

fn movie_pattern() -> Regex {
    Regex::new(r"'(?P<title>[^']+)'\s+\((?P<year>\d{4})?\)").unwrap()
}

const WITH_YEAR: &str = "Not my favorite movie: 'Citizen Kane' (1941).";
const WITHOUT_YEAR: &str = "'Citizen Kane' ().";

#[test]
fn capture_copies_names_and_texts() {
    let set = capture(&movie_pattern(), WITH_YEAR).unwrap();
    let expected = CaptureSet::new(vec![
        Group::new(None, Some("'Citizen Kane' (1941)")),
        Group::new(Some("title"), Some("Citizen Kane")),
        Group::new(Some("year"), Some("1941")),
    ]);
    assert_eq!(set, expected);
}

#[test]
fn capture_marks_groups_that_took_no_part() {
    let set = capture(&movie_pattern(), WITHOUT_YEAR).unwrap();
    let expected = CaptureSet::new(vec![
        Group::new(None, Some("'Citizen Kane' ()")),
        Group::new(Some("title"), Some("Citizen Kane")),
        Group::new(Some("year"), None),
    ]);
    assert_eq!(set, expected);
}

#[test]
fn capture_takes_the_leftmost_match() {
    let re = Regex::new(r"(\d)(?P<letter>[a-z])").unwrap();
    let set = capture(&re, "--1a--2b--").unwrap();
    let expected = CaptureSet::new(vec![
        Group::new(None, Some("1a")),
        Group::new(None, Some("1")),
        Group::new(Some("letter"), Some("a")),
    ]);
    assert_eq!(set, expected);
}

#[test]
fn capture_finds_no_match() {
    assert_eq!(capture(&movie_pattern(), "Citizen Kane, 1941"), None);
    assert_eq!(capture(&movie_pattern(), ""), None);
}

#[test]
fn capture_of_a_pattern_without_groups() {
    let re = Regex::new(r"[a-z]+").unwrap();
    let set = capture(&re, "12 abc 34").unwrap();
    assert_eq!(set, CaptureSet::new(vec![Group::new(None, Some("abc"))]));
}

#[test]
fn a_text_field_is_the_capture_character_for_character() {
    let re = Regex::new(r"<(?P<g>[^>]*)>").unwrap();
    let shape = Shape::Struct(vec![Field::new("g", Shape::Text)]);
    let value = decode(&re, "x <  a \\n \"b\"\t > y", &shape).unwrap();
    assert_eq!(value, Value::Struct(vec![member("g", text("  a \\n \"b\"\t "))]));
    let value = decode(&re, "<>", &shape).unwrap();
    assert_eq!(value, Value::Struct(vec![member("g", text(""))]));
}

#[test]
fn fields_are_found_by_name_whatever_the_order() {
    let shape = Shape::Struct(vec![
        Field::new("year", Shape::U32),
        Field::new("title", Shape::Text),
    ]);
    let value = decode(&movie_pattern(), WITH_YEAR, &shape).unwrap();
    assert_eq!(
        value,
        Value::Struct(vec![
            member("year", Value::U32(1941)),
            member("title", text("Citizen Kane")),
        ])
    );
}

#[test]
fn a_field_may_be_asked_for_twice() {
    let shape = Shape::Struct(vec![
        Field::new("year", Shape::U32),
        Field::new("year", Shape::Text),
    ]);
    let value = decode(&movie_pattern(), WITH_YEAR, &shape).unwrap();
    assert_eq!(
        value,
        Value::Struct(vec![member("year", Value::U32(1941)), member("year", text("1941"))])
    );
}

#[test]
fn a_structure_without_fields() {
    let value = decode(&movie_pattern(), WITH_YEAR, &Shape::Struct(vec![])).unwrap();
    assert_eq!(value, Value::Struct(vec![]));
}

#[test]
fn decode_struct_with_u8_too_large_is_an_invalid_primitive() {
    let re = Regex::new(r"'(?P<title>[^']+)'\s+\((?P<year>\d{4})\)").unwrap();
    let shape = Shape::Struct(vec![
        Field::new("title", Shape::Text),
        Field::new("year", Shape::U8),
    ]);
    assert_eq!(
        decode(&re, WITH_YEAR, &shape),
        Err(DecodeError::InvalidPrimitive(ParseFailure::PosOverflow))
    );
}

#[test]
fn decode_struct_with_char_too_large_is_an_invalid_char() {
    let shape = Shape::Struct(vec![
        Field::new("title", Shape::Char),
        Field::new("year", Shape::Usize),
    ]);
    assert_eq!(decode(&movie_pattern(), WITH_YEAR, &shape), Err(DecodeError::InvalidChar));
}

#[test]
fn the_first_failure_is_the_error() {
    let shape = Shape::Struct(vec![
        Field::new("title", Shape::Char),
        Field::new("year", Shape::U8),
        Field::new("director", Shape::Text),
    ]);
    assert_eq!(decode(&movie_pattern(), WITH_YEAR, &shape), Err(DecodeError::InvalidChar));
    let shape = Shape::Struct(vec![
        Field::new("director", Shape::Text),
        Field::new("title", Shape::Char),
    ]);
    assert_eq!(decode(&movie_pattern(), WITH_YEAR, &shape), Err(DecodeError::MissingField));
}

#[test]
fn an_optional_group_that_took_no_part_decodes_to_absent() {
    let shape = Shape::Struct(vec![
        Field::new("title", Shape::Text),
        Field::new("year", optional(Shape::U32)),
    ]);
    let value = decode(&movie_pattern(), WITHOUT_YEAR, &shape).unwrap();
    assert_eq!(
        value,
        Value::Struct(vec![member("title", text("Citizen Kane")), member("year", Value::Absent)])
    );
}

#[test]
fn an_optional_group_that_took_part_decodes_to_present() {
    let shape = Shape::Struct(vec![
        Field::new("title", optional(Shape::Text)),
        Field::new("year", optional(Shape::U32)),
    ]);
    let value = decode(&movie_pattern(), WITH_YEAR, &shape).unwrap();
    assert_eq!(
        value,
        Value::Struct(vec![
            member("title", present(text("Citizen Kane"))),
            member("year", present(Value::U32(1941))),
        ])
    );
}

#[test]
fn an_optional_value_that_is_present_is_still_converted() {
    let shape = Shape::Struct(vec![Field::new("title", optional(Shape::U32))]);
    assert_eq!(
        decode(&movie_pattern(), WITH_YEAR, &shape),
        Err(DecodeError::InvalidPrimitive(ParseFailure::InvalidDigit))
    );
}

#[test]
fn an_option_within_an_option() {
    let shape = Shape::Struct(vec![Field::new("year", optional(optional(Shape::U32)))]);
    assert_eq!(
        decode(&movie_pattern(), WITH_YEAR, &shape),
        Ok(Value::Struct(vec![member("year", present(present(Value::U32(1941))))]))
    );
    assert_eq!(
        decode(&movie_pattern(), WITHOUT_YEAR, &shape),
        Ok(Value::Struct(vec![member("year", Value::Absent)]))
    );
}

#[test]
fn a_group_that_took_no_part_is_a_missing_value_unless_optional() {
    let shape = Shape::Struct(vec![
        Field::new("title", Shape::Text),
        Field::new("year", Shape::U32),
    ]);
    assert_eq!(decode(&movie_pattern(), WITHOUT_YEAR, &shape), Err(DecodeError::MissingValue));
}

#[test]
fn a_field_of_no_group_is_missing_even_if_optional() {
    let shape = Shape::Struct(vec![
        Field::new("title", Shape::Text),
        Field::new("director", optional(Shape::Text)),
    ]);
    assert_eq!(decode(&movie_pattern(), WITH_YEAR, &shape), Err(DecodeError::MissingField));
}

#[test]
fn a_tuple_binds_the_groups_in_order() {
    let re = Regex::new(r"(\d+)-(?P<b>\d+)-(\d+)").unwrap();
    let shape = Shape::Tuple(vec![Shape::U8, Shape::I16, Shape::Text]);
    assert_eq!(
        decode(&re, "on 12-034-5.", &shape),
        Ok(Value::Tuple(vec![Value::U8(12), Value::I16(34), text("5")]))
    );
}

#[test]
fn a_tuple_of_a_text_and_a_number() {
    let re = Regex::new(r"'(?P<title>[^']+)'\s+\((?P<year>\d{4})\)").unwrap();
    let shape = Shape::Tuple(vec![Shape::Text, Shape::U32]);
    assert_eq!(
        decode(&re, "'Citizen Kane' (1941).", &shape),
        Ok(Value::Tuple(vec![text("Citizen Kane"), Value::U32(1941)]))
    );
}

#[test]
fn a_struct_of_a_text_and_a_number() {
    let re = Regex::new(r"'(?P<title>[^']+)'\s+\((?P<year>\d{4})\)").unwrap();
    let shape = Shape::Struct(vec![
        Field::new("title", Shape::Text),
        Field::new("year", Shape::U32),
    ]);
    assert_eq!(
        decode(&re, "'Citizen Kane' (1941).", &shape),
        Ok(Value::Struct(vec![
            member("title", text("Citizen Kane")),
            member("year", Value::U32(1941)),
        ]))
    );
}

#[test]
fn a_tuple_may_use_fewer_groups_than_there_are() {
    let re = Regex::new(r"(\d+)-(\d+)-(\d+)").unwrap();
    assert_eq!(
        decode(&re, "1-2-3", &Shape::Tuple(vec![Shape::U8])),
        Ok(Value::Tuple(vec![Value::U8(1)]))
    );
    assert_eq!(decode(&re, "1-2-3", &Shape::Tuple(vec![])), Ok(Value::Tuple(vec![])));
}

#[test]
fn a_tuple_longer_than_the_groups_misses_a_value() {
    let re = Regex::new(r"(\d+)-(\d+)").unwrap();
    let shape = Shape::Tuple(vec![Shape::U8, Shape::U8, Shape::U8]);
    assert_eq!(decode(&re, "1-2", &shape), Err(DecodeError::MissingValue));
}

#[test]
fn a_tuple_position_that_took_no_part_misses_a_value_even_if_optional() {
    let shape = Shape::Tuple(vec![Shape::Text, optional(Shape::U32)]);
    assert_eq!(decode(&movie_pattern(), WITHOUT_YEAR, &shape), Err(DecodeError::MissingValue));
    assert_eq!(
        decode(&movie_pattern(), WITH_YEAR, &shape),
        Ok(Value::Tuple(vec![text("Citizen Kane"), present(Value::U32(1941))]))
    );
}

#[test]
fn a_sequence_collects_named_and_unnamed_groups_alike() {
    let re = Regex::new(r"(\w+) (?P<second>\w+) (\w+)").unwrap();
    assert_eq!(
        decode(&re, "- one two three -", &sequence(Shape::Text)),
        Ok(Value::Sequence(vec![text("one"), text("two"), text("three")]))
    );
}

#[test]
fn a_sequence_of_numbers() {
    let re = Regex::new(r"(\d+),(\d+),(\d+)").unwrap();
    assert_eq!(
        decode(&re, "7,8,9", &sequence(Shape::U64)),
        Ok(Value::Sequence(vec![Value::U64(7), Value::U64(8), Value::U64(9)]))
    );
    assert_eq!(
        decode(&re, "7,8,999", &sequence(Shape::U8)),
        Err(DecodeError::InvalidPrimitive(ParseFailure::PosOverflow))
    );
}

#[test]
fn a_sequence_of_a_pattern_without_groups_is_empty() {
    let re = Regex::new(r"\d+").unwrap();
    assert_eq!(decode(&re, "42", &sequence(Shape::Text)), Ok(Value::Sequence(vec![])));
}

#[test]
fn a_sequence_with_a_group_that_took_no_part() {
    let re = Regex::new(r"(\w)(\d)?(\w)").unwrap();
    assert_eq!(decode(&re, "AZ", &sequence(Shape::Text)), Err(DecodeError::MissingValue));
    assert_eq!(
        decode(&re, "AZ", &sequence(optional(Shape::Char))),
        Ok(Value::Sequence(vec![
            present(Value::Char('A')),
            Value::Absent,
            present(Value::Char('Z')),
        ]))
    );
}

#[test]
fn no_match_whatever_the_shape() {
    let re = movie_pattern();
    let shapes = vec![
        Shape::U8,
        Shape::I64,
        Shape::Char,
        Shape::Text,
        Shape::Bool,
        Shape::Unit,
        Shape::Mapping,
        Shape::Enum,
        Shape::TupleStruct,
        optional(Shape::Text),
        sequence(Shape::Text),
        Shape::Tuple(vec![]),
        Shape::Tuple(vec![Shape::Text, Shape::U32]),
        Shape::Struct(vec![]),
        Shape::Struct(vec![Field::new("title", Shape::Text)]),
        Shape::Struct(vec![Field::new("director", Shape::Text)]),
    ];
    for shape in shapes {
        assert_eq!(decode(&re, "no movie here", &shape), Err(DecodeError::NoMatch));
    }
}

#[test]
fn the_same_inputs_give_the_same_result() {
    let re = movie_pattern();
    let shapes = vec![
        Shape::Struct(vec![Field::new("title", Shape::Text), Field::new("year", Shape::U32)]),
        Shape::Struct(vec![Field::new("title", Shape::Char)]),
        Shape::Tuple(vec![Shape::Text, Shape::U8]),
        sequence(Shape::Text),
        Shape::Bool,
    ];
    for shape in shapes {
        for text in [WITH_YEAR, WITHOUT_YEAR, "nothing"] {
            let first = decode(&re, text, &shape);
            let second = decode(&re, text, &shape);
            assert_eq!(first, second);
            let again = decode(&movie_pattern(), text, &shape);
            assert_eq!(first, again);
        }
    }
}

#[test]
fn shapes_that_are_not_supported() {
    let re = movie_pattern();
    for shape in [Shape::Bool, Shape::Unit, Shape::TupleStruct, Shape::Mapping, Shape::Enum] {
        assert_eq!(decode(&re, WITH_YEAR, &shape), Err(DecodeError::Unimplemented));
        let inside = Shape::Struct(vec![Field::new("title", shape)]);
        assert_eq!(decode(&re, WITH_YEAR, &inside), Err(DecodeError::Unimplemented));
    }
}

#[test]
fn a_scalar_by_itself_has_nothing_staged() {
    let re = movie_pattern();
    assert_eq!(decode(&re, WITH_YEAR, &Shape::Text), Err(DecodeError::MissingValue));
    assert_eq!(decode(&re, WITH_YEAR, &Shape::U32), Err(DecodeError::MissingValue));
    assert_eq!(decode(&re, WITH_YEAR, &Shape::Char), Err(DecodeError::MissingValue));
    assert_eq!(decode(&re, WITH_YEAR, &optional(Shape::Text)), Ok(Value::Absent));
}

#[test]
fn every_width_of_number_decodes() {
    let re = Regex::new(r"(?P<n>-?\d+)").unwrap();
    let cases: Vec<(Shape, &str, Value)> = vec![
        (Shape::U8, "200", Value::U8(200)),
        (Shape::U16, "60000", Value::U16(60000)),
        (Shape::U32, "4000000000", Value::U32(4_000_000_000)),
        (Shape::U64, "18000000000000000000", Value::U64(18_000_000_000_000_000_000)),
        (Shape::Usize, "1941", Value::Usize(1941)),
        (Shape::I8, "-100", Value::I8(-100)),
        (Shape::I16, "-30000", Value::I16(-30000)),
        (Shape::I32, "-2000000000", Value::I32(-2_000_000_000)),
        (Shape::I64, "-9000000000000000000", Value::I64(-9_000_000_000_000_000_000)),
        (Shape::Isize, "-1941", Value::Isize(-1941)),
    ];
    for (shape, text, expected) in cases {
        let shape = Shape::Struct(vec![Field::new("n", shape)]);
        assert_eq!(decode(&re, text, &shape), Ok(Value::Struct(vec![member("n", expected)])));
    }
}

#[test]
fn structures_within_structures_share_the_groups() {
    let inner = Shape::Struct(vec![Field::new("year", Shape::U32)]);
    let shape = Shape::Struct(vec![
        Field::new("title", inner),
        Field::new("year", Shape::Text),
    ]);
    assert_eq!(
        decode(&movie_pattern(), WITH_YEAR, &shape),
        Ok(Value::Struct(vec![
            member("title", Value::Struct(vec![member("year", Value::U32(1941))])),
            member("year", text("1941")),
        ]))
    );
}

#[test]
fn a_tuple_within_a_sequence_repeats_itself() {
    let re = Regex::new(r"(\d)(\d)").unwrap();
    let pair = Shape::Tuple(vec![Shape::U8, Shape::U8]);
    assert_eq!(
        decode(&re, "12", &sequence(pair)),
        Ok(Value::Sequence(vec![
            Value::Tuple(vec![Value::U8(1), Value::U8(2)]),
            Value::Tuple(vec![Value::U8(1), Value::U8(2)]),
        ]))
    );
}

#[test]
fn decode_captures_needs_no_pattern() {
    let captures = CaptureSet::new(vec![
        Group::new(None, Some("41 C")),
        Group::new(Some("n"), Some("41")),
        Group::new(Some("c"), Some("C")),
    ]);
    let shape = Shape::Struct(vec![Field::new("c", Shape::Char), Field::new("n", Shape::U8)]);
    assert_eq!(
        decode_captures(captures, &shape),
        Ok(Value::Struct(vec![member("c", Value::Char('C')), member("n", Value::U8(41))]))
    );
}
