//! The decoder: what a walk over a target shape calls, one request at a time.
//!
//! A decoder is bound to the capture set of one match. Between requests it holds the staged
//! values: the capture texts that the requests to come will convert, the next one on top. A
//! request that enters a field, a tuple position or a sequence stages values; a request for a
//! number, a character or a text takes the one on top and converts it; a request for an optional
//! value looks at the one on top and says whether anything is there.
//!
//! A staged value is a capture text, or the mark that a group took no part in the match. Only a
//! request for an optional value turns that mark into "no value"; every other request that
//! meets it fails.

use crate::captures::{
    index_of_name, lemma_index_of_name, positional_texts, text_at, CaptureSet, GroupView,
};
use crate::errors::DecodeError;
use crate::matcher::{capture, match_groups};
use crate::number::{integer_of, parse_integer};
use crate::laws::law_value_has_shape;
use crate::shape::{has_shape, Shape, Value, ValueView};
use crate::walker::walk;
use regex::Regex;
use vstd::prelude::*;

verus! {

broadcast use vstd::string::group_string_axioms;

/// A decoder as specifications see it.
pub struct DecoderView {
    /// The capture groups that the decoder is bound to.
    pub groups: Seq<GroupView>,
    /// The staged values, the next one to be taken last.
    pub staged: Seq<Option<Seq<char>>>,
}

impl DecoderView {
    /// The text that the next conversion works on: that of the staged value on top, where one
    /// is staged and its group took part in the match.
    pub open spec fn current(self) -> Option<Seq<char>> {
        if self.staged.len() > 0 {
            self.staged.last()
        } else {
            None
        }
    }

    /// The decoder once the staged value on top has been taken.
    pub open spec fn taken(self) -> DecoderView {
        if self.staged.len() > 0 {
            DecoderView { groups: self.groups, staged: self.staged.drop_last() }
        } else {
            self
        }
    }

    /// The decoder once `value` has been staged on top.
    pub open spec fn staging(self, value: Option<Seq<char>>) -> DecoderView {
        DecoderView { groups: self.groups, staged: self.staged.push(value) }
    }

    /// The decoder once every group after the whole-match group has been staged, the first of
    /// them on top.
    pub open spec fn staging_all(self) -> DecoderView {
        DecoderView {
            groups: self.groups,
            staged: self.staged + positional_texts(self.groups).reverse(),
        }
    }
}

/// What a request for a text returns on the staged text `current`.
pub open spec fn text_of(current: Option<Seq<char>>) -> Result<Seq<char>, DecodeError> {
    match current {
        Some(text) => Ok(text),
        None => Err(DecodeError::MissingValue),
    }
}

/// What a request for a character returns on the staged text `current`: the character of a
/// text of exactly one.
pub open spec fn char_of(current: Option<Seq<char>>) -> Result<char, DecodeError> {
    match current {
        None => Err(DecodeError::MissingValue),
        Some(text) => if text.len() == 0 {
            Err(DecodeError::MissingValue)
        } else if text.len() == 1 {
            Ok(text[0])
        } else {
            Err(DecodeError::InvalidChar)
        },
    }
}

/// What a request for an integer between `lo` and `hi` returns on the staged text `current`.
pub open spec fn number_of(current: Option<Seq<char>>, lo: int, hi: int) -> Result<
    int,
    DecodeError,
> {
    match current {
        None => Err(DecodeError::MissingValue),
        Some(text) => match integer_of(text, lo, hi) {
            Ok(value) => Ok(value),
            Err(cause) => Err(DecodeError::InvalidPrimitive(cause)),
        },
    }
}

/// Reads captured texts as values, one request at a time.
pub struct Decoder {
    captures: CaptureSet,
    stack: Vec<Option<String>>,
}

impl View for Decoder {
    type V = DecoderView;

    closed spec fn view(&self) -> DecoderView {
        DecoderView { groups: self.captures@, staged: self.stack.deep_view() }
    }
}

impl Decoder {
    /// A decoder bound to `captures`, with nothing staged.
    pub fn new(captures: CaptureSet) -> (decoder: Decoder)
        ensures
            decoder@ == (DecoderView { groups: captures@, staged: Seq::empty() }),
    {
        let decoder = Decoder { captures, stack: Vec::new() };
        assert(decoder.stack.deep_view() =~= Seq::empty());
        decoder
    }

    /// Takes the staged value on top, if any.
    fn take(&mut self) -> (text: Option<String>)
        ensures
            final(self)@ == old(self)@.taken(),
            text.deep_view() == old(self)@.current(),
    {
        let ghost before = self.stack.deep_view();
        let top = self.stack.pop();
        proof {
            if before.len() > 0 {
                assert(self.stack.deep_view() =~= before.drop_last());
            }
        }
        match top {
            Some(value) => value,
            None => None,
        }
    }

    /// Stages `value` on top.
    fn stage(&mut self, value: Option<String>)
        ensures
            final(self)@ == old(self)@.staging(value.deep_view()),
    {
        let ghost before = self.stack.deep_view();
        self.stack.push(value);
        assert(self.stack.deep_view() =~= before.push(value.deep_view()));
    }

    /// Takes the staged value and reads it as an integer between `lo` and `hi`.
    fn read_integer(&mut self, lo: i128, hi: i128) -> (r: Result<i128, DecodeError>)
        ensures
            final(self)@ == old(self)@.taken(),
            match number_of(old(self)@.current(), lo as int, hi as int) {
                Ok(value) => r == Ok::<i128, DecodeError>(value as i128),
                Err(e) => r == Err::<i128, DecodeError>(e),
            },
    {
        match self.take() {
            None => Err(DecodeError::MissingValue),
            Some(text) => match parse_integer(text.as_str(), lo, hi) {
                Ok(value) => Ok(value),
                Err(cause) => Err(DecodeError::InvalidPrimitive(cause)),
            },
        }
    }

    /// A unit value: not supported.
    pub fn read_nil(&mut self) -> (r: Result<(), DecodeError>)
        ensures
            final(self)@ == old(self)@,
            r == Err::<(), DecodeError>(DecodeError::Unimplemented),
    {
        Err(DecodeError::Unimplemented)
    }

    /// Takes the staged value and reads it as a `usize`.
    pub fn read_usize(&mut self) -> (r: Result<usize, DecodeError>)
        ensures
            final(self)@ == old(self)@.taken(),
            match number_of(old(self)@.current(), 0, usize::MAX as int) {
                Ok(value) => r == Ok::<usize, DecodeError>(value as usize),
                Err(e) => r == Err::<usize, DecodeError>(e),
            },
    {
        match self.read_integer(0, usize::MAX as i128) {
            Ok(value) => Ok(value as usize),
            Err(e) => Err(e),
        }
    }

    /// Takes the staged value and reads it as a `u64`.
    pub fn read_u64(&mut self) -> (r: Result<u64, DecodeError>)
        ensures
            final(self)@ == old(self)@.taken(),
            match number_of(old(self)@.current(), 0, u64::MAX as int) {
                Ok(value) => r == Ok::<u64, DecodeError>(value as u64),
                Err(e) => r == Err::<u64, DecodeError>(e),
            },
    {
        match self.read_integer(0, u64::MAX as i128) {
            Ok(value) => Ok(value as u64),
            Err(e) => Err(e),
        }
    }

    /// Takes the staged value and reads it as a `u32`.
    pub fn read_u32(&mut self) -> (r: Result<u32, DecodeError>)
        ensures
            final(self)@ == old(self)@.taken(),
            match number_of(old(self)@.current(), 0, u32::MAX as int) {
                Ok(value) => r == Ok::<u32, DecodeError>(value as u32),
                Err(e) => r == Err::<u32, DecodeError>(e),
            },
    {
        match self.read_integer(0, u32::MAX as i128) {
            Ok(value) => Ok(value as u32),
            Err(e) => Err(e),
        }
    }

    /// Takes the staged value and reads it as a `u16`.
    pub fn read_u16(&mut self) -> (r: Result<u16, DecodeError>)
        ensures
            final(self)@ == old(self)@.taken(),
            match number_of(old(self)@.current(), 0, u16::MAX as int) {
                Ok(value) => r == Ok::<u16, DecodeError>(value as u16),
                Err(e) => r == Err::<u16, DecodeError>(e),
            },
    {
        match self.read_integer(0, u16::MAX as i128) {
            Ok(value) => Ok(value as u16),
            Err(e) => Err(e),
        }
    }

    /// Takes the staged value and reads it as a `u8`.
    pub fn read_u8(&mut self) -> (r: Result<u8, DecodeError>)
        ensures
            final(self)@ == old(self)@.taken(),
            match number_of(old(self)@.current(), 0, u8::MAX as int) {
                Ok(value) => r == Ok::<u8, DecodeError>(value as u8),
                Err(e) => r == Err::<u8, DecodeError>(e),
            },
    {
        match self.read_integer(0, u8::MAX as i128) {
            Ok(value) => Ok(value as u8),
            Err(e) => Err(e),
        }
    }

    /// Takes the staged value and reads it as an `isize`.
    pub fn read_isize(&mut self) -> (r: Result<isize, DecodeError>)
        ensures
            final(self)@ == old(self)@.taken(),
            match number_of(old(self)@.current(), isize::MIN as int, isize::MAX as int) {
                Ok(value) => r == Ok::<isize, DecodeError>(value as isize),
                Err(e) => r == Err::<isize, DecodeError>(e),
            },
    {
        match self.read_integer(isize::MIN as i128, isize::MAX as i128) {
            Ok(value) => Ok(value as isize),
            Err(e) => Err(e),
        }
    }

    /// Takes the staged value and reads it as an `i64`.
    pub fn read_i64(&mut self) -> (r: Result<i64, DecodeError>)
        ensures
            final(self)@ == old(self)@.taken(),
            match number_of(old(self)@.current(), i64::MIN as int, i64::MAX as int) {
                Ok(value) => r == Ok::<i64, DecodeError>(value as i64),
                Err(e) => r == Err::<i64, DecodeError>(e),
            },
    {
        match self.read_integer(i64::MIN as i128, i64::MAX as i128) {
            Ok(value) => Ok(value as i64),
            Err(e) => Err(e),
        }
    }

    /// Takes the staged value and reads it as an `i32`.
    pub fn read_i32(&mut self) -> (r: Result<i32, DecodeError>)
        ensures
            final(self)@ == old(self)@.taken(),
            match number_of(old(self)@.current(), i32::MIN as int, i32::MAX as int) {
                Ok(value) => r == Ok::<i32, DecodeError>(value as i32),
                Err(e) => r == Err::<i32, DecodeError>(e),
            },
    {
        match self.read_integer(i32::MIN as i128, i32::MAX as i128) {
            Ok(value) => Ok(value as i32),
            Err(e) => Err(e),
        }
    }

    /// Takes the staged value and reads it as an `i16`.
    pub fn read_i16(&mut self) -> (r: Result<i16, DecodeError>)
        ensures
            final(self)@ == old(self)@.taken(),
            match number_of(old(self)@.current(), i16::MIN as int, i16::MAX as int) {
                Ok(value) => r == Ok::<i16, DecodeError>(value as i16),
                Err(e) => r == Err::<i16, DecodeError>(e),
            },
    {
        match self.read_integer(i16::MIN as i128, i16::MAX as i128) {
            Ok(value) => Ok(value as i16),
            Err(e) => Err(e),
        }
    }

    /// Takes the staged value and reads it as an `i8`.
    pub fn read_i8(&mut self) -> (r: Result<i8, DecodeError>)
        ensures
            final(self)@ == old(self)@.taken(),
            match number_of(old(self)@.current(), i8::MIN as int, i8::MAX as int) {
                Ok(value) => r == Ok::<i8, DecodeError>(value as i8),
                Err(e) => r == Err::<i8, DecodeError>(e),
            },
    {
        match self.read_integer(i8::MIN as i128, i8::MAX as i128) {
            Ok(value) => Ok(value as i8),
            Err(e) => Err(e),
        }
    }

    /// A truth value: not supported.
    pub fn read_bool(&mut self) -> (r: Result<bool, DecodeError>)
        ensures
            final(self)@ == old(self)@,
            r == Err::<bool, DecodeError>(DecodeError::Unimplemented),
    {
        Err(DecodeError::Unimplemented)
    }

    /// Takes the staged value and reads it as a single character: fails with `MissingValue`
    /// where the text is empty, and with `InvalidChar` where it holds more than one character.
    pub fn read_char(&mut self) -> (r: Result<char, DecodeError>)
        ensures
            final(self)@ == old(self)@.taken(),
            r == char_of(old(self)@.current()),
    {
        match self.take() {
            None => Err(DecodeError::MissingValue),
            Some(value) => {
                let mut chars = value.as_str().chars();
                let c = match chars.next() {
                    None => {
                        return Err(DecodeError::MissingValue);
                    },
                    Some(c) => c,
                };
                match chars.next() {
                    None => Ok(c),
                    Some(_) => Err(DecodeError::InvalidChar),
                }
            },
        }
    }

    /// Takes the staged value and returns its text as it is.
    pub fn read_str(&mut self) -> (r: Result<String, DecodeError>)
        ensures
            final(self)@ == old(self)@.taken(),
            match text_of(old(self)@.current()) {
                Ok(text) => r matches Ok(s) && s@ == text,
                Err(e) => r == Err::<String, DecodeError>(e),
            },
    {
        match self.take() {
            None => Err(DecodeError::MissingValue),
            Some(value) => Ok(value),
        }
    }

    /// Enters an enumeration: not supported.
    pub fn read_enum(&mut self, _name: &str) -> (r: Result<(), DecodeError>)
        ensures
            final(self)@ == old(self)@,
            r == Err::<(), DecodeError>(DecodeError::Unimplemented),
    {
        Err(DecodeError::Unimplemented)
    }

    /// Asks which variant of an enumeration is there: not supported.
    pub fn read_enum_variant(&mut self, _names: &[&str]) -> (r: Result<usize, DecodeError>)
        ensures
            final(self)@ == old(self)@,
            r == Err::<usize, DecodeError>(DecodeError::Unimplemented),
    {
        Err(DecodeError::Unimplemented)
    }

    /// Enters a value of a variant: not supported.
    pub fn read_enum_variant_arg(&mut self, _a_idx: usize) -> (r: Result<(), DecodeError>)
        ensures
            final(self)@ == old(self)@,
            r == Err::<(), DecodeError>(DecodeError::Unimplemented),
    {
        Err(DecodeError::Unimplemented)
    }

    /// Asks which variant with named fields is there: not supported.
    pub fn read_enum_struct_variant(&mut self, _names: &[&str]) -> (r: Result<usize, DecodeError>)
        ensures
            final(self)@ == old(self)@,
            r == Err::<usize, DecodeError>(DecodeError::Unimplemented),
    {
        Err(DecodeError::Unimplemented)
    }

    /// Enters a named field of a variant: not supported.
    pub fn read_enum_struct_variant_field(&mut self, _f_name: &str, _f_idx: usize) -> (r: Result<
        (),
        DecodeError,
    >)
        ensures
            final(self)@ == old(self)@,
            r == Err::<(), DecodeError>(DecodeError::Unimplemented),
    {
        Err(DecodeError::Unimplemented)
    }

    /// Enters a structure of named fields. Nothing is staged: each field stages its own value.
    pub fn read_struct(&mut self, _s_name: &str, _len: usize) -> (r: Result<(), DecodeError>)
        ensures
            final(self)@ == old(self)@,
            r == Ok::<(), DecodeError>(()),
    {
        Ok(())
    }

    /// Enters the field `f_name` of a structure: stages what the first capture group of that
    /// name captured, or the mark that it took no part in the match. Fails where the pattern
    /// has no group of that name.
    pub fn read_struct_field(&mut self, f_name: &str, _f_idx: usize) -> (r: Result<(), DecodeError>)
        ensures
            match index_of_name(old(self)@.groups, f_name@) {
                Some(i) => {
                    &&& r == Ok::<(), DecodeError>(())
                    &&& final(self)@ == old(self)@.staging(old(self)@.groups[i].text)
                },
                None => {
                    &&& r == Err::<(), DecodeError>(DecodeError::MissingField)
                    &&& final(self)@ == old(self)@
                },
            },
    {
        match self.captures.index_of(f_name) {
            None => Err(DecodeError::MissingField),
            Some(i) => {
                proof {
                    lemma_index_of_name(self.captures@, f_name@);
                }
                let text = self.captures.get_by_index(i).cloned();
                self.stage(text);
                Ok(())
            },
        }
    }

    /// Enters a tuple. Nothing is staged: each position stages its own value.
    pub fn read_tuple(&mut self, _len: usize) -> (r: Result<(), DecodeError>)
        ensures
            final(self)@ == old(self)@,
            r == Ok::<(), DecodeError>(()),
    {
        Ok(())
    }

    /// Enters position `a_idx` of a tuple: stages what the capture group at index `a_idx + 1`
    /// captured, the group at index 0 being the whole match. Fails where there is no such
    /// group, and where it took no part in the match.
    pub fn read_tuple_arg(&mut self, a_idx: usize) -> (r: Result<(), DecodeError>)
        ensures
            match text_at(old(self)@.groups, a_idx + 1) {
                Some(text) => {
                    &&& r == Ok::<(), DecodeError>(())
                    &&& final(self)@ == old(self)@.staging(Some(text))
                },
                None => {
                    &&& r == Err::<(), DecodeError>(DecodeError::MissingValue)
                    &&& final(self)@ == old(self)@
                },
            },
    {
        if a_idx >= self.captures.len() {
            return Err(DecodeError::MissingValue);
        }
        match self.captures.get_by_index(a_idx + 1).cloned() {
            None => Err(DecodeError::MissingValue),
            Some(text) => {
                self.stage(Some(text));
                Ok(())
            },
        }
    }

    /// Enters a structure of unnamed fields: not supported.
    pub fn read_tuple_struct(&mut self, _s_name: &str, _len: usize) -> (r: Result<(), DecodeError>)
        ensures
            final(self)@ == old(self)@,
            r == Err::<(), DecodeError>(DecodeError::Unimplemented),
    {
        Err(DecodeError::Unimplemented)
    }

    /// Enters an unnamed field of a structure: not supported.
    pub fn read_tuple_struct_arg(&mut self, _a_idx: usize) -> (r: Result<(), DecodeError>)
        ensures
            final(self)@ == old(self)@,
            r == Err::<(), DecodeError>(DecodeError::Unimplemented),
    {
        Err(DecodeError::Unimplemented)
    }

    /// Says whether a value is there for an optional target. A staged text stays staged for
    /// the conversion that follows; the mark of a group that took no part is taken off.
    pub fn read_option(&mut self) -> (present: bool)
        ensures
            present == old(self)@.current() is Some,
            final(self)@ == if present {
                old(self)@
            } else {
                old(self)@.taken()
            },
    {
        let ghost before = self@;
        match self.take() {
            None => false,
            Some(value) => {
                self.stage(Some(value));
                proof {
                    assert(self@.staged =~= before.staged);
                }
                true
            },
        }
    }

    /// Enters a sequence: stages what every capture group after the whole-match group
    /// captured, named or not, the first of them on top, and returns how many they are.
    pub fn read_seq(&mut self) -> (len: usize)
        ensures
            final(self)@ == old(self)@.staging_all(),
            len == positional_texts(old(self)@.groups).len(),
    {
        let ghost before = self@;
        let ghost texts = positional_texts(before.groups);
        let count = self.captures.len();
        let mut i: usize = count;
        while i > 1
            invariant
                count == before.groups.len(),
                self@.groups == before.groups,
                texts == positional_texts(before.groups),
                1 <= i <= count || (i == 0 && count == 0),
                self@.staged =~= before.staged + texts.reverse().take(count - i),
            decreases i,
        {
            i = i - 1;
            let text = self.captures.get_by_index(i).cloned();
            self.stage(text);
            proof {
                assert(texts.reverse()[count - i - 1] == texts[i - 1]);
                assert(texts.reverse().take(count - i) =~= texts.reverse().take(
                    count - i - 1,
                ).push(texts[i - 1]));
            }
        }
        proof {
            assert(texts.reverse().take(texts.len() as int) =~= texts.reverse());
        }
        if count == 0 {
            0
        } else {
            count - 1
        }
    }

    /// Enters an element of a sequence. Nothing is staged: the elements were staged when the
    /// sequence was entered.
    pub fn read_seq_elt(&mut self, _idx: usize) -> (r: Result<(), DecodeError>)
        ensures
            final(self)@ == old(self)@,
            r == Ok::<(), DecodeError>(()),
    {
        Ok(())
    }

    /// Enters a map: not supported.
    pub fn read_map(&mut self) -> (r: Result<usize, DecodeError>)
        ensures
            final(self)@ == old(self)@,
            r == Err::<usize, DecodeError>(DecodeError::Unimplemented),
    {
        Err(DecodeError::Unimplemented)
    }

    /// Enters a key of a map: not supported.
    pub fn read_map_elt_key(&mut self, _idx: usize) -> (r: Result<(), DecodeError>)
        ensures
            final(self)@ == old(self)@,
            r == Err::<(), DecodeError>(DecodeError::Unimplemented),
    {
        Err(DecodeError::Unimplemented)
    }

    /// Enters a value of a map: not supported.
    pub fn read_map_elt_val(&mut self, _idx: usize) -> (r: Result<(), DecodeError>)
        ensures
            final(self)@ == old(self)@,
            r == Err::<(), DecodeError>(DecodeError::Unimplemented),
    {
        Err(DecodeError::Unimplemented)
    }

    /// A failure in the words of the caller, for what a walk finds wrong by its own rules.
    pub fn error(&mut self, err: &str) -> (e: DecodeError)
        ensures
            final(self)@ == old(self)@,
            e matches DecodeError::Custom(words) && words@ == err@,
    {
        DecodeError::Custom(err.to_owned())
    }
}

/// What a decode into `shape` returns for the capture groups `groups` of a match: what comes of
/// the walk over `shape` with a decoder that has nothing staged yet.
pub open spec fn decoded(groups: Seq<GroupView>, shape: Shape) -> Result<ValueView, DecodeError> {
    walk(DecoderView { groups, staged: Seq::empty() }, shape).result
}

/// What a decode into `shape` returns where matching gave `matched`: the groups of a match, or
/// `None` for no match.
pub open spec fn decode_result(matched: Option<Seq<GroupView>>, shape: Shape) -> Result<
    ValueView,
    DecodeError,
> {
    match matched {
        None => Err(DecodeError::NoMatch),
        Some(groups) => decoded(groups, shape),
    }
}

/// Whether `r` is the result `expected`: the value with that view, or that very error.
pub open spec fn conforms(r: Result<Value, DecodeError>, expected: Result<ValueView, DecodeError>)
    -> bool {
    match expected {
        Ok(value) => r matches Ok(v) && v@ == value,
        Err(e) => r == Err::<Value, DecodeError>(e),
    }
}

/// Decodes the capture groups of a match into a value of the shape `shape`.
pub fn decode_captures(captures: CaptureSet, shape: &Shape) -> (r: Result<Value, DecodeError>)
    ensures
        conforms(r, decoded(captures@, *shape)),
        r matches Ok(value) ==> has_shape(value@, *shape),
{
    let mut decoder = Decoder::new(captures);
    proof {
        law_value_has_shape(decoder@, *shape);
    }
    decoder.read_value(shape)
}

/// Matches `regex` against `string` and decodes the capture groups of the leftmost match into a
/// value of the shape `shape`. Fails with `NoMatch` where the pattern does not match, whatever
/// the shape.
pub fn decode(regex: &Regex, string: &str, shape: &Shape) -> (r: Result<Value, DecodeError>)
    ensures
        conforms(r, decode_result(match_groups(*regex, string@), *shape)),
        match_groups(*regex, string@) is None ==> r == Err::<Value, DecodeError>(
            DecodeError::NoMatch,
        ),
        r matches Ok(value) ==> has_shape(value@, *shape),
{
    match capture(regex, string) {
        None => Err(DecodeError::NoMatch),
        Some(captures) => decode_captures(captures, shape),
    }
}

} // verus!
