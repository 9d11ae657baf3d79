//! A decoder that keeps its place in the input between calls.

use crate::serialization::custom::{registry_model, registry_wf, CustomType};
use crate::serialization::decode::{
    parse_array, parse_bool, parse_byte, parse_byte_array, parse_custom, parse_dictionary,
    parse_dictionary_array, parse_dictionary_type, parse_double, parse_event_data, parse_float,
    parse_hashtable, parse_int, parse_int_array, parse_long, parse_maybe_typed,
    parse_object_array, parse_operation_request, parse_operation_response,
    parse_parameter_table, parse_short, parse_string, parse_string_array, parse_type_code,
    parse_value,
};
use crate::serialization::type_code::TypeCode;
use crate::serialization::value::{
    entries_view, lemma_values_appended, strings_view, values_view, EventData, HashTable,
    ObjectArray, OperationRequest, OperationResponse, ParameterTable, Value,
};
use crate::serialization::wire::{
    decode_array, decode_dictionary, decode_dictionary_array, decode_event_data,
    decode_hashtable, decode_maybe_typed, decode_object_array, decode_operation_request,
    decode_operation_response, decode_parameter_table, decode_value, read_block, read_bool,
    read_byte, read_byte_array, read_custom, read_dictionary_type, read_double, read_float,
    read_int, read_int_array, read_long, read_short, read_string, read_string_array,
    read_type_code, DecodeError, Decoders, Step,
};
use crate::util::{HashableDouble, HashableFloat, HashableHashmap};
use std::collections::HashMap;
use vstd::prelude::*;
use vstd::slice::{slice_subrange, slice_to_vec};

verus! {

/// A position in a byte slice.
#[derive(Clone, Copy, Debug)]
pub struct Cursor<'a> {
    pub data: &'a [u8],
    pub pos: usize,
}

impl<'a> Cursor<'a> {
    /// A cursor at the start of `data`.
    pub fn new(data: &'a [u8]) -> (c: Self)
        ensures
            c.data == data,
            c.pos == 0,
    {
        Cursor { data, pos: 0 }
    }

    /// The position, counted in bytes from the start.
    pub fn position(&self) -> (p: usize)
        ensures
            p == self.pos,
    {
        self.pos
    }

    /// Moves the cursor. A position behind the end is allowed: nothing can be
    /// read there.
    pub fn set_position(&mut self, pos: usize)
        ensures
            final(self).data == old(self).data,
            final(self).pos == pos,
    {
        self.pos = pos;
    }

    /// The slice that the cursor walks.
    pub fn get_ref(&self) -> (d: &'a [u8])
        ensures
            d == self.data,
    {
        self.data
    }

    /// The bytes from the position on.
    pub open spec fn remaining(&self) -> Seq<u8> {
        if self.pos <= self.data@.len() {
            self.data@.skip(self.pos as int)
        } else {
            Seq::empty()
        }
    }

    /// The position, or the end of the slice if the position lies behind it.
    pub fn start(&self) -> (p: usize)
        ensures
            p <= self.data@.len(),
            p <= self.pos,
            self.data@.skip(p as int) == self.remaining(),
            p == self.pos || p == self.data@.len(),
    {
        if self.pos > self.data.len() {
            assert(self.data@.skip(self.data@.len() as int) =~= Seq::<u8>::empty());
            self.data.len()
        } else {
            self.pos
        }
    }
}

/// A decoder over a cursor, with the decoders of the custom types that it
/// knows.
pub struct StreamDeserializer<'a, F> {
    pub reader: Cursor<'a>,
    pub custom_type_impls: HashMap<u8, CustomType<F>>,
}

/// Whether a call that turned `pre` into `post` and returned `r` did what the
/// wire format prescribes for the input that `pre` had left: on success `r`
/// holds the value with the prescribed model and the cursor has moved over
/// the bytes it took; on failure `r` holds the prescribed error and the
/// cursor has not moved. The registered decoders are never changed.
pub open spec fn delivers<'a, F, T, M>(
    pre: StreamDeserializer<'a, F>,
    post: StreamDeserializer<'a, F>,
    r: Result<T, DecodeError>,
    expected: Step<M>,
    model: spec_fn(T) -> M,
) -> bool {
    &&& post.custom_type_impls == pre.custom_type_impls
    &&& post.reader.data == pre.reader.data
    &&& match expected {
        Ok((m, used)) => {
            &&& r matches Ok(x)
            &&& model(x) == m
            &&& post.reader.pos == pre.reader.pos + used
        },
        Err(e) => {
            &&& r matches Err(f)
            &&& f == e
            &&& post.reader.pos == pre.reader.pos
        },
    }
}

impl<'a, F: Fn(&[u8]) -> Value> StreamDeserializer<'a, F> {
    /// A decoder at `reader` that knows no custom type.
    pub fn new(reader: Cursor<'a>) -> (d: Self)
        ensures
            d.reader == reader,
            d.custom_type_impls@ == Map::<u8, CustomType<F>>::empty(),
            d.wf(),
    {
        StreamDeserializer { reader, custom_type_impls: HashMap::new() }
    }

    /// Whether every registered decoder is one that the library can call:
    /// see [`crate::serialization::custom::decoder_wf`].
    pub open spec fn wf(&self) -> bool {
        registry_wf(self.custom_type_impls@)
    }

    /// The registered decoders, as functions on byte strings.
    pub open spec fn decoders(&self) -> Decoders {
        registry_model(self.custom_type_impls@)
    }

    /// Moves the cursor behind what a decoding step took.
    fn commit<T>(&mut self, start: usize, outcome: Result<(T, usize), DecodeError>) -> (r: Result<
        T,
        DecodeError,
    >)
        requires
            start <= old(self).reader.pos,
            start == old(self).reader.pos || start == old(self).reader.data@.len(),
            outcome matches Ok((_, next)) ==> start <= next <= old(self).reader.data@.len(),
        ensures
            final(self).custom_type_impls == old(self).custom_type_impls,
            final(self).reader.data == old(self).reader.data,
            match outcome {
                Ok((x, next)) => r == Ok::<T, DecodeError>(x) && final(self).reader.pos == old(
                    self,
                ).reader.pos + (next - start),
                Err(e) => r == Err::<T, DecodeError>(e) && final(self).reader.pos == old(
                    self,
                ).reader.pos,
            },
    {
        match outcome {
            Ok((x, next)) => {
                self.reader.pos = self.reader.pos + (next - start);
                Ok(x)
            },
            Err(e) => Err(e),
        }
    }

    /// Reads one byte.
    pub fn read_byte(&mut self) -> (r: Result<u8, DecodeError>)
        ensures
            delivers(
                *old(self),
                *final(self),
                r,
                read_byte(old(self).reader.remaining()),
                |x: u8| x,
            ),
    {
        let start = self.reader.start();
        let outcome = parse_byte(self.reader.data, start);
        self.commit(start, outcome)
    }

    /// Reads `n` raw bytes.
    pub fn read_bytes(&mut self, n: usize) -> (r: Result<Vec<u8>, DecodeError>)
        ensures
            delivers(
                *old(self),
                *final(self),
                r,
                read_block(old(self).reader.remaining(), 0, n as int),
                |x: Vec<u8>| x@,
            ),
    {
        let start = self.reader.start();
        if self.reader.data.len() - start < n {
            return Err(DecodeError::Truncation);
        }
        let bytes = slice_to_vec(slice_subrange(self.reader.data, start, start + n));
        assert(bytes@ =~= self.reader.remaining().subrange(0, n as int));
        self.commit(start, Ok((bytes, start + n)))
    }

    /// Decodes the value at the cursor under the type code `type_code`.
    ///
    /// A byte that is no type code gives `Null` and leaves the cursor where
    /// it is.
    pub fn deserialize(&mut self, type_code: u8) -> (r: Result<Value, DecodeError>)
        requires
            old(self).wf(),
        ensures
            delivers(
                *old(self),
                *final(self),
                r,
                decode_value(old(self).reader.remaining(), type_code, old(self).decoders()),
                |x: Value| x@,
            ),
            TypeCode::spec_from_repr(type_code) is None ==> r == Ok::<Value, DecodeError>(
                Value::Null(()),
            ) && final(self).reader == old(self).reader,
    {
        let start = self.reader.start();
        let outcome = parse_value(self.reader.data, start, type_code, &self.custom_type_impls);
        self.commit(start, outcome)
    }

    /// Reads one byte.
    pub fn deserialize_byte(&mut self) -> (r: Result<u8, DecodeError>)
        ensures
            delivers(
                *old(self),
                *final(self),
                r,
                read_byte(old(self).reader.remaining()),
                |x: u8| x,
            ),
    {
        self.read_byte()
    }

    /// Reads a boolean: one byte, true unless it is zero.
    pub fn deserialize_bool(&mut self) -> (r: Result<bool, DecodeError>)
        ensures
            delivers(
                *old(self),
                *final(self),
                r,
                read_bool(old(self).reader.remaining()),
                |x: bool| x,
            ),
    {
        let start = self.reader.start();
        let outcome = parse_bool(self.reader.data, start);
        self.commit(start, outcome)
    }

    /// Reads a signed 16-bit number.
    pub fn deserialize_short(&mut self) -> (r: Result<i16, DecodeError>)
        ensures
            delivers(
                *old(self),
                *final(self),
                r,
                read_short(old(self).reader.remaining()),
                |x: i16| x,
            ),
    {
        let start = self.reader.start();
        let outcome = parse_short(self.reader.data, start);
        self.commit(start, outcome)
    }

    /// Reads a signed 32-bit number.
    pub fn deserialize_int(&mut self) -> (r: Result<i32, DecodeError>)
        ensures
            delivers(
                *old(self),
                *final(self),
                r,
                read_int(old(self).reader.remaining()),
                |x: i32| x,
            ),
    {
        let start = self.reader.start();
        let outcome = parse_int(self.reader.data, start);
        self.commit(start, outcome)
    }

    /// Reads a signed 64-bit number.
    pub fn deserialize_long(&mut self) -> (r: Result<i64, DecodeError>)
        ensures
            delivers(
                *old(self),
                *final(self),
                r,
                read_long(old(self).reader.remaining()),
                |x: i64| x,
            ),
    {
        let start = self.reader.start();
        let outcome = parse_long(self.reader.data, start);
        self.commit(start, outcome)
    }

    /// Reads a 32-bit float, as its bits.
    pub fn deserialize_float(&mut self) -> (r: Result<HashableFloat, DecodeError>)
        ensures
            delivers(
                *old(self),
                *final(self),
                r,
                read_float(old(self).reader.remaining()),
                |x: HashableFloat| x.0,
            ),
    {
        let start = self.reader.start();
        let outcome = parse_float(self.reader.data, start);
        self.commit(start, outcome)
    }

    /// Reads a 64-bit float, as its bits.
    pub fn deserialize_double(&mut self) -> (r: Result<HashableDouble, DecodeError>)
        ensures
            delivers(
                *old(self),
                *final(self),
                r,
                read_double(old(self).reader.remaining()),
                |x: HashableDouble| x.0,
            ),
    {
        let start = self.reader.start();
        let outcome = parse_double(self.reader.data, start);
        self.commit(start, outcome)
    }

    /// Reads a string: a signed 16-bit count, then that many bytes of UTF-8.
    pub fn deserialize_string(&mut self) -> (r: Result<String, DecodeError>)
        ensures
            delivers(
                *old(self),
                *final(self),
                r,
                read_string(old(self).reader.remaining()),
                |x: String| x@,
            ),
    {
        let start = self.reader.start();
        let outcome = parse_string(self.reader.data, start);
        self.commit(start, outcome)
    }

    /// Reads a type code; a byte that stands for no type is an error.
    pub fn read_type_code(&mut self) -> (r: Result<TypeCode, DecodeError>)
        ensures
            delivers(
                *old(self),
                *final(self),
                r,
                read_type_code(old(self).reader.remaining()),
                |x: TypeCode| x,
            ),
    {
        let start = self.reader.start();
        let outcome = parse_type_code(self.reader.data, start);
        self.commit(start, outcome)
    }

    /// Decodes the elements of an array.
    pub fn deserialize_array(&mut self) -> (r: Result<Vec<Value>, DecodeError>)
        requires
            old(self).wf(),
        ensures
            delivers(
                *old(self),
                *final(self),
                r,
                decode_array(old(self).reader.remaining(), old(self).decoders()),
                |x: Vec<Value>| values_view(x@),
            ),
    {
        let start = self.reader.start();
        let outcome = parse_array(self.reader.data, start, &self.custom_type_impls);
        self.commit(start, outcome)
    }

    /// Decodes the body of a custom value of type `custom_type`.
    pub fn deserialize_custom(&mut self, custom_type: u8) -> (r: Result<Value, DecodeError>)
        requires
            old(self).wf(),
        ensures
            delivers(
                *old(self),
                *final(self),
                r,
                read_custom(old(self).reader.remaining(), custom_type, old(self).decoders()),
                |x: Value| x@,
            ),
    {
        let start = self.reader.start();
        let outcome = parse_custom(self.reader.data, start, custom_type, &self.custom_type_impls);
        self.commit(start, outcome)
    }

    /// Reads the two type codes at the head of a dictionary.
    pub fn deserialize_dictionary_type(&mut self) -> (r: Result<(TypeCode, TypeCode), DecodeError>)
        ensures
            delivers(
                *old(self),
                *final(self),
                r,
                read_dictionary_type(old(self).reader.remaining()),
                |x: (TypeCode, TypeCode)| x,
            ),
    {
        let start = self.reader.start();
        let outcome = parse_dictionary_type(self.reader.data, start);
        self.commit(start, outcome)
    }

    /// Decodes `size` dictionaries behind the key and value types that they
    /// share, and appends them to `values`. A `size` below zero stands for
    /// none. On failure `values` is left as it was.
    pub fn deserialize_dict_array(&mut self, size: i16, values: &mut Vec<Value>) -> (r: Result<
        (),
        DecodeError,
    >)
        requires
            old(self).wf(),
        ensures
            delivers(
                *old(self),
                *final(self),
                r,
                decode_dictionary_array(
                    old(self).reader.remaining(),
                    if size < 0 {
                        0nat
                    } else {
                        size as nat
                    },
                    old(self).decoders(),
                ),
                |x: ()| values_view(final(values)@.skip(old(values)@.len() as int)),
            ),
            final(values)@.len() >= old(values)@.len(),
            final(values)@.take(old(values)@.len() as int) == old(values)@,
            r is Err ==> final(values)@ == old(values)@,
    {
        let start = self.reader.start();
        let wanted: usize = if size < 0 {
            0
        } else {
            size as usize
        };
        let outcome = parse_dictionary_array(
            self.reader.data,
            start,
            wanted,
            &self.custom_type_impls,
        );
        match outcome {
            Err(e) => self.commit(start, Err(e)),
            Ok((mut items, next)) => {
                proof {
                    lemma_values_appended(values@, items@);
                }
                values.append(&mut items);
                self.commit(start, Ok(((), next)))
            },
        }
    }

    /// Decodes a value whose type was declared ahead; where the declared
    /// type is `Unknown`, the type code that stands before the value decides.
    pub fn deserialize_maybe_typed(&mut self, code: TypeCode) -> (r: Result<Value, DecodeError>)
        requires
            old(self).wf(),
        ensures
            delivers(
                *old(self),
                *final(self),
                r,
                decode_maybe_typed(old(self).reader.remaining(), code, old(self).decoders()),
                |x: Value| x@,
            ),
    {
        let start = self.reader.start();
        let outcome = parse_maybe_typed(self.reader.data, start, code, &self.custom_type_impls);
        self.commit(start, outcome)
    }

    /// Reads a byte array: a signed 32-bit count, then that many bytes.
    pub fn deserialize_byte_array(&mut self) -> (r: Result<Vec<u8>, DecodeError>)
        ensures
            delivers(
                *old(self),
                *final(self),
                r,
                read_byte_array(old(self).reader.remaining()),
                |x: Vec<u8>| x@,
            ),
    {
        let start = self.reader.start();
        let outcome = parse_byte_array(self.reader.data, start);
        self.commit(start, outcome)
    }

    /// Reads an integer array: a signed 32-bit count, then that many signed
    /// 32-bit numbers.
    pub fn deserialize_int_array(&mut self) -> (r: Result<Vec<i32>, DecodeError>)
        ensures
            delivers(
                *old(self),
                *final(self),
                r,
                read_int_array(old(self).reader.remaining()),
                |x: Vec<i32>| x@,
            ),
    {
        let start = self.reader.start();
        let outcome = parse_int_array(self.reader.data, start);
        self.commit(start, outcome)
    }

    /// Reads a string array: a signed 16-bit count, then that many strings.
    pub fn deserialize_string_array(&mut self) -> (r: Result<Vec<String>, DecodeError>)
        ensures
            delivers(
                *old(self),
                *final(self),
                r,
                read_string_array(old(self).reader.remaining()),
                |x: Vec<String>| strings_view(x@),
            ),
    {
        let start = self.reader.start();
        let outcome = parse_string_array(self.reader.data, start);
        self.commit(start, outcome)
    }

    /// Decodes an object array.
    pub fn deserialize_object_array(&mut self) -> (r: Result<ObjectArray, DecodeError>)
        requires
            old(self).wf(),
        ensures
            delivers(
                *old(self),
                *final(self),
                r,
                decode_object_array(old(self).reader.remaining(), old(self).decoders()),
                |x: ObjectArray| x@,
            ),
    {
        let start = self.reader.start();
        let outcome = parse_object_array(self.reader.data, start, &self.custom_type_impls);
        self.commit(start, outcome)
    }

    /// Decodes a hash table.
    pub fn deserialize_hashtable(&mut self) -> (r: Result<HashTable<Value, Value>, DecodeError>)
        requires
            old(self).wf(),
        ensures
            delivers(
                *old(self),
                *final(self),
                r,
                decode_hashtable(old(self).reader.remaining(), old(self).decoders()),
                |x: HashTable<Value, Value>| x@,
            ),
    {
        let start = self.reader.start();
        let outcome = parse_hashtable(self.reader.data, start, &self.custom_type_impls);
        self.commit(start, outcome)
    }

    /// Decodes a dictionary.
    pub fn deserialize_dictionary(&mut self) -> (r: Result<
        HashableHashmap<Value, Value>,
        DecodeError,
    >)
        requires
            old(self).wf(),
        ensures
            delivers(
                *old(self),
                *final(self),
                r,
                decode_dictionary(old(self).reader.remaining(), old(self).decoders()),
                |x: HashableHashmap<Value, Value>| entries_view(x@),
            ),
    {
        let start = self.reader.start();
        let outcome = parse_dictionary(self.reader.data, start, &self.custom_type_impls);
        self.commit(start, outcome)
    }

    /// Decodes a parameter table.
    pub fn deserialize_parameter_table(&mut self) -> (r: Result<ParameterTable, DecodeError>)
        requires
            old(self).wf(),
        ensures
            delivers(
                *old(self),
                *final(self),
                r,
                decode_parameter_table(old(self).reader.remaining(), old(self).decoders()),
                |x: ParameterTable| x@,
            ),
    {
        let start = self.reader.start();
        let outcome = parse_parameter_table(self.reader.data, start, &self.custom_type_impls);
        self.commit(start, outcome)
    }

    /// Decodes an event: its code, then its parameter table.
    pub fn deserialize_event_data(&mut self) -> (r: Result<EventData, DecodeError>)
        requires
            old(self).wf(),
        ensures
            delivers(
                *old(self),
                *final(self),
                r,
                decode_event_data(old(self).reader.remaining(), old(self).decoders()),
                |x: EventData| x@,
            ),
    {
        let start = self.reader.start();
        let outcome = parse_event_data(self.reader.data, start, &self.custom_type_impls);
        self.commit(start, outcome)
    }

    /// Decodes an operation response: its opcode, its return code, its debug
    /// message and its parameter table.
    pub fn deserialize_operation_response(&mut self) -> (r: Result<OperationResponse, DecodeError>)
        requires
            old(self).wf(),
        ensures
            delivers(
                *old(self),
                *final(self),
                r,
                decode_operation_response(old(self).reader.remaining(), old(self).decoders()),
                |x: OperationResponse| x@,
            ),
    {
        let start = self.reader.start();
        let outcome = parse_operation_response(self.reader.data, start, &self.custom_type_impls);
        self.commit(start, outcome)
    }

    /// Decodes an operation request: its opcode, then its parameter table.
    pub fn deserialize_operation_request(&mut self) -> (r: Result<OperationRequest, DecodeError>)
        requires
            old(self).wf(),
        ensures
            delivers(
                *old(self),
                *final(self),
                r,
                decode_operation_request(old(self).reader.remaining(), old(self).decoders()),
                |x: OperationRequest| x@,
            ),
    {
        let start = self.reader.start();
        let outcome = parse_operation_request(self.reader.data, start, &self.custom_type_impls);
        self.commit(start, outcome)
    }
}

} // verus!
