//! The serializer: the JSON for each kind of value of the serde data model, and the punctuation
//! of sequences and maps as their members go by.
//!
//! Each operation writes its piece of JSON, or refuses with [`Error::BufferTooSmall`] exactly when
//! the piece does not fit in what is left of the buffer.
use vstd::prelude::*;
use vstd::string::StringSliceAdditionalSpecFns;

use super::format::{bool_text, byte_array_text, format_escaped_str, int_text, null_text, quoted, separator, CompactFormatter};
use super::{emits, fits, lemma_emits_nothing, lemma_step, wrote, ByteSliceWriter, Error};

verus! {

/// Where a sequence or map stands: closed already (it was declared empty), before its first
/// member, or after one.
#[derive(Debug, Clone, Copy, PartialEq, Eq)]
pub enum State {
    Empty,
    First,
    Rest,
}

/// What closing a compound in state `state` writes: nothing when it was declared empty and
/// closed at once, otherwise the closing mark.
pub open spec fn close_text(state: State, mark: u8) -> Seq<u8> {
    if state is Empty {
        Seq::empty()
    } else {
        seq![mark]
    }
}

/// What opening a compound declared with `len` members writes: the opening mark, and the closing
/// one too when it is declared empty.
pub open spec fn open_text(len: Option<usize>, open: u8, close: u8) -> Seq<u8> {
    if len == Some(0usize) {
        seq![open, close]
    } else {
        seq![open]
    }
}

/// The state a compound declared with `len` members starts in.
pub open spec fn open_state(len: Option<usize>) -> State {
    if len == Some(0usize) {
        State::Empty
    } else {
        State::First
    }
}

/// The object head before a variant's content: `{"variant":`.
pub open spec fn variant_head(variant: Seq<u8>) -> Seq<u8> {
    seq![0x7Bu8] + quoted(variant) + seq![0x3Au8]
}

/// A map key written from an integer: its decimal text in quotes.
pub open spec fn int_key_text(i: int) -> Seq<u8> {
    seq![0x22u8] + int_text(i) + seq![0x22u8]
}

/// Members separated by commas.
pub open spec fn joined(items: Seq<Seq<u8>>) -> Seq<u8>
    decreases items.len(),
{
    if items.len() == 0 {
        Seq::empty()
    } else if items.len() == 1 {
        items[0]
    } else {
        joined(items.drop_last()) + seq![0x2Cu8] + items.last()
    }
}

/// A JSON array (or, with braces, object) whose members are `items`.
pub open spec fn compound_text(items: Seq<Seq<u8>>, open: u8, close: u8) -> Seq<u8> {
    seq![open] + joined(items) + seq![close]
}

/// The state of a compound that started in `state`, once `n` members have been announced.
pub open spec fn state_after(state: State, n: nat) -> State {
    if n == 0 {
        state
    } else {
        State::Rest
    }
}

/// What announcing and writing each of `items` in turn writes, starting in `state`: each member
/// preceded by the separator [`Serializer::begin_element`] (or [`Serializer::begin_key`]) writes
/// in the state it finds.
pub open spec fn members_text(state: State, items: Seq<Seq<u8>>) -> Seq<u8>
    decreases items.len(),
{
    if items.len() == 0 {
        Seq::empty()
    } else {
        members_text(state, items.drop_last())
            + separator(state_after(state, (items.len() - 1) as nat) == State::First)
            + items.last()
    }
}

/// Opening a compound with its declared length, writing its members one after another, each
/// announced as the serializer announces it, and closing it, writes the JSON array (or object)
/// of those members, whatever length was declared or left open.
pub proof fn lemma_compound_text(len: Option<usize>, items: Seq<Seq<u8>>, open: u8, close: u8)
    requires
        len matches Some(n) ==> n == items.len(),
    ensures
        open_text(len, open, close) + members_text(open_state(len), items)
            + close_text(state_after(open_state(len), items.len()), close) == compound_text(items, open, close),
{
    if len == Some(0usize) {
        assert(members_text(State::Empty, items) =~= Seq::<u8>::empty());
        assert(joined(items) =~= Seq::<u8>::empty());
        assert(open_text(len, open, close) + members_text(open_state(len), items)
            + close_text(state_after(open_state(len), items.len()), close) =~= compound_text(items, open, close));
    } else {
        lemma_members_from_first(items);
        assert(open_text(len, open, close) + members_text(open_state(len), items)
            + close_text(state_after(open_state(len), items.len()), close) =~= compound_text(items, open, close));
    }
}

proof fn lemma_members_from_first(items: Seq<Seq<u8>>)
    ensures
        members_text(State::First, items) == joined(items),
    decreases items.len(),
{
    if items.len() > 0 {
        lemma_members_from_first(items.drop_last());
        if items.len() == 1 {
            assert(items.drop_last() =~= Seq::<Seq<u8>>::empty());
            assert(members_text(State::First, items) =~= joined(items));
        } else {
            assert(members_text(State::First, items) =~= joined(items));
        }
    }
}

/// A JSON serializer writing into a byte slice.
pub struct Serializer<'a> {
    writer: ByteSliceWriter<'a>,
    formatter: CompactFormatter,
}

impl<'a> View for Serializer<'a> {
    type V = (Seq<u8>, nat);

    /// The buffer's contents and the position of the next byte.
    closed spec fn view(&self) -> (Seq<u8>, nat) {
        self.writer@
    }
}

impl<'a> Serializer<'a> {
    /// A serializer writing at the start of `writer`.
    pub fn new(writer: &'a mut [u8]) -> (r: Self)
        ensures
            r@ == (old(writer)@, 0nat),
    {
        Serializer::with_formatter(writer, CompactFormatter)
    }

    /// A serializer writing with `formatter` at the start of `writer`.
    pub fn with_formatter(writer: &'a mut [u8], formatter: CompactFormatter) -> (r: Self)
        ensures
            r@ == (old(writer)@, 0nat),
    {
        Serializer { writer: ByteSliceWriter::new(writer), formatter }
    }

    /// The number of bytes written so far.
    pub fn position(&self) -> (r: usize)
        ensures
            r == self@.1,
    {
        self.writer.position()
    }

    /// Writes `true` or `false`.
    pub fn serialize_bool(&mut self, value: bool) -> (r: Result<(), Error>)
        requires
            fits(old(self)@),
        ensures
            wrote(old(self)@, final(self)@, bool_text(value), r),
    {
        self.formatter.write_bool(&mut self.writer, value)
    }

    /// Writes a signed integer.
    pub fn serialize_i128(&mut self, value: i128) -> (r: Result<(), Error>)
        requires
            fits(old(self)@),
        ensures
            wrote(old(self)@, final(self)@, int_text(value as int), r),
    {
        self.formatter.write_i128(&mut self.writer, value)
    }

    /// Writes an unsigned integer.
    pub fn serialize_u128(&mut self, value: u128) -> (r: Result<(), Error>)
        requires
            fits(old(self)@),
        ensures
            wrote(old(self)@, final(self)@, int_text(value as int), r),
    {
        self.formatter.write_u128(&mut self.writer, value)
    }

    /// Writes a string.
    pub fn serialize_str(&mut self, value: &str) -> (r: Result<(), Error>)
        requires
            fits(old(self)@),
        ensures
            wrote(old(self)@, final(self)@, quoted(value.spec_bytes()), r),
    {
        format_escaped_str(&mut self.writer, &mut self.formatter, value)
    }

    /// Writes a character, as a string of one character.
    pub fn serialize_char(&mut self, value: char) -> (r: Result<(), Error>)
        requires
            fits(old(self)@),
        ensures
            wrote(old(self)@, final(self)@, quoted(vstd::utf8::encode_utf8(seq![value])), r),
    {
        let mut text = String::new();
        crate::strings::push_char(&mut text, value);
        proof {
            assert(text@ =~= seq![value]);
        }
        self.serialize_str(text.as_str())
    }

    /// Writes bytes as an array of numbers.
    pub fn serialize_bytes(&mut self, value: &[u8]) -> (r: Result<(), Error>)
        requires
            fits(old(self)@),
        ensures
            wrote(old(self)@, final(self)@, byte_array_text(value@), r),
    {
        self.formatter.write_byte_array(&mut self.writer, value)
    }

    /// Writes `null`, for a unit value or a `None`.
    pub fn serialize_unit(&mut self) -> (r: Result<(), Error>)
        requires
            fits(old(self)@),
        ensures
            wrote(old(self)@, final(self)@, null_text(), r),
    {
        self.formatter.write_null(&mut self.writer)
    }

    /// Writes `null` for a `None`.
    pub fn serialize_none(&mut self) -> (r: Result<(), Error>)
        requires
            fits(old(self)@),
        ensures
            wrote(old(self)@, final(self)@, null_text(), r),
    {
        self.serialize_unit()
    }

    /// Writes a unit variant: its name, as a string.
    pub fn serialize_unit_variant(&mut self, variant: &str) -> (r: Result<(), Error>)
        requires
            fits(old(self)@),
        ensures
            wrote(old(self)@, final(self)@, quoted(variant.spec_bytes()), r),
    {
        self.serialize_str(variant)
    }

    /// Writes text that is already JSON, such as a number that was formatted elsewhere.
    pub fn write_fragment(&mut self, text: &[u8]) -> (r: Result<(), Error>)
        requires
            fits(old(self)@),
        ensures
            wrote(old(self)@, final(self)@, text@, r),
    {
        self.writer.write_all(text)
    }

    /// Writes the head of a variant with content, `{"variant":`; its content follows.
    pub fn begin_newtype_variant(&mut self, variant: &str) -> (r: Result<(), Error>)
        requires
            fits(old(self)@),
        ensures
            wrote(old(self)@, final(self)@, variant_head(variant.spec_bytes()), r),
    {
        let ghost w0 = self@;
        let ghost name = quoted(variant.spec_bytes());
        let ghost total = variant_head(variant.spec_bytes());
        let ghost open = seq![0x7Bu8];
        let ghost nothing = Seq::<u8>::empty();
        proof {
            lemma_emits_nothing(w0);
            assert(total.take(1) =~= nothing + open);
            assert(total.take(1) =~= open + nothing);
            assert(total.take((open + name).len() as int) =~= open + name);
            assert(total.take((open + name).len() as int) =~= open + name + nothing);
            assert(total.take(total.len() as int) =~= open + name + seq![0x3Au8]);
        }
        let ghost wb = self@;
        let rr = self.formatter.begin_object(&mut self.writer);
        proof {
            lemma_step(w0, wb, self@, nothing, open, rr is Ok, total);
            assert(nothing + open =~= open);
        }
        if rr.is_err() {
            return rr;
        }
        let ghost wb = self@;
        let rr = self.formatter.begin_object_key(&mut self.writer, true);
        proof {
            assert(separator(true) =~= nothing);
            lemma_step(w0, wb, self@, open, nothing, rr is Ok, total);
            assert(open + nothing =~= open);
        }
        if rr.is_err() {
            return rr;
        }
        let ghost wb = self@;
        let rr = self.serialize_str(variant);
        proof {
            lemma_step(w0, wb, self@, open, name, rr is Ok, total);
        }
        if rr.is_err() {
            return rr;
        }
        let ghost wb = self@;
        let rr = self.formatter.end_object_key(&mut self.writer);
        proof {
            lemma_step(w0, wb, self@, open + name, nothing, rr is Ok, total);
            assert(open + name + nothing =~= open + name);
        }
        if rr.is_err() {
            return rr;
        }
        let ghost wb = self@;
        let rr = self.formatter.begin_object_value(&mut self.writer);
        proof {
            lemma_step(w0, wb, self@, open + name, seq![0x3Au8], rr is Ok, total);
        }
        rr
    }

    /// Closes a variant with content: `}`.
    pub fn end_newtype_variant(&mut self) -> (r: Result<(), Error>)
        requires
            fits(old(self)@),
        ensures
            wrote(old(self)@, final(self)@, seq![0x7Du8], r),
    {
        let ghost w0 = self@;
        let ghost nothing = Seq::<u8>::empty();
        proof {
            lemma_emits_nothing(w0);
            assert(seq![0x7Du8].take(0) =~= nothing + nothing);
            assert(seq![0x7Du8].take(1) =~= nothing + seq![0x7Du8]);
        }
        let ghost wb = self@;
        let rr = self.formatter.end_object_value(&mut self.writer);
        proof {
            lemma_step(w0, wb, self@, nothing, nothing, rr is Ok, seq![0x7Du8]);
            assert(nothing + nothing =~= nothing);
        }
        if rr.is_err() {
            return rr;
        }
        let ghost wb = self@;
        let rr = self.formatter.end_object(&mut self.writer);
        proof {
            lemma_step(w0, wb, self@, nothing, seq![0x7Du8], rr is Ok, seq![0x7Du8]);
            assert(nothing + seq![0x7Du8] =~= seq![0x7Du8]);
        }
        rr
    }

    /// Opens a compound: writes `open`, and `close` too when it is declared empty.
    fn open_compound(&mut self, len: Option<usize>, is_array: bool) -> (r: Result<State, Error>)
        requires
            fits(old(self)@),
        ensures
            emits(old(self)@, final(self)@, open_text(len, if is_array { 0x5Bu8 } else { 0x7Bu8 }, if is_array { 0x5Du8 } else { 0x7Du8 }), r is Ok),
            r is Err ==> r == Err::<State, Error>(Error::BufferTooSmall),
            r matches Ok(s) ==> s == open_state(len),
    {
        let ghost open: u8 = if is_array { 0x5Bu8 } else { 0x7Bu8 };
        let ghost close: u8 = if is_array { 0x5Du8 } else { 0x7Du8 };
        let ghost total = open_text(len, open, close);
        let ghost w0 = self@;
        proof {
            lemma_emits_nothing(w0);
            assert(total.take(1) =~= Seq::<u8>::empty() + seq![open]);
        }
        let ghost wb = self@;
        let rr = if is_array {
            self.formatter.begin_array(&mut self.writer)
        } else {
            self.formatter.begin_object(&mut self.writer)
        };
        proof {
            lemma_step(w0, wb, self@, Seq::empty(), seq![open], rr is Ok, total);
            assert(Seq::<u8>::empty() + seq![open] =~= seq![open]);
        }
        if rr.is_err() {
            return Err(Error::BufferTooSmall);
        }
        let empty = match len {
            Some(n) => n == 0,
            None => false,
        };
        if empty {
            proof {
                assert(total =~= seq![open] + seq![close]);
                assert(total.take(2) =~= seq![open] + seq![close]);
            }
            let ghost wb = self@;
            let rr = if is_array {
                self.formatter.end_array(&mut self.writer)
            } else {
                self.formatter.end_object(&mut self.writer)
            };
            proof {
                lemma_step(w0, wb, self@, seq![open], seq![close], rr is Ok, total);
            }
            if rr.is_err() {
                return Err(Error::BufferTooSmall);
            }
            Ok(State::Empty)
        } else {
            Ok(State::First)
        }
    }

    /// Opens a sequence of `len` elements, when the length is known.
    pub fn serialize_seq(&mut self, len: Option<usize>) -> (r: Result<State, Error>)
        requires
            fits(old(self)@),
        ensures
            emits(old(self)@, final(self)@, open_text(len, 0x5Bu8, 0x5Du8), r is Ok),
            r is Err ==> r == Err::<State, Error>(Error::BufferTooSmall),
            r matches Ok(s) ==> s == open_state(len),
    {
        self.open_compound(len, true)
    }

    /// Opens a map of `len` entries, when the number is known.
    pub fn serialize_map(&mut self, len: Option<usize>) -> (r: Result<State, Error>)
        requires
            fits(old(self)@),
        ensures
            emits(old(self)@, final(self)@, open_text(len, 0x7Bu8, 0x7Du8), r is Ok),
            r is Err ==> r == Err::<State, Error>(Error::BufferTooSmall),
            r matches Ok(s) ==> s == open_state(len),
    {
        self.open_compound(len, false)
    }

    /// Opens a variant holding a tuple: `{"variant":[`.
    pub fn serialize_tuple_variant(&mut self, variant: &str, len: usize) -> (r: Result<State, Error>)
        requires
            fits(old(self)@),
        ensures
            emits(old(self)@, final(self)@, variant_head(variant.spec_bytes()) + open_text(Some(len), 0x5Bu8, 0x5Du8), r is Ok),
            r is Err ==> r == Err::<State, Error>(Error::BufferTooSmall),
            r matches Ok(s) ==> s == open_state(Some(len)),
    {
        self.open_variant(variant, len, true)
    }

    /// Opens a variant holding a struct: `{"variant":{`.
    pub fn serialize_struct_variant(&mut self, variant: &str, len: usize) -> (r: Result<State, Error>)
        requires
            fits(old(self)@),
        ensures
            emits(old(self)@, final(self)@, variant_head(variant.spec_bytes()) + open_text(Some(len), 0x7Bu8, 0x7Du8), r is Ok),
            r is Err ==> r == Err::<State, Error>(Error::BufferTooSmall),
            r matches Ok(s) ==> s == open_state(Some(len)),
    {
        self.open_variant(variant, len, false)
    }

    fn open_variant(&mut self, variant: &str, len: usize, is_array: bool) -> (r: Result<State, Error>)
        requires
            fits(old(self)@),
        ensures
            emits(old(self)@, final(self)@, variant_head(variant.spec_bytes()) + open_text(Some(len), if is_array { 0x5Bu8 } else { 0x7Bu8 }, if is_array { 0x5Du8 } else { 0x7Du8 }), r is Ok),
            r is Err ==> r == Err::<State, Error>(Error::BufferTooSmall),
            r matches Ok(s) ==> s == open_state(Some(len)),
    {
        let ghost w0 = self@;
        let ghost head = variant_head(variant.spec_bytes());
        let ghost body = open_text(Some(len), if is_array { 0x5Bu8 } else { 0x7Bu8 }, if is_array { 0x5Du8 } else { 0x7Du8 });
        let ghost total = head + body;
        proof {
            lemma_emits_nothing(w0);
            assert(total.take(head.len() as int) =~= Seq::<u8>::empty() + head);
            assert(total.take(total.len() as int) =~= head + body);
        }
        let ghost wb = self@;
        let rr = self.begin_newtype_variant(variant);
        proof {
            lemma_step(w0, wb, self@, Seq::empty(), head, rr is Ok, total);
            assert(Seq::<u8>::empty() + head =~= head);
        }
        if rr.is_err() {
            return Err(Error::BufferTooSmall);
        }
        let ghost wb = self@;
        let rs = self.open_compound(Some(len), is_array);
        proof {
            lemma_step(w0, wb, self@, head, body, rs is Ok, total);
        }
        rs
    }

    /// Before an element of a sequence: a comma unless it is the first. The sequence is then past
    /// its first element.
    pub fn begin_element(&mut self, state: &mut State) -> (r: Result<(), Error>)
        requires
            fits(old(self)@),
        ensures
            wrote(old(self)@, final(self)@, separator(*old(state) == State::First), r),
            r is Ok ==> *final(state) == State::Rest,
            r is Err ==> *final(state) == *old(state),
    {
        let first = match *state {
            State::First => true,
            _ => false,
        };
        let r = self.formatter.begin_array_value(&mut self.writer, first);
        if r.is_ok() {
            *state = State::Rest;
        }
        r
    }

    /// After an element of a sequence; writes nothing.
    pub fn end_element(&mut self) -> (r: Result<(), Error>)
        requires
            fits(old(self)@),
        ensures
            wrote(old(self)@, final(self)@, Seq::empty(), r),
    {
        self.formatter.end_array_value(&mut self.writer)
    }

    /// Closes a sequence: `]`, unless it was declared empty and is closed already.
    pub fn end_seq(&mut self, state: State) -> (r: Result<(), Error>)
        requires
            fits(old(self)@),
        ensures
            wrote(old(self)@, final(self)@, close_text(state, 0x5Du8), r),
    {
        match state {
            State::Empty => {
                proof {
                    lemma_emits_nothing(self@);
                }
                Ok(())
            },
            _ => self.formatter.end_array(&mut self.writer),
        }
    }

    /// Closes a map: `}`, unless it was declared empty and is closed already.
    pub fn end_map(&mut self, state: State) -> (r: Result<(), Error>)
        requires
            fits(old(self)@),
        ensures
            wrote(old(self)@, final(self)@, close_text(state, 0x7Du8), r),
    {
        match state {
            State::Empty => {
                proof {
                    lemma_emits_nothing(self@);
                }
                Ok(())
            },
            _ => self.formatter.end_object(&mut self.writer),
        }
    }

    /// Closes a variant holding a tuple: the sequence's `]` as [`Self::end_seq`] writes it, then `}`.
    pub fn end_tuple_variant(&mut self, state: State) -> (r: Result<(), Error>)
        requires
            fits(old(self)@),
        ensures
            wrote(old(self)@, final(self)@, close_text(state, 0x5Du8) + seq![0x7Du8], r),
    {
        let ghost w0 = self@;
        let ghost first = close_text(state, 0x5Du8);
        let ghost total = first + seq![0x7Du8];
        proof {
            lemma_emits_nothing(w0);
            assert(total.take(first.len() as int) =~= Seq::<u8>::empty() + first);
            assert(total.take(total.len() as int) =~= first + seq![0x7Du8]);
        }
        let ghost wb = self@;
        let rr = self.end_seq(state);
        proof {
            lemma_step(w0, wb, self@, Seq::empty(), first, rr is Ok, total);
            assert(Seq::<u8>::empty() + first =~= first);
        }
        if rr.is_err() {
            return rr;
        }
        let ghost wb = self@;
        let rr = self.end_newtype_variant();
        proof {
            lemma_step(w0, wb, self@, first, seq![0x7Du8], rr is Ok, total);
        }
        rr
    }

    /// Closes a variant holding a struct: the map's `}` as [`Self::end_map`] writes it, then `}`.
    pub fn end_struct_variant(&mut self, state: State) -> (r: Result<(), Error>)
        requires
            fits(old(self)@),
        ensures
            wrote(old(self)@, final(self)@, close_text(state, 0x7Du8) + seq![0x7Du8], r),
    {
        let ghost w0 = self@;
        let ghost first = close_text(state, 0x7Du8);
        let ghost total = first + seq![0x7Du8];
        proof {
            lemma_emits_nothing(w0);
            assert(total.take(first.len() as int) =~= Seq::<u8>::empty() + first);
            assert(total.take(total.len() as int) =~= first + seq![0x7Du8]);
        }
        let ghost wb = self@;
        let rr = self.end_map(state);
        proof {
            lemma_step(w0, wb, self@, Seq::empty(), first, rr is Ok, total);
            assert(Seq::<u8>::empty() + first =~= first);
        }
        if rr.is_err() {
            return rr;
        }
        let ghost wb = self@;
        let rr = self.end_newtype_variant();
        proof {
            lemma_step(w0, wb, self@, first, seq![0x7Du8], rr is Ok, total);
        }
        rr
    }

    /// Before a key of a map: a comma unless it is the first. The map is then past its first
    /// entry.
    pub fn begin_key(&mut self, state: &mut State) -> (r: Result<(), Error>)
        requires
            fits(old(self)@),
        ensures
            wrote(old(self)@, final(self)@, separator(*old(state) == State::First), r),
            r is Ok ==> *final(state) == State::Rest,
            r is Err ==> *final(state) == *old(state),
    {
        let first = match *state {
            State::First => true,
            _ => false,
        };
        let r = self.formatter.begin_object_key(&mut self.writer, first);
        if r.is_ok() {
            *state = State::Rest;
        }
        r
    }

    /// After a key of a map; writes nothing.
    pub fn end_key(&mut self) -> (r: Result<(), Error>)
        requires
            fits(old(self)@),
        ensures
            wrote(old(self)@, final(self)@, Seq::empty(), r),
    {
        self.formatter.end_object_key(&mut self.writer)
    }

    /// Between a key and its value: `:`.
    pub fn begin_value(&mut self) -> (r: Result<(), Error>)
        requires
            fits(old(self)@),
        ensures
            wrote(old(self)@, final(self)@, seq![0x3Au8], r),
    {
        self.formatter.begin_object_value(&mut self.writer)
    }

    /// After a value of a map; writes nothing.
    pub fn end_value(&mut self) -> (r: Result<(), Error>)
        requires
            fits(old(self)@),
        ensures
            wrote(old(self)@, final(self)@, Seq::empty(), r),
    {
        self.formatter.end_object_value(&mut self.writer)
    }

    /// A map key given as a string.
    pub fn serialize_key_str(&mut self, value: &str) -> (r: Result<(), Error>)
        requires
            fits(old(self)@),
        ensures
            wrote(old(self)@, final(self)@, quoted(value.spec_bytes()), r),
    {
        self.serialize_str(value)
    }

    /// A map key given as a signed integer: its decimal text, quoted.
    pub fn serialize_key_i128(&mut self, value: i128) -> (r: Result<(), Error>)
        requires
            fits(old(self)@),
        ensures
            wrote(old(self)@, final(self)@, int_key_text(value as int), r),
    {
        let ghost w0 = self@;
        let ghost num = int_text(value as int);
        let ghost q = seq![0x22u8];
        let ghost total = int_key_text(value as int);
        proof {
            lemma_emits_nothing(w0);
            assert(total.take(1) =~= Seq::<u8>::empty() + q);
            assert(total.take((q + num).len() as int) =~= q + num);
            assert(total.take(total.len() as int) =~= q + num + q);
        }
        let ghost wb = self@;
        let rr = self.formatter.begin_string(&mut self.writer);
        proof {
            lemma_step(w0, wb, self@, Seq::empty(), q, rr is Ok, total);
            assert(Seq::<u8>::empty() + q =~= q);
        }
        if rr.is_err() {
            return rr;
        }
        let ghost wb = self@;
        let rr = self.formatter.write_i128(&mut self.writer, value);
        proof {
            lemma_step(w0, wb, self@, q, num, rr is Ok, total);
        }
        if rr.is_err() {
            return rr;
        }
        let ghost wb = self@;
        let rr = self.formatter.end_string(&mut self.writer);
        proof {
            lemma_step(w0, wb, self@, q + num, q, rr is Ok, total);
        }
        rr
    }

    /// A map key given as an unsigned integer: its decimal text, quoted.
    pub fn serialize_key_u128(&mut self, value: u128) -> (r: Result<(), Error>)
        requires
            fits(old(self)@),
        ensures
            wrote(old(self)@, final(self)@, int_key_text(value as int), r),
    {
        let ghost w0 = self@;
        let ghost num = int_text(value as int);
        let ghost q = seq![0x22u8];
        let ghost total = int_key_text(value as int);
        proof {
            lemma_emits_nothing(w0);
            assert(total.take(1) =~= Seq::<u8>::empty() + q);
            assert(total.take((q + num).len() as int) =~= q + num);
            assert(total.take(total.len() as int) =~= q + num + q);
        }
        let ghost wb = self@;
        let rr = self.formatter.begin_string(&mut self.writer);
        proof {
            lemma_step(w0, wb, self@, Seq::empty(), q, rr is Ok, total);
            assert(Seq::<u8>::empty() + q =~= q);
        }
        if rr.is_err() {
            return rr;
        }
        let ghost wb = self@;
        let rr = self.formatter.write_u128(&mut self.writer, value);
        proof {
            lemma_step(w0, wb, self@, q, num, rr is Ok, total);
        }
        if rr.is_err() {
            return rr;
        }
        let ghost wb = self@;
        let rr = self.formatter.end_string(&mut self.writer);
        proof {
            lemma_step(w0, wb, self@, q + num, q, rr is Ok, total);
        }
        rr
    }
}

} // verus!
