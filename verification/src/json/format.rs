//! The compact JSON formatter: the bytes of literals, numbers, escaped strings and the
//! punctuation of arrays and objects.
use vstd::prelude::*;
use vstd::string::StringSliceAdditionalSpecFns;

use super::{emits, fits, lemma_emits_nothing, lemma_step, wrote, ByteSliceWriter, Error};

verus! {

/// The lowercase hexadecimal digit of `d`, which is below 16.
pub open spec fn hex_digit(d: u8) -> u8 {
    if d < 10 {
        (0x30 + d) as u8
    } else {
        (0x61 + d - 10) as u8
    }
}

/// The escape code of a byte in a JSON string: `b`, `t`, `n`, `f`, `r`, `"` or `\` for the
/// characters with a short escape, `u` for the other control characters, 0 for a byte that is
/// written as it is.
pub open spec fn escape_code(b: u8) -> u8 {
    if b == 0x08 {
        0x62
    } else if b == 0x09 {
        0x74
    } else if b == 0x0A {
        0x6E
    } else if b == 0x0C {
        0x66
    } else if b == 0x0D {
        0x72
    } else if b == 0x22 {
        0x22
    } else if b == 0x5C {
        0x5C
    } else if b < 0x20 {
        0x75
    } else {
        0
    }
}

/// How one byte of a string appears inside the JSON string.
pub open spec fn escape_seq(b: u8) -> Seq<u8> {
    let e = escape_code(b);
    if e == 0 {
        seq![b]
    } else if e == 0x75 {
        seq![0x5Cu8, 0x75u8, 0x30u8, 0x30u8, hex_digit(b / 16), hex_digit(b % 16)]
    } else {
        seq![0x5Cu8, e]
    }
}

/// The escaped form of a run of bytes.
pub open spec fn escaped(bytes: Seq<u8>) -> Seq<u8>
    decreases bytes.len(),
{
    if bytes.len() == 0 {
        Seq::empty()
    } else {
        escaped(bytes.drop_last()) + escape_seq(bytes.last())
    }
}

/// The JSON string whose contents are `bytes`.
pub open spec fn quoted(bytes: Seq<u8>) -> Seq<u8> {
    seq![0x22u8] + escaped(bytes) + seq![0x22u8]
}

/// The decimal digits of `n`, most significant first.
pub open spec fn decimal(n: nat) -> Seq<u8>
    decreases n,
{
    if n < 10 {
        seq![(0x30 + n) as u8]
    } else {
        decimal(n / 10).push((0x30 + n % 10) as u8)
    }
}

/// The decimal text of an integer, with a leading `-` when it is negative.
pub open spec fn int_text(i: int) -> Seq<u8> {
    if i < 0 {
        seq![0x2Du8] + decimal((-i) as nat)
    } else {
        decimal(i as nat)
    }
}

/// Each byte after the first of a byte array, preceded by a comma.
pub open spec fn comma_items(v: Seq<u8>) -> Seq<u8>
    decreases v.len(),
{
    if v.len() == 0 {
        Seq::empty()
    } else {
        comma_items(v.drop_last()) + seq![0x2Cu8] + decimal(v.last() as nat)
    }
}

/// The members of a byte array, separated by commas.
pub open spec fn byte_items(v: Seq<u8>) -> Seq<u8> {
    if v.len() == 0 {
        Seq::empty()
    } else {
        decimal(v[0] as nat) + comma_items(v.skip(1))
    }
}

/// A byte array as a JSON array of numbers.
pub open spec fn byte_array_text(v: Seq<u8>) -> Seq<u8> {
    seq![0x5Bu8] + byte_items(v) + seq![0x5Du8]
}

pub open spec fn null_text() -> Seq<u8> {
    seq![0x6Eu8, 0x75u8, 0x6Cu8, 0x6Cu8]
}

pub open spec fn bool_text(value: bool) -> Seq<u8> {
    if value {
        seq![0x74u8, 0x72u8, 0x75u8, 0x65u8]
    } else {
        seq![0x66u8, 0x61u8, 0x6Cu8, 0x73u8, 0x65u8]
    }
}

/// The separator written before an array member or object key: nothing before the first.
pub open spec fn separator(first: bool) -> Seq<u8> {
    if first {
        Seq::empty()
    } else {
        seq![0x2Cu8]
    }
}

proof fn lemma_escaped_concat(a: Seq<u8>, b: Seq<u8>)
    ensures
        escaped(a + b) == escaped(a) + escaped(b),
    decreases b.len(),
{
    if b.len() == 0 {
        assert(a + b =~= a);
        assert(escaped(a) + escaped(b) =~= escaped(a));
    } else {
        lemma_escaped_concat(a, b.drop_last());
        assert((a + b).drop_last() =~= a + b.drop_last());
        assert(escaped(a + b) =~= escaped(a) + escaped(b));
    }
}

proof fn lemma_escaped_plain_run(run: Seq<u8>)
    requires
        forall|j: int| 0 <= j < run.len() ==> escape_code(#[trigger] run[j]) == 0,
    ensures
        escaped(run) == run,
    decreases run.len(),
{
    if run.len() > 0 {
        lemma_escaped_plain_run(run.drop_last());
        assert(escaped(run) =~= run);
    }
}

proof fn lemma_comma_items_concat(a: Seq<u8>, b: Seq<u8>)
    ensures
        comma_items(a + b) == comma_items(a) + comma_items(b),
    decreases b.len(),
{
    if b.len() == 0 {
        assert(a + b =~= a);
        assert(comma_items(a) + comma_items(b) =~= comma_items(a));
    } else {
        lemma_comma_items_concat(a, b.drop_last());
        assert((a + b).drop_last() =~= a + b.drop_last());
        assert(comma_items(a + b) =~= comma_items(a) + comma_items(b));
    }
}

/// How a character in need of escaping is written.
#[derive(Debug, Clone, Copy)]
pub enum CharEscape {
    /// An escaped quote `"`
    Quote,
    /// An escaped reverse solidus `\`
    ReverseSolidus,
    /// An escaped solidus `/`
    Solidus,
    /// An escaped backspace character (`\b`)
    Backspace,
    /// An escaped form feed character (`\f`)
    FormFeed,
    /// An escaped line feed character (`\n`)
    LineFeed,
    /// An escaped carriage return character (`\r`)
    CarriageReturn,
    /// An escaped tab character (`\t`)
    Tab,
    /// Any other control character, written `\u00XX` with two lowercase hex digits.
    AsciiControl(u8),
}

/// The bytes an escape is written as.
pub open spec fn char_escape_text(e: CharEscape) -> Seq<u8> {
    match e {
        CharEscape::Quote => seq![0x5Cu8, 0x22u8],
        CharEscape::ReverseSolidus => seq![0x5Cu8, 0x5Cu8],
        CharEscape::Solidus => seq![0x5Cu8, 0x2Fu8],
        CharEscape::Backspace => seq![0x5Cu8, 0x62u8],
        CharEscape::FormFeed => seq![0x5Cu8, 0x66u8],
        CharEscape::LineFeed => seq![0x5Cu8, 0x6Eu8],
        CharEscape::CarriageReturn => seq![0x5Cu8, 0x72u8],
        CharEscape::Tab => seq![0x5Cu8, 0x74u8],
        CharEscape::AsciiControl(b) => seq![0x5Cu8, 0x75u8, 0x30u8, 0x30u8, hex_digit(b / 16), hex_digit(b % 16)],
    }
}

/// The escape code of `b` (see [`escape_code`]).
pub fn escape(b: u8) -> (r: u8)
    ensures
        r == escape_code(b),
{
    if b == 0x08 {
        0x62u8
    } else if b == 0x09 {
        0x74u8
    } else if b == 0x0A {
        0x6Eu8
    } else if b == 0x0C {
        0x66u8
    } else if b == 0x0D {
        0x72u8
    } else if b == 0x22 {
        0x22u8
    } else if b == 0x5C {
        0x5Cu8
    } else if b < 0x20 {
        0x75u8
    } else {
        0
    }
}

fn hex(d: u8) -> (r: u8)
    requires
        d < 16,
    ensures
        r == hex_digit(d),
{
    if d < 10 {
        0x30u8 + d
    } else {
        0x61u8 + d - 10
    }
}

/// The digits of `value` in decimal.
///
/// Wraps `itoa::Buffer::format`, which prints an integer in decimal into the buffer and returns
/// that text; the contract states that text.
#[verifier::external_body]
fn itoa_u128(value: u128) -> (r: Vec<u8>)
    ensures
        r@ == decimal(value as nat),
{
    let mut buffer = itoa::Buffer::new();
    buffer.format(value).as_bytes().to_vec()
}

/// Writes the whole of a short literal, such as `null` or a punctuation mark.
fn write_text(writer: &mut ByteSliceWriter, text: &[u8]) -> (r: Result<(), Error>)
    requires
        fits(old(writer)@),
    ensures
        wrote(old(writer)@, final(writer)@, text@, r),
{
    writer.write_all(text)
}

/// The compact JSON formatter: no whitespace between tokens.
#[derive(Debug, Clone, Copy)]
pub struct CompactFormatter;

impl CompactFormatter {
    /// Writes `null`.
    pub fn write_null(&mut self, writer: &mut ByteSliceWriter) -> (r: Result<(), Error>)
        requires
            fits(old(writer)@),
        ensures
            wrote(old(writer)@, final(writer)@, null_text(), r),
    {
        let text = [0x6Eu8, 0x75u8, 0x6Cu8, 0x6Cu8];
        proof {
            assert(text@ =~= null_text());
        }
        write_text(writer, text.as_slice())
    }

    /// Writes `true` or `false`.
    pub fn write_bool(&mut self, writer: &mut ByteSliceWriter, value: bool) -> (r: Result<(), Error>)
        requires
            fits(old(writer)@),
        ensures
            wrote(old(writer)@, final(writer)@, bool_text(value), r),
    {
        if value {
            let text = [0x74u8, 0x72u8, 0x75u8, 0x65u8];
            proof {
                assert(text@ =~= bool_text(value));
            }
            write_text(writer, text.as_slice())
        } else {
            let text = [0x66u8, 0x61u8, 0x6Cu8, 0x73u8, 0x65u8];
            proof {
                assert(text@ =~= bool_text(value));
            }
            write_text(writer, text.as_slice())
        }
    }

    /// Writes an unsigned integer in decimal, like `123`.
    pub fn write_u128(&mut self, writer: &mut ByteSliceWriter, value: u128) -> (r: Result<(), Error>)
        requires
            fits(old(writer)@),
        ensures
            wrote(old(writer)@, final(writer)@, int_text(value as int), r),
    {
        let digits = itoa_u128(value);
        writer.write_all(digits.as_slice())
    }

    /// Writes a signed integer in decimal, like `-123`.
    pub fn write_i128(&mut self, writer: &mut ByteSliceWriter, value: i128) -> (r: Result<(), Error>)
        requires
            fits(old(writer)@),
        ensures
            wrote(old(writer)@, final(writer)@, int_text(value as int), r),
    {
        if value < 0 {
            let magnitude: u128 = (-(value + 1)) as u128 + 1;
            let digits = itoa_u128(magnitude);
            let mut text: Vec<u8> = Vec::new();
            text.push(0x2Du8);
            let mut i: usize = 0;
            while i < digits.len()
                invariant
                    i <= digits@.len(),
                    text@ == seq![0x2Du8] + digits@.take(i as int),
                decreases digits@.len() - i,
            {
                text.push(digits[i]);
                assert(digits@.take(i + 1) =~= digits@.take(i as int).push(digits@[i as int]));
                i = i + 1;
            }
            proof {
                assert(digits@.take(i as int) =~= digits@);
                assert(magnitude == -value);
            }
            writer.write_all(text.as_slice())
        } else {
            let digits = itoa_u128(value as u128);
            writer.write_all(digits.as_slice())
        }
    }

    /// Writes a `"` that opens a string.
    pub fn begin_string(&mut self, writer: &mut ByteSliceWriter) -> (r: Result<(), Error>)
        requires
            fits(old(writer)@),
        ensures
            wrote(old(writer)@, final(writer)@, seq![0x22u8], r),
    {
        let text = [0x22u8];
        proof {
            assert(text@ =~= seq![0x22u8]);
        }
        write_text(writer, text.as_slice())
    }

    /// Writes a `"` that closes a string.
    pub fn end_string(&mut self, writer: &mut ByteSliceWriter) -> (r: Result<(), Error>)
        requires
            fits(old(writer)@),
        ensures
            wrote(old(writer)@, final(writer)@, seq![0x22u8], r),
    {
        self.begin_string(writer)
    }

    /// Writes a run of string bytes that need no escaping.
    pub fn write_string_fragment(&mut self, writer: &mut ByteSliceWriter, fragment: &[u8]) -> (r: Result<(), Error>)
        requires
            fits(old(writer)@),
        ensures
            wrote(old(writer)@, final(writer)@, fragment@, r),
    {
        writer.write_all(fragment)
    }

    /// Writes a character escape.
    pub fn write_char_escape(&mut self, writer: &mut ByteSliceWriter, char_escape: CharEscape) -> (r: Result<(), Error>)
        requires
            fits(old(writer)@),
        ensures
            wrote(old(writer)@, final(writer)@, char_escape_text(char_escape), r),
    {
        let text: Vec<u8> = match char_escape {
            CharEscape::Quote => vec![0x5Cu8, 0x22u8],
            CharEscape::ReverseSolidus => vec![0x5Cu8, 0x5Cu8],
            CharEscape::Solidus => vec![0x5Cu8, 0x2Fu8],
            CharEscape::Backspace => vec![0x5Cu8, 0x62u8],
            CharEscape::FormFeed => vec![0x5Cu8, 0x66u8],
            CharEscape::LineFeed => vec![0x5Cu8, 0x6Eu8],
            CharEscape::CarriageReturn => vec![0x5Cu8, 0x72u8],
            CharEscape::Tab => vec![0x5Cu8, 0x74u8],
            CharEscape::AsciiControl(byte) => {
                let hi = byte >> 4;
                let lo = byte & 0xF;
                proof {
                    assert(hi == byte / 16) by (bit_vector)
                        requires
                            hi == byte >> 4,
                    ;
                    assert(lo == byte % 16) by (bit_vector)
                        requires
                            lo == byte & 0xF,
                    ;
                }
                vec![0x5Cu8, 0x75u8, 0x30u8, 0x30u8, hex(hi), hex(lo)]
            },
        };
        proof {
            assert(text@ =~= char_escape_text(char_escape));
        }
        writer.write_all(text.as_slice())
    }

    /// Writes the `[` that opens an array.
    pub fn begin_array(&mut self, writer: &mut ByteSliceWriter) -> (r: Result<(), Error>)
        requires
            fits(old(writer)@),
        ensures
            wrote(old(writer)@, final(writer)@, seq![0x5Bu8], r),
    {
        let text = [0x5Bu8];
        proof {
            assert(text@ =~= seq![0x5Bu8]);
        }
        write_text(writer, text.as_slice())
    }

    /// Writes the `]` that closes an array.
    pub fn end_array(&mut self, writer: &mut ByteSliceWriter) -> (r: Result<(), Error>)
        requires
            fits(old(writer)@),
        ensures
            wrote(old(writer)@, final(writer)@, seq![0x5Du8], r),
    {
        let text = [0x5Du8];
        proof {
            assert(text@ =~= seq![0x5Du8]);
        }
        write_text(writer, text.as_slice())
    }

    /// Writes the `,` before an array member other than the first.
    pub fn begin_array_value(&mut self, writer: &mut ByteSliceWriter, first: bool) -> (r: Result<(), Error>)
        requires
            fits(old(writer)@),
        ensures
            wrote(old(writer)@, final(writer)@, separator(first), r),
    {
        if first {
            proof {
                lemma_emits_nothing(writer@);
            }
            Ok(())
        } else {
            let text = [0x2Cu8];
            proof {
                assert(text@ =~= separator(first));
            }
            write_text(writer, text.as_slice())
        }
    }

    /// Called after every array member; writes nothing.
    pub fn end_array_value(&mut self, writer: &mut ByteSliceWriter) -> (r: Result<(), Error>)
        requires
            fits(old(writer)@),
        ensures
            wrote(old(writer)@, final(writer)@, Seq::empty(), r),
    {
        proof {
            lemma_emits_nothing(writer@);
        }
        Ok(())
    }

    /// Writes the `{` that opens an object.
    pub fn begin_object(&mut self, writer: &mut ByteSliceWriter) -> (r: Result<(), Error>)
        requires
            fits(old(writer)@),
        ensures
            wrote(old(writer)@, final(writer)@, seq![0x7Bu8], r),
    {
        let text = [0x7Bu8];
        proof {
            assert(text@ =~= seq![0x7Bu8]);
        }
        write_text(writer, text.as_slice())
    }

    /// Writes the `}` that closes an object.
    pub fn end_object(&mut self, writer: &mut ByteSliceWriter) -> (r: Result<(), Error>)
        requires
            fits(old(writer)@),
        ensures
            wrote(old(writer)@, final(writer)@, seq![0x7Du8], r),
    {
        let text = [0x7Du8];
        proof {
            assert(text@ =~= seq![0x7Du8]);
        }
        write_text(writer, text.as_slice())
    }

    /// Writes the `,` before an object key other than the first.
    pub fn begin_object_key(&mut self, writer: &mut ByteSliceWriter, first: bool) -> (r: Result<(), Error>)
        requires
            fits(old(writer)@),
        ensures
            wrote(old(writer)@, final(writer)@, separator(first), r),
    {
        self.begin_array_value(writer, first)
    }

    /// Called after every object key; writes nothing.
    pub fn end_object_key(&mut self, writer: &mut ByteSliceWriter) -> (r: Result<(), Error>)
        requires
            fits(old(writer)@),
        ensures
            wrote(old(writer)@, final(writer)@, Seq::empty(), r),
    {
        self.end_array_value(writer)
    }

    /// Writes the `:` between an object key and its value.
    pub fn begin_object_value(&mut self, writer: &mut ByteSliceWriter) -> (r: Result<(), Error>)
        requires
            fits(old(writer)@),
        ensures
            wrote(old(writer)@, final(writer)@, seq![0x3Au8], r),
    {
        let text = [0x3Au8];
        proof {
            assert(text@ =~= seq![0x3Au8]);
        }
        write_text(writer, text.as_slice())
    }

    /// Called after every object value; writes nothing.
    pub fn end_object_value(&mut self, writer: &mut ByteSliceWriter) -> (r: Result<(), Error>)
        requires
            fits(old(writer)@),
        ensures
            wrote(old(writer)@, final(writer)@, Seq::empty(), r),
    {
        self.end_array_value(writer)
    }
}


proof fn lemma_escaped_prefix(bytes: Seq<u8>, k: int)
    requires
        0 <= k <= bytes.len(),
    ensures
        escaped(bytes.take(k)).len() <= escaped(bytes).len(),
        escaped(bytes).take(escaped(bytes.take(k)).len() as int) == escaped(bytes.take(k)),
{
    assert(bytes =~= bytes.take(k) + bytes.skip(k));
    lemma_escaped_concat(bytes.take(k), bytes.skip(k));
    assert(escaped(bytes).take(escaped(bytes.take(k)).len() as int) =~= escaped(bytes.take(k)));
}

proof fn lemma_escaped_take_next(bytes: Seq<u8>, i: int)
    requires
        0 <= i < bytes.len(),
    ensures
        escaped(bytes.take(i + 1)) == escaped(bytes.take(i)) + escape_seq(bytes[i]),
{
    assert(bytes.take(i + 1).drop_last() =~= bytes.take(i));
}

proof fn lemma_escaped_run(bytes: Seq<u8>, start: int, i: int)
    requires
        0 <= start <= i <= bytes.len(),
        forall|j: int| start <= j < i ==> escape_code(#[trigger] bytes[j]) == 0,
    ensures
        escaped(bytes.take(i)) == escaped(bytes.take(start)) + bytes.subrange(start, i),
{
    let run = bytes.subrange(start, i);
    assert forall|j: int| 0 <= j < run.len() implies escape_code(#[trigger] run[j]) == 0 by {
        assert(run[j] == bytes[start + j]);
    }
    lemma_escaped_plain_run(run);
    assert(bytes.take(i) =~= bytes.take(start) + run);
    lemma_escaped_concat(bytes.take(start), run);
}

proof fn lemma_byte_items_next(v: Seq<u8>, i: int)
    requires
        0 <= i < v.len(),
    ensures
        byte_items(v.take(i + 1)) == byte_items(v.take(i)) + separator(i == 0) + decimal(v[i] as nat),
{
    if i == 0 {
        assert(v.take(1).skip(1) =~= Seq::<u8>::empty());
        assert(byte_items(v.take(1)) =~= decimal(v[0] as nat));
        assert(byte_items(v.take(0)) =~= Seq::<u8>::empty());
        assert(byte_items(v.take(i + 1)) =~= byte_items(v.take(i)) + separator(i == 0) + decimal(v[i] as nat));
    } else {
        assert(v.take(i + 1).skip(1).drop_last() =~= v.take(i).skip(1));
        assert(v.take(i + 1).skip(1).last() == v[i]);
        assert(byte_items(v.take(i + 1)) =~= byte_items(v.take(i)) + separator(i == 0) + decimal(v[i] as nat));
    }
}

proof fn lemma_byte_items_prefix(v: Seq<u8>, k: int)
    requires
        0 <= k <= v.len(),
    ensures
        byte_items(v.take(k)).len() <= byte_items(v).len(),
        byte_items(v).take(byte_items(v.take(k)).len() as int) == byte_items(v.take(k)),
{
    if k == 0 {
        assert(byte_items(v.take(0)) =~= Seq::<u8>::empty());
        assert(byte_items(v).take(0) =~= Seq::<u8>::empty());
    } else {
        assert(v.skip(1) =~= v.take(k).skip(1) + v.skip(k));
        lemma_comma_items_concat(v.take(k).skip(1), v.skip(k));
        assert(byte_items(v).take(byte_items(v.take(k)).len() as int) =~= byte_items(v.take(k)));
    }
}

fn char_escape_for(escape: u8, byte: u8) -> (r: CharEscape)
    requires
        escape == escape_code(byte),
        escape != 0,
    ensures
        char_escape_text(r) == escape_seq(byte),
{
    let r = if escape == 0x62u8 {
        CharEscape::Backspace
    } else if escape == 0x74u8 {
        CharEscape::Tab
    } else if escape == 0x6Eu8 {
        CharEscape::LineFeed
    } else if escape == 0x66u8 {
        CharEscape::FormFeed
    } else if escape == 0x72u8 {
        CharEscape::CarriageReturn
    } else if escape == 0x22u8 {
        CharEscape::Quote
    } else if escape == 0x5Cu8 {
        CharEscape::ReverseSolidus
    } else {
        CharEscape::AsciiControl(byte)
    };
    proof {
        assert(char_escape_text(r) =~= escape_seq(byte));
    }
    r
}

impl CompactFormatter {
    /// Writes a byte array as a JSON array of numbers.
    pub fn write_byte_array(&mut self, writer: &mut ByteSliceWriter, value: &[u8]) -> (r: Result<(), Error>)
        requires
            fits(old(writer)@),
        ensures
            wrote(old(writer)@, final(writer)@, byte_array_text(value@), r),
    {
        let ghost w0 = writer@;
        let ghost total = byte_array_text(value@);
        let ghost wb = writer@;
        let rr = self.begin_array(writer);
        proof {
            lemma_emits_nothing(w0);
            assert(byte_items(value@.take(0)) =~= Seq::<u8>::empty());
            lemma_byte_items_prefix(value@, 0);
            assert(total.take(1) =~= Seq::<u8>::empty() + seq![0x5Bu8]);
            lemma_step(w0, wb, writer@, Seq::empty(), seq![0x5Bu8], rr is Ok, total);
            assert(Seq::<u8>::empty() + seq![0x5Bu8] =~= seq![0x5Bu8] + byte_items(value@.take(0)));
        }
        if rr.is_err() {
            return rr;
        }
        let mut first = true;
        let mut i: usize = 0;
        while i < value.len()
            invariant
                i <= value@.len(),
                first == (i == 0),
                fits(w0),
                w0 == old(writer)@,
                total == byte_array_text(value@),
                emits(w0, writer@, seq![0x5Bu8] + byte_items(value@.take(i as int)), true),
            decreases value@.len() - i,
        {
            let ghost done = seq![0x5Bu8] + byte_items(value@.take(i as int));
            let ghost sep = separator(first);
            let ghost num = int_text(value@[i as int] as int);
            proof {
                lemma_byte_items_next(value@, i as int);
                lemma_byte_items_prefix(value@, i + 1);
                assert(done + sep + num =~= seq![0x5Bu8] + byte_items(value@.take(i + 1)));
                assert(total.take((done + sep).len() as int) =~= done + sep) by {
                    assert(total.take((done + sep + num).len() as int) =~= done + sep + num);
                    assert(total.take((done + sep).len() as int) =~= total.take((done + sep + num).len() as int).take((done + sep).len() as int));
                }
                assert(total.take((done + sep + num).len() as int) =~= done + sep + num);
            }
            let ghost wb = writer@;
            let rr = self.begin_array_value(writer, first);
            proof {
                lemma_step(w0, wb, writer@, done, sep, rr is Ok, total);
            }
            if rr.is_err() {
                return rr;
            }
            let ghost wb = writer@;
            let rr = self.write_u128(writer, value[i] as u128);
            proof {
                lemma_step(w0, wb, writer@, done + sep, num, rr is Ok, total);
            }
            if rr.is_err() {
                return rr;
            }
            let ghost wb = writer@;
            let rr = self.end_array_value(writer);
            proof {
                assert(done + sep + num + Seq::<u8>::empty() =~= done + sep + num);
                assert(total.take((done + sep + num + Seq::<u8>::empty()).len() as int) =~= done + sep + num + Seq::<u8>::empty());
                lemma_step(w0, wb, writer@, done + sep + num, Seq::empty(), rr is Ok, total);
            }
            if rr.is_err() {
                return rr;
            }
            first = false;
            i = i + 1;
        }
        proof {
            assert(value@.take(i as int) =~= value@);
            assert(total.take((seq![0x5Bu8] + byte_items(value@.take(i as int)) + seq![0x5Du8]).len() as int) =~= total);
        }
        let ghost wb = writer@;
        let rr = self.end_array(writer);
        proof {
            lemma_step(w0, wb, writer@, seq![0x5Bu8] + byte_items(value@.take(i as int)), seq![0x5Du8], rr is Ok, total);
        }
        rr
    }
}

/// Writes the contents of a JSON string: `value` with every byte that needs it escaped.
pub fn format_escaped_str_contents(
    writer: &mut ByteSliceWriter,
    formatter: &mut CompactFormatter,
    value: &str,
) -> (r: Result<(), Error>)
    requires
        fits(old(writer)@),
    ensures
        wrote(old(writer)@, final(writer)@, escaped(value.spec_bytes()), r),
{
    let bytes = value.as_bytes();
    let ghost w0 = writer@;
    let ghost total = escaped(bytes@);
    proof {
        lemma_emits_nothing(w0);
        assert(escaped(bytes@.take(0)) =~= Seq::<u8>::empty());
    }
    let mut start: usize = 0;
    let mut i: usize = 0;
    while i < bytes.len()
        invariant
            start <= i <= bytes@.len(),
            fits(w0),
            w0 == old(writer)@,
            bytes@ == value.spec_bytes(),
            total == escaped(bytes@),
            emits(w0, writer@, escaped(bytes@.take(start as int)), true),
            forall|j: int| start <= j < i ==> escape_code(#[trigger] bytes@[j]) == 0,
        decreases bytes@.len() - i,
    {
        let byte = bytes[i];
        let esc = escape(byte);
        if esc == 0 {
            i = i + 1;
        } else {
            proof {
                lemma_escaped_run(bytes@, start as int, i as int);
                lemma_escaped_prefix(bytes@, i as int);
            }
            if start < i {
                let run = vstd::slice::slice_subrange(bytes, start, i);
                let ghost wb = writer@;
                let rr = formatter.write_string_fragment(writer, run);
                proof {
                    lemma_step(w0, wb, writer@, escaped(bytes@.take(start as int)), run@, rr is Ok, total);
                }
                if rr.is_err() {
                    return rr;
                }
            } else {
                assert(bytes@.subrange(start as int, i as int) =~= Seq::<u8>::empty());
                assert(escaped(bytes@.take(start as int)) + Seq::<u8>::empty() =~= escaped(bytes@.take(start as int)));
            }
            let ce = char_escape_for(esc, byte);
            proof {
                lemma_escaped_take_next(bytes@, i as int);
                lemma_escaped_prefix(bytes@, i + 1);
            }
            let ghost wb = writer@;
            let rr = formatter.write_char_escape(writer, ce);
            proof {
                lemma_step(w0, wb, writer@, escaped(bytes@.take(i as int)), escape_seq(byte), rr is Ok, total);
            }
            if rr.is_err() {
                return rr;
            }
            i = i + 1;
            start = i;
        }
    }
    proof {
        lemma_escaped_run(bytes@, start as int, i as int);
        assert(bytes@.take(i as int) =~= bytes@);
        assert(total.take(total.len() as int) =~= total);
    }
    if start < bytes.len() {
        let run = vstd::slice::slice_subrange(bytes, start, bytes.len());
        let ghost wb = writer@;
        let rr = formatter.write_string_fragment(writer, run);
        proof {
            lemma_step(w0, wb, writer@, escaped(bytes@.take(start as int)), run@, rr is Ok, total);
        }
        rr
    } else {
        proof {
            assert(bytes@.take(start as int) =~= bytes@);
        }
        Ok(())
    }
}

/// Writes `value` as a JSON string.
pub fn format_escaped_str(
    writer: &mut ByteSliceWriter,
    formatter: &mut CompactFormatter,
    value: &str,
) -> (r: Result<(), Error>)
    requires
        fits(old(writer)@),
    ensures
        wrote(old(writer)@, final(writer)@, quoted(value.spec_bytes()), r),
{
    let ghost w0 = writer@;
    let ghost body = escaped(value.spec_bytes());
    let ghost total = quoted(value.spec_bytes());
    proof {
        lemma_emits_nothing(w0);
        assert(total.take(1) =~= Seq::<u8>::empty() + seq![0x22u8]);
        assert(total.take(1 + body.len() as int) =~= seq![0x22u8] + body);
        assert(total.take(total.len() as int) =~= seq![0x22u8] + body + seq![0x22u8]);
    }
    let ghost wb = writer@;
    let rr = formatter.begin_string(writer);
    proof {
        lemma_step(w0, wb, writer@, Seq::empty(), seq![0x22u8], rr is Ok, total);
        assert(Seq::<u8>::empty() + seq![0x22u8] =~= seq![0x22u8]);
    }
    if rr.is_err() {
        return rr;
    }
    let ghost wb = writer@;
    let rr = format_escaped_str_contents(writer, formatter, value);
    proof {
        lemma_step(w0, wb, writer@, seq![0x22u8], body, rr is Ok, total);
    }
    if rr.is_err() {
        return rr;
    }
    let ghost wb = writer@;
    let rr = formatter.end_string(writer);
    proof {
        lemma_step(w0, wb, writer@, seq![0x22u8] + body, seq![0x22u8], rr is Ok, total);
    }
    rr
}

/// A lowercase or uppercase hexadecimal digit.
pub open spec fn is_hex(b: u8) -> bool {
    (0x30 <= b <= 0x39) || (0x61 <= b <= 0x66) || (0x41 <= b <= 0x46)
}

/// A character that may follow a backslash on its own: `"`, `\`, `/`, `b`, `f`, `n`, `r`, `t`.
pub open spec fn is_short_escape(b: u8) -> bool {
    b == 0x22 || b == 0x5C || b == 0x2F || b == 0x62 || b == 0x66 || b == 0x6E || b == 0x72 || b == 0x74
}

/// The body of a JSON string: bytes that may stand as they are (anything but a quote, a
/// backslash or a control character) and escapes (a backslash and a short escape character, or
/// `\u` and four hexadecimal digits).
pub open spec fn is_string_body(s: Seq<u8>) -> bool
    decreases s.len(),
{
    if s.len() == 0 {
        true
    } else if s[0] == 0x5C {
        if s.len() >= 2 && is_short_escape(s[1]) {
            is_string_body(s.skip(2))
        } else if s.len() >= 6 && s[1] == 0x75 && is_hex(s[2]) && is_hex(s[3]) && is_hex(s[4]) && is_hex(s[5]) {
            is_string_body(s.skip(6))
        } else {
            false
        }
    } else {
        s[0] >= 0x20 && s[0] != 0x22 && is_string_body(s.skip(1))
    }
}

proof fn lemma_string_body_concat(a: Seq<u8>, t: Seq<u8>)
    requires
        is_string_body(a),
        is_string_body(t),
    ensures
        is_string_body(a + t),
    decreases a.len(),
{
    if a.len() > 0 {
        let at = a + t;
        assert(at[0] == a[0]);
        if a[0] == 0x5C {
            if a.len() >= 2 && is_short_escape(a[1]) {
                assert(at[1] == a[1]);
                lemma_string_body_concat(a.skip(2), t);
                assert(at.skip(2) =~= a.skip(2) + t);
            } else {
                assert(at[1] == a[1] && at[2] == a[2] && at[3] == a[3] && at[4] == a[4] && at[5] == a[5]);
                lemma_string_body_concat(a.skip(6), t);
                assert(at.skip(6) =~= a.skip(6) + t);
            }
        } else {
            lemma_string_body_concat(a.skip(1), t);
            assert(at.skip(1) =~= a.skip(1) + t);
        }
    } else {
        assert(a + t =~= t);
    }
}

proof fn lemma_hex_digit(d: u8)
    requires
        d < 16,
    ensures
        is_hex(hex_digit(d)),
{
}

proof fn lemma_escape_seq_body(b: u8)
    ensures
        is_string_body(escape_seq(b)),
{
    let e = escape_seq(b);
    assert(is_string_body(Seq::<u8>::empty()));
    if escape_code(b) == 0 {
        assert(e.skip(1) =~= Seq::<u8>::empty());
        assert(e[0] == b && b >= 0x20 && b != 0x22 && b != 0x5C);
    } else if escape_code(b) == 0x75 {
        lemma_hex_digit(b / 16);
        lemma_hex_digit(b % 16);
        assert(e.skip(6) =~= Seq::<u8>::empty());
        assert(!is_short_escape(e[1]));
        assert(e.len() == 6 && e[0] == 0x5C && e[1] == 0x75);
    } else {
        assert(e.skip(2) =~= Seq::<u8>::empty());
        assert(e.len() == 2 && e[0] == 0x5C && is_short_escape(e[1]));
    }
}

/// Whatever the bytes, their escaped form is the body of a valid JSON string: no quote,
/// backslash or control character is left bare, and every escape is well formed.
pub proof fn lemma_escaped_is_string_body(bytes: Seq<u8>)
    ensures
        is_string_body(escaped(bytes)),
    decreases bytes.len(),
{
    if bytes.len() > 0 {
        lemma_escaped_is_string_body(bytes.drop_last());
        lemma_escape_seq_body(bytes.last());
        lemma_string_body_concat(escaped(bytes.drop_last()), escape_seq(bytes.last()));
    }
}

/// The value of a hexadecimal digit.
pub open spec fn hex_value(b: u8) -> int {
    if 0x30 <= b <= 0x39 {
        b - 0x30
    } else if 0x61 <= b <= 0x66 {
        b - 0x61 + 10
    } else {
        b - 0x41 + 10
    }
}

/// The byte a backslash and `b` stand for: a control character for `b`, `f`, `n`, `r` and `t`,
/// the character itself for `"`, `\` and `/`.
pub open spec fn short_escape_byte(b: u8) -> u8 {
    if b == 0x62 {
        0x08
    } else if b == 0x66 {
        0x0C
    } else if b == 0x6E {
        0x0A
    } else if b == 0x72 {
        0x0D
    } else if b == 0x74 {
        0x09
    } else {
        b
    }
}

/// The bytes a JSON string body stands for, read from the front: a byte that stands as it is,
/// a backslash and a short escape character, or `\u` and four hexadecimal digits naming an ASCII
/// character. `None` when the body is not one, or holds a `\u` escape of a character from `0x80`
/// up, which this reading does not take.
pub open spec fn unescaped(s: Seq<u8>) -> Option<Seq<u8>>
    decreases s.len(),
{
    if s.len() == 0 {
        Some(Seq::empty())
    } else if s[0] == 0x5C {
        if s.len() >= 2 && is_short_escape(s[1]) {
            match unescaped(s.skip(2)) {
                Some(r) => Some(seq![short_escape_byte(s[1])] + r),
                None => None,
            }
        } else if s.len() >= 6 && s[1] == 0x75 && is_hex(s[2]) && is_hex(s[3]) && is_hex(s[4]) && is_hex(s[5]) {
            let code = hex_value(s[2]) * 4096 + hex_value(s[3]) * 256 + hex_value(s[4]) * 16 + hex_value(s[5]);
            if code < 0x80 {
                match unescaped(s.skip(6)) {
                    Some(r) => Some(seq![code as u8] + r),
                    None => None,
                }
            } else {
                None
            }
        } else {
            None
        }
    } else if s[0] >= 0x20 && s[0] != 0x22 {
        match unescaped(s.skip(1)) {
            Some(r) => Some(seq![s[0]] + r),
            None => None,
        }
    } else {
        None
    }
}

proof fn lemma_hex_value(d: u8)
    requires
        d < 16,
    ensures
        hex_value(hex_digit(d)) == d,
{
}

proof fn lemma_unescape_one(b: u8, t: Seq<u8>)
    ensures
        unescaped(escape_seq(b) + t) == match unescaped(t) {
            Some(r) => Some(seq![b] + r),
            None => None::<Seq<u8>>,
        },
{
    let e = escape_seq(b);
    let s = e + t;
    if escape_code(b) == 0 {
        assert(s[0] == b);
        assert(s.skip(1) =~= t);
    } else if escape_code(b) == 0x75 {
        lemma_hex_value(b / 16);
        lemma_hex_value(b % 16);
        assert(s[0] == 0x5C && s[1] == 0x75);
        assert(s[2] == 0x30 && s[3] == 0x30 && s[4] == hex_digit(b / 16) && s[5] == hex_digit(b % 16));
        lemma_hex_digit(b / 16);
        lemma_hex_digit(b % 16);
        assert(!is_short_escape(s[1]));
        assert(hex_value(s[4]) * 16 + hex_value(s[5]) == b) by (nonlinear_arith)
            requires
                hex_value(s[4]) == b / 16,
                hex_value(s[5]) == b % 16,
        ;
        assert(s.skip(6) =~= t);
    } else {
        assert(s[0] == 0x5C && s[1] == escape_code(b));
        assert(is_short_escape(s[1]));
        assert(short_escape_byte(s[1]) == b);
        assert(s.skip(2) =~= t);
    }
}

/// Reading the escaped form of any bytes back as a JSON string body gives the bytes again.
pub proof fn lemma_unescape_escaped(bytes: Seq<u8>)
    ensures
        unescaped(escaped(bytes)) == Some(bytes),
    decreases bytes.len(),
{
    if bytes.len() == 0 {
        assert(escaped(bytes) =~= Seq::<u8>::empty());
    } else {
        let c = bytes[0];
        let rest = bytes.drop_first();
        assert(bytes =~= seq![c] + rest);
        lemma_escaped_concat(seq![c], rest);
        assert(seq![c].drop_last() =~= Seq::<u8>::empty());
        assert(escaped(seq![c]) == escaped(seq![c].drop_last()) + escape_seq(c));
        assert(escaped(seq![c]) =~= escape_seq(c));
        lemma_unescape_escaped(rest);
        lemma_unescape_one(c, escaped(rest));
        assert(seq![c] + rest =~= bytes);
    }
}

} // verus!
