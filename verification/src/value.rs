//! The value transcoder: how typed application values map onto the
//! `(bytes, flags)` pair the wire carries.  Bytes and UTF-8 text are
//! stored verbatim; numbers are stored as their decimal text, so that
//! the server's native increment and decrement stay usable on the same
//! keys; flags are an opaque pass-through and always zero today.

use crate::decimal::{
    all_dec_digits, is_dec_digit, lemma_dec_digits_val, parse_signed, parse_unsigned,
    push_dec_i64, push_dec_u64, spec_dec_digits, spec_dec_digits_signed, spec_parse_signed,
    spec_parse_unsigned, spec_trim, trim_bounds, u64_to_dec,
};
use crate::error::{MemcachedError, ParseError};
use vstd::prelude::*;
use vstd::string::StringSliceAdditionalSpecFns;
use vstd::utf8::{
    decode_utf8, encode_utf8, encode_utf8_decode_utf8, encode_utf8_valid_utf8, is_ascii_chars,
    is_ascii_chars_encode_utf8, valid_utf8,
};

verus! {

/// Relies on `alloc::string::String::from_utf8`: it succeeds exactly on
/// valid UTF-8 input and returns the text those bytes encode.
#[verifier::external_body]
pub(crate) fn bytes_to_string(v: &[u8]) -> (r: Option<String>)
    ensures
        match r {
            Some(s) => valid_utf8(v@) && s@ == decode_utf8(v@),
            None => !valid_utf8(v@),
        },
{
    String::from_utf8(v.to_vec()).ok()
}

/// The flags stored alongside a value.  A single variant exists: flags
/// do not tag the encoding, they pass through opaquely.
#[derive(Clone, Copy, Debug, PartialEq, Eq, Structural)]
pub enum Flags {
    /// Plain bytes; the wire value of this variant is zero.
    Bytes,
}

impl Flags {
    /// The 32-bit field this variant puts on the wire.
    pub open spec fn spec_value(self) -> u32 {
        0
    }

    /// Encode the variant as its wire value.
    pub fn value(self) -> (r: u32)
        ensures
            r == self.spec_value(),
    {
        match self {
            Flags::Bytes => 0,
        }
    }
}

/// Bytes below 0x80 are valid UTF-8 and decode to themselves, one
/// character per byte.
pub proof fn lemma_ascii_bytes_utf8(s: Seq<u8>)
    requires
        forall|i: int| 0 <= i < s.len() ==> #[trigger] s[i] < 128,
    ensures
        valid_utf8(s),
        decode_utf8(s) == s.map_values(|b: u8| b as char),
        encode_utf8(s.map_values(|b: u8| b as char)) == s,
{
    let c = s.map_values(|b: u8| b as char);
    assert(is_ascii_chars(c)) by {
        assert(forall|i: int| 0 <= i < c.len() ==> '\0' <= #[trigger] c[i] <= '\u{7f}');
    }
    is_ascii_chars_encode_utf8(c);
    assert(encode_utf8(c) =~= s);
    encode_utf8_valid_utf8(c);
    encode_utf8_decode_utf8(c);
}

/// How a value type is serialized onto the wire: its byte encoding, its
/// flags, and — for the value categories stored as text — its string
/// form.
pub trait ToMemcachedValue {
    /// The bytes this value puts on the wire.
    spec fn spec_encoded(&self) -> Seq<u8>;

    /// The text this value is stored as, for string-like categories;
    /// `None` for raw bytes.
    spec fn spec_string_form(&self) -> Option<Seq<char>>;

    /// Whether this value category is stored as text.
    spec fn spec_can_as_str() -> bool;

    /// A string-like value's encoding is exactly the UTF-8 of its text.
    proof fn string_form_encoding(&self)
        ensures
            Self::spec_can_as_str() <==> self.spec_string_form() is Some,
            self.spec_string_form() matches Some(t) ==> self.spec_encoded() == encode_utf8(t),
    ;

    /// The flags stored with this value; always the opaque bytes flag.
    fn get_flags(&self) -> (r: u32)
        ensures
            r == 0,
    ;

    /// How many bytes [`ToMemcachedValue::write_to`] will append.
    fn get_length(&self) -> (r: usize)
        ensures
            r == self.spec_encoded().len(),
    ;

    /// Append this value's wire encoding to `out`.
    fn write_to(&self, out: &mut Vec<u8>)
        ensures
            final(out)@ == old(out)@ + self.spec_encoded(),
    ;

    /// The value's text form, when its category has one.
    fn parse_as_str(&self) -> (r: Option<String>)
        ensures
            r is Some <==> Self::spec_can_as_str(),
            r matches Some(s) ==> Some(s@) == self.spec_string_form(),
    ;

    /// Whether this value category is stored as text.
    fn can_as_str() -> (r: bool)
        ensures
            r == Self::spec_can_as_str(),
    ;
}

impl<'a> ToMemcachedValue for &'a [u8] {
    open spec fn spec_encoded(&self) -> Seq<u8> {
        self@
    }

    open spec fn spec_string_form(&self) -> Option<Seq<char>> {
        None
    }

    open spec fn spec_can_as_str() -> bool {
        false
    }

    proof fn string_form_encoding(&self) {
    }

    fn get_flags(&self) -> (r: u32) {
        0
    }

    fn get_length(&self) -> (r: usize) {
        self.len()
    }

    fn write_to(&self, out: &mut Vec<u8>) {
        crate::commands::push_bytes(out, self);
    }

    fn parse_as_str(&self) -> (r: Option<String>) {
        None
    }

    fn can_as_str() -> (r: bool) {
        false
    }
}

impl ToMemcachedValue for Vec<u8> {
    open spec fn spec_encoded(&self) -> Seq<u8> {
        self@
    }

    open spec fn spec_string_form(&self) -> Option<Seq<char>> {
        None
    }

    open spec fn spec_can_as_str() -> bool {
        false
    }

    proof fn string_form_encoding(&self) {
    }

    fn get_flags(&self) -> (r: u32) {
        0
    }

    fn get_length(&self) -> (r: usize) {
        self.len()
    }

    fn write_to(&self, out: &mut Vec<u8>) {
        crate::commands::push_bytes(out, self.as_slice());
    }

    fn parse_as_str(&self) -> (r: Option<String>) {
        None
    }

    fn can_as_str() -> (r: bool) {
        false
    }
}

impl<'a> ToMemcachedValue for &'a str {
    open spec fn spec_encoded(&self) -> Seq<u8> {
        self.spec_bytes()
    }

    open spec fn spec_string_form(&self) -> Option<Seq<char>> {
        Some(self@)
    }

    open spec fn spec_can_as_str() -> bool {
        true
    }

    proof fn string_form_encoding(&self) {
    }

    fn get_flags(&self) -> (r: u32) {
        0
    }

    fn get_length(&self) -> (r: usize) {
        self.as_bytes().len()
    }

    fn write_to(&self, out: &mut Vec<u8>) {
        crate::commands::push_bytes(out, self.as_bytes());
    }

    fn parse_as_str(&self) -> (r: Option<String>) {
        Some((*self).to_owned())
    }

    fn can_as_str() -> (r: bool) {
        true
    }
}

impl ToMemcachedValue for String {
    open spec fn spec_encoded(&self) -> Seq<u8> {
        encode_utf8(self@)
    }

    open spec fn spec_string_form(&self) -> Option<Seq<char>> {
        Some(self@)
    }

    open spec fn spec_can_as_str() -> bool {
        true
    }

    proof fn string_form_encoding(&self) {
    }

    fn get_flags(&self) -> (r: u32) {
        0
    }

    fn get_length(&self) -> (r: usize) {
        self.as_str().as_bytes().len()
    }

    fn write_to(&self, out: &mut Vec<u8>) {
        crate::commands::push_bytes(out, self.as_str().as_bytes());
    }

    fn parse_as_str(&self) -> (r: Option<String>) {
        Some(self.clone())
    }

    fn can_as_str() -> (r: bool) {
        true
    }
}


/// The characters that a run of sub-0x80 bytes spells, as an owned
/// string.
fn ascii_string(b: &[u8]) -> (r: String)
    requires
        forall|i: int| 0 <= i < b@.len() ==> #[trigger] b@[i] < 128,
    ensures
        r@ == b@.map_values(|x: u8| x as char),
{
    proof {
        lemma_ascii_bytes_utf8(b@);
    }
    match bytes_to_string(b) {
        Some(s) => s,
        None => {
            proof {
                assert(false);
            }
            String::new()
        },
    }
}

/// Decimal digit bytes stay below 0x80, as does the minus sign.
proof fn lemma_dec_text_ascii(s: Seq<u8>)
    requires
        forall|i: int| 0 <= i < s.len() ==> (is_dec_digit(#[trigger] s[i]) || s[i] == 45),
    ensures
        forall|i: int| 0 <= i < s.len() ==> #[trigger] s[i] < 128,
{
}

impl ToMemcachedValue for u64 {
    open spec fn spec_encoded(&self) -> Seq<u8> {
        spec_dec_digits(*self as nat)
    }

    open spec fn spec_string_form(&self) -> Option<Seq<char>> {
        Some(spec_dec_digits(*self as nat).map_values(|b: u8| b as char))
    }

    open spec fn spec_can_as_str() -> bool {
        true
    }

    proof fn string_form_encoding(&self) {
        lemma_dec_digits_val(*self as nat);
        lemma_dec_text_ascii(spec_dec_digits(*self as nat));
        lemma_ascii_bytes_utf8(spec_dec_digits(*self as nat));
    }

    fn get_flags(&self) -> (r: u32) {
        0
    }

    fn get_length(&self) -> (r: usize) {
        u64_to_dec(*self).len()
    }

    fn write_to(&self, out: &mut Vec<u8>) {
        push_dec_u64(out, *self);
    }

    fn parse_as_str(&self) -> (r: Option<String>) {
        let d = u64_to_dec(*self);
        proof {
            lemma_dec_digits_val(*self as nat);
            lemma_dec_text_ascii(d@);
        }
        Some(ascii_string(d.as_slice()))
    }

    fn can_as_str() -> (r: bool) {
        true
    }
}

impl ToMemcachedValue for u8 {
    open spec fn spec_encoded(&self) -> Seq<u8> {
        spec_dec_digits(*self as nat)
    }

    open spec fn spec_string_form(&self) -> Option<Seq<char>> {
        Some(spec_dec_digits(*self as nat).map_values(|b: u8| b as char))
    }

    open spec fn spec_can_as_str() -> bool {
        true
    }

    proof fn string_form_encoding(&self) {
        lemma_dec_digits_val(*self as nat);
        lemma_dec_text_ascii(spec_dec_digits(*self as nat));
        lemma_ascii_bytes_utf8(spec_dec_digits(*self as nat));
    }

    fn get_flags(&self) -> (r: u32) {
        0
    }

    fn get_length(&self) -> (r: usize) {
        u64_to_dec(*self as u64).len()
    }

    fn write_to(&self, out: &mut Vec<u8>) {
        push_dec_u64(out, *self as u64);
    }

    fn parse_as_str(&self) -> (r: Option<String>) {
        let d = u64_to_dec(*self as u64);
        proof {
            lemma_dec_digits_val(*self as nat);
            lemma_dec_text_ascii(d@);
        }
        Some(ascii_string(d.as_slice()))
    }

    fn can_as_str() -> (r: bool) {
        true
    }
}

impl ToMemcachedValue for u16 {
    open spec fn spec_encoded(&self) -> Seq<u8> {
        spec_dec_digits(*self as nat)
    }

    open spec fn spec_string_form(&self) -> Option<Seq<char>> {
        Some(spec_dec_digits(*self as nat).map_values(|b: u8| b as char))
    }

    open spec fn spec_can_as_str() -> bool {
        true
    }

    proof fn string_form_encoding(&self) {
        lemma_dec_digits_val(*self as nat);
        lemma_dec_text_ascii(spec_dec_digits(*self as nat));
        lemma_ascii_bytes_utf8(spec_dec_digits(*self as nat));
    }

    fn get_flags(&self) -> (r: u32) {
        0
    }

    fn get_length(&self) -> (r: usize) {
        u64_to_dec(*self as u64).len()
    }

    fn write_to(&self, out: &mut Vec<u8>) {
        push_dec_u64(out, *self as u64);
    }

    fn parse_as_str(&self) -> (r: Option<String>) {
        let d = u64_to_dec(*self as u64);
        proof {
            lemma_dec_digits_val(*self as nat);
            lemma_dec_text_ascii(d@);
        }
        Some(ascii_string(d.as_slice()))
    }

    fn can_as_str() -> (r: bool) {
        true
    }
}

impl ToMemcachedValue for u32 {
    open spec fn spec_encoded(&self) -> Seq<u8> {
        spec_dec_digits(*self as nat)
    }

    open spec fn spec_string_form(&self) -> Option<Seq<char>> {
        Some(spec_dec_digits(*self as nat).map_values(|b: u8| b as char))
    }

    open spec fn spec_can_as_str() -> bool {
        true
    }

    proof fn string_form_encoding(&self) {
        lemma_dec_digits_val(*self as nat);
        lemma_dec_text_ascii(spec_dec_digits(*self as nat));
        lemma_ascii_bytes_utf8(spec_dec_digits(*self as nat));
    }

    fn get_flags(&self) -> (r: u32) {
        0
    }

    fn get_length(&self) -> (r: usize) {
        u64_to_dec(*self as u64).len()
    }

    fn write_to(&self, out: &mut Vec<u8>) {
        push_dec_u64(out, *self as u64);
    }

    fn parse_as_str(&self) -> (r: Option<String>) {
        let d = u64_to_dec(*self as u64);
        proof {
            lemma_dec_digits_val(*self as nat);
            lemma_dec_text_ascii(d@);
        }
        Some(ascii_string(d.as_slice()))
    }

    fn can_as_str() -> (r: bool) {
        true
    }
}

/// The decimal text of a signed number is digits, with a leading minus
/// sign exactly when the number is negative.
pub proof fn lemma_dec_signed_shape(n: int)
    ensures
        forall|i: int|
            0 <= i < spec_dec_digits_signed(n).len() ==> (is_dec_digit(
                #[trigger] spec_dec_digits_signed(n)[i],
            ) || spec_dec_digits_signed(n)[i] == 45),
        spec_dec_digits_signed(n).len() >= 1,
{
    if n < 0 {
        lemma_dec_digits_val((-n) as nat);
        assert(forall|i: int|
            1 <= i < spec_dec_digits_signed(n).len() ==> is_dec_digit(
                #[trigger] spec_dec_digits_signed(n)[i],
            ));
    } else {
        lemma_dec_digits_val(n as nat);
    }
}

impl ToMemcachedValue for i64 {
    open spec fn spec_encoded(&self) -> Seq<u8> {
        spec_dec_digits_signed(*self as int)
    }

    open spec fn spec_string_form(&self) -> Option<Seq<char>> {
        Some(spec_dec_digits_signed(*self as int).map_values(|b: u8| b as char))
    }

    open spec fn spec_can_as_str() -> bool {
        true
    }

    proof fn string_form_encoding(&self) {
        lemma_dec_signed_shape(*self as int);
        lemma_dec_text_ascii(spec_dec_digits_signed(*self as int));
        lemma_ascii_bytes_utf8(spec_dec_digits_signed(*self as int));
    }

    fn get_flags(&self) -> (r: u32) {
        0
    }

    fn get_length(&self) -> (r: usize) {
        let mut d: Vec<u8> = Vec::new();
        push_dec_i64(&mut d, *self as i64);
        d.len()
    }

    fn write_to(&self, out: &mut Vec<u8>) {
        push_dec_i64(out, *self as i64);
    }

    fn parse_as_str(&self) -> (r: Option<String>) {
        let mut d: Vec<u8> = Vec::new();
        push_dec_i64(&mut d, *self as i64);
        proof {
            lemma_dec_signed_shape(*self as int);
            lemma_dec_text_ascii(d@);
        }
        Some(ascii_string(d.as_slice()))
    }

    fn can_as_str() -> (r: bool) {
        true
    }
}

impl ToMemcachedValue for i8 {
    open spec fn spec_encoded(&self) -> Seq<u8> {
        spec_dec_digits_signed(*self as int)
    }

    open spec fn spec_string_form(&self) -> Option<Seq<char>> {
        Some(spec_dec_digits_signed(*self as int).map_values(|b: u8| b as char))
    }

    open spec fn spec_can_as_str() -> bool {
        true
    }

    proof fn string_form_encoding(&self) {
        lemma_dec_signed_shape(*self as int);
        lemma_dec_text_ascii(spec_dec_digits_signed(*self as int));
        lemma_ascii_bytes_utf8(spec_dec_digits_signed(*self as int));
    }

    fn get_flags(&self) -> (r: u32) {
        0
    }

    fn get_length(&self) -> (r: usize) {
        let mut d: Vec<u8> = Vec::new();
        push_dec_i64(&mut d, *self as i64);
        d.len()
    }

    fn write_to(&self, out: &mut Vec<u8>) {
        push_dec_i64(out, *self as i64);
    }

    fn parse_as_str(&self) -> (r: Option<String>) {
        let mut d: Vec<u8> = Vec::new();
        push_dec_i64(&mut d, *self as i64);
        proof {
            lemma_dec_signed_shape(*self as int);
            lemma_dec_text_ascii(d@);
        }
        Some(ascii_string(d.as_slice()))
    }

    fn can_as_str() -> (r: bool) {
        true
    }
}

impl ToMemcachedValue for i16 {
    open spec fn spec_encoded(&self) -> Seq<u8> {
        spec_dec_digits_signed(*self as int)
    }

    open spec fn spec_string_form(&self) -> Option<Seq<char>> {
        Some(spec_dec_digits_signed(*self as int).map_values(|b: u8| b as char))
    }

    open spec fn spec_can_as_str() -> bool {
        true
    }

    proof fn string_form_encoding(&self) {
        lemma_dec_signed_shape(*self as int);
        lemma_dec_text_ascii(spec_dec_digits_signed(*self as int));
        lemma_ascii_bytes_utf8(spec_dec_digits_signed(*self as int));
    }

    fn get_flags(&self) -> (r: u32) {
        0
    }

    fn get_length(&self) -> (r: usize) {
        let mut d: Vec<u8> = Vec::new();
        push_dec_i64(&mut d, *self as i64);
        d.len()
    }

    fn write_to(&self, out: &mut Vec<u8>) {
        push_dec_i64(out, *self as i64);
    }

    fn parse_as_str(&self) -> (r: Option<String>) {
        let mut d: Vec<u8> = Vec::new();
        push_dec_i64(&mut d, *self as i64);
        proof {
            lemma_dec_signed_shape(*self as int);
            lemma_dec_text_ascii(d@);
        }
        Some(ascii_string(d.as_slice()))
    }

    fn can_as_str() -> (r: bool) {
        true
    }
}

impl ToMemcachedValue for i32 {
    open spec fn spec_encoded(&self) -> Seq<u8> {
        spec_dec_digits_signed(*self as int)
    }

    open spec fn spec_string_form(&self) -> Option<Seq<char>> {
        Some(spec_dec_digits_signed(*self as int).map_values(|b: u8| b as char))
    }

    open spec fn spec_can_as_str() -> bool {
        true
    }

    proof fn string_form_encoding(&self) {
        lemma_dec_signed_shape(*self as int);
        lemma_dec_text_ascii(spec_dec_digits_signed(*self as int));
        lemma_ascii_bytes_utf8(spec_dec_digits_signed(*self as int));
    }

    fn get_flags(&self) -> (r: u32) {
        0
    }

    fn get_length(&self) -> (r: usize) {
        let mut d: Vec<u8> = Vec::new();
        push_dec_i64(&mut d, *self as i64);
        d.len()
    }

    fn write_to(&self, out: &mut Vec<u8>) {
        push_dec_i64(out, *self as i64);
    }

    fn parse_as_str(&self) -> (r: Option<String>) {
        let mut d: Vec<u8> = Vec::new();
        push_dec_i64(&mut d, *self as i64);
        proof {
            lemma_dec_signed_shape(*self as int);
            lemma_dec_text_ascii(d@);
        }
        Some(ascii_string(d.as_slice()))
    }

    fn can_as_str() -> (r: bool) {
        true
    }
}

impl ToMemcachedValue for bool {
    open spec fn spec_encoded(&self) -> Seq<u8> {
        if *self {
            seq![116u8, 114u8, 117u8, 101u8]
        } else {
            seq![102u8, 97u8, 108u8, 115u8, 101u8]
        }
    }

    open spec fn spec_string_form(&self) -> Option<Seq<char>> {
        Some(self.spec_encoded().map_values(|b: u8| b as char))
    }

    open spec fn spec_can_as_str() -> bool {
        true
    }

    proof fn string_form_encoding(&self) {
        lemma_ascii_bytes_utf8(self.spec_encoded());
    }

    fn get_flags(&self) -> (r: u32) {
        0
    }

    fn get_length(&self) -> (r: usize) {
        if *self {
            4
        } else {
            5
        }
    }

    fn write_to(&self, out: &mut Vec<u8>) {
        if *self {
            out.push(116);
            out.push(114);
            out.push(117);
            out.push(101);
        } else {
            out.push(102);
            out.push(97);
            out.push(108);
            out.push(115);
            out.push(101);
        }
        proof {
            assert(out@ =~= old(out)@ + self.spec_encoded());
        }
    }

    fn parse_as_str(&self) -> (r: Option<String>) {
        let mut d: Vec<u8> = Vec::new();
        self.write_to(&mut d);
        proof {
            assert(forall|i: int| 0 <= i < d@.len() ==> #[trigger] d@[i] < 128);
        }
        Some(ascii_string(d.as_slice()))
    }

    fn can_as_str() -> (r: bool) {
        true
    }
}


/// How wire bytes and flags decode back into a typed value.  The
/// deterministic meaning lives in `spec_decode`; the executable decoder
/// is held to it exactly, error cases included.
pub trait FromMemcachedValue: View + Sized {
    /// What these wire bytes and flags decode to, if anything.
    spec fn spec_decode(bytes: Seq<u8>, flags: u32) -> Result<Self::V, ParseError>;

    /// Decode the wire bytes, reporting the parse failure `spec_decode`
    /// assigns to them when there is one.
    fn from_memcached_value(value: Vec<u8>, flags: u32) -> (r: Result<Self, MemcachedError>)
        ensures
            match Self::spec_decode(value@, flags) {
                Ok(m) => r matches Ok(x) && x@ == m,
                Err(pe) => r matches Err(e) && e == MemcachedError::ParseError(pe),
            },
    ;
}

/// [`FromMemcachedValue`] extended with the response's cas token, for
/// callers that want the token alongside the value.
pub trait FromMemcachedValueExt: View + Sized {
    /// What these wire bytes, flags and cas token decode to, if anything.
    spec fn spec_decode_ext(bytes: Seq<u8>, flags: u32, cas: Option<u64>) -> Result<
        Self::V,
        ParseError,
    >;

    /// Decode the wire bytes, reporting the parse failure
    /// `spec_decode_ext` assigns to them when there is one.
    fn from_memcached_value(value: Vec<u8>, flags: u32, cas: Option<u64>) -> (r: Result<
        Self,
        MemcachedError,
    >)
        ensures
            match Self::spec_decode_ext(value@, flags, cas) {
                Ok(m) => r matches Ok(x) && x@ == m,
                Err(pe) => r matches Err(e) && e == MemcachedError::ParseError(pe),
            },
    ;
}

impl<V: FromMemcachedValue> FromMemcachedValueExt for V {
    open spec fn spec_decode_ext(bytes: Seq<u8>, flags: u32, cas: Option<u64>) -> Result<
        Self::V,
        ParseError,
    > {
        V::spec_decode(bytes, flags)
    }

    fn from_memcached_value(value: Vec<u8>, flags: u32, cas: Option<u64>) -> (r: Result<
        Self,
        MemcachedError,
    >) {
        <V as FromMemcachedValue>::from_memcached_value(value, flags)
    }
}

impl FromMemcachedValueExt for (Vec<u8>, u32, Option<u64>) {
    open spec fn spec_decode_ext(bytes: Seq<u8>, flags: u32, cas: Option<u64>) -> Result<
        Self::V,
        ParseError,
    > {
        Ok((bytes, flags, cas))
    }

    fn from_memcached_value(value: Vec<u8>, flags: u32, cas: Option<u64>) -> (r: Result<
        Self,
        MemcachedError,
    >) {
        Ok((value, flags, cas))
    }
}

impl FromMemcachedValue for Vec<u8> {
    open spec fn spec_decode(bytes: Seq<u8>, flags: u32) -> Result<Seq<u8>, ParseError> {
        Ok(bytes)
    }

    fn from_memcached_value(value: Vec<u8>, flags: u32) -> (r: Result<Self, MemcachedError>) {
        Ok(value)
    }
}

impl FromMemcachedValue for (Vec<u8>, u32) {
    open spec fn spec_decode(bytes: Seq<u8>, flags: u32) -> Result<(Seq<u8>, u32), ParseError> {
        Ok((bytes, flags))
    }

    fn from_memcached_value(value: Vec<u8>, flags: u32) -> (r: Result<Self, MemcachedError>) {
        Ok((value, flags))
    }
}

impl FromMemcachedValue for String {
    open spec fn spec_decode(bytes: Seq<u8>, flags: u32) -> Result<Seq<char>, ParseError> {
        if valid_utf8(bytes) {
            Ok(decode_utf8(bytes))
        } else {
            Err(ParseError::String)
        }
    }

    fn from_memcached_value(value: Vec<u8>, flags: u32) -> (r: Result<Self, MemcachedError>) {
        match bytes_to_string(value.as_slice()) {
            Some(s) => Ok(s),
            None => Err(MemcachedError::ParseError(ParseError::String)),
        }
    }
}

impl FromMemcachedValue for bool {
    open spec fn spec_decode(bytes: Seq<u8>, flags: u32) -> Result<bool, ParseError> {
        if !valid_utf8(bytes) {
            Err(ParseError::String)
        } else if spec_trim(bytes) == seq![116u8, 114u8, 117u8, 101u8] {
            Ok(true)
        } else if spec_trim(bytes) == seq![102u8, 97u8, 108u8, 115u8, 101u8] {
            Ok(false)
        } else {
            Err(ParseError::Bool)
        }
    }

    fn from_memcached_value(value: Vec<u8>, flags: u32) -> (r: Result<Self, MemcachedError>) {
        if bytes_to_string(value.as_slice()).is_none() {
            return Err(MemcachedError::ParseError(ParseError::String));
        }
        let (lo, hi) = trim_bounds(value.as_slice());
        let ghost t = spec_trim(value@);
        proof {
            assert(t == value@.subrange(lo as int, hi as int));
            assert(t.len() == hi - lo);
            assert(forall|i: int| 0 <= i < t.len() ==> t[i] == value@[lo + i]);
        }
        let n = hi - lo;
        if n == 4 && value[lo] == 116 && value[lo + 1] == 114 && value[lo + 2] == 117 && value[lo
            + 3] == 101 {
            proof {
                assert(t =~= seq![116u8, 114u8, 117u8, 101u8]);
            }
            Ok(true)
        } else if n == 5 && value[lo] == 102 && value[lo + 1] == 97 && value[lo + 2] == 108
            && value[lo + 3] == 115 && value[lo + 4] == 101 {
            proof {
                assert(t =~= seq![102u8, 97u8, 108u8, 115u8, 101u8]);
            }
            Ok(false)
        } else {
            proof {
                if t == seq![116u8, 114u8, 117u8, 101u8] {
                    assert(t[0] == 116 && t[1] == 114 && t[2] == 117 && t[3] == 101);
                    assert(false);
                }
                if t == seq![102u8, 97u8, 108u8, 115u8, 101u8] {
                    assert(t[0] == 102 && t[1] == 97 && t[2] == 108 && t[3] == 115 && t[4] == 101);
                    assert(false);
                }
            }
            Err(MemcachedError::ParseError(ParseError::Bool))
        }
    }
}

impl FromMemcachedValue for u64 {
    open spec fn spec_decode(bytes: Seq<u8>, flags: u32) -> Result<u64, ParseError> {
        if !valid_utf8(bytes) {
            Err(ParseError::String)
        } else {
            match spec_parse_unsigned(spec_trim(bytes), 18446744073709551615u64 as nat) {
                Some(v) => Ok(v as u64),
                None => Err(ParseError::Int),
            }
        }
    }

    fn from_memcached_value(value: Vec<u8>, flags: u32) -> (r: Result<Self, MemcachedError>) {
        if bytes_to_string(value.as_slice()).is_none() {
            return Err(MemcachedError::ParseError(ParseError::String));
        }
        let (lo, hi) = trim_bounds(value.as_slice());
        match parse_unsigned(value.as_slice(), lo, hi, 18446744073709551615u64) {
            Some(v) => Ok(v as u64),
            None => Err(MemcachedError::ParseError(ParseError::Int)),
        }
    }
}

impl FromMemcachedValue for u8 {
    open spec fn spec_decode(bytes: Seq<u8>, flags: u32) -> Result<u8, ParseError> {
        if !valid_utf8(bytes) {
            Err(ParseError::String)
        } else {
            match spec_parse_unsigned(spec_trim(bytes), 255u64 as nat) {
                Some(v) => Ok(v as u8),
                None => Err(ParseError::Int),
            }
        }
    }

    fn from_memcached_value(value: Vec<u8>, flags: u32) -> (r: Result<Self, MemcachedError>) {
        if bytes_to_string(value.as_slice()).is_none() {
            return Err(MemcachedError::ParseError(ParseError::String));
        }
        let (lo, hi) = trim_bounds(value.as_slice());
        match parse_unsigned(value.as_slice(), lo, hi, 255u64) {
            Some(v) => Ok(v as u8),
            None => Err(MemcachedError::ParseError(ParseError::Int)),
        }
    }
}

impl FromMemcachedValue for u16 {
    open spec fn spec_decode(bytes: Seq<u8>, flags: u32) -> Result<u16, ParseError> {
        if !valid_utf8(bytes) {
            Err(ParseError::String)
        } else {
            match spec_parse_unsigned(spec_trim(bytes), 65535u64 as nat) {
                Some(v) => Ok(v as u16),
                None => Err(ParseError::Int),
            }
        }
    }

    fn from_memcached_value(value: Vec<u8>, flags: u32) -> (r: Result<Self, MemcachedError>) {
        if bytes_to_string(value.as_slice()).is_none() {
            return Err(MemcachedError::ParseError(ParseError::String));
        }
        let (lo, hi) = trim_bounds(value.as_slice());
        match parse_unsigned(value.as_slice(), lo, hi, 65535u64) {
            Some(v) => Ok(v as u16),
            None => Err(MemcachedError::ParseError(ParseError::Int)),
        }
    }
}

impl FromMemcachedValue for u32 {
    open spec fn spec_decode(bytes: Seq<u8>, flags: u32) -> Result<u32, ParseError> {
        if !valid_utf8(bytes) {
            Err(ParseError::String)
        } else {
            match spec_parse_unsigned(spec_trim(bytes), 4294967295u64 as nat) {
                Some(v) => Ok(v as u32),
                None => Err(ParseError::Int),
            }
        }
    }

    fn from_memcached_value(value: Vec<u8>, flags: u32) -> (r: Result<Self, MemcachedError>) {
        if bytes_to_string(value.as_slice()).is_none() {
            return Err(MemcachedError::ParseError(ParseError::String));
        }
        let (lo, hi) = trim_bounds(value.as_slice());
        match parse_unsigned(value.as_slice(), lo, hi, 4294967295u64) {
            Some(v) => Ok(v as u32),
            None => Err(MemcachedError::ParseError(ParseError::Int)),
        }
    }
}

impl FromMemcachedValue for i64 {
    open spec fn spec_decode(bytes: Seq<u8>, flags: u32) -> Result<i64, ParseError> {
        if !valid_utf8(bytes) {
            Err(ParseError::String)
        } else {
            match spec_parse_signed(spec_trim(bytes), i64::MIN as int, i64::MAX as int) {
                Some(v) => Ok(v as i64),
                None => Err(ParseError::Int),
            }
        }
    }

    fn from_memcached_value(value: Vec<u8>, flags: u32) -> (r: Result<Self, MemcachedError>) {
        if bytes_to_string(value.as_slice()).is_none() {
            return Err(MemcachedError::ParseError(ParseError::String));
        }
        let (lo, hi) = trim_bounds(value.as_slice());
        match parse_signed(value.as_slice(), lo, hi, i64::MIN, i64::MAX) {
            Some(v) => Ok(v as i64),
            None => Err(MemcachedError::ParseError(ParseError::Int)),
        }
    }
}

impl FromMemcachedValue for i8 {
    open spec fn spec_decode(bytes: Seq<u8>, flags: u32) -> Result<i8, ParseError> {
        if !valid_utf8(bytes) {
            Err(ParseError::String)
        } else {
            match spec_parse_signed(spec_trim(bytes), -128i64 as int, 127i64 as int) {
                Some(v) => Ok(v as i8),
                None => Err(ParseError::Int),
            }
        }
    }

    fn from_memcached_value(value: Vec<u8>, flags: u32) -> (r: Result<Self, MemcachedError>) {
        if bytes_to_string(value.as_slice()).is_none() {
            return Err(MemcachedError::ParseError(ParseError::String));
        }
        let (lo, hi) = trim_bounds(value.as_slice());
        match parse_signed(value.as_slice(), lo, hi, -128i64, 127i64) {
            Some(v) => Ok(v as i8),
            None => Err(MemcachedError::ParseError(ParseError::Int)),
        }
    }
}

impl FromMemcachedValue for i16 {
    open spec fn spec_decode(bytes: Seq<u8>, flags: u32) -> Result<i16, ParseError> {
        if !valid_utf8(bytes) {
            Err(ParseError::String)
        } else {
            match spec_parse_signed(spec_trim(bytes), -32768i64 as int, 32767i64 as int) {
                Some(v) => Ok(v as i16),
                None => Err(ParseError::Int),
            }
        }
    }

    fn from_memcached_value(value: Vec<u8>, flags: u32) -> (r: Result<Self, MemcachedError>) {
        if bytes_to_string(value.as_slice()).is_none() {
            return Err(MemcachedError::ParseError(ParseError::String));
        }
        let (lo, hi) = trim_bounds(value.as_slice());
        match parse_signed(value.as_slice(), lo, hi, -32768i64, 32767i64) {
            Some(v) => Ok(v as i16),
            None => Err(MemcachedError::ParseError(ParseError::Int)),
        }
    }
}

impl FromMemcachedValue for i32 {
    open spec fn spec_decode(bytes: Seq<u8>, flags: u32) -> Result<i32, ParseError> {
        if !valid_utf8(bytes) {
            Err(ParseError::String)
        } else {
            match spec_parse_signed(spec_trim(bytes), -2147483648i64 as int, 2147483647i64 as int) {
                Some(v) => Ok(v as i32),
                None => Err(ParseError::Int),
            }
        }
    }

    fn from_memcached_value(value: Vec<u8>, flags: u32) -> (r: Result<Self, MemcachedError>) {
        if bytes_to_string(value.as_slice()).is_none() {
            return Err(MemcachedError::ParseError(ParseError::String));
        }
        let (lo, hi) = trim_bounds(value.as_slice());
        match parse_signed(value.as_slice(), lo, hi, -2147483648i64, 2147483647i64) {
            Some(v) => Ok(v as i32),
            None => Err(MemcachedError::ParseError(ParseError::Int)),
        }
    }
}


/// The text form of a value, when its category is stored as text: the
/// string itself for text, the decimal rendering for numbers and
/// booleans, and `None` for raw bytes.
pub fn parse_as_str<T: ToMemcachedValue>(value: &T) -> (r: Option<String>)
    ensures
        r is Some <==> T::spec_can_as_str(),
        r matches Some(s) ==> Some(s@) == value.spec_string_form(),
{
    value.parse_as_str()
}

/// Whether the value category `T` is stored as text on the wire.
pub fn can_as_str<T: ToMemcachedValue>() -> (r: bool)
    ensures
        r == T::spec_can_as_str(),
{
    T::can_as_str()
}


/// Round trip for raw bytes: the wire carries them verbatim, and
/// decoding hands them back unchanged, whatever the flags.
pub proof fn lemma_value_roundtrip_bytes(v: Vec<u8>, flags: u32)
    ensures
        <Vec<u8> as FromMemcachedValue>::spec_decode(v.spec_encoded(), flags) == Ok::<
            Seq<u8>,
            ParseError,
        >(v@),
{
}

/// Round trip for text: a string's UTF-8 encoding decodes back to the
/// same characters, whatever the flags.
pub proof fn lemma_value_roundtrip_string(s: Seq<char>, flags: u32)
    ensures
        <String as FromMemcachedValue>::spec_decode(encode_utf8(s), flags) == Ok::<
            Seq<char>,
            ParseError,
        >(s),
{
    vstd::utf8::encode_utf8_valid_utf8(s);
    vstd::utf8::encode_utf8_decode_utf8(s);
}

proof fn lemma_dec_digits_roundtrip_setup(n: nat)
    ensures
        all_dec_digits(spec_dec_digits(n)),
        spec_dec_digits(n).len() >= 1,
        crate::decimal::spec_dec_val(spec_dec_digits(n)) == n,
        valid_utf8(spec_dec_digits(n)),
        crate::decimal::spec_trim(spec_dec_digits(n)) == spec_dec_digits(n),
        spec_dec_digits(n)[0] != 43 && spec_dec_digits(n)[0] != 45,
{
    lemma_dec_digits_val(n);
    let d = spec_dec_digits(n);
    lemma_dec_text_ascii(d);
    lemma_ascii_bytes_utf8(d);
    assert(is_dec_digit(d[0]) && is_dec_digit(d.last()));
    crate::decimal::lemma_trim_no_ws(d);
}

/// Round trip for `u64`: the decimal text the encoder emits parses back
/// to the same number, whatever the flags.
pub proof fn lemma_value_roundtrip_u64(v: u64, flags: u32)
    ensures
        <u64 as FromMemcachedValue>::spec_decode(v.spec_encoded(), flags) == Ok::<u64, ParseError>(v),
{
    lemma_dec_digits_roundtrip_setup(v as nat);
    let d = spec_dec_digits(v as nat);
    assert(crate::decimal::spec_parse_unsigned(d, 18446744073709551615nat) == Some(v as nat));
}

/// Round trip for `u8`: the decimal text the encoder emits parses back
/// to the same number, whatever the flags.
pub proof fn lemma_value_roundtrip_u8(v: u8, flags: u32)
    ensures
        <u8 as FromMemcachedValue>::spec_decode(v.spec_encoded(), flags) == Ok::<u8, ParseError>(v),
{
    lemma_dec_digits_roundtrip_setup(v as nat);
    let d = spec_dec_digits(v as nat);
    assert(crate::decimal::spec_parse_unsigned(d, 255nat) == Some(v as nat));
}

/// Round trip for `u16`: the decimal text the encoder emits parses back
/// to the same number, whatever the flags.
pub proof fn lemma_value_roundtrip_u16(v: u16, flags: u32)
    ensures
        <u16 as FromMemcachedValue>::spec_decode(v.spec_encoded(), flags) == Ok::<u16, ParseError>(v),
{
    lemma_dec_digits_roundtrip_setup(v as nat);
    let d = spec_dec_digits(v as nat);
    assert(crate::decimal::spec_parse_unsigned(d, 65535nat) == Some(v as nat));
}

/// Round trip for `u32`: the decimal text the encoder emits parses back
/// to the same number, whatever the flags.
pub proof fn lemma_value_roundtrip_u32(v: u32, flags: u32)
    ensures
        <u32 as FromMemcachedValue>::spec_decode(v.spec_encoded(), flags) == Ok::<u32, ParseError>(v),
{
    lemma_dec_digits_roundtrip_setup(v as nat);
    let d = spec_dec_digits(v as nat);
    assert(crate::decimal::spec_parse_unsigned(d, 4294967295nat) == Some(v as nat));
}

/// Round trip for `i64`: the signed decimal text the encoder emits
/// parses back to the same number, whatever the flags.
pub proof fn lemma_value_roundtrip_i64(v: i64, flags: u32)
    ensures
        <i64 as FromMemcachedValue>::spec_decode(v.spec_encoded(), flags) == Ok::<i64, ParseError>(v),
{
    let t = spec_dec_digits_signed(v as int);
    lemma_dec_signed_shape(v as int);
    lemma_dec_text_ascii(t);
    lemma_ascii_bytes_utf8(t);
    assert(!crate::decimal::is_ascii_ws(t[0]) && !crate::decimal::is_ascii_ws(t.last()));
    crate::decimal::lemma_trim_no_ws(t);
    if v < 0 {
        let mag = (-(v as int)) as nat;
        lemma_dec_digits_roundtrip_setup(mag);
        assert(t[0] == 45);
        assert(t.subrange(1, t.len() as int) =~= spec_dec_digits(mag));
    } else {
        lemma_dec_digits_roundtrip_setup(v as nat);
        assert(t == spec_dec_digits(v as nat));
        assert(t[0] != 43 && t[0] != 45);
    }
}

/// Round trip for `i8`: the signed decimal text the encoder emits
/// parses back to the same number, whatever the flags.
pub proof fn lemma_value_roundtrip_i8(v: i8, flags: u32)
    ensures
        <i8 as FromMemcachedValue>::spec_decode(v.spec_encoded(), flags) == Ok::<i8, ParseError>(v),
{
    let t = spec_dec_digits_signed(v as int);
    lemma_dec_signed_shape(v as int);
    lemma_dec_text_ascii(t);
    lemma_ascii_bytes_utf8(t);
    assert(!crate::decimal::is_ascii_ws(t[0]) && !crate::decimal::is_ascii_ws(t.last()));
    crate::decimal::lemma_trim_no_ws(t);
    if v < 0 {
        let mag = (-(v as int)) as nat;
        lemma_dec_digits_roundtrip_setup(mag);
        assert(t[0] == 45);
        assert(t.subrange(1, t.len() as int) =~= spec_dec_digits(mag));
    } else {
        lemma_dec_digits_roundtrip_setup(v as nat);
        assert(t == spec_dec_digits(v as nat));
        assert(t[0] != 43 && t[0] != 45);
    }
}

/// Round trip for `i16`: the signed decimal text the encoder emits
/// parses back to the same number, whatever the flags.
pub proof fn lemma_value_roundtrip_i16(v: i16, flags: u32)
    ensures
        <i16 as FromMemcachedValue>::spec_decode(v.spec_encoded(), flags) == Ok::<i16, ParseError>(v),
{
    let t = spec_dec_digits_signed(v as int);
    lemma_dec_signed_shape(v as int);
    lemma_dec_text_ascii(t);
    lemma_ascii_bytes_utf8(t);
    assert(!crate::decimal::is_ascii_ws(t[0]) && !crate::decimal::is_ascii_ws(t.last()));
    crate::decimal::lemma_trim_no_ws(t);
    if v < 0 {
        let mag = (-(v as int)) as nat;
        lemma_dec_digits_roundtrip_setup(mag);
        assert(t[0] == 45);
        assert(t.subrange(1, t.len() as int) =~= spec_dec_digits(mag));
    } else {
        lemma_dec_digits_roundtrip_setup(v as nat);
        assert(t == spec_dec_digits(v as nat));
        assert(t[0] != 43 && t[0] != 45);
    }
}

/// Round trip for `i32`: the signed decimal text the encoder emits
/// parses back to the same number, whatever the flags.
pub proof fn lemma_value_roundtrip_i32(v: i32, flags: u32)
    ensures
        <i32 as FromMemcachedValue>::spec_decode(v.spec_encoded(), flags) == Ok::<i32, ParseError>(v),
{
    let t = spec_dec_digits_signed(v as int);
    lemma_dec_signed_shape(v as int);
    lemma_dec_text_ascii(t);
    lemma_ascii_bytes_utf8(t);
    assert(!crate::decimal::is_ascii_ws(t[0]) && !crate::decimal::is_ascii_ws(t.last()));
    crate::decimal::lemma_trim_no_ws(t);
    if v < 0 {
        let mag = (-(v as int)) as nat;
        lemma_dec_digits_roundtrip_setup(mag);
        assert(t[0] == 45);
        assert(t.subrange(1, t.len() as int) =~= spec_dec_digits(mag));
    } else {
        lemma_dec_digits_roundtrip_setup(v as nat);
        assert(t == spec_dec_digits(v as nat));
        assert(t[0] != 43 && t[0] != 45);
    }
}

/// Round trip for booleans: the words `true` and `false` parse back to
/// the values that produced them, whatever the flags.
pub proof fn lemma_value_roundtrip_bool(v: bool, flags: u32)
    ensures
        <bool as FromMemcachedValue>::spec_decode(v.spec_encoded(), flags) == Ok::<
            bool,
            ParseError,
        >(v),
{
    let t = v.spec_encoded();
    assert(forall|i: int| 0 <= i < t.len() ==> #[trigger] t[i] < 128);
    lemma_ascii_bytes_utf8(t);
    assert(!crate::decimal::is_ascii_ws(t[0]) && !crate::decimal::is_ascii_ws(t.last()));
    crate::decimal::lemma_trim_no_ws(t);
    if v {
        assert(t == seq![116u8, 114u8, 117u8, 101u8]);
    } else {
        assert(t == seq![102u8, 97u8, 108u8, 115u8, 101u8]);
        assert(t != seq![116u8, 114u8, 117u8, 101u8]);
    }
}

} // verus!
