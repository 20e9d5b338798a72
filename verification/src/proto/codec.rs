//! Binary encoding of protocol values.
//!
//! Integers are variable-length, sequences and strings are preceded by their length, enums by
//! the number of their variant, and the fields of a struct follow one another.

use vstd::prelude::*;
use vstd::utf8::{decode_utf8, encode_utf8, valid_utf8};

verus! {

/// Why bytes could not be encoded or decoded.
#[derive(Clone, Copy, Debug, PartialEq, Eq, Structural)]
pub enum CodecError {
    /// The output buffer is too small.
    SerializeBufferFull,
    /// The input ends before the value does.
    DeserializeUnexpectedEnd,
    /// An integer does not end, or does not fit its type.
    DeserializeBadVarint,
    /// A boolean is neither 0 nor 1.
    DeserializeBadBool,
    /// A string is not valid UTF-8.
    DeserializeBadUtf8,
    /// The tag of an optional value is neither 0 nor 1.
    DeserializeBadOption,
    /// An enum has no variant of that number.
    SerdeDeCustom,
}

/// The variable-length form of `n`: seven bits in each byte, the lowest first, with the high bit
/// set on all bytes but the last.
pub open spec fn varint(n: nat) -> Seq<u8>
    decreases n,
{
    if n < 128 {
        seq![n as u8]
    } else {
        seq![(n % 128 + 128) as u8] + varint(n / 128)
    }
}

/// Reads a variable-length integer of at most `max` bytes, of which the last possible byte may
/// not exceed `last`. Gives the integer and what follows it.
pub open spec fn parse_varint(s: Seq<u8>, max: nat, last: nat) -> Result<
    (nat, Seq<u8>),
    CodecError,
>
    decreases max,
{
    if max == 0 {
        Err(CodecError::DeserializeBadVarint)
    } else if s.len() == 0 {
        Err(CodecError::DeserializeUnexpectedEnd)
    } else if s[0] < 128 {
        if max == 1 && s[0] > last {
            Err(CodecError::DeserializeBadVarint)
        } else {
            Ok((s[0] as nat, s.skip(1)))
        }
    } else {
        match parse_varint(s.skip(1), (max - 1) as nat, last) {
            Ok((high, rest)) => Ok(((s[0] - 128 + 128 * high) as nat, rest)),
            Err(e) => Err(e),
        }
    }
}

/// The first integer that [`parse_varint`] cannot read.
pub open spec fn varint_limit(max: nat, last: nat) -> nat
    decreases max,
{
    if max <= 1 {
        last + 1
    } else {
        128 * varint_limit((max - 1) as nat, last)
    }
}

/// Reading gives back every integer below the limit.
pub proof fn lemma_varint_roundtrip(n: nat, max: nat, last: nat, rest: Seq<u8>)
    requires
        max >= 1,
        last < 128,
        n < varint_limit(max, last),
    ensures
        parse_varint(varint(n) + rest, max, last) == Ok::<(nat, Seq<u8>), CodecError>((n, rest)),
    decreases max,
{
    let s = varint(n) + rest;
    if n < 128 {
        assert(s.skip(1) =~= rest);
    } else {
        assert(max > 1);
        lemma_varint_roundtrip(n / 128, (max - 1) as nat, last, rest);
        assert(s.skip(1) =~= varint(n / 128) + rest);
    }
}

/// The integers that 16, 32 and 64 bits hold are below the limits of their forms.
pub proof fn lemma_varint_limits()
    ensures
        varint_limit(3, 3) == 0x1_0000,
        varint_limit(5, 15) == 0x1_0000_0000,
        varint_limit(10, 1) == 0x1_0000_0000_0000_0000,
{
    reveal_with_fuel(varint_limit, 10);
}

/// Calls `postcard::to_allocvec` on a `u16`, which pushes the variable-length form.
#[verifier::external_body]
fn postcard_put_u16(v: u16) -> (r: Vec<u8>)
    ensures
        r@ == varint(v as nat),
{
    postcard::to_allocvec(&v).unwrap()
}

/// Calls `postcard::to_allocvec` on a `u32`, which pushes the variable-length form.
#[verifier::external_body]
fn postcard_put_u32(v: u32) -> (r: Vec<u8>)
    ensures
        r@ == varint(v as nat),
{
    postcard::to_allocvec(&v).unwrap()
}

/// Calls `postcard::to_allocvec` on a `u64`, which pushes the variable-length form.
#[verifier::external_body]
fn postcard_put_u64(v: u64) -> (r: Vec<u8>)
    ensures
        r@ == varint(v as nat),
{
    postcard::to_allocvec(&v).unwrap()
}

/// Calls `postcard::take_from_bytes` for a `u16`: at most three bytes, the third at most 3.
/// It fails where the input ends early or the integer does not end in time, and otherwise gives
/// the integer and the bytes behind it.
#[verifier::external_body]
fn postcard_take_u16<'a>(input: &'a [u8]) -> (r: Result<(u16, &'a [u8]), CodecError>)
    ensures
        match r {
            Ok((v, rest)) => parse_varint(input@, 3, 3) == Ok::<(nat, Seq<u8>), CodecError>(
                (v as nat, rest@),
            ),
            Err(e) => parse_varint(input@, 3, 3) == Err::<(nat, Seq<u8>), CodecError>(e),
        },
{
    match postcard::take_from_bytes::<u16>(input) {
        Ok((v, rest)) => Ok((v, rest)),
        Err(postcard::Error::DeserializeUnexpectedEnd) => Err(
            CodecError::DeserializeUnexpectedEnd,
        ),
        Err(_) => Err(CodecError::DeserializeBadVarint),
    }
}

/// Calls `postcard::take_from_bytes` for a `u32`: at most five bytes, the fifth at most 15.
/// It fails where the input ends early or the integer does not end in time, and otherwise gives
/// the integer and the bytes behind it.
#[verifier::external_body]
fn postcard_take_u32<'a>(input: &'a [u8]) -> (r: Result<(u32, &'a [u8]), CodecError>)
    ensures
        match r {
            Ok((v, rest)) => parse_varint(input@, 5, 15) == Ok::<(nat, Seq<u8>), CodecError>(
                (v as nat, rest@),
            ),
            Err(e) => parse_varint(input@, 5, 15) == Err::<(nat, Seq<u8>), CodecError>(e),
        },
{
    match postcard::take_from_bytes::<u32>(input) {
        Ok((v, rest)) => Ok((v, rest)),
        Err(postcard::Error::DeserializeUnexpectedEnd) => Err(
            CodecError::DeserializeUnexpectedEnd,
        ),
        Err(_) => Err(CodecError::DeserializeBadVarint),
    }
}

/// Calls `postcard::take_from_bytes` for a `u64`: at most ten bytes, the tenth at most 1.
/// It fails where the input ends early or the integer does not end in time, and otherwise gives
/// the integer and the bytes behind it.
#[verifier::external_body]
fn postcard_take_u64<'a>(input: &'a [u8]) -> (r: Result<(u64, &'a [u8]), CodecError>)
    ensures
        match r {
            Ok((v, rest)) => parse_varint(input@, 10, 1) == Ok::<(nat, Seq<u8>), CodecError>(
                (v as nat, rest@),
            ),
            Err(e) => parse_varint(input@, 10, 1) == Err::<(nat, Seq<u8>), CodecError>(e),
        },
{
    match postcard::take_from_bytes::<u64>(input) {
        Ok((v, rest)) => Ok((v, rest)),
        Err(postcard::Error::DeserializeUnexpectedEnd) => Err(
            CodecError::DeserializeUnexpectedEnd,
        ),
        Err(_) => Err(CodecError::DeserializeBadVarint),
    }
}

/// A value with a binary encoding.
pub trait Wire: Sized {
    /// What the value is, as far as the encoding goes.
    type Value;

    /// The value that is encoded.
    spec fn value(&self) -> Self::Value;

    /// Whether decoding the encoding gives the value back.
    spec fn encodable(v: Self::Value) -> bool;

    /// The encoding.
    spec fn bytes(v: Self::Value) -> Seq<u8>;

    /// Decodes a value from the front of `s` and gives what follows it.
    spec fn parse(s: Seq<u8>) -> Result<(Self::Value, Seq<u8>), CodecError>;

    /// Decoding undoes encoding, whatever follows.
    proof fn parse_inverts_bytes(v: Self::Value, rest: Seq<u8>)
        requires
            Self::encodable(v),
        ensures
            Self::parse(Self::bytes(v) + rest) == Ok::<(Self::Value, Seq<u8>), CodecError>(
                (v, rest),
            ),
    ;

    /// Appends the encoding to `out`.
    fn put(&self, out: &mut Vec<u8>)
        ensures
            final(out)@ == old(out)@ + Self::bytes(self.value()),
    ;

    /// Decodes a value from the front of `input` and returns what follows it.
    fn take<'a>(input: &'a [u8]) -> (r: Result<(Self, &'a [u8]), CodecError>)
        ensures
            match r {
                Ok((v, rest)) => Self::parse(input@) == Ok::<(Self::Value, Seq<u8>), CodecError>(
                    (v.value(), rest@),
                ),
                Err(e) => Self::parse(input@) == Err::<(Self::Value, Seq<u8>), CodecError>(e),
            },
    ;
}

impl Wire for u64 {
    type Value = u64;

    open spec fn value(&self) -> u64 {
        *self
    }

    open spec fn encodable(v: u64) -> bool {
        true
    }

    open spec fn bytes(v: u64) -> Seq<u8> {
        varint(v as nat)
    }

    open spec fn parse(s: Seq<u8>) -> Result<(u64, Seq<u8>), CodecError> {
        match parse_varint(s, 10, 1) {
            Ok((n, rest)) => Ok((n as u64, rest)),
            Err(e) => Err(e),
        }
    }

    proof fn parse_inverts_bytes(v: u64, rest: Seq<u8>) {
        lemma_varint_limits();
        lemma_varint_roundtrip(v as nat, 10, 1, rest);
    }

    fn put(&self, out: &mut Vec<u8>) {
        let mut bytes = postcard_put_u64(*self);
        out.append(&mut bytes);
        assert(out@ =~= old(out)@ + Self::bytes(*self));
    }

    fn take<'a>(input: &'a [u8]) -> (r: Result<(u64, &'a [u8]), CodecError>) {
        postcard_take_u64(input)
    }
}

impl Wire for u32 {
    type Value = u32;

    open spec fn value(&self) -> u32 {
        *self
    }

    open spec fn encodable(v: u32) -> bool {
        true
    }

    open spec fn bytes(v: u32) -> Seq<u8> {
        varint(v as nat)
    }

    open spec fn parse(s: Seq<u8>) -> Result<(u32, Seq<u8>), CodecError> {
        match parse_varint(s, 5, 15) {
            Ok((n, rest)) => Ok((n as u32, rest)),
            Err(e) => Err(e),
        }
    }

    proof fn parse_inverts_bytes(v: u32, rest: Seq<u8>) {
        lemma_varint_limits();
        lemma_varint_roundtrip(v as nat, 5, 15, rest);
    }

    fn put(&self, out: &mut Vec<u8>) {
        let mut bytes = postcard_put_u32(*self);
        out.append(&mut bytes);
        assert(out@ =~= old(out)@ + Self::bytes(*self));
    }

    fn take<'a>(input: &'a [u8]) -> (r: Result<(u32, &'a [u8]), CodecError>) {
        postcard_take_u32(input)
    }
}

impl Wire for u16 {
    type Value = u16;

    open spec fn value(&self) -> u16 {
        *self
    }

    open spec fn encodable(v: u16) -> bool {
        true
    }

    open spec fn bytes(v: u16) -> Seq<u8> {
        varint(v as nat)
    }

    open spec fn parse(s: Seq<u8>) -> Result<(u16, Seq<u8>), CodecError> {
        match parse_varint(s, 3, 3) {
            Ok((n, rest)) => Ok((n as u16, rest)),
            Err(e) => Err(e),
        }
    }

    proof fn parse_inverts_bytes(v: u16, rest: Seq<u8>) {
        lemma_varint_limits();
        lemma_varint_roundtrip(v as nat, 3, 3, rest);
    }

    fn put(&self, out: &mut Vec<u8>) {
        let mut bytes = postcard_put_u16(*self);
        out.append(&mut bytes);
        assert(out@ =~= old(out)@ + Self::bytes(*self));
    }

    fn take<'a>(input: &'a [u8]) -> (r: Result<(u16, &'a [u8]), CodecError>) {
        postcard_take_u16(input)
    }
}

impl Wire for bool {
    type Value = bool;

    open spec fn value(&self) -> bool {
        *self
    }

    open spec fn encodable(v: bool) -> bool {
        true
    }

    open spec fn bytes(v: bool) -> Seq<u8> {
        if v {
            seq![1u8]
        } else {
            seq![0u8]
        }
    }

    open spec fn parse(s: Seq<u8>) -> Result<(bool, Seq<u8>), CodecError> {
        if s.len() == 0 {
            Err(CodecError::DeserializeUnexpectedEnd)
        } else if s[0] > 1 {
            Err(CodecError::DeserializeBadBool)
        } else {
            Ok((s[0] == 1, s.skip(1)))
        }
    }

    proof fn parse_inverts_bytes(v: bool, rest: Seq<u8>) {
        assert((Self::bytes(v) + rest).skip(1) =~= rest);
    }

    fn put(&self, out: &mut Vec<u8>) {
        out.push(
            if *self {
                1
            } else {
                0
            },
        );
        assert(out@ =~= old(out)@ + Self::bytes(*self));
    }

    fn take<'a>(input: &'a [u8]) -> (r: Result<(bool, &'a [u8]), CodecError>) {
        if input.len() == 0 {
            return Err(CodecError::DeserializeUnexpectedEnd);
        }
        if input[0] > 1 {
            return Err(CodecError::DeserializeBadBool);
        }
        Ok((input[0] == 1, skip(input, 1)))
    }
}

/// What follows the first `n` bytes.
pub fn skip<'a>(input: &'a [u8], n: usize) -> (r: &'a [u8])
    requires
        n <= input@.len(),
    ensures
        r@ == input@.skip(n as int),
{
    let r = vstd::slice::slice_subrange(input, n, input.len());
    assert(r@ =~= input@.skip(n as int));
    r
}

/// The array that holds the bytes of `s`.
pub open spec fn array_of<const N: usize>(s: Seq<u8>) -> [u8; N] {
    choose|a: [u8; N]| a@ == s
}

/// An array is what [`array_of`] makes of its bytes.
pub proof fn lemma_array_of<const N: usize>(a: [u8; N])
    ensures
        array_of::<N>(a@) == a,
{
    let b = array_of::<N>(a@);
    assert(b@ == a@);
    assert(b =~= a);
}

impl<const N: usize> Wire for [u8; N] {
    type Value = [u8; N];

    open spec fn value(&self) -> [u8; N] {
        *self
    }

    open spec fn encodable(v: [u8; N]) -> bool {
        true
    }

    open spec fn bytes(v: [u8; N]) -> Seq<u8> {
        v@
    }

    open spec fn parse(s: Seq<u8>) -> Result<([u8; N], Seq<u8>), CodecError> {
        if s.len() < N {
            Err(CodecError::DeserializeUnexpectedEnd)
        } else {
            Ok((array_of(s.take(N as int)), s.skip(N as int)))
        }
    }

    proof fn parse_inverts_bytes(v: [u8; N], rest: Seq<u8>) {
        let s = Self::bytes(v) + rest;
        assert(s.take(N as int) =~= v@);
        assert(s.skip(N as int) =~= rest);
        lemma_array_of(v);
    }

    fn put(&self, out: &mut Vec<u8>) {
        let mut i: usize = 0;
        while i < N
            invariant
                i <= N,
                out@ == old(out)@ + self@.take(i as int),
            decreases N - i,
        {
            out.push(self[i]);
            i = i + 1;
            assert(self@.take(i as int) =~= self@.take(i - 1).push(self@[i - 1]));
        }
        assert(self@.take(N as int) =~= self@);
    }

    fn take<'a>(input: &'a [u8]) -> (r: Result<([u8; N], &'a [u8]), CodecError>) {
        if input.len() < N {
            return Err(CodecError::DeserializeUnexpectedEnd);
        }
        let mut a: [u8; N] = vstd::array::array_fill_for_copy_types(0u8);
        let mut i: usize = 0;
        while i < N
            invariant
                i <= N <= input@.len(),
                forall|j: int| 0 <= j < i ==> a@[j] == #[trigger] input@[j],
            decreases N - i,
        {
            a[i] = input[i];
            i = i + 1;
        }
        proof {
            assert(a@ =~= input@.take(N as int));
            lemma_array_of(a);
        }
        Ok((a, skip(input, N)))
    }
}

impl<T: Wire> Wire for Option<T> {
    type Value = Option<T::Value>;

    open spec fn value(&self) -> Option<T::Value> {
        match self {
            Some(v) => Some(v.value()),
            None => None,
        }
    }

    open spec fn encodable(v: Option<T::Value>) -> bool {
        v matches Some(x) ==> T::encodable(x)
    }

    open spec fn bytes(v: Option<T::Value>) -> Seq<u8> {
        match v {
            Some(x) => seq![1u8] + T::bytes(x),
            None => seq![0u8],
        }
    }

    open spec fn parse(s: Seq<u8>) -> Result<(Option<T::Value>, Seq<u8>), CodecError> {
        if s.len() == 0 {
            Err(CodecError::DeserializeUnexpectedEnd)
        } else if s[0] == 0 {
            Ok((None, s.skip(1)))
        } else if s[0] == 1 {
            match T::parse(s.skip(1)) {
                Ok((x, rest)) => Ok((Some(x), rest)),
                Err(e) => Err(e),
            }
        } else {
            Err(CodecError::DeserializeBadOption)
        }
    }

    proof fn parse_inverts_bytes(v: Option<T::Value>, rest: Seq<u8>) {
        let s = Self::bytes(v) + rest;
        match v {
            Some(x) => {
                assert(s.skip(1) =~= T::bytes(x) + rest);
                T::parse_inverts_bytes(x, rest);
            },
            None => {
                assert(s.skip(1) =~= rest);
            },
        }
    }

    fn put(&self, out: &mut Vec<u8>) {
        match self {
            Some(v) => {
                out.push(1);
                v.put(out);
            },
            None => {
                out.push(0);
            },
        }
        assert(out@ =~= old(out)@ + Self::bytes(self.value()));
    }

    fn take<'a>(input: &'a [u8]) -> (r: Result<(Option<T>, &'a [u8]), CodecError>) {
        if input.len() == 0 {
            return Err(CodecError::DeserializeUnexpectedEnd);
        }
        if input[0] == 0 {
            return Ok((None, skip(input, 1)));
        }
        if input[0] != 1 {
            return Err(CodecError::DeserializeBadOption);
        }
        match T::take(skip(input, 1)) {
            Ok((v, rest)) => Ok((Some(v), rest)),
            Err(e) => Err(e),
        }
    }
}

/// The encodings of `v`, one behind the other.
pub open spec fn items_bytes<T: Wire>(v: Seq<T::Value>) -> Seq<u8>
    decreases v.len(),
{
    if v.len() == 0 {
        Seq::empty()
    } else {
        T::bytes(v[0]) + items_bytes::<T>(v.skip(1))
    }
}

/// Decodes `n` values from the front of `s`.
pub open spec fn parse_items<T: Wire>(s: Seq<u8>, n: nat) -> Result<
    (Seq<T::Value>, Seq<u8>),
    CodecError,
>
    decreases n,
{
    if n == 0 {
        Ok((Seq::empty(), s))
    } else {
        match T::parse(s) {
            Ok((x, tail)) => match parse_items::<T>(tail, (n - 1) as nat) {
                Ok((xs, rest)) => Ok((seq![x] + xs, rest)),
                Err(e) => Err(e),
            },
            Err(e) => Err(e),
        }
    }
}

/// Decoding values undoes encoding them one behind the other.
pub proof fn lemma_items_roundtrip<T: Wire>(v: Seq<T::Value>, rest: Seq<u8>)
    requires
        forall|i: int| 0 <= i < v.len() ==> T::encodable(#[trigger] v[i]),
    ensures
        parse_items::<T>(items_bytes::<T>(v) + rest, v.len()) == Ok::<
            (Seq<T::Value>, Seq<u8>),
            CodecError,
        >((v, rest)),
    decreases v.len(),
{
    let s = items_bytes::<T>(v) + rest;
    if v.len() == 0 {
        assert(s =~= rest);
        assert(v =~= Seq::empty());
    } else {
        let tail = items_bytes::<T>(v.skip(1)) + rest;
        assert(s =~= T::bytes(v[0]) + tail);
        T::parse_inverts_bytes(v[0], tail);
        assert forall|i: int| 0 <= i < v.skip(1).len() implies T::encodable(
            #[trigger] v.skip(1)[i],
        ) by {
            assert(v.skip(1)[i] == v[i + 1]);
        }
        lemma_items_roundtrip::<T>(v.skip(1), rest);
        assert(seq![v[0]] + v.skip(1) =~= v);
    }
}

/// The encodings of a list and of a value behind it.
proof fn lemma_items_push<T: Wire>(v: Seq<T::Value>, x: T::Value)
    ensures
        items_bytes::<T>(v.push(x)) == items_bytes::<T>(v) + T::bytes(x),
    decreases v.len(),
{
    if v.len() == 0 {
        assert(v.push(x).skip(1) =~= Seq::empty());
        assert(items_bytes::<T>(Seq::empty()) =~= Seq::empty());
        assert(items_bytes::<T>(v.push(x)) =~= T::bytes(x));
        assert(items_bytes::<T>(v) + T::bytes(x) =~= T::bytes(x));
    } else {
        lemma_items_push::<T>(v.skip(1), x);
        assert(v.push(x).skip(1) =~= v.skip(1).push(x));
        assert(items_bytes::<T>(v.push(x)) =~= items_bytes::<T>(v) + T::bytes(x));
    }
}

/// A decoded head in front of the outcome for the tail.
spec fn prepend<V>(head: Seq<V>, tail: Result<(Seq<V>, Seq<u8>), CodecError>) -> Result<
    (Seq<V>, Seq<u8>),
    CodecError,
> {
    match tail {
        Ok((xs, rest)) => Ok((head + xs, rest)),
        Err(e) => Err(e),
    }
}

/// Decodes a length, which takes as many bytes at most as a word of the machine.
pub open spec fn parse_len(s: Seq<u8>) -> Result<(nat, Seq<u8>), CodecError> {
    if usize::BITS == 32 {
        parse_varint(s, 5, 15)
    } else {
        parse_varint(s, 10, 1)
    }
}

/// Decoding a length undoes encoding it.
pub proof fn lemma_len_roundtrip(n: nat, rest: Seq<u8>)
    requires
        n <= usize::MAX,
    ensures
        parse_len(varint(n) + rest) == Ok::<(nat, Seq<u8>), CodecError>((n, rest)),
{
    lemma_varint_limits();
    if usize::BITS == 32 {
        lemma_varint_roundtrip(n, 5, 15, rest);
    } else {
        lemma_varint_roundtrip(n, 10, 1, rest);
    }
}

fn put_len(n: usize, out: &mut Vec<u8>)
    ensures
        final(out)@ == old(out)@ + varint(n as nat),
{
    let n64: u64 = n as u64;
    n64.put(out);
}

fn take_len<'a>(input: &'a [u8]) -> (r: Result<(usize, &'a [u8]), CodecError>)
    ensures
        match r {
            Ok((n, rest)) => parse_len(input@) == Ok::<(nat, Seq<u8>), CodecError>(
                (n as nat, rest@),
            ),
            Err(e) => parse_len(input@) == Err::<(nat, Seq<u8>), CodecError>(e),
        },
{
    if usize::BITS == 32 {
        match postcard_take_u32(input) {
            Ok((n, rest)) => Ok((n as usize, rest)),
            Err(e) => Err(e),
        }
    } else {
        match postcard_take_u64(input) {
            Ok((n, rest)) => Ok((n as usize, rest)),
            Err(e) => Err(e),
        }
    }
}

impl<T: Wire> Wire for Vec<T> {
    type Value = Seq<T::Value>;

    open spec fn value(&self) -> Seq<T::Value> {
        self@.map_values(|x: T| x.value())
    }

    open spec fn encodable(v: Seq<T::Value>) -> bool {
        &&& v.len() <= usize::MAX
        &&& forall|i: int| 0 <= i < v.len() ==> T::encodable(#[trigger] v[i])
    }

    open spec fn bytes(v: Seq<T::Value>) -> Seq<u8> {
        varint(v.len()) + items_bytes::<T>(v)
    }

    open spec fn parse(s: Seq<u8>) -> Result<(Seq<T::Value>, Seq<u8>), CodecError> {
        match parse_len(s) {
            Ok((n, rest)) => parse_items::<T>(rest, n),
            Err(e) => Err(e),
        }
    }

    proof fn parse_inverts_bytes(v: Seq<T::Value>, rest: Seq<u8>) {
        let tail = items_bytes::<T>(v) + rest;
        assert(Self::bytes(v) + rest =~= varint(v.len()) + tail);
        lemma_len_roundtrip(v.len(), tail);
        lemma_items_roundtrip::<T>(v, rest);
    }

    fn put(&self, out: &mut Vec<u8>) {
        put_len(self.len(), out);
        let ghost all = self.value();
        let ghost start = out@;
        let mut i: usize = 0;
        assert(all.take(0) =~= Seq::empty());
        assert(start + items_bytes::<T>(all.take(0)) =~= start);
        while i < self.len()
            invariant
                i <= self@.len(),
                all == self.value(),
                out@ == start + items_bytes::<T>(all.take(i as int)),
            decreases self@.len() - i,
        {
            self[i].put(out);
            proof {
                lemma_items_push::<T>(all.take(i as int), all[i as int]);
                assert(all.take(i + 1) =~= all.take(i as int).push(all[i as int]));
                assert(out@ =~= start + items_bytes::<T>(all.take(i + 1)));
            }
            i = i + 1;
        }
        assert(all.take(self@.len() as int) =~= all);
        assert(out@ =~= old(out)@ + Self::bytes(all));
    }

    fn take<'a>(input: &'a [u8]) -> (r: Result<(Vec<T>, &'a [u8]), CodecError>) {
        let (n, start) = match take_len(input) {
            Ok(found) => found,
            Err(e) => return Err(e),
        };
        let mut out: Vec<T> = Vec::new();
        let mut rest = start;
        let mut i: usize = 0;
        assert(out.value() =~= Seq::empty());
        proof {
            lemma_prepend_empty(parse_items::<T>(rest@, n as nat));
        }
        while i < n
            invariant
                i <= n,
                parse_len(input@) == Ok::<(nat, Seq<u8>), CodecError>((n as nat, start@)),
                parse_items::<T>(start@, n as nat) == prepend(
                    out.value(),
                    parse_items::<T>(rest@, (n - i) as nat),
                ),
            decreases n - i,
        {
            let ghost before = out.value();
            match T::take(rest) {
                Ok((x, tail)) => {
                    proof {
                        lemma_prepend_step(
                            before,
                            x.value(),
                            parse_items::<T>(tail@, (n - i - 1) as nat),
                        );
                    }
                    out.push(x);
                    assert(out.value() =~= before.push(x.value()));
                    rest = tail;
                },
                Err(e) => return Err(e),
            }
            i = i + 1;
        }
        assert(out.value() + Seq::<T::Value>::empty() =~= out.value());
        Ok((out, rest))
    }
}

proof fn lemma_prepend_empty<V>(tail: Result<(Seq<V>, Seq<u8>), CodecError>)
    ensures
        prepend(Seq::empty(), tail) == tail,
{
    match tail {
        Ok((xs, rest)) => {
            assert(Seq::empty() + xs =~= xs);
        },
        Err(_) => {},
    }
}

proof fn lemma_prepend_step<V>(head: Seq<V>, x: V, tail: Result<(Seq<V>, Seq<u8>), CodecError>)
    ensures
        prepend(head, prepend(seq![x], tail)) == prepend(head.push(x), tail),
{
    match tail {
        Ok((xs, rest)) => {
            assert(head + (seq![x] + xs) =~= head.push(x) + xs);
        },
        Err(_) => {},
    }
}

/// Calls `String::from_utf8`, which accepts exactly the byte strings that are valid UTF-8 and
/// gives the text that they encode.
#[verifier::external_body]
fn string_from_utf8(bytes: Vec<u8>) -> (r: Option<String>)
    ensures
        match r {
            Some(text) => valid_utf8(bytes@) && text@ == decode_utf8(bytes@),
            None => !valid_utf8(bytes@),
        },
{
    String::from_utf8(bytes).ok()
}

/// Decodes a byte string that is preceded by its length.
pub open spec fn parse_bytes(s: Seq<u8>) -> Result<(Seq<u8>, Seq<u8>), CodecError> {
    match parse_len(s) {
        Ok((n, rest)) => if rest.len() < n {
            Err(CodecError::DeserializeUnexpectedEnd)
        } else {
            Ok((rest.take(n as int), rest.skip(n as int)))
        },
        Err(e) => Err(e),
    }
}

/// Decoding a byte string undoes encoding it.
pub proof fn lemma_bytes_roundtrip(v: Seq<u8>, rest: Seq<u8>)
    requires
        v.len() <= usize::MAX,
    ensures
        parse_bytes(varint(v.len()) + v + rest) == Ok::<(Seq<u8>, Seq<u8>), CodecError>((v, rest)),
{
    assert(varint(v.len()) + v + rest =~= varint(v.len()) + (v + rest));
    lemma_len_roundtrip(v.len(), v + rest);
    assert((v + rest).take(v.len() as int) =~= v);
    assert((v + rest).skip(v.len() as int) =~= rest);
}

/// Appends a byte string, preceded by its length.
pub fn put_bytes(v: &[u8], out: &mut Vec<u8>)
    ensures
        final(out)@ == old(out)@ + (varint(v@.len()) + v@),
{
    put_len(v.len(), out);
    let mut copy = vstd::slice::slice_to_vec(v);
    out.append(&mut copy);
    assert(out@ =~= old(out)@ + (varint(v@.len()) + v@));
}

/// Decodes a byte string that is preceded by its length.
pub fn take_bytes<'a>(input: &'a [u8]) -> (r: Result<(&'a [u8], &'a [u8]), CodecError>)
    ensures
        match r {
            Ok((v, rest)) => parse_bytes(input@) == Ok::<(Seq<u8>, Seq<u8>), CodecError>(
                (v@, rest@),
            ),
            Err(e) => parse_bytes(input@) == Err::<(Seq<u8>, Seq<u8>), CodecError>(e),
        },
{
    match take_len(input) {
        Ok((n, rest)) => if rest.len() < n {
            Err(CodecError::DeserializeUnexpectedEnd)
        } else {
            let v = vstd::slice::slice_subrange(rest, 0, n);
            assert(v@ =~= rest@.take(n as int));
            Ok((v, skip(rest, n)))
        },
        Err(e) => Err(e),
    }
}

impl Wire for String {
    type Value = Seq<char>;

    open spec fn value(&self) -> Seq<char> {
        self@
    }

    open spec fn encodable(v: Seq<char>) -> bool {
        encode_utf8(v).len() <= usize::MAX
    }

    open spec fn bytes(v: Seq<char>) -> Seq<u8> {
        varint(encode_utf8(v).len()) + encode_utf8(v)
    }

    open spec fn parse(s: Seq<u8>) -> Result<(Seq<char>, Seq<u8>), CodecError> {
        match parse_bytes(s) {
            Ok((v, rest)) => if valid_utf8(v) {
                Ok((decode_utf8(v), rest))
            } else {
                Err(CodecError::DeserializeBadUtf8)
            },
            Err(e) => Err(e),
        }
    }

    proof fn parse_inverts_bytes(v: Seq<char>, rest: Seq<u8>) {
        lemma_bytes_roundtrip(encode_utf8(v), rest);
        vstd::utf8::encode_utf8_valid_utf8(v);
        vstd::utf8::encode_utf8_decode_utf8(v);
    }

    fn put(&self, out: &mut Vec<u8>) {
        put_bytes(self.as_str().as_bytes(), out);
    }

    fn take<'a>(input: &'a [u8]) -> (r: Result<(String, &'a [u8]), CodecError>) {
        match take_bytes(input) {
            Ok((v, rest)) => match string_from_utf8(vstd::slice::slice_to_vec(v)) {
                Some(text) => Ok((text, rest)),
                None => Err(CodecError::DeserializeBadUtf8),
            },
            Err(e) => Err(e),
        }
    }
}

/// A list is encoded as its length, followed by its items one behind the other.
pub proof fn law_lists_are_counted<T: Wire>(v: Seq<T::Value>, x: T::Value)
    ensures
        Vec::<T>::bytes(Seq::empty()) == varint(0),
        varint(v.len()).is_prefix_of(Vec::<T>::bytes(v)),
        Vec::<T>::bytes(v.push(x)).skip(varint(v.len() + 1).len() as int) == Vec::<T>::bytes(v).skip(
            varint(v.len()).len() as int,
        ) + T::bytes(x),
        Vec::<T>::encodable(v.push(x)) <==> Vec::<T>::encodable(v) && T::encodable(x) && v.len()
            < usize::MAX,
        Vec::<T>::encodable(Seq::empty()),
{
    lemma_items_push::<T>(v, x);
    assert(Vec::<T>::bytes(Seq::empty()) =~= varint(0));
    assert(Vec::<T>::bytes(v).skip(varint(v.len()).len() as int) =~= items_bytes::<T>(v));
    assert(v.push(x).len() == v.len() + 1);
    assert(Vec::<T>::bytes(v.push(x)).skip(varint(v.len() + 1).len() as int) =~= items_bytes::<T>(
        v.push(x),
    ));
    if Vec::<T>::encodable(v.push(x)) {
        assert(T::encodable(v.push(x)[v.len() as int]));
        assert forall|i: int| 0 <= i < v.len() implies T::encodable(#[trigger] v[i]) by {
            assert(v.push(x)[i] == v[i]);
        }
    }
}

/// What a list holds is what its items hold, each in its place.
pub proof fn law_lists_hold_their_items<T: Wire>(list: Vec<T>, i: int)
    requires
        0 <= i < list@.len(),
    ensures
        list.value().len() == list@.len(),
        list.value()[i] == list@[i].value(),
{
}

/// An optional value is encoded as 1 and the value, or as 0.
pub proof fn law_options_are_tagged<T: Wire>(v: T::Value)
    ensures
        Option::<T>::bytes(None) == seq![0u8],
        Option::<T>::bytes(Some(v)) == seq![1u8] + T::bytes(v),
        Option::<T>::encodable(None),
        Option::<T>::encodable(Some(v)) <==> T::encodable(v),
{
}

/// Numbers are encoded in their variable-length form, booleans as 0 or 1, arrays as they are, and
/// strings as the length of their UTF-8 form, followed by that form. All of them can be encoded.
pub proof fn law_plain_values_are_encoded_plainly<const N: usize>(
    a: u16,
    b: u32,
    c: u64,
    array: [u8; N],
    text: String,
)
    ensures
        u16::bytes(a) == varint(a as nat) && u16::encodable(a) && a.value() == a,
        u32::bytes(b) == varint(b as nat) && u32::encodable(b) && b.value() == b,
        u64::bytes(c) == varint(c as nat) && u64::encodable(c) && c.value() == c,
        bool::bytes(true) == seq![1u8],
        bool::bytes(false) == seq![0u8],
        <[u8; N]>::bytes(array) == array@ && <[u8; N]>::encodable(array) && array.value() == array,
        text.value() == text@,
        String::bytes(text@) == varint(encode_utf8(text@).len()) + encode_utf8(text@),
{
}

/// Input that ends early is refused as such, and so is every tag that stands for nothing.
pub proof fn law_bad_input_is_refused<T: Wire, const N: usize>(s: Seq<u8>)
    ensures
        s.len() == 0 ==> bool::parse(s) == Err::<(bool, Seq<u8>), CodecError>(
            CodecError::DeserializeUnexpectedEnd,
        ) && Option::<T>::parse(s) == Err::<(Option<T::Value>, Seq<u8>), CodecError>(
            CodecError::DeserializeUnexpectedEnd,
        ),
        s.len() > 0 && s[0] > 1 ==> bool::parse(s) == Err::<(bool, Seq<u8>), CodecError>(
            CodecError::DeserializeBadBool,
        ) && Option::<T>::parse(s) == Err::<(Option<T::Value>, Seq<u8>), CodecError>(
            CodecError::DeserializeBadOption,
        ),
        s.len() < N ==> <[u8; N]>::parse(s) == Err::<([u8; N], Seq<u8>), CodecError>(
            CodecError::DeserializeUnexpectedEnd,
        ),
        parse_len(s) matches Ok((n, rest)) && rest.len() < n ==> String::parse(s) == Err::<
            (Seq<char>, Seq<u8>),
            CodecError,
        >(CodecError::DeserializeUnexpectedEnd),
        parse_len(s) matches Ok((n, rest)) && rest.len() >= n && !valid_utf8(rest.take(n as int))
            ==> String::parse(s) == Err::<(Seq<char>, Seq<u8>), CodecError>(
            CodecError::DeserializeBadUtf8,
        ),
        parse_len(s) matches Err(e) ==> String::parse(s) == Err::<(Seq<char>, Seq<u8>), CodecError>(
            e,
        ) && Vec::<T>::parse(s) == Err::<(Seq<T::Value>, Seq<u8>), CodecError>(e),
{
}

/// A list is read item by item: one more item is what is read behind the others.
pub proof fn law_lists_are_read_item_by_item<T: Wire>(s: Seq<u8>, n: nat)
    ensures
        parse_items::<T>(s, 0) == Ok::<(Seq<T::Value>, Seq<u8>), CodecError>((Seq::empty(), s)),
        match T::parse(s) {
            Err(e) => parse_items::<T>(s, n + 1) == Err::<(Seq<T::Value>, Seq<u8>), CodecError>(e),
            Ok((x, tail)) => match parse_items::<T>(tail, n) {
                Err(e) => parse_items::<T>(s, n + 1) == Err::<
                    (Seq<T::Value>, Seq<u8>),
                    CodecError,
                >(e),
                Ok((items, rest)) => parse_items::<T>(s, n + 1) matches Ok((all, left)) && left
                    == rest && all.len() == items.len() + 1 && all[0] == x && all.skip(1) == items,
            },
        },
{
    reveal_with_fuel(parse_items, 2);
    if let Ok((x, tail)) = T::parse(s) {
        if let Ok((items, rest)) = parse_items::<T>(tail, n) {
            let all = parse_items::<T>(s, n + 1)->Ok_0.0;
            assert(all.skip(1) =~= items);
        }
    }
}

} // verus!
