use vstd::prelude::*;
use vstd::utf8::{decode_utf8, valid_utf8};

use crate::errors::ReadError;

verus! {

/// A read either yields the decoded value or the first error met.
pub type ReadResult<T> = Result<T, ReadError>;

/// True of a byte that is an ASCII decimal digit.
pub open spec fn is_ascii_digit(b: u8) -> bool {
    0x30 <= b <= 0x39
}

/// True when every byte of the sequence is an ASCII decimal digit.
pub open spec fn all_digits(s: Seq<u8>) -> bool {
    forall|i: int| 0 <= i < s.len() ==> is_ascii_digit(#[trigger] s[i])
}

/// The value of a sequence of ASCII digits read as an unsigned base-10
/// number.
pub open spec fn dec_value(s: Seq<u8>) -> int
    recommends
        all_digits(s),
    decreases s.len(),
{
    if s.len() == 0 {
        0
    } else {
        dec_value(s.drop_last()) * 10 + (s.last() - 0x30)
    }
}

/// The value of a sequence of bytes read as a little-endian unsigned
/// binary number.
pub open spec fn le_value(s: Seq<u8>) -> int
    decreases s.len(),
{
    if s.len() == 0 {
        0
    } else {
        s[0] + 256 * le_value(s.drop_first())
    }
}

/// 256 raised to the given power: the number of values of `n` bytes.
pub open spec fn pow256(n: nat) -> int
    decreases n,
{
    if n == 0 {
        1
    } else {
        256 * pow256((n - 1) as nat)
    }
}

/// The position of the first occurrence of `t` in `data` at or after `pos`,
/// or -1 when there is none.
pub open spec fn find_byte(data: Seq<u8>, pos: int, t: u8) -> int
    decreases data.len() - pos,
    when pos <= data.len()
{
    if pos < 0 {
        find_byte(data, 0, t)
    } else if pos >= data.len() {
        -1
    } else if data[pos] == t {
        pos
    } else {
        find_byte(data, pos + 1, t)
    }
}

/// A found terminator lies within the data, at or after where the search
/// began, and is the byte searched for.
pub proof fn lemma_find_byte_bounds(data: Seq<u8>, pos: int, t: u8)
    requires
        0 <= pos <= data.len(),
    ensures
        find_byte(data, pos, t) >= 0 ==> pos <= find_byte(data, pos, t) < data.len() && data[
            find_byte(data, pos, t)
        ] == t,
    decreases data.len() - pos,
{
    if pos < data.len() && data[pos] != t {
        lemma_find_byte_bounds(data, pos + 1, t);
    }
}

/// The value of a single digit byte.
pub proof fn lemma_dec_value_single(s: Seq<u8>)
    requires
        s.len() == 1,
    ensures
        dec_value(s) == s[0] - 0x30,
{
    assert(s.drop_last() =~= Seq::<u8>::empty());
    assert(dec_value(Seq::<u8>::empty()) == 0);
    assert(s.last() == s[0]);
}

/// Parsing a fixed-width unsigned decimal at `pos`: `n` bytes must be
/// available, all of them digits, and the value must lie within `max`.
/// Mirrors how the reader's decimal operations behave, as a pure function
/// of the byte source.
pub open spec fn spec_read_decimal(data: Seq<u8>, pos: int, n: int, max: int) -> Result<
    (int, int),
    ReadError,
> {
    if pos + n > data.len() {
        Err(ReadError::IoError)
    } else {
        let b = data.subrange(pos, pos + n);
        if n > 0 && all_digits(b) && dec_value(b) <= max {
            Ok((dec_value(b), pos + n))
        } else {
            Err(ReadError::IntError)
        }
    }
}

/// Appends already-parsed items in front of the outcome of parsing the
/// rest.
pub open spec fn prepend_parsed<T>(prefix: Seq<T>, r: Result<(Seq<T>, int), ReadError>) -> Result<
    (Seq<T>, int),
    ReadError,
> {
    match r {
        Ok((s, p)) => Ok((prefix + s, p)),
        Err(e) => Err(e),
    }
}

/// Reading a longer digit prefix never shrinks the value.
pub proof fn lemma_dec_value_prefix_le(s: Seq<u8>, i: int, j: int)
    requires
        all_digits(s),
        0 <= i <= j <= s.len(),
    ensures
        0 <= dec_value(s.take(i)) <= dec_value(s.take(j)),
    decreases j - i,
{
    lemma_dec_value_nonneg(s.take(i));
    if i < j {
        lemma_dec_value_prefix_le(s, i + 1, j);
        assert(s.take(i + 1).drop_last() =~= s.take(i));
        lemma_dec_value_nonneg(s.take(i));
        assert(dec_value(s.take(i + 1)) == dec_value(s.take(i)) * 10 + (s[i] - 0x30));
        assert(is_ascii_digit(s[i]));
        assert(dec_value(s.take(i)) <= dec_value(s.take(i)) * 10) by {
            lemma_dec_value_nonneg(s.take(i));
        }
    }
}

/// The decimal value of a digit string is never negative.
pub proof fn lemma_dec_value_nonneg(s: Seq<u8>)
    requires
        all_digits(s),
    ensures
        dec_value(s) >= 0,
    decreases s.len(),
{
    if s.len() > 0 {
        assert(is_ascii_digit(s.last()));
        lemma_dec_value_nonneg(s.drop_last());
        assert(all_digits(s.drop_last()));
    }
}

/// 10 raised to the given power: the number of values of `n` decimal
/// digits.
pub open spec fn pow10(n: nat) -> int
    decreases n,
{
    if n == 0 {
        1
    } else {
        10 * pow10((n - 1) as nat)
    }
}

/// A digit string of `n` digits holds a value below 10 to the `n`.
pub proof fn lemma_dec_value_bound(s: Seq<u8>)
    requires
        all_digits(s),
    ensures
        0 <= dec_value(s) < pow10(s.len()),
    decreases s.len(),
{
    if s.len() > 0 {
        assert(all_digits(s.drop_last()));
        lemma_dec_value_bound(s.drop_last());
        assert(is_ascii_digit(s.last()));
    }
}

/// A power of 256 is at least one.
pub proof fn lemma_pow256_pos(n: nat)
    ensures
        pow256(n) >= 1,
    decreases n,
{
    if n > 0 {
        lemma_pow256_pos((n - 1) as nat);
    }
}

/// Powers of 256 only grow with the exponent.
pub proof fn lemma_pow256_monotone(a: nat, b: nat)
    requires
        a <= b,
    ensures
        1 <= pow256(a) <= pow256(b),
    decreases b,
{
    lemma_pow256_pos(a);
    if a < b {
        lemma_pow256_monotone(a, (b - 1) as nat);
    }
}

/// A little-endian value of `n` bytes lies below 256 to the `n`.
pub proof fn lemma_le_value_bound(s: Seq<u8>)
    ensures
        0 <= le_value(s) < pow256(s.len()),
    decreases s.len(),
{
    if s.len() > 0 {
        lemma_le_value_bound(s.drop_first());
    }
}

/// Relies on std's String::from_utf8: it returns the string exactly when
/// the bytes are a valid UTF-8 encoding, and the string's characters are
/// then the decoding of those bytes.
#[verifier::external_body]
fn string_from_utf8(bytes: Vec<u8>) -> (r: Option<String>)
    ensures
        r is Some <==> valid_utf8(bytes@),
        r is Some ==> r->0@ == decode_utf8(bytes@),
{
    String::from_utf8(bytes).ok()
}

/// A sequential cursor over the byte source of one interchange file.
///
/// Every read either consumes exactly the bytes its contract names and
/// moves the cursor past them, or fails and leaves the cursor where it was.
pub struct Reader {
    data: Vec<u8>,
    pos: usize,
}

impl Reader {
    #[verifier::type_invariant]
    spec fn wf(self) -> bool {
        self.pos <= self.data@.len()
    }

    /// The whole byte source this reader walks.
    pub closed spec fn bytes(self) -> Seq<u8> {
        self.data@
    }

    /// The position of the next byte to be read.
    pub closed spec fn cursor(self) -> int {
        self.pos as int
    }

    /// How many bytes lie at or after the cursor.
    pub open spec fn remaining(self) -> int {
        self.bytes().len() - self.cursor()
    }

    pub fn new(data: Vec<u8>) -> (r: Reader)
        ensures
            r.bytes() == data@,
            r.cursor() == 0,
    {
        Reader { data, pos: 0 }
    }

    /// The cursor's position, counted from the start of the byte source.
    pub fn position(&self) -> (r: usize)
        ensures
            r == self.cursor(),
            0 <= self.cursor() <= self.bytes().len(),
    {
        proof {
            use_type_invariant(self);
        }
        self.pos
    }

    /// How many bytes are left ahead of the cursor.
    pub fn remaining_len(&self) -> (r: usize)
        ensures
            r == self.remaining(),
            0 <= self.cursor() <= self.bytes().len(),
            self.bytes().len() <= usize::MAX,
    {
        proof {
            use_type_invariant(self);
        }
        self.data.len() - self.pos
    }

    /// True when the cursor stands at the end of the byte source.
    pub fn is_eof(&self) -> (r: bool)
        ensures
            r == (self.remaining() == 0),
            0 <= self.cursor() <= self.bytes().len(),
    {
        proof {
            use_type_invariant(self);
        }
        self.pos == self.data.len()
    }

    /// Looks at the next byte without moving the cursor.
    pub fn peek_byte(&mut self) -> (r: ReadResult<u8>)
        ensures
            *final(self) == *old(self),
            0 <= old(self).cursor() <= old(self).bytes().len(),
            old(self).remaining() > 0 ==> r == Ok::<u8, ReadError>(
                old(self).bytes()[old(self).cursor()],
            ),
            old(self).remaining() <= 0 ==> r == Err::<u8, ReadError>(ReadError::IoError),
    {
        proof {
            use_type_invariant(&*self);
        }
        if self.pos < self.data.len() {
            Ok(self.data[self.pos])
        } else {
            Err(ReadError::IoError)
        }
    }

    /// Reads one byte as a character.
    pub fn read_char(&mut self) -> (r: ReadResult<char>)
        ensures
            final(self).bytes() == old(self).bytes(),
            0 <= old(self).cursor() <= old(self).bytes().len(),
            old(self).remaining() > 0 ==> r == Ok::<char, ReadError>(
                old(self).bytes()[old(self).cursor()] as char,
            ) && final(self).cursor() == old(self).cursor() + 1,
            old(self).remaining() <= 0 ==> r == Err::<char, ReadError>(ReadError::IoError)
                && *final(self) == *old(self),
    {
        proof {
            use_type_invariant(&*self);
        }
        if self.pos < self.data.len() {
            let b = self.data[self.pos];
            self.pos = self.pos + 1;
            Ok(b as char)
        } else {
            Err(ReadError::IoError)
        }
    }

    /// Reads one byte as an unsigned number.
    pub fn read_u8(&mut self) -> (r: ReadResult<u8>)
        ensures
            final(self).bytes() == old(self).bytes(),
            0 <= old(self).cursor() <= old(self).bytes().len(),
            old(self).remaining() > 0 ==> r == Ok::<u8, ReadError>(
                old(self).bytes()[old(self).cursor()],
            ) && final(self).cursor() == old(self).cursor() + 1,
            old(self).remaining() <= 0 ==> r == Err::<u8, ReadError>(ReadError::IoError)
                && *final(self) == *old(self),
    {
        proof {
            use_type_invariant(&*self);
        }
        if self.pos < self.data.len() {
            let b = self.data[self.pos];
            self.pos = self.pos + 1;
            Ok(b)
        } else {
            Err(ReadError::IoError)
        }
    }

    /// Copies the `n` bytes ahead of the cursor without moving it.
    fn take_range(&self, n: usize) -> (v: Vec<u8>)
        requires
            self.cursor() + n <= self.bytes().len(),
        ensures
            v@ == self.bytes().subrange(self.cursor(), self.cursor() + n),
    {
        proof {
            use_type_invariant(self);
            vstd::std_specs::vec::axiom_spec_len(&self.data);
        }
        let mut v: Vec<u8> = Vec::new();
        let mut i: usize = 0;
        while i < n
            invariant
                i <= n,
                self.cursor() + n <= self.bytes().len(),
                self.bytes().len() <= usize::MAX,
                self.bytes() == self.data@,
                self.cursor() == self.pos as int,
                v@ == self.bytes().subrange(self.cursor(), self.cursor() + i),
            decreases n - i,
        {
            v.push(self.data[self.pos + i]);
            i = i + 1;
            proof {
                assert(v@ =~= self.bytes().subrange(self.cursor(), self.cursor() + i));
            }
        }
        proof {
            assert(v@ =~= self.bytes().subrange(self.cursor(), self.cursor() + n));
        }
        v
    }

    /// Reads exactly `length` bytes.
    pub fn read_bytes(&mut self, length: usize) -> (r: ReadResult<Vec<u8>>)
        ensures
            final(self).bytes() == old(self).bytes(),
            0 <= old(self).cursor() <= old(self).bytes().len(),
            old(self).remaining() >= length ==> ({
                &&& r is Ok
                &&& r->Ok_0@ == old(self).bytes().subrange(
                    old(self).cursor(),
                    old(self).cursor() + length,
                )
                &&& final(self).cursor() == old(self).cursor() + length
            }),
            old(self).remaining() < length ==> r == Err::<Vec<u8>, ReadError>(ReadError::IoError)
                && *final(self) == *old(self),
    {
        proof {
            use_type_invariant(&*self);
        }
        if length > self.data.len() - self.pos {
            return Err(ReadError::IoError);
        }
        let v = self.take_range(length);
        self.pos = self.pos + length;
        Ok(v)
    }

    /// Reads exactly `length` bytes as UTF-8 text.
    pub fn read_str(&mut self, length: usize) -> (r: ReadResult<String>)
        ensures
            final(self).bytes() == old(self).bytes(),
            0 <= old(self).cursor() <= old(self).bytes().len(),
            old(self).remaining() >= length ==> ({
                let b = old(self).bytes().subrange(old(self).cursor(), old(self).cursor() + length);
                if valid_utf8(b) {
                    &&& r is Ok
                    &&& r->Ok_0@ == decode_utf8(b)
                    &&& final(self).cursor() == old(self).cursor() + length
                } else {
                    r == Err::<String, ReadError>(ReadError::Utf8Error) && *final(self) == *old(self)
                }
            }),
            old(self).remaining() < length ==> r == Err::<String, ReadError>(ReadError::IoError)
                && *final(self) == *old(self),
    {
        proof {
            use_type_invariant(&*self);
        }
        if length > self.data.len() - self.pos {
            return Err(ReadError::IoError);
        }
        let v = self.take_range(length);
        match string_from_utf8(v) {
            Some(s) => {
                self.pos = self.pos + length;
                Ok(s)
            },
            None => Err(ReadError::Utf8Error),
        }
    }

    /// Finds the next occurrence of `t`, leaving the cursor in place.
    fn scan_for(&self, t: u8) -> (r: Option<usize>)
        ensures
            match r {
                Some(i) => self.cursor() <= i < self.bytes().len() && find_byte(
                    self.bytes(),
                    self.cursor(),
                    t,
                ) == i,
                None => find_byte(self.bytes(), self.cursor(), t) == -1,
            },
    {
        proof {
            use_type_invariant(self);
        }
        let mut i: usize = self.pos;
        while i < self.data.len()
            invariant
                self.cursor() <= i <= self.bytes().len(),
                self.bytes() == self.data@,
                find_byte(self.bytes(), self.cursor(), t) == find_byte(self.bytes(), i as int, t),
            decreases self.data@.len() - i,
        {
            if self.data[i] == t {
                return Some(i);
            }
            i = i + 1;
        }
        None
    }

    /// Reads text up to and through the next occurrence of the terminator
    /// byte `t`; the terminator is consumed but not part of the result.
    fn read_str_term(&mut self, t: u8) -> (r: ReadResult<String>)
        ensures
            final(self).bytes() == old(self).bytes(),
            0 <= old(self).cursor() <= old(self).bytes().len(),
            ({
                let ti = find_byte(old(self).bytes(), old(self).cursor(), t);
                if ti < 0 {
                    r == Err::<String, ReadError>(ReadError::IoError) && *final(self) == *old(self)
                } else {
                    let b = old(self).bytes().subrange(old(self).cursor(), ti);
                    if valid_utf8(b) {
                        &&& r is Ok
                        &&& r->Ok_0@ == decode_utf8(b)
                        &&& final(self).cursor() == ti + 1
                    } else {
                        r == Err::<String, ReadError>(ReadError::Utf8Error) && *final(self)
                            == *old(self)
                    }
                }
            }),
    {
        proof {
            use_type_invariant(&*self);
        }
        proof {
            vstd::std_specs::vec::axiom_spec_len(&self.data);
        }
        match self.scan_for(t) {
            None => Err(ReadError::IoError),
            Some(ti) => {
                let v = self.take_range(ti - self.pos);
                match string_from_utf8(v) {
                    Some(s) => {
                        self.pos = ti + 1;
                        Ok(s)
                    },
                    None => Err(ReadError::Utf8Error),
                }
            },
        }
    }

    /// Parses a whole digit string as an unsigned base-10 number.
    fn parse_decimal(bytes: &Vec<u8>) -> (r: Option<u64>)
        ensures
            r is Some <==> (bytes@.len() > 0 && all_digits(bytes@) && dec_value(bytes@)
                <= u64::MAX),
            r is Some ==> r->0 == dec_value(bytes@),
    {
        if bytes.len() == 0 {
            return None;
        }
        let mut acc: u64 = 0;
        let mut i: usize = 0;
        while i < bytes.len()
            invariant
                i <= bytes@.len(),
                all_digits(bytes@.take(i as int)),
                acc == dec_value(bytes@.take(i as int)),
            decreases bytes@.len() - i,
        {
            let b = bytes[i];
            if b < 0x30 || b > 0x39 {
                proof {
                    assert(!is_ascii_digit(bytes@[i as int]));
                }
                return None;
            }
            let d: u64 = (b - 0x30) as u64;
            proof {
                assert(bytes@.take(i + 1).drop_last() =~= bytes@.take(i as int));
                assert(bytes@.take(i + 1).last() == bytes@[i as int]);
                assert(all_digits(bytes@.take(i + 1)));
            }
            let next = match acc.checked_mul(10) {
                Some(m) => m.checked_add(d),
                None => None,
            };
            match next {
                Some(v) => {
                    acc = v;
                    i = i + 1;
                },
                None => {
                    proof {
                        assert(dec_value(bytes@.take(i + 1)) == acc * 10 + d);
                        if all_digits(bytes@) && dec_value(bytes@) <= u64::MAX {
                            lemma_dec_value_prefix_le(bytes@, i + 1, bytes@.len() as int);
                            assert(bytes@.take(bytes@.len() as int) =~= bytes@);
                        }
                    }
                    return None;
                },
            }
        }
        proof {
            assert(bytes@.take(bytes@.len() as int) =~= bytes@);
        }
        Some(acc)
    }

    /// Reads `length` ASCII digit bytes as an unsigned decimal that must fit
    /// one byte.
    pub fn read_u8_str(&mut self, length: usize) -> (r: ReadResult<u8>)
        ensures
            final(self).bytes() == old(self).bytes(),
            0 <= old(self).cursor() <= old(self).bytes().len(),
            old(self).remaining() >= length ==> ({
                let b = old(self).bytes().subrange(old(self).cursor(), old(self).cursor() + length);
                if length > 0 && all_digits(b) && dec_value(b) <= u8::MAX {
                    &&& r is Ok
                    &&& r->Ok_0 == dec_value(b)
                    &&& final(self).cursor() == old(self).cursor() + length
                } else {
                    r == Err::<u8, ReadError>(ReadError::IntError) && *final(self) == *old(self)
                }
            }),
            old(self).remaining() < length ==> r == Err::<u8, ReadError>(ReadError::IoError)
                && *final(self) == *old(self),
    {
        proof {
            use_type_invariant(&*self);
        }
        if length > self.data.len() - self.pos {
            return Err(ReadError::IoError);
        }
        let v = self.take_range(length);
        match Self::parse_decimal(&v) {
            Some(value) => {
                if value <= u8::MAX as u64 {
                    self.pos = self.pos + length;
                    Ok(value as u8)
                } else {
                    Err(ReadError::IntError)
                }
            },
            None => Err(ReadError::IntError),
        }
    }

    /// Reads `length` ASCII digit bytes as an unsigned decimal number.
    pub fn read_u64_str(&mut self, length: usize) -> (r: ReadResult<u64>)
        ensures
            final(self).bytes() == old(self).bytes(),
            0 <= old(self).cursor() <= old(self).bytes().len(),
            old(self).remaining() >= length ==> ({
                let b = old(self).bytes().subrange(old(self).cursor(), old(self).cursor() + length);
                if length > 0 && all_digits(b) && dec_value(b) <= u64::MAX {
                    &&& r is Ok
                    &&& r->Ok_0 == dec_value(b)
                    &&& final(self).cursor() == old(self).cursor() + length
                } else {
                    r == Err::<u64, ReadError>(ReadError::IntError) && *final(self) == *old(self)
                }
            }),
            old(self).remaining() < length ==> r == Err::<u64, ReadError>(ReadError::IoError)
                && *final(self) == *old(self),
    {
        proof {
            use_type_invariant(&*self);
        }
        if length > self.data.len() - self.pos {
            return Err(ReadError::IoError);
        }
        let v = self.take_range(length);
        match Self::parse_decimal(&v) {
            Some(value) => {
                self.pos = self.pos + length;
                Ok(value)
            },
            None => Err(ReadError::IntError),
        }
    }

    /// Reads `length` bytes as a little-endian unsigned binary number.
    pub fn read_u64(&mut self, length: usize) -> (r: ReadResult<u64>)
        requires
            length <= 8,
        ensures
            final(self).bytes() == old(self).bytes(),
            0 <= old(self).cursor() <= old(self).bytes().len(),
            old(self).remaining() >= length ==> ({
                let b = old(self).bytes().subrange(old(self).cursor(), old(self).cursor() + length);
                &&& r is Ok
                &&& r->Ok_0 == le_value(b)
                &&& final(self).cursor() == old(self).cursor() + length
            }),
            old(self).remaining() < length ==> r == Err::<u64, ReadError>(ReadError::IoError)
                && *final(self) == *old(self),
    {
        proof {
            use_type_invariant(&*self);
        }
        if length > self.data.len() - self.pos {
            return Err(ReadError::IoError);
        }
        let v = self.take_range(length);
        let mut acc: u64 = 0;
        let mut i: usize = length;
        proof {
            assert(v@.skip(length as int) =~= Seq::<u8>::empty());
        }
        while i > 0
            invariant
                i <= length <= 8,
                v@.len() == length,
                acc == le_value(v@.skip(i as int)),
                0 <= acc < pow256((length - i) as nat),
            decreases i,
        {
            i = i - 1;
            proof {
                assert(v@.skip(i as int).drop_first() =~= v@.skip(i + 1));
                lemma_pow256_monotone((length - i - 1) as nat, 7);
                assert(pow256(8) == 0x1_0000_0000_0000_0000) by {
                    reveal_with_fuel(pow256, 9);
                }
                assert(256 * pow256((length - i - 1) as nat) == pow256((length - i) as nat));
            }
            acc = acc * 256 + (v[i] as u64);
        }
        proof {
            assert(v@.skip(0) =~= v@);
        }
        self.pos = self.pos + length;
        Ok(acc)
    }

    /// Reads text delimited by the next field terminator.
    pub fn read_str_ft(&mut self) -> (r: ReadResult<String>)
        ensures
            final(self).bytes() == old(self).bytes(),
            0 <= old(self).cursor() <= old(self).bytes().len(),
            ({
                let ti = find_byte(old(self).bytes(), old(self).cursor(), crate::FIELD_TERMINATOR);
                if ti < 0 {
                    r == Err::<String, ReadError>(ReadError::IoError) && *final(self) == *old(self)
                } else {
                    let b = old(self).bytes().subrange(old(self).cursor(), ti);
                    if valid_utf8(b) {
                        &&& r is Ok
                        &&& r->Ok_0@ == decode_utf8(b)
                        &&& final(self).cursor() == ti + 1
                    } else {
                        r == Err::<String, ReadError>(ReadError::Utf8Error) && *final(self)
                            == *old(self)
                    }
                }
            }),
    {
        self.read_str_term(crate::FIELD_TERMINATOR)
    }

    /// Reads text delimited by the next unit terminator.
    pub fn read_str_ut(&mut self) -> (r: ReadResult<String>)
        ensures
            final(self).bytes() == old(self).bytes(),
            0 <= old(self).cursor() <= old(self).bytes().len(),
            ({
                let ti = find_byte(old(self).bytes(), old(self).cursor(), crate::UNIT_TERMINATOR);
                if ti < 0 {
                    r == Err::<String, ReadError>(ReadError::IoError) && *final(self) == *old(self)
                } else {
                    let b = old(self).bytes().subrange(old(self).cursor(), ti);
                    if valid_utf8(b) {
                        &&& r is Ok
                        &&& r->Ok_0@ == decode_utf8(b)
                        &&& final(self).cursor() == ti + 1
                    } else {
                        r == Err::<String, ReadError>(ReadError::Utf8Error) && *final(self)
                            == *old(self)
                    }
                }
            }),
    {
        self.read_str_term(crate::UNIT_TERMINATOR)
    }
}

} // verus!
