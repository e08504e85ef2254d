//! The Teeworlds message packer: variable-length integers, NUL-terminated
//! strings and length-prefixed data.
//!
//! Integer format: `ESDD_DDDD EDDD_DDDD EDDD_DDDD EDDD_DDDD PPPP_DDDD`
//! (E: extend, S: sign, D: digit, little-endian, P: padding). Padding must be
//! zeroed. The extend bit says whether another byte follows.
use vstd::prelude::*;
pub use crate::buffer::CapacityError;

verus! {

/// Non-fatal irregularities noticed while unpacking.
#[derive(Clone, Copy, Debug, PartialEq, Eq, Structural)]
pub enum Warning {
    OverlongIntEncoding,
    IntPadding,
    ExcessData,
}

/// A string contained bytes below `b' '`.
#[derive(Clone, Copy, Debug, PartialEq, Eq, Structural)]
pub struct ControlCharacters;

/// An integer was outside of its allowed range.
#[derive(Clone, Copy, Debug, PartialEq, Eq, Structural)]
pub struct IntOutOfRange;

/// The input ended in the middle of a value.
#[derive(Clone, Copy, Debug, PartialEq, Eq, Structural)]
pub struct UnexpectedEnd;

// ---------------------------------------------------------------------------
// Mathematical model of the integer format.

/// Number of bytes the integer at the start of `s` occupies (it may be more
/// than `s` holds, in which case reading fails).
pub open spec fn int_len(s: Seq<u8>) -> int {
    if s.len() == 0 || s[0] < 128 {
        1
    } else if s.len() < 2 || s[1] < 128 {
        2
    } else if s.len() < 3 || s[2] < 128 {
        3
    } else if s.len() < 4 || s[3] < 128 {
        4
    } else {
        5
    }
}

/// Weight of the digits of byte `k` (k >= 1) of an integer.
pub open spec fn int_weight(k: int) -> int {
    if k == 1 {
        64
    } else if k == 2 {
        8192
    } else if k == 3 {
        1048576
    } else {
        134217728
    }
}

/// The digits of the first `l` bytes of `s`, as a number.
pub open spec fn int_raw(s: Seq<u8>, l: int) -> int {
    (s[0] % 64) as int + (if l > 1 {
        (s[1] % 128) * 64
    } else {
        0
    }) + (if l > 2 {
        (s[2] % 128) * 8192
    } else {
        0
    }) + (if l > 3 {
        (s[3] % 128) * 1048576
    } else {
        0
    }) + (if l > 4 {
        (s[4] % 128) * 134217728
    } else {
        0
    })
}

/// Two's complement reading of a 32-bit pattern.
pub open spec fn bits_to_i32(v: int) -> int {
    if v < 0x8000_0000 {
        v
    } else {
        v - 0x1_0000_0000
    }
}

/// Whether the sign bit of the first byte is set.
pub open spec fn int_negative(s: Seq<u8>) -> bool {
    s[0] % 128 >= 64
}

/// The integer encoded at the start of `s` (digits beyond 32 bits are
/// dropped, a set sign bit complements all bits).
pub open spec fn int_value(s: Seq<u8>) -> int {
    let u = int_raw(s, int_len(s)) % 0x1_0000_0000;
    bits_to_i32(
        if int_negative(s) {
            0xffff_ffff - u
        } else {
            u
        },
    )
}

/// The warning reading the integer at the start of `s` raises, if any.
pub open spec fn int_warning(s: Seq<u8>) -> Option<Warning> {
    let l = int_len(s);
    if l == 5 && s[4] >= 16 {
        Some(Warning::IntPadding)
    } else if l > 1 && s[l - 1] == 0 {
        Some(Warning::OverlongIntEncoding)
    } else {
        None
    }
}

/// The warnings of an optional warning, as a sequence.
pub open spec fn opt_seq<T>(w: Option<T>) -> Seq<T> {
    match w {
        Some(w) => seq![w],
        None => Seq::empty(),
    }
}

/// Magnitude of an integer as written: `x` or `!x` for negative `x`.
pub open spec fn int_magnitude(x: i32) -> int {
    if x < 0 {
        -(x as int) - 1
    } else {
        x as int
    }
}

/// Number of bytes needed to write a magnitude.
pub open spec fn enc_len(m: int) -> int {
    if m < 64 {
        1
    } else if m < 8192 {
        2
    } else if m < 1048576 {
        3
    } else if m < 134217728 {
        4
    } else {
        5
    }
}

/// Byte `k` of the encoding of `x`.
pub open spec fn enc_byte(x: i32, k: int) -> u8 {
    let m = int_magnitude(x);
    let ext: int = if k + 1 < enc_len(m) {
        128
    } else {
        0
    };
    if k == 0 {
        (ext + (if x < 0 {
            64int
        } else {
            0int
        }) + m % 64) as u8
    } else {
        (ext + (m / int_weight(k)) % 128) as u8
    }
}

/// The shortest encoding of `x`, which is what the packer writes.
pub open spec fn int_encoding(x: i32) -> Seq<u8> {
    Seq::new(enc_len(int_magnitude(x)) as nat, |k: int| enc_byte(x, k))
}

/// Index of the first NUL byte of `s`, if any.
pub open spec fn first_nul(s: Seq<u8>) -> Option<int> {
    if exists|i: int| 0 <= i < s.len() && s[i] == 0 {
        Some(choose|i: int| 0 <= i < s.len() && s[i] == 0 && forall|j: int| 0 <= j < i ==> s[j] != 0)
    } else {
        None
    }
}

/// `s` contains no NUL byte.
pub open spec fn no_nul(s: Seq<u8>) -> bool {
    forall|i: int| 0 <= i < s.len() ==> s[i] != 0
}

// ---------------------------------------------------------------------------
// Laws.

/// Reading back what `write_int` writes gives the same integer, consumes the
/// whole encoding and raises no warning.
#[verifier::spinoff_prover]
#[verifier::rlimit(30)]
pub proof fn lemma_int_roundtrip(x: i32)
    ensures
        int_len(int_encoding(x)) == int_encoding(x).len(),
        int_value(int_encoding(x)) == x,
        int_warning(int_encoding(x)) is None,
        1 <= int_encoding(x).len() <= 5,
{
    let s = int_encoding(x);
    let m = int_magnitude(x);
    let l = enc_len(m);
    assert(0 <= m < 0x8000_0000);
    assert(s.len() == l);
    assert(m == m % 64 + 64 * ((m / 64) % 128) + 8192 * ((m / 8192) % 128) + 1048576 * ((
    m / 1048576) % 128) + 134217728 * (m / 134217728)) by (nonlinear_arith)
        requires
            0 <= m < 0x8000_0000,
    ;
    assert(m / 134217728 < 16) by (nonlinear_arith)
        requires
            0 <= m < 0x8000_0000,
    ;
    if l == 1 {
        assert(s[0] == enc_byte(x, 0));
    } else if l == 2 {
        assert(s[0] == enc_byte(x, 0));
        assert(s[1] == enc_byte(x, 1));
        assert(m / 8192 == 0);
        assert(m / 64 >= 1);
    } else if l == 3 {
        assert(s[0] == enc_byte(x, 0));
        assert(s[1] == enc_byte(x, 1));
        assert(s[2] == enc_byte(x, 2));
        assert(m / 1048576 == 0);
        assert(m / 8192 >= 1);
        assert((m / 64) / 128 == m / 8192);
    } else if l == 4 {
        assert(s[0] == enc_byte(x, 0));
        assert(s[1] == enc_byte(x, 1));
        assert(s[2] == enc_byte(x, 2));
        assert(s[3] == enc_byte(x, 3));
        assert(m / 134217728 == 0);
        assert(m / 1048576 >= 1);
    } else {
        assert(s[0] == enc_byte(x, 0));
        assert(s[1] == enc_byte(x, 1));
        assert(s[2] == enc_byte(x, 2));
        assert(s[3] == enc_byte(x, 3));
        assert(s[4] == enc_byte(x, 4));
        assert(m / 134217728 >= 1);
    }
}

// ---------------------------------------------------------------------------
// Reading.

/// Reads the integer at the start of `data`; returns it and the number of
/// bytes it occupies.
pub fn read_int_prefix(warns: &mut Vec<Warning>, data: &[u8]) -> (r: Result<
    (i32, usize),
    UnexpectedEnd,
>)
    ensures
        (r is Ok) <==> data@.len() >= int_len(data@),
        r matches Ok((v, n)) ==> {
            &&& n == int_len(data@)
            &&& v == int_value(data@)
            &&& final(warns)@ == old(warns)@ + opt_seq(int_warning(data@))
        },
        r is Err ==> final(warns)@ == old(warns)@,
{
    if data.len() == 0 {
        return Err(UnexpectedEnd);
    }
    let b0: u8 = data[0];
    let mut raw: u64 = (b0 % 64) as u64;
    let mut len: usize = 1;
    let mut last: u8 = b0;
    let mut padding: bool = false;
    if b0 >= 128 {
        if data.len() < 2 {
            return Err(UnexpectedEnd);
        }
        let b1: u8 = data[1];
        raw = raw + (b1 % 128) as u64 * 64;
        len = 2;
        last = b1;
        if b1 >= 128 {
            if data.len() < 3 {
                return Err(UnexpectedEnd);
            }
            let b2: u8 = data[2];
            raw = raw + (b2 % 128) as u64 * 8192;
            len = 3;
            last = b2;
            if b2 >= 128 {
                if data.len() < 4 {
                    return Err(UnexpectedEnd);
                }
                let b3: u8 = data[3];
                raw = raw + (b3 % 128) as u64 * 1048576;
                len = 4;
                last = b3;
                if b3 >= 128 {
                    if data.len() < 5 {
                        return Err(UnexpectedEnd);
                    }
                    let b4: u8 = data[4];
                    padding = b4 >= 16;
                    raw = raw + (b4 % 128) as u64 * 134217728;
                    len = 5;
                    last = b4;
                }
            }
        }
    }
    assert(raw == int_raw(data@, int_len(data@)));
    if padding {
        warns.push(Warning::IntPadding);
    } else if len > 1 && last == 0 {
        warns.push(Warning::OverlongIntEncoding);
    }
    let u: u64 = raw % 0x1_0000_0000;
    let v: u64 = if b0 % 128 >= 64 {
        0xffff_ffff - u
    } else {
        u
    };
    let w: i64 = if v < 0x8000_0000 {
        v as i64
    } else {
        v as i64 - 0x1_0000_0000
    };
    proof {
        assert(final(warns)@ =~= old(warns)@ + opt_seq(int_warning(data@)));
    }
    Ok((w as i32, len))
}

/// Position of the first NUL byte of `data`, if any.
pub fn find_nul(data: &[u8]) -> (r: Option<usize>)
    ensures
        r matches Some(i) ==> first_nul(data@) == Some(i as int),
        r is None ==> first_nul(data@) is None,
        r matches Some(i) ==> i < data.len() && data@[i as int] == 0 && no_nul(
            data@.subrange(0, i as int),
        ),
        r is None ==> no_nul(data@),
{
    let mut i: usize = 0;
    while i < data.len()
        invariant
            i <= data@.len(),
            forall|j: int| 0 <= j < i ==> data@[j] != 0,
        decreases data@.len() - i,
    {
        if data[i] == 0 {
            proof {
                lemma_first_nul_at(data@, i as int);
            }
            return Some(i);
        }
        i = i + 1;
    }
    proof {
        assert(!exists|k: int| 0 <= k < data@.len() && data@[k] == 0);
    }
    None
}

/// Where `s` holds a NUL byte, `first_nul` finds the first one.
pub proof fn lemma_first_nul_exists(s: Seq<u8>)
    requires
        exists|i: int| 0 <= i < s.len() && s[i] == 0,
    ensures
        first_nul(s) matches Some(i) && 0 <= i < s.len() && s[i] == 0 && no_nul(s.subrange(0, i)),
{
    let k = choose|i: int| 0 <= i < s.len() && s[i] == 0;
    lemma_first_nul_scan(s, 0, k);
}

proof fn lemma_first_nul_scan(s: Seq<u8>, m: int, k: int)
    requires
        0 <= m <= k < s.len(),
        s[k] == 0,
        forall|j: int| 0 <= j < m ==> s[j] != 0,
    ensures
        first_nul(s) matches Some(i) && 0 <= i < s.len() && s[i] == 0 && no_nul(s.subrange(0, i)),
    decreases k - m,
{
    if s[m] == 0 {
        lemma_first_nul_at(s, m);
    } else {
        lemma_first_nul_scan(s, m + 1, k);
    }
}

/// A NUL at `i` with none before it is the first NUL.
pub proof fn lemma_first_nul_at(s: Seq<u8>, i: int)
    requires
        0 <= i < s.len(),
        s[i] == 0,
        forall|j: int| 0 <= j < i ==> s[j] != 0,
    ensures
        first_nul(s) == Some(i),
        no_nul(s.subrange(0, i)),
{
    assert(exists|k: int| 0 <= k < s.len() && s[k] == 0);
    let c = choose|k: int| 0 <= k < s.len() && s[k] == 0 && forall|j: int| 0 <= j < k ==> s[j] != 0;
    assert(0 <= c < s.len() && s[c] == 0 && forall|j: int| 0 <= j < c ==> s[j] != 0);
    if c < i {
        assert(s[c] != 0);
    }
    if i < c {
        assert(s[i] != 0);
    }
}

/// Sequential reader over a byte slice.
pub struct Unpacker<'a> {
    rest: &'a [u8],
}

impl<'a> View for Unpacker<'a> {
    type V = Seq<u8>;

    /// The bytes not yet consumed.
    closed spec fn view(&self) -> Seq<u8> {
        self.rest@
    }
}

impl<'a> Unpacker<'a> {
    pub fn new(data: &'a [u8]) -> (r: Unpacker<'a>)
        ensures
            r@ == data@,
    {
        Unpacker { rest: data }
    }

    fn use_up(&mut self)
        ensures
            final(self)@ == Seq::<u8>::empty(),
    {
        self.rest = slice_tail(self.rest, self.rest.len());
    }

    /// Reads a NUL-terminated string (without the NUL).
    pub fn read_string(&mut self) -> (r: Result<&'a [u8], UnexpectedEnd>)
        ensures
            (r is Ok) <==> first_nul(old(self)@) is Some,
            r matches Ok(s) ==> {
                let i = first_nul(old(self)@)->0;
                &&& s@ == old(self)@.subrange(0, i)
                &&& final(self)@ == old(self)@.subrange(i + 1, old(self)@.len() as int)
            },
            r is Err ==> final(self)@ == Seq::<u8>::empty(),
    {
        let rest = self.rest;
        let found = find_nul(rest);
        match found {
            Some(i) => {
                assert(i < rest@.len());
                let s = slice_head(rest, i);
                self.rest = slice_tail(rest, i + 1);
                Ok(s)
            },
            None => {
                self.use_up();
                Err(UnexpectedEnd)
            },
        }
    }

    /// Reads a variable-length integer.
    pub fn read_int(&mut self, warns: &mut Vec<Warning>) -> (r: Result<i32, UnexpectedEnd>)
        ensures
            (r is Ok) <==> old(self)@.len() >= int_len(old(self)@),
            r matches Ok(v) ==> {
                &&& v == int_value(old(self)@)
                &&& final(self)@ == old(self)@.subrange(
                    int_len(old(self)@),
                    old(self)@.len() as int,
                )
                &&& final(warns)@ == old(warns)@ + opt_seq(int_warning(old(self)@))
            },
            r is Err ==> final(self)@ == Seq::<u8>::empty() && final(warns)@ == old(warns)@,
    {
        match read_int_prefix(warns, self.rest) {
            Ok((v, n)) => {
                self.rest = slice_tail(self.rest, n);
                Ok(v)
            },
            Err(e) => {
                self.use_up();
                Err(e)
            },
        }
    }

    /// Reads an integer length followed by that many bytes.
    pub fn read_data(&mut self, warns: &mut Vec<Warning>) -> (r: Result<&'a [u8], UnexpectedEnd>)
        ensures
            ({
                let s = old(self)@;
                let l = int_len(s);
                let n = int_value(s);
                let ok = s.len() >= l && 0 <= n && n <= s.len() - l;
                &&& (r is Ok) <==> ok
                &&& r matches Ok(d) ==> d@ == s.subrange(l, l + n) && final(self)@ == s.subrange(
                    l + n,
                    s.len() as int,
                )
                &&& r is Err ==> final(self)@ == Seq::<u8>::empty()
                &&& s.len() >= l ==> final(warns)@ == old(warns)@ + opt_seq(int_warning(s))
                &&& s.len() < l ==> final(warns)@ == old(warns)@
            }),
    {
        let len = match self.read_int(warns) {
            Ok(l) => l,
            Err(e) => return Err(e),
        };
        if len < 0 {
            self.use_up();
            return Err(UnexpectedEnd);
        }
        let len = len as usize;
        if len > self.rest.len() {
            self.use_up();
            return Err(UnexpectedEnd);
        }
        let data = slice_head(self.rest, len);
        self.rest = slice_tail(self.rest, len);
        Ok(data)
    }

    /// Returns everything not yet read and consumes it.
    pub fn read_rest(&mut self) -> (r: Result<&'a [u8], UnexpectedEnd>)
        ensures
            r matches Ok(d) && d@ == old(self)@,
            final(self)@ == Seq::<u8>::empty(),
    {
        let result = self.rest;
        self.use_up();
        Ok(result)
    }

    /// Ends reading: warns about unread bytes, then consumes them.
    pub fn finish(&mut self, warns: &mut Vec<Warning>)
        ensures
            final(warns)@ == old(warns)@ + (if old(self)@.len() == 0 {
                Seq::empty()
            } else {
                seq![Warning::ExcessData]
            }),
            final(self)@ == Seq::<u8>::empty(),
    {
        if self.rest.len() != 0 {
            warns.push(Warning::ExcessData);
        }
        self.use_up();
    }

    /// The bytes not yet read.
    pub fn as_slice(&self) -> (r: &'a [u8])
        ensures
            r@ == self@,
    {
        self.rest
    }
}

/// The first `n` bytes of `s`.
pub fn slice_head<'b>(s: &'b [u8], n: usize) -> (r: &'b [u8])
    requires
        n <= s@.len(),
    ensures
        r@ == s@.subrange(0, n as int),
{
    &s[0..n]
}

/// `s` without its first `n` bytes.
pub fn slice_tail<'b>(s: &'b [u8], n: usize) -> (r: &'b [u8])
    requires
        n <= s@.len(),
    ensures
        r@ == s@.subrange(n as int, s@.len() as int),
{
    &s[n..s.len()]
}

/// Appends `data` to `v`.
pub fn extend_bytes(v: &mut Vec<u8>, data: &[u8])
    ensures
        final(v)@ == old(v)@ + data@,
{
    let mut i: usize = 0;
    while i < data.len()
        invariant
            i <= data@.len(),
            v@ == old(v)@ + data@.subrange(0, i as int),
        decreases data@.len() - i,
    {
        v.push(data[i]);
        i = i + 1;
        proof {
            assert(data@.subrange(0, i as int) =~= data@.subrange(0, i - 1) + seq![data@[i - 1]]);
        }
    }
    proof {
        assert(data@.subrange(0, data@.len() as int) =~= data@);
    }
}

// ---------------------------------------------------------------------------
// Writing.

/// The encoding of `x`.
pub fn int_bytes(x: i32) -> (r: Vec<u8>)
    ensures
        r@ == int_encoding(x),
{
    let m: u32 = if x < 0 {
        (-(x as i64) - 1) as u32
    } else {
        x as u32
    };
    assert(m == int_magnitude(x));
    let sign: u8 = if x < 0 {
        64
    } else {
        0
    };
    let mut out: Vec<u8> = Vec::new();
    let r1: u32 = m / 64;
    let e1: u8 = if r1 != 0 {
        128
    } else {
        0
    };
    out.push(e1 + sign + (m % 64) as u8);
    if r1 != 0 {
        let r2: u32 = r1 / 128;
        let e2: u8 = if r2 != 0 {
            128
        } else {
            0
        };
        out.push(e2 + (r1 % 128) as u8);
        if r2 != 0 {
            let r3: u32 = r2 / 128;
            let e3: u8 = if r3 != 0 {
                128
            } else {
                0
            };
            out.push(e3 + (r2 % 128) as u8);
            if r3 != 0 {
                let r4: u32 = r3 / 128;
                let e4: u8 = if r4 != 0 {
                    128
                } else {
                    0
                };
                out.push(e4 + (r3 % 128) as u8);
                if r4 != 0 {
                    out.push((r4 % 128) as u8);
                }
            }
        }
    }
    proof {
        let mm = m as int;
        assert(mm / 8192 == (mm / 64) / 128) by (nonlinear_arith)
            requires
                mm >= 0,
        ;
        assert(mm / 1048576 == (mm / 8192) / 128) by (nonlinear_arith)
            requires
                mm >= 0,
        ;
        assert(mm / 134217728 == (mm / 1048576) / 128) by (nonlinear_arith)
            requires
                mm >= 0,
        ;
        assert(out@ =~= int_encoding(x));
    }
    out
}

/// Serializes integers, strings and data into a buffer of fixed capacity.
pub struct Packer {
    buf: Vec<u8>,
    capacity: usize,
}

impl View for Packer {
    type V = Seq<u8>;

    /// The bytes written so far.
    closed spec fn view(&self) -> Seq<u8> {
        self.buf@
    }
}

impl Packer {
    /// How many bytes the packer may hold in total.
    pub closed spec fn capacity(&self) -> nat {
        self.capacity as nat
    }

    /// The packer never holds more than its capacity.
    #[verifier::type_invariant]
    pub open spec fn within_capacity(self) -> bool {
        self@.len() <= self.capacity()
    }

    /// An empty packer that may hold `capacity` bytes.
    pub fn new(capacity: usize) -> (r: Packer)
        ensures
            r@ == Seq::<u8>::empty(),
            r.capacity() == capacity,
    {
        Packer { buf: Vec::new(), capacity }
    }

    /// Appends `data` if it fits; otherwise leaves the packer unchanged.
    fn write_bytes(&mut self, data: &[u8]) -> (r: Result<(), CapacityError>)
        ensures
            final(self).capacity() == old(self).capacity(),
            (r is Ok) <==> old(self)@.len() + data@.len() <= old(self).capacity(),
            r is Ok ==> final(self)@ == old(self)@ + data@,
            r is Err ==> final(self)@ == old(self)@,
    {
        proof {
            use_type_invariant(&*self);
        }
        if data.len() > self.capacity || self.buf.len() > self.capacity - data.len() {
            return Err(CapacityError);
        }
        let mut buf: Vec<u8> = Vec::new();
        std::mem::swap(&mut buf, &mut self.buf);
        extend_bytes(&mut buf, data);
        self.buf = buf;
        Ok(())
    }

    /// Writes `string` followed by a NUL byte.
    pub fn write_string(&mut self, string: &[u8]) -> (r: Result<(), CapacityError>)
        requires
            no_nul(string@),
        ensures
            final(self).capacity() == old(self).capacity(),
            (r is Ok) <==> old(self)@.len() + string@.len() + 1 <= old(self).capacity(),
            r is Ok ==> final(self)@ == old(self)@ + string@ + seq![0u8],
            r is Err ==> final(self)@ == old(self)@ || final(self)@ == old(self)@ + string@,
    {
        self.write_bytes(string)?;
        let nul: [u8; 1] = [0];
        self.write_bytes(&nul)?;
        proof {
            assert(nul@ =~= seq![0u8]);
        }
        Ok(())
    }

    /// Writes `value` in the variable-length format.
    pub fn write_int(&mut self, value: i32) -> (r: Result<(), CapacityError>)
        ensures
            final(self).capacity() == old(self).capacity(),
            (r is Ok) <==> old(self)@.len() + int_encoding(value).len() <= old(self).capacity(),
            r is Ok ==> final(self)@ == old(self)@ + int_encoding(value),
            r is Err ==> final(self)@ == old(self)@,
    {
        let bytes = int_bytes(value);
        self.write_bytes(bytes.as_slice())
    }

    /// Writes the length of `data` as an integer, then `data`.
    pub fn write_data(&mut self, data: &[u8]) -> (r: Result<(), CapacityError>)
        ensures
            final(self).capacity() == old(self).capacity(),
            data@.len() <= i32::MAX && old(self)@.len() + int_encoding(data@.len() as i32).len()
                + data@.len() <= old(self).capacity() ==> r is Ok && final(self)@ == old(self)@
                + int_encoding(data@.len() as i32) + data@,
            r is Err ==> final(self)@ == old(self)@ || (data@.len() <= i32::MAX && final(self)@
                == old(self)@ + int_encoding(data@.len() as i32)),
            r is Ok ==> data@.len() <= i32::MAX && final(self)@ == old(self)@ + int_encoding(
                data@.len() as i32,
            ) + data@,
    {
        if data.len() > 0x7fff_ffff {
            return Err(CapacityError);
        }
        self.write_int(data.len() as i32)?;
        self.write_bytes(data)?;
        Ok(())
    }

    /// Writes `data` as is.
    pub fn write_rest(&mut self, data: &[u8]) -> (r: Result<(), CapacityError>)
        ensures
            final(self).capacity() == old(self).capacity(),
            (r is Ok) <==> old(self)@.len() + data@.len() <= old(self).capacity(),
            r is Ok ==> final(self)@ == old(self)@ + data@,
            r is Err ==> final(self)@ == old(self)@,
    {
        self.write_bytes(data)
    }

    /// The bytes written.
    pub fn written(self) -> (r: Vec<u8>)
        ensures
            r@ == self@,
    {
        self.buf
    }
}

/// `v` if `min <= v <= max`.
pub fn in_range(v: i32, min: i32, max: i32) -> (r: Result<i32, IntOutOfRange>)
    ensures
        (r is Ok) <==> min <= v <= max,
        r matches Ok(x) ==> x == v,
{
    if min <= v && v <= max {
        Ok(v)
    } else {
        Err(IntOutOfRange)
    }
}

/// `v` as a boolean, if it is 0 or 1.
pub fn to_bool(v: i32) -> (r: Result<bool, IntOutOfRange>)
    ensures
        (r is Ok) <==> 0 <= v <= 1,
        r matches Ok(b) ==> b == (v == 1),
{
    Ok(in_range(v, 0, 1)? != 0)
}

/// `v` if it is at least `min`.
pub fn at_least(v: i32, min: i32) -> (r: Result<i32, IntOutOfRange>)
    ensures
        (r is Ok) <==> min <= v,
        r matches Ok(x) ==> x == v,
{
    if v >= min {
        Ok(v)
    } else {
        Err(IntOutOfRange)
    }
}

/// `v` if it is not negative.
pub fn positive(v: i32) -> (r: Result<i32, IntOutOfRange>)
    ensures
        (r is Ok) <==> 0 <= v,
        r matches Ok(x) ==> x == v,
{
    if v >= 0 {
        Ok(v)
    } else {
        Err(IntOutOfRange)
    }
}

/// `v` if it contains no control characters (bytes below `b' '`).
pub fn sanitize<'a>(warns: &mut Vec<Warning>, v: &'a [u8]) -> (r: Result<&'a [u8], ControlCharacters>)
    ensures
        (r is Ok) <==> forall|i: int| 0 <= i < v@.len() ==> v@[i] >= 32,
        r matches Ok(s) ==> s@ == v@,
        final(warns)@ == old(warns)@,
{
    let mut i: usize = 0;
    while i < v.len()
        invariant
            i <= v@.len(),
            forall|j: int| 0 <= j < i ==> v@[j] >= 32,
        decreases v@.len() - i,
    {
        if v[i] < 32 {
            return Err(ControlCharacters);
        }
        i = i + 1;
    }
    Ok(v)
}

/// Unread data after the last field of a snapshot object.
#[derive(Clone, Copy, Debug, PartialEq, Eq, Structural)]
pub struct ExcessData;

/// Sequential reader over the integers of a snapshot item.
pub struct IntUnpacker<'a> {
    rest: &'a [i32],
}

impl<'a> View for IntUnpacker<'a> {
    type V = Seq<i32>;

    /// The integers not yet consumed.
    closed spec fn view(&self) -> Seq<i32> {
        self.rest@
    }
}

/// `s` without its first `n` integers.
fn ints_tail<'b>(s: &'b [i32], n: usize) -> (r: &'b [i32])
    requires
        n <= s@.len(),
    ensures
        r@ == s@.subrange(n as int, s@.len() as int),
{
    &s[n..s.len()]
}

impl<'a> IntUnpacker<'a> {
    pub fn new(data: &'a [i32]) -> (r: IntUnpacker<'a>)
        ensures
            r@ == data@,
    {
        IntUnpacker { rest: data }
    }

    /// Reads the next integer.
    pub fn read_int(&mut self) -> (r: Result<i32, UnexpectedEnd>)
        ensures
            old(self)@.len() == 0 ==> r is Err && final(self)@ == old(self)@,
            old(self)@.len() > 0 ==> r == Ok::<i32, UnexpectedEnd>(old(self)@[0]) && final(self)@
                == old(self)@.subrange(1, old(self)@.len() as int),
    {
        if self.rest.len() == 0 {
            return Err(UnexpectedEnd);
        }
        let x = self.rest[0];
        self.rest = ints_tail(self.rest, 1);
        Ok(x)
    }

    /// Ends reading: warns about unread integers, then consumes them.
    pub fn finish(&mut self, warns: &mut Vec<ExcessData>)
        ensures
            final(warns)@ == old(warns)@ + (if old(self)@.len() == 0 {
                Seq::empty()
            } else {
                seq![ExcessData]
            }),
            final(self)@ == Seq::<i32>::empty(),
    {
        if self.rest.len() != 0 {
            warns.push(ExcessData);
        }
        proof {
            assert(warns@ =~= old(warns)@ + (if old(self)@.len() == 0 {
                Seq::empty()
            } else {
                seq![ExcessData]
            }));
        }
        self.rest = ints_tail(self.rest, self.rest.len());
    }

    /// The integers not yet read.
    pub fn as_slice(&self) -> (r: &'a [i32])
        ensures
            r@ == self@,
    {
        self.rest
    }
}

} // verus!
