//! Hex dumps: one line per 16 bytes, with the bytes in hex, grouped by 4,
//! and as printable characters, followed by a line giving the length.
use vstd::prelude::*;

verus! {

pub const SEGMENT_LENGTH: usize = 4;

/// Bytes per line; a multiple of `SEGMENT_LENGTH`.
pub const CHUNK_LENGTH: usize = 16;

pub const NUM_SEGMENTS_PER_CHUNK: usize = 4;

/// Width of the hex area of a line: `CHUNK_LENGTH` bytes as two digits
/// each, and a space between segments.
pub const HEX_AREA_LENGTH: usize = 35;

/// Length of every line of a dump.
pub const LINE_LENGTH: usize = 63;

/// The lowercase hex digit of `d`.
pub open spec fn hex_digit(d: int) -> u8 {
    if d < 10 {
        (48 + d) as u8
    } else {
        (87 + d) as u8
    }
}

/// `n` in lowercase hex, at least `width` digits, padded with zeros.
pub open spec fn hex_padded(n: nat, width: nat) -> Seq<u8>
    decreases width, n,
{
    if width == 0 && n == 0 {
        Seq::empty()
    } else {
        let w: nat = if width == 0 {
            0
        } else {
            (width - 1) as nat
        };
        hex_padded(n / 16, w).push(hex_digit((n % 16) as int))
    }
}

/// `k` spaces.
pub open spec fn spaces(k: nat) -> Seq<u8> {
    Seq::new(k, |i: int| 32u8)
}

/// The two hex digits of a byte.
pub open spec fn hex_byte(b: u8) -> Seq<u8> {
    seq![hex_digit(b as int / 16), hex_digit(b as int % 16)]
}

/// The bytes of `c` in hex, a space before each segment but the first.
pub open spec fn hex_part(c: Seq<u8>) -> Seq<u8>
    decreases c.len(),
{
    if c.len() == 0 {
        Seq::empty()
    } else {
        let k = c.len() - 1;
        hex_part(c.subrange(0, k)) + (if k > 0 && k % 4 == 0 {
            seq![32u8]
        } else {
            Seq::empty()
        }) + hex_byte(c[k])
    }
}

/// A byte as it is shown: itself if printable, else a dot.
pub open spec fn shown(b: u8) -> u8 {
    if b < 0x20 || b >= 0x7f {
        0x2eu8
    } else {
        b
    }
}

/// The bytes of `c` as shown.
pub open spec fn shown_part(c: Seq<u8>) -> Seq<u8> {
    Seq::new(c.len(), |i: int| shown(c[i]))
}

/// The line for the chunk `c` that starts at byte `offset`.
pub open spec fn chunk_line(offset: nat, c: Seq<u8>) -> Seq<u8> {
    let h = hex_part(c);
    seq![0x7cu8] + h + seq![0x7cu8, 32u8] + spaces((HEX_AREA_LENGTH - h.len()) as nat) + shown_part(
        c,
    ) + spaces((CHUNK_LENGTH - c.len()) as nat) + seq![32u8] + hex_padded(offset, 8)
}

/// The last line, which gives the length `len`.
pub open spec fn summary_line(len: nat) -> Seq<u8> {
    spaces(55) + hex_padded(len, 8)
}

/// Number of lines that show the bytes of a dump of `len` bytes.
pub open spec fn num_chunks(len: nat) -> nat {
    ((len + CHUNK_LENGTH - 1) / (CHUNK_LENGTH as int)) as nat
}

/// Chunk `i` of `bytes`.
pub open spec fn chunk(bytes: Seq<u8>, i: int) -> Seq<u8> {
    let start = i * CHUNK_LENGTH;
    let end = if start + CHUNK_LENGTH < bytes.len() {
        start + CHUNK_LENGTH
    } else {
        bytes.len() as int
    };
    bytes.subrange(start, end)
}

/// A line of a dump, as bytes.
pub struct Buffer {
    inner: Vec<u8>,
}

impl View for Buffer {
    type V = Seq<u8>;

    closed spec fn view(&self) -> Seq<u8> {
        self.inner@
    }
}

impl Buffer {
    /// The bytes of the line.
    pub fn as_bytes(&self) -> (r: &[u8])
        ensures
            r@ == self@,
    {
        self.inner.as_slice()
    }
}

/// Appends `k` spaces.
fn push_spaces(buf: &mut Vec<u8>, k: usize)
    ensures
        final(buf)@ == old(buf)@ + spaces(k as nat),
{
    let mut i: usize = 0;
    while i < k
        invariant
            i <= k,
            buf@ == old(buf)@ + spaces(i as nat),
        decreases k - i,
    {
        buf.push(32);
        i = i + 1;
        proof {
            assert(buf@ =~= old(buf)@ + spaces(i as nat));
        }
    }
}

fn hex_digit_of(d: u8) -> (r: u8)
    requires
        d < 16,
    ensures
        r == hex_digit(d as int),
{
    if d < 10 {
        48 + d
    } else {
        87 + d
    }
}

/// Appends `n` in lowercase hex, at least 8 digits.
fn push_hex8(buf: &mut Vec<u8>, n: usize)
    ensures
        final(buf)@ == old(buf)@ + hex_padded(n as nat, 8),
{
    let mut digits: Vec<u8> = Vec::new();
    let mut m: usize = n;
    let mut width: usize = 8;
    let ghost mut acc: Seq<u8> = Seq::empty();
    while width > 0 || m > 0
        invariant
            width <= 8,
            hex_padded(n as nat, 8) == hex_padded(m as nat, width as nat) + digits@.reverse(),
        decreases m, width,
    {
        let d = (m % 16) as u8;
        proof {
            let w: nat = if width == 0 {
                0
            } else {
                (width - 1) as nat
            };
            assert(hex_padded(m as nat, width as nat) == hex_padded((m / 16) as nat, w).push(
                hex_digit((m % 16) as int),
            ));
        }
        let ghost before = digits@;
        digits.push(hex_digit_of(d));
        proof {
            assert(digits@.reverse() =~= seq![hex_digit((m % 16) as int)] + before.reverse());
        }
        m = m / 16;
        if width > 0 {
            width = width - 1;
        }
        proof {
            assert(hex_padded(n as nat, 8) =~= hex_padded(m as nat, width as nat) + digits@.reverse());
        }
    }
    proof {
        assert(hex_padded(0, 0) == Seq::<u8>::empty());
        assert(hex_padded(n as nat, 8) =~= digits@.reverse());
    }
    let mut i: usize = digits.len();
    while i > 0
        invariant
            i <= digits@.len(),
            buf@ == old(buf)@ + digits@.reverse().subrange(0, (digits@.len() - i) as int),
        decreases i,
    {
        i = i - 1;
        buf.push(digits[i]);
        proof {
            assert(buf@ =~= old(buf)@ + digits@.reverse().subrange(0, (digits@.len() - i) as int));
        }
    }
    proof {
        assert(digits@.reverse().subrange(0, digits@.len() as int) =~= digits@.reverse());
    }
}

/// The hex part of `c` has two digits per byte and a space between
/// segments.
pub proof fn lemma_hex_part_len(c: Seq<u8>)
    ensures
        c.len() == 0 ==> hex_part(c).len() == 0,
        c.len() > 0 ==> hex_part(c).len() == 2 * c.len() + (c.len() - 1) / 4,
    decreases c.len(),
{
    if c.len() > 0 {
        let k = c.len() - 1;
        lemma_hex_part_len(c.subrange(0, k));
    }
}

/// The bytes of `s` from `start` to `end`.
fn slice_range<'b>(s: &'b [u8], start: usize, end: usize) -> (r: &'b [u8])
    requires
        start <= end <= s@.len(),
    ensures
        r@ == s@.subrange(start as int, end as int),
{
    &s[start..end]
}

/// The line for `chunk`, which starts at byte `index * CHUNK_LENGTH`.
fn hexdump_chunk(index: usize, chunk: &[u8]) -> (r: Buffer)
    requires
        1 <= chunk@.len() <= CHUNK_LENGTH,
        index * CHUNK_LENGTH <= usize::MAX,
    ensures
        r@ == chunk_line((index * CHUNK_LENGTH) as nat, chunk@),
{
    let offset = index * CHUNK_LENGTH;
    let mut buf: Vec<u8> = Vec::new();
    buf.push(0x7c);
    let mut k: usize = 0;
    while k < chunk.len()
        invariant
            k <= chunk@.len(),
            chunk@.len() <= CHUNK_LENGTH,
            buf@ == seq![0x7cu8] + hex_part(chunk@.subrange(0, k as int)),
        decreases chunk.len() - k,
    {
        let ghost before = buf@;
        if k > 0 && k % SEGMENT_LENGTH == 0 {
            buf.push(32);
        }
        let b = chunk[k];
        buf.push(hex_digit_of(b / 16));
        buf.push(hex_digit_of(b % 16));
        proof {
            let c = chunk@.subrange(0, k + 1);
            assert(c.subrange(0, k as int) =~= chunk@.subrange(0, k as int));
            assert(c[k as int] == b);
            assert(buf@ =~= seq![0x7cu8] + hex_part(c));
        }
        k = k + 1;
    }
    proof {
        assert(chunk@.subrange(0, chunk@.len() as int) =~= chunk@);
        lemma_hex_part_len(chunk@);
    }
    let hex_len = 2 * chunk.len() + (chunk.len() - 1) / SEGMENT_LENGTH;
    buf.push(0x7c);
    buf.push(32);
    push_spaces(&mut buf, HEX_AREA_LENGTH - hex_len);
    let ghost before_shown = buf@;
    let mut j: usize = 0;
    while j < chunk.len()
        invariant
            j <= chunk@.len(),
            buf@ == before_shown + shown_part(chunk@.subrange(0, j as int)),
        decreases chunk.len() - j,
    {
        let b = chunk[j];
        if b < 0x20 || b >= 0x7f {
            buf.push(0x2e);
        } else {
            buf.push(b);
        }
        j = j + 1;
        proof {
            assert(buf@ =~= before_shown + shown_part(chunk@.subrange(0, j as int)));
        }
    }
    proof {
        assert(chunk@.subrange(0, chunk@.len() as int) =~= chunk@);
    }
    push_spaces(&mut buf, CHUNK_LENGTH - chunk.len());
    buf.push(32);
    push_hex8(&mut buf, offset);
    proof {
        assert(buf@ =~= chunk_line((index * CHUNK_LENGTH) as nat, chunk@));
    }
    Buffer { inner: buf }
}

/// The last line of a dump of `len` bytes.
fn hexdump_summary(len: usize) -> (r: Buffer)
    ensures
        r@ == summary_line(len as nat),
{
    let mut buf: Vec<u8> = Vec::new();
    push_spaces(&mut buf, 55);
    push_hex8(&mut buf, len);
    proof {
        assert(buf@ =~= summary_line(len as nat));
    }
    Buffer { inner: buf }
}

/// The lines of a dump of `bytes`: one per chunk, then the summary.
pub open spec fn dump_lines(bytes: Seq<u8>) -> Seq<Seq<u8>> {
    Seq::new(
        num_chunks(bytes.len()),
        |i: int| chunk_line((i * CHUNK_LENGTH) as nat, chunk(bytes, i)),
    ).push(summary_line(bytes.len()))
}

/// The lines of a dump, handed out from the front or from the back.
pub struct Hexdump<'a> {
    bytes: &'a [u8],
    front: usize,
    back: usize,
    summary_done: bool,
}

impl<'a> View for Hexdump<'a> {
    type V = Seq<Seq<u8>>;

    /// The lines not handed out yet.
    closed spec fn view(&self) -> Seq<Seq<u8>> {
        Seq::new(
            (self.back - self.front) as nat,
            |j: int|
                chunk_line(
                    ((self.front + j) * CHUNK_LENGTH) as nat,
                    chunk(self.bytes@, self.front + j),
                ),
        ) + (if self.summary_done {
            Seq::empty()
        } else {
            seq![summary_line(self.bytes@.len())]
        })
    }
}

impl<'a> Hexdump<'a> {
    #[verifier::type_invariant]
    spec fn inv(self) -> bool {
        self.front <= self.back <= num_chunks(self.bytes@.len())
    }

    fn new(bytes: &'a [u8]) -> (r: Hexdump<'a>)
        ensures
            r@ == dump_lines(bytes@),
    {
        let n = bytes.len() / CHUNK_LENGTH + if bytes.len() % CHUNK_LENGTH == 0 {
            0
        } else {
            1
        };
        let r = Hexdump { bytes, front: 0, back: n, summary_done: false };
        proof {
            assert(r@ =~= dump_lines(bytes@));
        }
        r
    }

    /// The line of chunk `i`.
    fn line(&self, i: usize) -> (r: Buffer)
        requires
            i < num_chunks(self.bytes@.len()),
        ensures
            r@ == chunk_line((i * CHUNK_LENGTH) as nat, chunk(self.bytes@, i as int)),
    {
        let len = self.bytes.len();
        proof {
            assert(i * 16 < len) by (nonlinear_arith)
                requires
                    i < (len + 16 - 1) / 16,
            ;
        }
        let start = i * CHUNK_LENGTH;
        let end = if self.bytes.len() - start > CHUNK_LENGTH {
            start + CHUNK_LENGTH
        } else {
            self.bytes.len()
        };
        hexdump_chunk(i, slice_range(self.bytes, start, end))
    }

    /// The next line from the front.
    pub fn next(&mut self) -> (r: Option<Buffer>)
        ensures
            old(self)@.len() == 0 ==> r is None && final(self)@ == old(self)@,
            old(self)@.len() > 0 ==> (r matches Some(b) && b@ == old(self)@[0] && final(self)@
                == old(self)@.drop_first()),
    {
        proof {
            use_type_invariant(&*self);
        }
        if self.front < self.back {
            let line = self.line(self.front);
            self.front = self.front + 1;
            proof {
                assert(final(self)@ =~= old(self)@.drop_first());
            }
            Some(line)
        } else if !self.summary_done {
            self.summary_done = true;
            proof {
                assert(final(self)@ =~= old(self)@.drop_first());
            }
            Some(hexdump_summary(self.bytes.len()))
        } else {
            None
        }
    }

    /// The next line from the back.
    pub fn next_back(&mut self) -> (r: Option<Buffer>)
        ensures
            old(self)@.len() == 0 ==> r is None && final(self)@ == old(self)@,
            old(self)@.len() > 0 ==> (r matches Some(b) && b@ == old(self)@.last() && final(self)@
                == old(self)@.drop_last()),
    {
        proof {
            use_type_invariant(&*self);
        }
        if !self.summary_done {
            self.summary_done = true;
            proof {
                assert(final(self)@ =~= old(self)@.drop_last());
            }
            Some(hexdump_summary(self.bytes.len()))
        } else if self.front < self.back {
            self.back = self.back - 1;
            let line = self.line(self.back);
            proof {
                assert(final(self)@ =~= old(self)@.drop_last());
            }
            Some(line)
        } else {
            None
        }
    }

    /// Number of lines not handed out yet.
    pub fn len(&self) -> (r: usize)
        ensures
            r == self@.len(),
    {
        let len = self.bytes.len();
        proof {
            use_type_invariant(self);
            assert((len + 16 - 1) / 16 < usize::MAX) by (nonlinear_arith)
                requires
                    len <= usize::MAX,
                    usize::MAX >= 0xffff_ffff,
            ;
        }
        (self.back - self.front) + if self.summary_done {
            0
        } else {
            1
        }
    }
}

/// The lines of a dump of `bytes`.
pub fn hexdump_iter(bytes: &[u8]) -> (r: Hexdump)
    ensures
        r@ == dump_lines(bytes@),
{
    Hexdump::new(bytes)
}

/// 16 to the power `w`.
pub open spec fn pow16(w: nat) -> nat
    decreases w,
{
    if w == 0 {
        1
    } else {
        16 * pow16((w - 1) as nat)
    }
}

/// The number a run of lowercase hex digits stands for.
pub open spec fn hex_value(s: Seq<u8>) -> int
    decreases s.len(),
{
    if s.len() == 0 {
        0
    } else {
        let d = s.last();
        hex_value(s.drop_last()) * 16 + (if d <= 57 {
            d - 48
        } else {
            d - 87
        })
    }
}

/// A byte that a line may hold: printable ASCII.
pub open spec fn printable(b: u8) -> bool {
    0x20 <= b && b < 0x7f
}

/// A number below `16^w` is written with exactly `w` digits, all of them
/// printable, which read back as the number.
pub proof fn lemma_hex_padded(n: nat, w: nat)
    requires
        n < pow16(w),
    ensures
        hex_padded(n, w).len() == w,
        forall|i: int| 0 <= i < w ==> #[trigger] printable(hex_padded(n, w)[i]),
        hex_value(hex_padded(n, w)) == n,
    decreases w,
{
    if w == 0 {
    } else {
        let m = n / 16;
        let w1 = (w - 1) as nat;
        assert(m < pow16(w1)) by (nonlinear_arith)
            requires
                n < 16 * pow16(w1),
                m == n / 16,
        ;
        lemma_hex_padded(m, w1);
        let s = hex_padded(n, w);
        assert(s == hex_padded(m, w1).push(hex_digit((n % 16) as int)));
        assert(s.drop_last() =~= hex_padded(m, w1));
        assert forall|i: int| 0 <= i < w implies #[trigger] printable(s[i]) by {
            if i < w1 {
                assert(s[i] == hex_padded(m, w1)[i]);
            }
        }
        assert(n == m * 16 + n % 16) by (nonlinear_arith)
            requires
                m == n / 16,
        ;
    }
}

/// The hex part of a chunk is printable.
pub proof fn lemma_hex_part_printable(c: Seq<u8>)
    ensures
        forall|i: int| 0 <= i < hex_part(c).len() ==> #[trigger] printable(hex_part(c)[i]),
    decreases c.len(),
{
    if c.len() > 0 {
        let k = c.len() - 1;
        lemma_hex_part_printable(c.subrange(0, k));
        let prev = hex_part(c.subrange(0, k));
        let sep: Seq<u8> = if k > 0 && k % 4 == 0 {
            seq![32u8]
        } else {
            Seq::empty()
        };
        let h = hex_part(c);
        assert(h == prev + sep + hex_byte(c[k]));
        assert forall|i: int| 0 <= i < h.len() implies #[trigger] printable(h[i]) by {
            if i < prev.len() {
                assert(h[i] == prev[i]);
            } else if i < prev.len() + sep.len() {
                assert(h[i] == sep[i - prev.len()]);
            } else {
                assert(h[i] == hex_byte(c[k])[i - prev.len() - sep.len()]);
            }
        }
    }
}

proof fn lemma_pow16_8()
    ensures
        pow16(8) == 0x1_0000_0000,
{
    reveal_with_fuel(pow16, 9);
}

/// Chunk `i` of a dump holds between 1 and `CHUNK_LENGTH` bytes and starts
/// at byte `i * CHUNK_LENGTH`.
proof fn lemma_chunk(bytes: Seq<u8>, i: int)
    requires
        0 <= i < num_chunks(bytes.len()),
    ensures
        1 <= chunk(bytes, i).len() <= CHUNK_LENGTH,
        i * CHUNK_LENGTH < bytes.len(),
        forall|j: int|
            0 <= j < chunk(bytes, i).len() ==> #[trigger] chunk(bytes, i)[j] == bytes[i
                * CHUNK_LENGTH + j],
{
    let len = bytes.len();
    assert(i * 16 < len) by (nonlinear_arith)
        requires
            0 <= i < (len + 16 - 1) / 16,
    ;
}

/// Every line of the dump of fewer than `2^32` bytes is `LINE_LENGTH`
/// bytes long and consists of printable ASCII.
pub proof fn lemma_lines_uniform(bytes: Seq<u8>)
    requires
        bytes.len() < 0x1_0000_0000,
    ensures
        forall|k: int|
            0 <= k < dump_lines(bytes).len() ==> #[trigger] dump_lines(bytes)[k].len() == LINE_LENGTH,
        forall|k: int, i: int|
            0 <= k < dump_lines(bytes).len() && 0 <= i < dump_lines(bytes)[k].len() ==> printable(
                #[trigger] dump_lines(bytes)[k][i],
            ),
{
    lemma_pow16_8();
    let lines = dump_lines(bytes);
    let n = num_chunks(bytes.len());
    assert forall|k: int| 0 <= k < lines.len() implies #[trigger] lines[k].len() == LINE_LENGTH
        && forall|i: int| 0 <= i < lines[k].len() ==> printable(#[trigger] lines[k][i]) by {
        if k < n {
            let c = chunk(bytes, k);
            lemma_chunk(bytes, k);
            lemma_hex_part_len(c);
            lemma_hex_part_printable(c);
            let offset = (k * CHUNK_LENGTH) as nat;
            lemma_hex_padded(offset, 8);
            let h = hex_part(c);
            let line = chunk_line(offset, c);
            assert(lines[k] == line);
            let a = seq![0x7cu8] + h + seq![0x7cu8, 32u8];
            let b = a + spaces((HEX_AREA_LENGTH - h.len()) as nat);
            let d = b + shown_part(c);
            let e = d + spaces((CHUNK_LENGTH - c.len()) as nat) + seq![32u8];
            assert(line == e + hex_padded(offset, 8));
            assert forall|i: int| 0 <= i < line.len() implies printable(#[trigger] line[i]) by {
                if i < e.len() {
                    assert(line[i] == e[i]);
                    if i < d.len() {
                        assert(e[i] == d[i]);
                        if i < b.len() {
                            assert(d[i] == b[i]);
                            if i < a.len() {
                                assert(b[i] == a[i]);
                                if 1 <= i < 1 + h.len() {
                                    assert(a[i] == h[i - 1]);
                                }
                            }
                        } else {
                            assert(d[i] == shown_part(c)[i - b.len()]);
                        }
                    }
                } else {
                    assert(line[i] == hex_padded(offset, 8)[i - e.len()]);
                }
            }
        } else {
            lemma_hex_padded(bytes.len(), 8);
            assert(lines[k] == summary_line(bytes.len()));
            let line = summary_line(bytes.len());
            assert forall|i: int| 0 <= i < line.len() implies printable(#[trigger] line[i]) by {
                if i >= 55 {
                    assert(line[i] == hex_padded(bytes.len(), 8)[i - 55]);
                }
            }
        }
    }
}

/// The last line of a dump of fewer than `2^32` bytes is spaces followed by
/// the length in hex.
pub proof fn lemma_summary(bytes: Seq<u8>)
    requires
        bytes.len() < 0x1_0000_0000,
    ensures
        dump_lines(bytes).last() == spaces(55) + dump_lines(bytes).last().subrange(55, 63),
        hex_value(dump_lines(bytes).last().subrange(55, 63)) == bytes.len(),
{
    lemma_pow16_8();
    lemma_hex_padded(bytes.len(), 8);
    let line = summary_line(bytes.len());
    assert(dump_lines(bytes).last() == line);
    assert(line.subrange(55, 63) =~= hex_padded(bytes.len(), 8));
    assert(line =~= spaces(55) + line.subrange(55, 63));
}

/// Every printable byte of the input shows in the line of its chunk.
pub proof fn lemma_bytes_shown(bytes: Seq<u8>, i: int)
    requires
        0 <= i < bytes.len(),
        printable(bytes[i]),
    ensures
        i / (CHUNK_LENGTH as int) < dump_lines(bytes).len() - 1,
        dump_lines(bytes)[i / (CHUNK_LENGTH as int)][38 + i % (CHUNK_LENGTH as int)] == bytes[i],
{
    let k = i / 16;
    let j = i % 16;
    let len = bytes.len();
    assert(k < (len + 16 - 1) / 16 && k * 16 + j == i) by (nonlinear_arith)
        requires
            0 <= i < len,
            k == i / 16,
            j == i % 16,
    ;
    let c = chunk(bytes, k);
    lemma_chunk(bytes, k);
    lemma_hex_part_len(c);
    assert(j < c.len());
    assert(c[j] == bytes[i]);
    let offset = (k * CHUNK_LENGTH) as nat;
    let h = hex_part(c);
    let line = chunk_line(offset, c);
    assert(dump_lines(bytes)[k] == line);
    let b = seq![0x7cu8] + h + seq![0x7cu8, 32u8] + spaces((HEX_AREA_LENGTH - h.len()) as nat);
    assert(b.len() == 38);
    let d = b + shown_part(c);
    assert(line[38 + j] == d[38 + j]);
    assert(d[38 + j] == shown_part(c)[j]);
}

} // verus!
