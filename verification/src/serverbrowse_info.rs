//! Reading the information a game server sends about itself and its
//! players: text fields are UTF-8, cut to their room at a character
//! boundary; numbers are decimal text (0.5 and 0.6) or packed integers
//! (0.7).
use vstd::prelude::*;
use crate::packer::{Unpacker, Warning, first_nul, int_len, int_value};
use crate::serverbrowse::{
    Info5Response, Info6DdperResponse, Info664Response, Info6ExMoreResponse, Info6ExResponse,
    Info6Response, Info7Response, MergeError, ServerInfoVersion,
};
use crate::stats_browser::{
    NameOrder, compare_names, flip_order, lemma_name_order_equal, lemma_name_order_flip,
    lemma_name_order_trans, name_order,
};

verus! {

// ---------------------------------------------------------------------------
// UTF-8.

/// `b` continues a UTF-8 character.
pub open spec fn is_cont(b: u8) -> bool {
    0x80 <= b <= 0xbf
}

/// The length of the UTF-8 character at position `i` of `s`, where a valid
/// one starts there: no overlong forms, no surrogates, nothing above
/// U+10FFFF.
pub open spec fn utf8_char_len(s: Seq<u8>, i: int) -> Option<int> {
    let n = s.len() - i;
    let b0 = s[i];
    if n <= 0 {
        None
    } else if b0 <= 0x7f {
        Some(1)
    } else if 0xc2 <= b0 <= 0xdf {
        if n >= 2 && is_cont(s[i + 1]) {
            Some(2)
        } else {
            None
        }
    } else if 0xe0 <= b0 <= 0xef {
        let lo: u8 = if b0 == 0xe0 {
            0xa0
        } else {
            0x80
        };
        let hi: u8 = if b0 == 0xed {
            0x9f
        } else {
            0xbf
        };
        if n >= 3 && lo <= s[i + 1] <= hi && is_cont(s[i + 2]) {
            Some(3)
        } else {
            None
        }
    } else if 0xf0 <= b0 <= 0xf4 {
        let lo: u8 = if b0 == 0xf0 {
            0x90
        } else {
            0x80
        };
        let hi: u8 = if b0 == 0xf4 {
            0x8f
        } else {
            0xbf
        };
        if n >= 4 && lo <= s[i + 1] <= hi && is_cont(s[i + 2]) && is_cont(s[i + 3]) {
            Some(4)
        } else {
            None
        }
    } else {
        None
    }
}

/// The bytes of `s` from position `i` on are valid UTF-8.
pub open spec fn utf8_from(s: Seq<u8>, i: int) -> bool
    decreases s.len() - i,
{
    if i >= s.len() {
        true
    } else {
        match utf8_char_len(s, i) {
            Some(l) => l > 0 && utf8_from(s, i + l),
            None => false,
        }
    }
}

/// `s` is valid UTF-8.
pub open spec fn utf8_valid(s: Seq<u8>) -> bool {
    utf8_from(s, 0)
}

/// The length of the UTF-8 character at position `i` of `s`, if a valid one
/// starts there.
fn char_len(s: &[u8], i: usize) -> (r: Option<usize>)
    requires
        i < s@.len(),
    ensures
        r == (match utf8_char_len(s@, i as int) {
            Some(l) => Some(l as usize),
            None => None,
        }),
{
    let n = s.len() - i;
    let b0 = s[i];
    if b0 <= 0x7f {
        Some(1)
    } else if 0xc2 <= b0 && b0 <= 0xdf {
        if n >= 2 && 0x80 <= s[i + 1] && s[i + 1] <= 0xbf {
            Some(2)
        } else {
            None
        }
    } else if 0xe0 <= b0 && b0 <= 0xef {
        let lo: u8 = if b0 == 0xe0 {
            0xa0
        } else {
            0x80
        };
        let hi: u8 = if b0 == 0xed {
            0x9f
        } else {
            0xbf
        };
        if n >= 3 && lo <= s[i + 1] && s[i + 1] <= hi && 0x80 <= s[i + 2] && s[i + 2] <= 0xbf {
            Some(3)
        } else {
            None
        }
    } else if 0xf0 <= b0 && b0 <= 0xf4 {
        let lo: u8 = if b0 == 0xf0 {
            0x90
        } else {
            0x80
        };
        let hi: u8 = if b0 == 0xf4 {
            0x8f
        } else {
            0xbf
        };
        if n >= 4 && lo <= s[i + 1] && s[i + 1] <= hi && 0x80 <= s[i + 2] && s[i + 2] <= 0xbf && 0x80
            <= s[i + 3] && s[i + 3] <= 0xbf {
            Some(4)
        } else {
            None
        }
    } else {
        None
    }
}

/// Whether `s` is valid UTF-8.
pub fn is_utf8(s: &[u8]) -> (r: bool)
    ensures
        r == utf8_valid(s@),
{
    let mut i: usize = 0;
    while i < s.len()
        invariant
            i <= s@.len(),
            utf8_valid(s@) == utf8_from(s@, i as int),
        decreases s.len() - i,
    {
        match char_len(s, i) {
            Some(l) => {
                i = i + l;
            },
            None => {
                return false;
            },
        }
    }
    true
}

/// Text `s`, cut at a character boundary to at most `cap` bytes.
pub open spec fn truncated_text(s: Seq<u8>, cap: int) -> Seq<u8> {
    let k = boundary_at_most(s, cap);
    s.subrange(0, k)
}

/// The last character boundary of `s` at or before `cap`: a position that
/// is the end of `s` or does not hold a continuation byte.
pub open spec fn boundary_at_most(s: Seq<u8>, cap: int) -> int
    decreases cap,
{
    if cap >= s.len() {
        s.len() as int
    } else if cap <= 0 {
        0
    } else if !is_cont(s[cap]) {
        cap
    } else {
        boundary_at_most(s, cap - 1)
    }
}

/// Cuts the text `s` to at most `cap` bytes at a character boundary.
pub fn truncate_text(s: &[u8], cap: usize) -> (r: Vec<u8>)
    ensures
        r@ == truncated_text(s@, cap as int),
{
    let mut k: usize = if cap >= s.len() {
        s.len()
    } else {
        cap
    };
    while k > 0 && k < s.len() && 0x80 <= s[k] && s[k] <= 0xbf
        invariant
            k <= s@.len(),
            k <= cap || k == s@.len(),
            boundary_at_most(s@, cap as int) == boundary_at_most(s@, k as int),
        decreases k,
    {
        k = k - 1;
    }
    let mut r: Vec<u8> = Vec::new();
    let mut i: usize = 0;
    while i < k
        invariant
            i <= k,
            k <= s@.len(),
            r@ == s@.subrange(0, i as int),
        decreases k - i,
    {
        r.push(s[i]);
        i = i + 1;
        assert(r@ =~= s@.subrange(0, i as int));
    }
    r
}

// ---------------------------------------------------------------------------
// Decimal numbers.

/// The value of the decimal digits `s`.
pub open spec fn digits_value(s: Seq<u8>) -> int
    decreases s.len(),
{
    if s.len() == 0 {
        0
    } else {
        digits_value(s.drop_last()) * 10 + (s.last() - 0x30)
    }
}

/// All bytes of `s` are decimal digits.
pub open spec fn all_digits(s: Seq<u8>) -> bool {
    forall|i: int| 0 <= i < s.len() ==> 0x30 <= #[trigger] s[i] <= 0x39
}

/// The 32-bit integer the decimal text `s` denotes: an optional sign, then
/// at least one digit and nothing else, within range.
pub open spec fn parse_i32(s: Seq<u8>) -> Option<i32> {
    let neg = s.len() > 0 && s[0] == 0x2d;
    let signed = s.len() > 0 && (s[0] == 0x2d || s[0] == 0x2b);
    let digits = if signed {
        s.drop_first()
    } else {
        s
    };
    let v = if neg {
        -digits_value(digits)
    } else {
        digits_value(digits)
    };
    if digits.len() > 0 && all_digits(digits) && i32::MIN <= v <= i32::MAX {
        Some(v as i32)
    } else {
        None
    }
}

proof fn lemma_digits_nonneg(s: Seq<u8>)
    requires
        all_digits(s),
    ensures
        digits_value(s) >= 0,
    decreases s.len(),
{
    if s.len() > 0 {
        assert(all_digits(s.drop_last()));
        lemma_digits_nonneg(s.drop_last());
        assert(0x30 <= s[s.len() - 1]);
    }
}

/// Parses the decimal text `s`.
pub fn parse_decimal(s: &[u8]) -> (r: Option<i32>)
    ensures
        r == parse_i32(s@),
{
    if s.len() == 0 {
        return None;
    }
    let neg = s[0] == 0x2d;
    let start: usize = if s[0] == 0x2d || s[0] == 0x2b {
        1
    } else {
        0
    };
    if start == s.len() {
        return None;
    }
    let ghost digits = s@.subrange(start as int, s@.len() as int);
    assert(digits == if start == 1 { s@.drop_first() } else { s@ });
    let mut acc: i64 = 0;
    let mut big = false;
    let mut i: usize = start;
    while i < s.len()
        invariant
            s@.len() > 0,
            neg == (s@[0] == 0x2d),
            start == (if s@[0] == 0x2d || s@[0] == 0x2b { 1usize } else { 0usize }),
            digits == (if s@[0] == 0x2d || s@[0] == 0x2b { s@.drop_first() } else { s@ }),
            start <= i <= s@.len(),
            digits == s@.subrange(start as int, s@.len() as int),
            all_digits(s@.subrange(start as int, i as int)),
            !big ==> acc == digits_value(s@.subrange(start as int, i as int)) && 0 <= acc <= 0x8000_0000,
            big ==> digits_value(s@.subrange(start as int, i as int)) > 0x8000_0000,
        decreases s.len() - i,
    {
        let b = s[i];
        if b < 0x30 || b > 0x39 {
            proof {
                assert(digits[i - start] == b);
                assert(!all_digits(digits));
            }
            return None;
        }
        proof {
            let p = s@.subrange(start as int, i as int);
            let q = s@.subrange(start as int, i + 1);
            assert(q.drop_last() =~= p);
            assert(q.last() == b);
            assert(all_digits(q));
            lemma_digits_nonneg(p);
        }
        if !big {
            let next = acc * 10 + (b - 0x30) as i64;
            if next > 0x8000_0000 {
                big = true;
            } else {
                acc = next;
            }
        }
        i = i + 1;
    }
    proof {
        assert(s@.subrange(start as int, i as int) =~= digits);
    }
    if big {
        return None;
    }
    if neg {
        Some((-acc) as i32)
    } else if acc > 0x7fff_ffff {
        None
    } else {
        Some(acc as i32)
    }
}

// ---------------------------------------------------------------------------
// Reading fields.

/// A text field at the front of `s`: the bytes up to the first NUL, which
/// must be UTF-8, and what follows the NUL.
pub open spec fn read_text(s: Seq<u8>) -> Option<(Seq<u8>, Seq<u8>)> {
    match first_nul(s) {
        Some(i) => if utf8_valid(s.subrange(0, i)) {
            Some((s.subrange(0, i), s.subrange(i + 1, s.len() as int)))
        } else {
            None
        },
        None => None,
    }
}

/// A number field at the front of `s`: a packed integer (`packed`) or
/// decimal text ended by a NUL; and what follows it.
pub open spec fn read_number(s: Seq<u8>, packed: bool) -> Option<(i32, Seq<u8>)> {
    if packed {
        if s.len() >= int_len(s) {
            Some((int_value(s) as i32, s.subrange(int_len(s), s.len() as int)))
        } else {
            None
        }
    } else {
        match first_nul(s) {
            Some(i) => match parse_i32(s.subrange(0, i)) {
                Some(v) => Some((v, s.subrange(i + 1, s.len() as int))),
                None => None,
            },
            None => None,
        }
    }
}

/// The kind of a field of a server info.
#[derive(Clone, Copy, Debug, PartialEq, Eq, Structural)]
pub enum FieldKind {
    Text,
    Number,
}

/// A field that was read.
#[derive(Clone, Copy, Debug)]
pub enum Field<'a> {
    Text(&'a [u8]),
    Number(i32),
}

/// A field that was read, as a value.
pub enum FieldView {
    Text(Seq<u8>),
    Number(i32),
}

impl<'a> View for Field<'a> {
    type V = FieldView;

    open spec fn view(&self) -> FieldView {
        match *self {
            Field::Text(t) => FieldView::Text(t@),
            Field::Number(n) => FieldView::Number(n),
        }
    }
}

/// The value of an optional field.
pub open spec fn slot_view<'a>(f: Option<Field<'a>>) -> Option<FieldView> {
    match f {
        Some(f) => Some(f@),
        None => None,
    }
}

/// The values of a row of optional fields.
pub open spec fn slots_view<'a>(v: Seq<Option<Field<'a>>>) -> Seq<Option<FieldView>> {
    v.map_values(|f: Option<Field<'a>>| slot_view(f))
}

/// Reads the field of kind `kind` at the front of `s`, or nothing where the
/// field is absent (`None`).
pub open spec fn read_slot(s: Seq<u8>, kind: Option<FieldKind>, packed: bool) -> Option<
    (Option<FieldView>, Seq<u8>),
> {
    match kind {
        None => Some((None, s)),
        Some(FieldKind::Text) => match read_text(s) {
            Some((t, rest)) => Some((Some(FieldView::Text(t)), rest)),
            None => None,
        },
        Some(FieldKind::Number) => match read_number(s, packed) {
            Some((n, rest)) => Some((Some(FieldView::Number(n)), rest)),
            None => None,
        },
    }
}

/// Reads the first `n` slots of the layout `table` from the front of `s`,
/// one after the other; fails where one of them fails.
pub open spec fn read_slots(
    s: Seq<u8>,
    table: spec_fn(int) -> Option<FieldKind>,
    packed: bool,
    n: int,
) -> Option<(Seq<Option<FieldView>>, Seq<u8>)>
    decreases n,
{
    if n <= 0 {
        Some((Seq::empty(), s))
    } else {
        match read_slots(s, table, packed, n - 1) {
            Some((vals, rest)) => match read_slot(rest, table(n - 1), packed) {
                Some((v, rest2)) => Some((vals.push(v), rest2)),
                None => None,
            },
            None => None,
        }
    }
}

/// What is left after a read is a suffix of what was there.
pub open spec fn is_suffix(rest: Seq<u8>, s: Seq<u8>) -> bool {
    rest.len() <= s.len() && rest == s.subrange(s.len() - rest.len(), s.len() as int)
}

proof fn lemma_suffix_trans(a: Seq<u8>, b: Seq<u8>, c: Seq<u8>)
    requires
        is_suffix(a, b),
        is_suffix(b, c),
    ensures
        is_suffix(a, c),
{
    assert(a =~= c.subrange(c.len() - a.len(), c.len() as int));
}

proof fn lemma_read_slot_suffix(s: Seq<u8>, kind: Option<FieldKind>, packed: bool)
    ensures
        read_slot(s, kind, packed) matches Some((_, rest)) ==> is_suffix(rest, s),
        read_text(s) matches Some((_, rest)) ==> is_suffix(rest, s) && rest.len() < s.len(),
{
    assert(s.subrange(0, s.len() as int) =~= s);
    if let Some(i) = first_nul(s) {
        crate::packer::lemma_first_nul_exists(s);
        let rest = s.subrange(i + 1, s.len() as int);
        assert(rest =~= s.subrange(s.len() - rest.len(), s.len() as int));
    }
    if packed && s.len() >= int_len(s) {
        let rest = s.subrange(int_len(s), s.len() as int);
        assert(rest =~= s.subrange(s.len() - rest.len(), s.len() as int));
    }
}

proof fn lemma_read_slots_suffix(
    s: Seq<u8>,
    table: spec_fn(int) -> Option<FieldKind>,
    packed: bool,
    n: int,
)
    ensures
        read_slots(s, table, packed, n) matches Some((vals, rest)) ==> is_suffix(rest, s)
            && vals.len() == (if n <= 0 { 0 } else { n }),
    decreases n,
{
    if n <= 0 {
        assert(s.subrange(0, s.len() as int) =~= s);
    } else {
        lemma_read_slots_suffix(s, table, packed, n - 1);
        if let Some((vals, rest)) = read_slots(s, table, packed, n - 1) {
            lemma_read_slot_suffix(rest, table(n - 1), packed);
            if let Some((v, rest2)) = read_slot(rest, table(n - 1), packed) {
                lemma_suffix_trans(rest2, rest, s);
            }
        }
    }
}

/// Reads a text field.
fn read_text_field<'a>(u: &mut Unpacker<'a>) -> (r: Option<&'a [u8]>)
    ensures
        match read_text(old(u)@) {
            Some((t, rest)) => r matches Some(x) && x@ == t && final(u)@ == rest,
            None => r is None,
        },
{
    match u.read_string() {
        Ok(s) => if is_utf8(s) {
            Some(s)
        } else {
            None
        },
        Err(_) => None,
    }
}

/// Reads a number field.
fn read_number_field<'a>(u: &mut Unpacker<'a>, packed: bool) -> (r: Option<i32>)
    ensures
        match read_number(old(u)@, packed) {
            Some((n, rest)) => r == Some(n) && final(u)@ == rest,
            None => r is None,
        },
{
    if packed {
        let mut ignored: Vec<Warning> = Vec::new();
        match u.read_int(&mut ignored) {
            Ok(v) => Some(v),
            Err(_) => None,
        }
    } else {
        match u.read_string() {
            Ok(s) => parse_decimal(s),
            Err(_) => None,
        }
    }
}

/// Reads the field of kind `kind`, or nothing where it is absent.
fn read_slot_field<'a>(u: &mut Unpacker<'a>, kind: Option<FieldKind>, packed: bool) -> (r: Option<
    Option<Field<'a>>,
>)
    ensures
        match read_slot(old(u)@, kind, packed) {
            Some((v, rest)) => r matches Some(f) && slot_view(f) == v && final(u)@ == rest,
            None => r is None,
        },
{
    match kind {
        None => Some(None),
        Some(FieldKind::Text) => match read_text_field(u) {
            Some(t) => Some(Some(Field::Text(t))),
            None => None,
        },
        Some(FieldKind::Number) => match read_number_field(u, packed) {
            Some(n) => Some(Some(Field::Number(n))),
            None => None,
        },
    }
}

/// Where reading a row fails part way, the whole row fails.
proof fn lemma_read_slots_fail(
    s: Seq<u8>,
    table: spec_fn(int) -> Option<FieldKind>,
    packed: bool,
    a: int,
    b: int,
)
    requires
        a <= b,
        read_slots(s, table, packed, a) is None,
    ensures
        read_slots(s, table, packed, b) is None,
    decreases b - a,
{
    if a < b {
        lemma_read_slots_fail(s, table, packed, a, b - 1);
    }
}

/// Reads a row of fields of the kinds `kinds`, which is the layout `table`.
fn read_row<'a>(
    u: &mut Unpacker<'a>,
    kinds: &[Option<FieldKind>],
    Ghost(table): Ghost<spec_fn(int) -> Option<FieldKind>>,
    packed: bool,
) -> (r: Option<Vec<Option<Field<'a>>>>)
    requires
        forall|k: int| 0 <= k < kinds@.len() ==> kinds@[k] == table(k),
    ensures
        match read_slots(old(u)@, table, packed, kinds@.len() as int) {
            Some((vals, rest)) => r matches Some(v) && slots_view(v@) == vals && final(u)@ == rest,
            None => r is None,
        },
{
    let ghost s0 = u@;
    let mut vals: Vec<Option<Field<'a>>> = Vec::new();
    let mut k: usize = 0;
    while k < kinds.len()
        invariant
            k <= kinds@.len(),
            forall|i: int| 0 <= i < kinds@.len() ==> kinds@[i] == table(i),
            read_slots(s0, table, packed, k as int) == Some((slots_view(vals@), u@)),
            s0 == old(u)@,
        decreases kinds.len() - k,
    {
        let ghost before = vals@;
        let ghost ub = u@;
        match read_slot_field(u, kinds[k], packed) {
            Some(f) => {
                vals.push(f);
                proof {
                    assert(slots_view(vals@) =~= slots_view(before).push(slot_view(f)));
                }
            },
            None => {
                proof {
                    assert(read_slot(ub, table(k as int), packed) is None);
                    assert(read_slots(s0, table, packed, k + 1) is None);
                    lemma_read_slots_fail(s0, table, packed, k + 1, kinds@.len() as int);
                    assert(read_slots(s0, table, packed, kinds@.len() as int) is None);
                    assert(s0 == old(u)@);
                }
                return None;
            },
        }
        k = k + 1;
    }
    Some(vals)
}

// ---------------------------------------------------------------------------
// Server infos.

/// The version a server info was received in: a complete one of a given
/// version, or a continuation of an extended 0.6 one.
#[derive(Clone, Copy, Debug, PartialEq, Eq, Structural)]
pub enum ReceivedServerInfoVersion {
    Normal(ServerInfoVersion),
    V6ExMore,
}

/// The version of the info a received part belongs to.
pub open spec fn version_of(rv: ReceivedServerInfoVersion) -> ServerInfoVersion {
    match rv {
        ReceivedServerInfoVersion::Normal(n) => n,
        ReceivedServerInfoVersion::V6ExMore => ServerInfoVersion::V6Ex,
    }
}

impl ReceivedServerInfoVersion {
    /// The version of the info this part belongs to.
    pub fn version(self) -> (r: ServerInfoVersion)
        ensures
            r == version_of(self),
    {
        match self {
            ReceivedServerInfoVersion::Normal(n) => n,
            ReceivedServerInfoVersion::V6ExMore => ServerInfoVersion::V6Ex,
        }
    }

    /// Whether this part starts an info.
    pub fn is_normal(self) -> (r: bool)
        ensures
            r == (self is Normal),
    {
        match self {
            ReceivedServerInfoVersion::Normal(_) => true,
            _ => false,
        }
    }
}

/// Players have a clan, a country and a spectator flag.
pub open spec fn extended_players(v: ServerInfoVersion) -> bool {
    v.order() >= ServerInfoVersion::V6.order()
}

/// The layout of the start of a server info, by slot:
/// 0 token, 1 packet number, 2 version, 3 name, 4 host name, 5 map,
/// 6 map CRC, 7 map size, 8 game type, 9 flags, 10 progression,
/// 11 skill level, 12 players, 13 player slots, 14 clients,
/// 15 client slots, 16 offset, 17 extra info.
/// A slot that a version does not have is `None`; a continuation has only
/// the token, the packet number and the extra info.
pub open spec fn header_slot(rv: ReceivedServerInfoVersion, k: int) -> Option<FieldKind> {
    let normal = rv is Normal;
    let v = version_of(rv);
    if k == 0 {
        Some(FieldKind::Number)
    } else if k == 1 {
        if normal {
            None
        } else {
            Some(FieldKind::Number)
        }
    } else if k == 17 {
        if v == ServerInfoVersion::V6Ex {
            Some(FieldKind::Text)
        } else {
            None
        }
    } else if !normal {
        None
    } else if k == 2 || k == 3 || k == 5 || k == 8 {
        Some(FieldKind::Text)
    } else if k == 4 {
        if v == ServerInfoVersion::V7 {
            Some(FieldKind::Text)
        } else {
            None
        }
    } else if k == 6 || k == 7 {
        if v == ServerInfoVersion::V6Ex {
            Some(FieldKind::Number)
        } else {
            None
        }
    } else if k == 9 || k == 12 || k == 13 {
        Some(FieldKind::Number)
    } else if k == 10 {
        if v == ServerInfoVersion::V5 {
            Some(FieldKind::Number)
        } else {
            None
        }
    } else if k == 11 {
        if v == ServerInfoVersion::V7 {
            Some(FieldKind::Number)
        } else {
            None
        }
    } else if k == 14 || k == 15 {
        if extended_players(v) {
            Some(FieldKind::Number)
        } else {
            None
        }
    } else if k == 16 {
        if v == ServerInfoVersion::V664 {
            Some(FieldKind::Number)
        } else {
            None
        }
    } else {
        None
    }
}

/// The layout of the start of a server info, as a table.
pub open spec fn header_table(rv: ReceivedServerInfoVersion) -> spec_fn(int) -> Option<FieldKind> {
    |k: int| header_slot(rv, k)
}

/// The layout of a player entry after the name, by slot:
/// 0 clan, 1 country, 2 score, 3 flags or "is player", 4 extra info.
pub open spec fn client_slot(v: ServerInfoVersion, k: int) -> Option<FieldKind> {
    if k == 0 {
        if extended_players(v) {
            Some(FieldKind::Text)
        } else {
            None
        }
    } else if k == 1 || k == 3 {
        if extended_players(v) {
            Some(FieldKind::Number)
        } else {
            None
        }
    } else if k == 2 {
        Some(FieldKind::Number)
    } else if k == 4 {
        if v == ServerInfoVersion::V6Ex {
            Some(FieldKind::Text)
        } else {
            None
        }
    } else {
        None
    }
}

/// The layout of a player entry after the name, as a table.
pub open spec fn client_table(v: ServerInfoVersion) -> spec_fn(int) -> Option<FieldKind> {
    |k: int| client_slot(v, k)
}

/// The number in slot `k`, or 0.
pub open spec fn num_at(vals: Seq<Option<FieldView>>, k: int) -> i32 {
    match vals[k] {
        Some(FieldView::Number(n)) => n,
        _ => 0,
    }
}

/// The text in slot `k`, or nothing.
pub open spec fn text_at(vals: Seq<Option<FieldView>>, k: int) -> Seq<u8> {
    match vals[k] {
        Some(FieldView::Text(t)) => t,
        _ => Seq::empty(),
    }
}

/// The layout of the start of a server info.
fn header_kinds(rv: ReceivedServerInfoVersion) -> (r: Vec<Option<FieldKind>>)
    ensures
        r@.len() == 18,
        forall|k: int| 0 <= k < 18 ==> r@[k] == header_slot(rv, k),
{
    let mut r: Vec<Option<FieldKind>> = Vec::new();
    let mut k: usize = 0;
    while k < 18
        invariant
            k <= 18,
            r@.len() == k,
            forall|i: int| 0 <= i < k ==> r@[i] == header_slot(rv, i),
        decreases 18 - k,
    {
        r.push(header_slot_kind(rv, k));
        k = k + 1;
    }
    r
}

fn header_slot_kind(rv: ReceivedServerInfoVersion, k: usize) -> (r: Option<FieldKind>)
    ensures
        r == header_slot(rv, k as int),
{
    let normal = rv.is_normal();
    let v = rv.version();
    let ext = match v {
        ServerInfoVersion::V5 => false,
        _ => true,
    };
    if k == 0 {
        Some(FieldKind::Number)
    } else if k == 1 {
        if normal {
            None
        } else {
            Some(FieldKind::Number)
        }
    } else if k == 17 {
        if v == ServerInfoVersion::V6Ex {
            Some(FieldKind::Text)
        } else {
            None
        }
    } else if !normal {
        None
    } else if k == 2 || k == 3 || k == 5 || k == 8 {
        Some(FieldKind::Text)
    } else if k == 4 {
        if v == ServerInfoVersion::V7 {
            Some(FieldKind::Text)
        } else {
            None
        }
    } else if k == 6 || k == 7 {
        if v == ServerInfoVersion::V6Ex {
            Some(FieldKind::Number)
        } else {
            None
        }
    } else if k == 9 || k == 12 || k == 13 {
        Some(FieldKind::Number)
    } else if k == 10 {
        if v == ServerInfoVersion::V5 {
            Some(FieldKind::Number)
        } else {
            None
        }
    } else if k == 11 {
        if v == ServerInfoVersion::V7 {
            Some(FieldKind::Number)
        } else {
            None
        }
    } else if k == 14 || k == 15 {
        if ext {
            Some(FieldKind::Number)
        } else {
            None
        }
    } else if k == 16 {
        if v == ServerInfoVersion::V664 {
            Some(FieldKind::Number)
        } else {
            None
        }
    } else {
        None
    }
}

/// The layout of a player entry after the name.
fn client_kinds(v: ServerInfoVersion) -> (r: Vec<Option<FieldKind>>)
    ensures
        r@.len() == 5,
        forall|k: int| 0 <= k < 5 ==> r@[k] == client_slot(v, k),
{
    let ext = match v {
        ServerInfoVersion::V5 => false,
        _ => true,
    };
    let clan = if ext {
        Some(FieldKind::Text)
    } else {
        None
    };
    let num = if ext {
        Some(FieldKind::Number)
    } else {
        None
    };
    let extra = if v == ServerInfoVersion::V6Ex {
        Some(FieldKind::Text)
    } else {
        None
    };
    let r = vec![clan, num, Some(FieldKind::Number), num, extra];
    assert(r@.len() == 5);
    r
}

/// The number in slot `k`, or 0.
fn num_field(vals: &Vec<Option<Field>>, k: usize) -> (r: i32)
    requires
        k < vals@.len(),
    ensures
        r == num_at(slots_view(vals@), k as int),
{
    match vals[k] {
        Some(Field::Number(n)) => n,
        _ => 0,
    }
}

/// The text in slot `k`, or nothing.
fn text_field<'a>(vals: &Vec<Option<Field<'a>>>, k: usize) -> (r: &'a [u8])
    requires
        k < vals@.len(),
    ensures
        r@ == text_at(slots_view(vals@), k as int),
{
    match vals[k] {
        Some(Field::Text(t)) => t,
        _ => {
            let e: &'a [u8] = &[];
            assert(e@ =~= Seq::<u8>::empty());
            e
        },
    }
}

/// A player of a server.
#[derive(Clone, Debug, PartialEq, Eq, Hash)]
pub struct ClientInfo {
    pub name: Vec<u8>,
    pub clan: Vec<u8>,
    pub country: i32,
    pub score: i32,
    pub flags: i32,
}

/// A player of a server, as a value.
#[verifier::ext_equal]
pub struct ClientInfoView {
    pub name: Seq<u8>,
    pub clan: Seq<u8>,
    pub country: i32,
    pub score: i32,
    pub flags: i32,
}

impl View for ClientInfo {
    type V = ClientInfoView;

    open spec fn view(&self) -> ClientInfoView {
        ClientInfoView {
            name: self.name@,
            clan: self.clan@,
            country: self.country,
            score: self.score,
            flags: self.flags,
        }
    }
}

/// The players of a list, as values.
pub open spec fn clients_view(s: Seq<ClientInfo>) -> Seq<ClientInfoView> {
    s.map_values(|c: ClientInfo| c@)
}

/// What a game server says about itself and its players.
#[derive(Clone, Debug, PartialEq, Eq, Hash)]
pub struct ServerInfo {
    pub info_version: ServerInfoVersion,
    pub token: i32,
    pub version: Vec<u8>,
    pub name: Vec<u8>,
    pub hostname: Option<Vec<u8>>,
    pub map: Vec<u8>,
    pub map_crc: Option<u32>,
    pub map_size: Option<u32>,
    pub game_type: Vec<u8>,
    pub flags: i32,
    pub progression: Option<i32>,
    pub skill_level: Option<i32>,
    pub num_players: i32,
    pub max_players: i32,
    pub num_clients: i32,
    pub max_clients: i32,
    pub clients: Vec<ClientInfo>,
}

/// What a game server says about itself, as a value.
#[verifier::ext_equal]
pub struct ServerInfoView {
    pub info_version: ServerInfoVersion,
    pub token: i32,
    pub version: Seq<u8>,
    pub name: Seq<u8>,
    pub hostname: Option<Seq<u8>>,
    pub map: Seq<u8>,
    pub map_crc: Option<u32>,
    pub map_size: Option<u32>,
    pub game_type: Seq<u8>,
    pub flags: i32,
    pub progression: Option<i32>,
    pub skill_level: Option<i32>,
    pub num_players: i32,
    pub max_players: i32,
    pub num_clients: i32,
    pub max_clients: i32,
    pub clients: Seq<ClientInfoView>,
}

impl ServerInfoView {
    /// The same info with the players `c`.
    pub open spec fn with_clients(self, c: Seq<ClientInfoView>) -> ServerInfoView {
        ServerInfoView {
            info_version: self.info_version,
            token: self.token,
            version: self.version,
            name: self.name,
            hostname: self.hostname,
            map: self.map,
            map_crc: self.map_crc,
            map_size: self.map_size,
            game_type: self.game_type,
            flags: self.flags,
            progression: self.progression,
            skill_level: self.skill_level,
            num_players: self.num_players,
            max_players: self.max_players,
            num_clients: self.num_clients,
            max_clients: self.max_clients,
            clients: c,
        }
    }
}

/// An optional text as a value.
pub open spec fn opt_text_view(t: Option<Vec<u8>>) -> Option<Seq<u8>> {
    match t {
        Some(t) => Some(t@),
        None => None,
    }
}

impl View for ServerInfo {
    type V = ServerInfoView;

    open spec fn view(&self) -> ServerInfoView {
        ServerInfoView {
            info_version: self.info_version,
            token: self.token,
            version: self.version@,
            name: self.name@,
            hostname: opt_text_view(self.hostname),
            map: self.map@,
            map_crc: self.map_crc,
            map_size: self.map_size,
            game_type: self.game_type@,
            flags: self.flags,
            progression: self.progression,
            skill_level: self.skill_level,
            num_players: self.num_players,
            max_players: self.max_players,
            num_clients: self.num_clients,
            max_clients: self.max_clients,
            clients: clients_view(self.clients@),
        }
    }
}

/// The empty info: version 0.5, everything zero, empty or absent.
pub open spec fn empty_info() -> ServerInfoView {
    ServerInfoView {
        info_version: ServerInfoVersion::V5,
        token: 0,
        version: Seq::empty(),
        name: Seq::empty(),
        hostname: None,
        map: Seq::empty(),
        map_crc: None,
        map_size: None,
        game_type: Seq::empty(),
        flags: 0,
        progression: None,
        skill_level: None,
        num_players: 0,
        max_players: 0,
        num_clients: 0,
        max_clients: 0,
        clients: Seq::empty(),
    }
}

impl Default for ServerInfo {
    fn default() -> (r: ServerInfo)
        ensures
            r@ == empty_info(),
    {
        let r = ServerInfo {
            info_version: ServerInfoVersion::V5,
            token: 0,
            version: Vec::new(),
            name: Vec::new(),
            hostname: None,
            map: Vec::new(),
            map_crc: None,
            map_size: None,
            game_type: Vec::new(),
            flags: 0,
            progression: None,
            skill_level: None,
            num_players: 0,
            max_players: 0,
            num_clients: 0,
            max_clients: 0,
            clients: Vec::new(),
        };
        assert(r@ =~= empty_info());
        r
    }
}

/// Room for text fields: version, map and game type.
pub const SHORT_TEXT_LEN: usize = 32;

/// Room for text fields: server and host name.
pub const LONG_TEXT_LEN: usize = 64;

/// Room for a player name.
pub const PLAYER_MAX_NAME_LENGTH: usize = 15;

/// Room for a clan name.
pub const PLAYER_MAX_CLAN_LENGTH: usize = 11;

/// Player counts the start of an info gives: players, player slots,
/// clients, client slots.
pub open spec fn counts(rv: ReceivedServerInfoVersion, vals: Seq<Option<FieldView>>) -> (i32, i32, i32, i32) {
    let v = version_of(rv);
    let np = num_at(vals, 12);
    let mp = num_at(vals, 13);
    if extended_players(v) {
        (np, mp, num_at(vals, 14), num_at(vals, 15))
    } else {
        (np, mp, np, mp)
    }
}

/// Most clients a version allows, where it bounds them.
pub open spec fn max_clients_of(v: ServerInfoVersion) -> Option<u32> {
    match v {
        ServerInfoVersion::V5 | ServerInfoVersion::V6 | ServerInfoVersion::V6Ddper => Some(16u32),
        ServerInfoVersion::V664 | ServerInfoVersion::V7 => Some(64u32),
        ServerInfoVersion::V6Ex => None,
    }
}

/// The start of an info makes sense: the map size is not negative, the
/// player counts fit their slots and the version, the offset is not
/// negative; a continuation is part 1 to 64.
pub open spec fn header_ok(rv: ReceivedServerInfoVersion, vals: Seq<Option<FieldView>>) -> bool {
    let v = version_of(rv);
    if rv is Normal {
        let (np, mp, nc, mc) = counts(rv, vals);
        &&& (v == ServerInfoVersion::V6Ex ==> num_at(vals, 7) >= 0)
        &&& 0 <= nc <= mc
        &&& (max_clients_of(v) matches Some(m) ==> mc <= m)
        &&& 0 <= np <= nc
        &&& 0 <= mp <= mc
        &&& (v == ServerInfoVersion::V664 ==> num_at(vals, 16) >= 0)
    } else {
        1 <= num_at(vals, 1) <= 64
    }
}

/// The info the start `vals` describes, without players. A continuation
/// carries only its token.
pub open spec fn header_info(rv: ReceivedServerInfoVersion, vals: Seq<Option<FieldView>>) -> ServerInfoView {
    let v = version_of(rv);
    let normal = rv is Normal;
    let (np, mp, nc, mc) = counts(rv, vals);
    if normal {
        ServerInfoView {
            info_version: v,
            token: num_at(vals, 0),
            version: truncated_text(text_at(vals, 2), 32),
            name: truncated_text(text_at(vals, 3), 64),
            hostname: if v == ServerInfoVersion::V7 {
                Some(truncated_text(text_at(vals, 4), 64))
            } else {
                None
            },
            map: truncated_text(text_at(vals, 5), 32),
            map_crc: if v == ServerInfoVersion::V6Ex {
                Some(num_at(vals, 6) as u32)
            } else {
                None
            },
            map_size: if v == ServerInfoVersion::V6Ex {
                Some(num_at(vals, 7) as u32)
            } else {
                None
            },
            game_type: truncated_text(text_at(vals, 8), 32),
            flags: num_at(vals, 9),
            progression: if v == ServerInfoVersion::V5 {
                Some(num_at(vals, 10))
            } else {
                None
            },
            skill_level: if v == ServerInfoVersion::V7 {
                Some(num_at(vals, 11))
            } else {
                None
            },
            num_players: np,
            max_players: mp,
            num_clients: nc,
            max_clients: mc,
            clients: Seq::empty(),
        }
    } else {
        ServerInfoView { info_version: v, token: num_at(vals, 0), ..empty_info() }
    }
}

/// The packet number of a part: 0 for the start of an info.
pub open spec fn packet_no(rv: ReceivedServerInfoVersion, vals: Seq<Option<FieldView>>) -> i32 {
    if rv is Normal {
        0
    } else {
        num_at(vals, 1)
    }
}

/// The number of the first player a part lists.
pub open spec fn client_offset(rv: ReceivedServerInfoVersion, vals: Seq<Option<FieldView>>) -> i32 {
    if rv is Normal && version_of(rv) == ServerInfoVersion::V664 {
        num_at(vals, 16)
    } else {
        0
    }
}

/// The player entry with name `name` and the fields `cv` after it.
pub open spec fn client_view(v: ServerInfoVersion, name: Seq<u8>, cv: Seq<Option<FieldView>>) -> ClientInfoView {
    let ext = extended_players(v);
    ClientInfoView {
        name: truncated_text(name, 15),
        clan: if ext {
            truncated_text(text_at(cv, 0), 11)
        } else {
            Seq::empty()
        },
        country: if ext {
            num_at(cv, 1)
        } else {
            -1i32
        },
        score: num_at(cv, 2),
        flags: if !ext {
            0
        } else if v == ServerInfoVersion::V7 {
            num_at(cv, 3)
        } else if num_at(cv, 3) == 0 {
            1i32
        } else {
            0i32
        },
    }
}

/// What the next player entry at the front of `s` is.
pub enum EntryRead {
    /// No name follows: the list ends.
    End,
    /// A name follows, but the entry is cut short or malformed.
    Fail,
    /// The name, the fields after it, and what follows the entry.
    Entry(Seq<u8>, Seq<Option<FieldView>>, Seq<u8>),
}

/// Reads the next player entry at the front of `s`.
#[verifier::opaque]
pub open spec fn next_entry(s: Seq<u8>, v: ServerInfoVersion, packed: bool) -> EntryRead {
    match read_text(s) {
        None => EntryRead::End,
        Some((name, s1)) => match read_slots(s1, client_table(v), packed, 5) {
            None => EntryRead::Fail,
            Some((cv, s2)) => EntryRead::Entry(name, cv, s2),
        },
    }
}

/// How reading the players of a part ends.
pub enum ClientsOutcome {
    /// An entry is cut short or malformed.
    Fail,
    /// A player number runs past what the format counts.
    Overflow,
    /// The players, and the parts received.
    Done(Seq<ClientInfoView>, u64),
}

/// Reads player entries from `s`, the next of number `j`, after those in
/// `clients` and with the parts `received`, until no name follows. Entries
/// of the 64-player format past 64 are skipped; the entry 64 itself, and a
/// number that reaches `u32::MAX`, overflow.
#[verifier::opaque]
pub open spec fn clients_outcome(
    s: Seq<u8>,
    v: ServerInfoVersion,
    packed: bool,
    j: int,
    clients: Seq<ClientInfoView>,
    received: u64,
) -> ClientsOutcome
    decreases s.len(),
{
    if j >= u32::MAX {
        ClientsOutcome::Overflow
    } else {
        match next_entry(s, v, packed) {
            EntryRead::End => ClientsOutcome::Done(clients, received),
            EntryRead::Fail => ClientsOutcome::Fail,
            EntryRead::Entry(name, cv, s2) => if s2.len() >= s.len() {
                ClientsOutcome::Fail
            } else if v == ServerInfoVersion::V664 && j > 64 {
                clients_outcome(s2, v, packed, j + 1, clients, received)
            } else if v == ServerInfoVersion::V664 && j == 64 {
                ClientsOutcome::Overflow
            } else {
                clients_outcome(
                    s2,
                    v,
                    packed,
                    j + 1,
                    clients.push(client_view(v, name, cv)),
                    if v == ServerInfoVersion::V664 {
                        received | (1u64 << (j as u64))
                    } else {
                        received
                    },
                )
            },
        }
    }
}

/// A part of a server info, as a value: the info and the set of parts
/// received, one bit each.
#[verifier::ext_equal]
pub struct PartialServerInfoView {
    pub info: ServerInfoView,
    pub received: u64,
}

/// How parsing a server info ends.
pub enum InfoParse {
    /// The data is malformed.
    Fail,
    /// A part or player number runs past what the format counts.
    Overflow,
    /// The part.
    Parsed(PartialServerInfoView),
}

/// Parses a server info part `data` received as `rv`: the start, then
/// player entries until no name follows. Numbers are packed for 0.7 and
/// decimal text otherwise.
pub open spec fn parse_info(data: Seq<u8>, rv: ReceivedServerInfoVersion) -> InfoParse {
    let v = version_of(rv);
    let packed = rv == ReceivedServerInfoVersion::Normal(ServerInfoVersion::V7);
    match read_slots(data, header_table(rv), packed, 18) {
        None => InfoParse::Fail,
        Some((vals, rest)) => if !header_ok(rv, vals) {
            InfoParse::Fail
        } else if v == ServerInfoVersion::V6Ex && packet_no(rv, vals) >= 64 {
            InfoParse::Overflow
        } else {
            let received: u64 = if v == ServerInfoVersion::V6Ex {
                1u64 << (packet_no(rv, vals) as u64)
            } else {
                0
            };
            match clients_outcome(rest, v, packed, client_offset(rv, vals) as int, Seq::empty(), received) {
                ClientsOutcome::Fail => InfoParse::Fail,
                ClientsOutcome::Overflow => InfoParse::Overflow,
                ClientsOutcome::Done(cl, rec) => InfoParse::Parsed(
                    PartialServerInfoView { info: header_info(rv, vals).with_clients(cl), received: rec },
                ),
            }
        },
    }
}

/// One step of reading player entries.
proof fn lemma_clients_step(
    s: Seq<u8>,
    v: ServerInfoVersion,
    packed: bool,
    j: int,
    clients: Seq<ClientInfoView>,
    received: u64,
)
    ensures
        ({
            let out = clients_outcome(s, v, packed, j, clients, received);
            if j >= u32::MAX {
                out is Overflow
            } else {
                match next_entry(s, v, packed) {
                    EntryRead::End => out == ClientsOutcome::Done(clients, received),
                    EntryRead::Fail => out is Fail,
                    EntryRead::Entry(name, cv, s2) => s2.len() < s.len() ==> if v
                        == ServerInfoVersion::V664 && j > 64 {
                        out == clients_outcome(s2, v, packed, j + 1, clients, received)
                    } else if v == ServerInfoVersion::V664 && j == 64 {
                        out is Overflow
                    } else {
                        out == clients_outcome(
                            s2,
                            v,
                            packed,
                            j + 1,
                            clients.push(client_view(v, name, cv)),
                            if v == ServerInfoVersion::V664 {
                                received | (1u64 << (j as u64))
                            } else {
                                received
                            },
                        )
                    },
                }
            }
        }),
{
    reveal(clients_outcome);
}

/// A player entry that was read.
enum EntryExec<'a> {
    End,
    Fail,
    Entry(&'a [u8], Vec<Option<Field<'a>>>),
}

/// Reads the next player entry.
fn read_entry<'a>(u: &mut Unpacker<'a>, v: ServerInfoVersion, packed: bool, kinds: &Vec<Option<FieldKind>>) -> (r:
    EntryExec<'a>)
    requires
        kinds@.len() == 5,
        forall|k: int| 0 <= k < 5 ==> kinds@[k] == client_slot(v, k),
    ensures
        match next_entry(old(u)@, v, packed) {
            EntryRead::End => r is End,
            EntryRead::Fail => r is Fail,
            EntryRead::Entry(name, cv, s2) => r matches EntryExec::Entry(n, c) && n@ == name && slots_view(c@)
                == cv && final(u)@ == s2 && s2.len() < old(u)@.len() && c@.len() == 5,
        },
{
    proof {
        reveal(next_entry);
        lemma_read_slot_suffix(u@, None, packed);
    }
    let name = match read_text_field(u) {
        Some(n) => n,
        None => {
            return EntryExec::End;
        },
    };
    let ghost u1 = u@;
    assert(forall|k: int| 0 <= k < kinds@.len() ==> kinds@[k] == client_table(v)(k));
    match read_row(u, kinds.as_slice(), Ghost(client_table(v)), packed) {
        Some(c) => {
            proof {
                lemma_read_slots_suffix(u1, client_table(v), packed, 5);
            }
            EntryExec::Entry(name, c)
        },
        None => EntryExec::Fail,
    }
}

/// A part of a server info: the info and the set of parts received, one
/// bit each.
#[derive(Clone, Debug)]
pub struct PartialServerInfo {
    info: ServerInfo,
    received: u64,
}

impl View for PartialServerInfo {
    type V = PartialServerInfoView;

    closed spec fn view(&self) -> PartialServerInfoView {
        PartialServerInfoView { info: self.info@, received: self.received }
    }
}

/// How reading player entries ended.
enum ClientsRead {
    Fail,
    Overflow,
    Done(Vec<ClientInfo>, u64),
}

spec fn clients_read_view(r: ClientsRead) -> ClientsOutcome {
    match r {
        ClientsRead::Fail => ClientsOutcome::Fail,
        ClientsRead::Overflow => ClientsOutcome::Overflow,
        ClientsRead::Done(c, rec) => ClientsOutcome::Done(clients_view(c@), rec),
    }
}

/// How parsing a server info ended.
pub enum InfoOutcome {
    Fail,
    Overflow,
    Parsed(PartialServerInfo),
}

impl View for InfoOutcome {
    type V = InfoParse;

    open spec fn view(&self) -> InfoParse {
        match *self {
            InfoOutcome::Fail => InfoParse::Fail,
            InfoOutcome::Overflow => InfoParse::Overflow,
            InfoOutcome::Parsed(p) => InfoParse::Parsed(p@),
        }
    }
}

/// Whether the start `vals` of an info makes sense.
fn header_check(rv: ReceivedServerInfoVersion, vals: &Vec<Option<Field>>) -> (r: bool)
    requires
        vals@.len() == 18,
    ensures
        r == header_ok(rv, slots_view(vals@)),
{
    let v = rv.version();
    if !rv.is_normal() {
        let p = num_field(vals, 1);
        return 1 <= p && p <= 64;
    }
    let ext = match v {
        ServerInfoVersion::V5 => false,
        _ => true,
    };
    let np = num_field(vals, 12);
    let mp = num_field(vals, 13);
    let nc = if ext {
        num_field(vals, 14)
    } else {
        np
    };
    let mc = if ext {
        num_field(vals, 15)
    } else {
        mp
    };
    if v == ServerInfoVersion::V6Ex && num_field(vals, 7) < 0 {
        return false;
    }
    if nc < 0 || nc > mc || mc < 0 || np < 0 || np > nc || mp < 0 || mp > mc {
        return false;
    }
    match v.max_clients() {
        Some(m) => if mc as i64 > m as i64 {
            return false;
        },
        None => {},
    }
    if v == ServerInfoVersion::V664 && num_field(vals, 16) < 0 {
        return false;
    }
    true
}

/// The info the start `vals` describes, without players.
fn header_info_of(rv: ReceivedServerInfoVersion, vals: &Vec<Option<Field>>) -> (r: ServerInfo)
    requires
        vals@.len() == 18,
    ensures
        r@ == header_info(rv, slots_view(vals@)),
{
    let v = rv.version();
    let mut info = ServerInfo::default();
    info.info_version = v;
    info.token = num_field(vals, 0);
    if !rv.is_normal() {
        assert(info@ =~= header_info(rv, slots_view(vals@)));
        return info;
    }
    let ext = match v {
        ServerInfoVersion::V5 => false,
        _ => true,
    };
    info.version = truncate_text(text_field(vals, 2), SHORT_TEXT_LEN);
    info.name = truncate_text(text_field(vals, 3), LONG_TEXT_LEN);
    if v == ServerInfoVersion::V7 {
        info.hostname = Some(truncate_text(text_field(vals, 4), LONG_TEXT_LEN));
    }
    info.map = truncate_text(text_field(vals, 5), SHORT_TEXT_LEN);
    if v == ServerInfoVersion::V6Ex {
        info.map_crc = Some(num_field(vals, 6) as u32);
        info.map_size = Some(num_field(vals, 7) as u32);
    }
    info.game_type = truncate_text(text_field(vals, 8), SHORT_TEXT_LEN);
    info.flags = num_field(vals, 9);
    if v == ServerInfoVersion::V5 {
        info.progression = Some(num_field(vals, 10));
    }
    if v == ServerInfoVersion::V7 {
        info.skill_level = Some(num_field(vals, 11));
    }
    info.num_players = num_field(vals, 12);
    info.max_players = num_field(vals, 13);
    if ext {
        info.num_clients = num_field(vals, 14);
        info.max_clients = num_field(vals, 15);
    } else {
        info.num_clients = info.num_players;
        info.max_clients = info.max_players;
    }
    assert(info@ =~= header_info(rv, slots_view(vals@)));
    info
}

/// The player entry with name `name` and the fields `cv` after it.
fn make_client(v: ServerInfoVersion, name: &[u8], cv: &Vec<Option<Field>>) -> (r: ClientInfo)
    requires
        cv@.len() == 5,
    ensures
        r@ == client_view(v, name@, slots_view(cv@)),
{
    let ext = match v {
        ServerInfoVersion::V5 => false,
        _ => true,
    };
    let clan = if ext {
        truncate_text(text_field(cv, 0), PLAYER_MAX_CLAN_LENGTH)
    } else {
        Vec::new()
    };
    let country = if ext {
        num_field(cv, 1)
    } else {
        -1
    };
    let flags = if !ext {
        0
    } else if v == ServerInfoVersion::V7 {
        num_field(cv, 3)
    } else if num_field(cv, 3) == 0 {
        crate::serverbrowse::CLIENTINFO_FLAG_SPECTATOR
    } else {
        0
    };
    let r = ClientInfo {
        name: truncate_text(name, PLAYER_MAX_NAME_LENGTH),
        clan,
        country,
        score: num_field(cv, 2),
        flags,
    };
    assert(r@ =~= client_view(v, name@, slots_view(cv@)));
    r
}

/// Reads player entries, the first of number `j0`, until no name follows.
fn read_clients<'a>(u: &mut Unpacker<'a>, v: ServerInfoVersion, packed: bool, j0: u64, received0: u64) -> (r:
    ClientsRead)
    requires
        j0 <= u32::MAX,
    ensures
        clients_read_view(r) == clients_outcome(old(u)@, v, packed, j0 as int, Seq::empty(), received0),
{
    let ghost s0 = u@;
    let kinds = client_kinds(v);
    let mut clients: Vec<ClientInfo> = Vec::new();
    let mut received: u64 = received0;
    let mut j: u64 = j0;
    proof {
        assert(clients_view(clients@) =~= Seq::<ClientInfoView>::empty());
    }
    loop
        invariant
            s0 == old(u)@,
            j <= u32::MAX,
            kinds@.len() == 5,
            forall|k: int| 0 <= k < 5 ==> kinds@[k] == client_slot(v, k),
            clients_outcome(s0, v, packed, j0 as int, Seq::empty(), received0) == clients_outcome(
                u@,
                v,
                packed,
                j as int,
                clients_view(clients@),
                received,
            ),
        decreases u@.len(),
    {
        let ghost ub = u@;
        proof {
            lemma_clients_step(ub, v, packed, j as int, clients_view(clients@), received);
        }
        if j == 0xffff_ffff {
            return ClientsRead::Overflow;
        }
        let (name, cv) = match read_entry(u, v, packed, &kinds) {
            EntryExec::End => {
                return ClientsRead::Done(clients, received);
            },
            EntryExec::Fail => {
                return ClientsRead::Fail;
            },
            EntryExec::Entry(n, c) => (n, c),
        };
        if v == ServerInfoVersion::V664 && j > 64 {
            j = j + 1;
            continue ;
        }
        if v == ServerInfoVersion::V664 && j == 64 {
            return ClientsRead::Overflow;
        }
        if v == ServerInfoVersion::V664 {
            received = received | (1u64 << j);
        }
        let c = make_client(v, name, &cv);
        let ghost before = clients@;
        clients.push(c);
        proof {
            assert(clients_view(clients@) =~= clients_view(before).push(c@));
        }
        j = j + 1;
    }
}

/// Parses a server info part `data` received as `rv`.
pub fn parse_server_info(data: &[u8], rv: ReceivedServerInfoVersion) -> (r: InfoOutcome)
    ensures
        r@ == parse_info(data@, rv),
{
    let v = rv.version();
    let packed = rv == ReceivedServerInfoVersion::Normal(ServerInfoVersion::V7);
    let mut u = Unpacker::new(data);
    let kinds = header_kinds(rv);
    assert(forall|k: int| 0 <= k < kinds@.len() ==> kinds@[k] == header_table(rv)(k));
    let vals = match read_row(&mut u, kinds.as_slice(), Ghost(header_table(rv)), packed) {
        Some(vals) => vals,
        None => {
            return InfoOutcome::Fail;
        },
    };
    proof {
        lemma_read_slots_suffix(data@, header_table(rv), packed, 18);
    }
    if !header_check(rv, &vals) {
        return InfoOutcome::Fail;
    }
    let packet: i32 = if rv.is_normal() {
        0
    } else {
        num_field(&vals, 1)
    };
    let offset: i32 = if rv.is_normal() && v == ServerInfoVersion::V664 {
        num_field(&vals, 16)
    } else {
        0
    };
    if v == ServerInfoVersion::V6Ex && packet >= 64 {
        return InfoOutcome::Overflow;
    }
    let received: u64 = if v == ServerInfoVersion::V6Ex {
        1u64 << (packet as u64)
    } else {
        0
    };
    let mut info = header_info_of(rv, &vals);
    match read_clients(&mut u, v, packed, offset as u64, received) {
        ClientsRead::Fail => InfoOutcome::Fail,
        ClientsRead::Overflow => InfoOutcome::Overflow,
        ClientsRead::Done(clients, rec) => {
            let ghost h = info@;
            info.clients = clients;
            assert(info@ =~= h.with_clients(clients_view(clients@)));
            InfoOutcome::Parsed(PartialServerInfo { info, received: rec })
        },
    }
}

/// A parsed start of an info has sane player counts: players fit the
/// clients, clients fit their slots, player slots fit the client slots,
/// and the slots fit what the version allows.
pub proof fn lemma_parsed_counts(data: Seq<u8>, rv: ReceivedServerInfoVersion)
    requires
        rv is Normal,
        parse_info(data, rv) is Parsed,
    ensures
        ({
            let i = parse_info(data, rv)->Parsed_0.info;
            &&& 0 <= i.num_players <= i.num_clients <= i.max_clients
            &&& 0 <= i.max_players <= i.max_clients
            &&& max_clients_of(i.info_version) matches Some(m) ==> i.max_clients <= m
            &&& i.info_version == version_of(rv)
        }),
{
    let v = version_of(rv);
    let packed = rv == ReceivedServerInfoVersion::Normal(ServerInfoVersion::V7);
    let (vals, rest) = read_slots(data, header_table(rv), packed, 18)->0;
    assert(header_ok(rv, vals));
}

// ---------------------------------------------------------------------------
// The order of players.

/// How two numbers compare.
pub open spec fn int_order(x: i32, y: i32) -> NameOrder {
    if x < y {
        NameOrder::Less
    } else if x > y {
        NameOrder::Greater
    } else {
        NameOrder::Equal
    }
}

/// How two players compare: by name, clan, country, score and flags, in
/// that order, names byte by byte.
pub open spec fn client_order(a: ClientInfoView, b: ClientInfoView) -> NameOrder {
    let n = name_order(a.name, b.name);
    let c = name_order(a.clan, b.clan);
    if n != NameOrder::Equal {
        n
    } else if c != NameOrder::Equal {
        c
    } else if a.country != b.country {
        int_order(a.country, b.country)
    } else if a.score != b.score {
        int_order(a.score, b.score)
    } else {
        int_order(a.flags, b.flags)
    }
}

/// The players `s` are in order.
pub open spec fn clients_sorted(s: Seq<ClientInfoView>) -> bool {
    forall|i: int, j: int| 0 <= i < j < s.len() ==> client_order(s[i], s[j]) != NameOrder::Greater
}

/// Swapping two players flips their order.
pub proof fn lemma_client_order_flip(a: ClientInfoView, b: ClientInfoView)
    ensures
        client_order(b, a) == flip_order(client_order(a, b)),
{
    lemma_name_order_flip(a.name, b.name);
    lemma_name_order_flip(a.clan, b.clan);
}

/// Two players are in order `Equal` exactly when they are the same.
pub proof fn lemma_client_order_equal(a: ClientInfoView, b: ClientInfoView)
    ensures
        (client_order(a, b) == NameOrder::Equal) == (a == b),
{
    lemma_name_order_equal(a.name, b.name);
    lemma_name_order_equal(a.clan, b.clan);
    if client_order(a, b) == NameOrder::Equal {
        assert(a =~= b);
    }
}

/// The order of players is transitive, strictly where one step is strict.
pub proof fn lemma_client_order_trans(a: ClientInfoView, b: ClientInfoView, c: ClientInfoView)
    requires
        client_order(a, b) != NameOrder::Greater,
        client_order(b, c) != NameOrder::Greater,
    ensures
        client_order(a, c) != NameOrder::Greater,
        client_order(a, b) == NameOrder::Less || client_order(b, c) == NameOrder::Less ==> client_order(a, c)
            == NameOrder::Less,
{
    lemma_name_order_equal(a.name, b.name);
    lemma_name_order_equal(b.name, c.name);
    lemma_name_order_equal(a.name, c.name);
    lemma_name_order_equal(a.clan, b.clan);
    lemma_name_order_equal(b.clan, c.clan);
    lemma_name_order_equal(a.clan, c.clan);
    lemma_name_order_trans(a.name, b.name, c.name);
    if name_order(a.name, b.name) == NameOrder::Equal && name_order(b.name, c.name) == NameOrder::Equal {
        lemma_name_order_trans(a.clan, b.clan, c.clan);
    }
}

/// Compares two players.
pub fn compare_clients(a: &ClientInfo, b: &ClientInfo) -> (r: NameOrder)
    ensures
        r == client_order(a@, b@),
{
    let n = compare_names(a.name.as_slice(), b.name.as_slice());
    if n != NameOrder::Equal {
        return n;
    }
    let c = compare_names(a.clan.as_slice(), b.clan.as_slice());
    if c != NameOrder::Equal {
        return c;
    }
    let (x, y) = if a.country != b.country {
        (a.country, b.country)
    } else if a.score != b.score {
        (a.score, b.score)
    } else {
        (a.flags, b.flags)
    };
    if x < y {
        NameOrder::Less
    } else if x > y {
        NameOrder::Greater
    } else {
        NameOrder::Equal
    }
}

/// Where `x` goes among the sorted players `out`: after those not above
/// it, before the first one above it.
fn insert_position(out: &Vec<ClientInfo>, x: &ClientInfo) -> (pos: usize)
    ensures
        pos <= out@.len(),
        forall|k: int| 0 <= k < pos ==> client_order(x@, #[trigger] out@[k]@) != NameOrder::Less,
        pos < out@.len() ==> client_order(x@, out@[pos as int]@) == NameOrder::Less,
{
    let mut pos: usize = 0;
    while pos < out.len()
        invariant
            pos <= out@.len(),
            forall|k: int| 0 <= k < pos ==> client_order(x@, #[trigger] out@[k]@) != NameOrder::Less,
        decreases out.len() - pos,
    {
        if compare_clients(x, &out[pos]) == NameOrder::Less {
            return pos;
        }
        pos = pos + 1;
    }
    pos
}

/// Sorts the players `v`.
fn sort_client_list(v: Vec<ClientInfo>) -> (r: Vec<ClientInfo>)
    ensures
        clients_view(r@).to_multiset() == clients_view(v@).to_multiset(),
        clients_sorted(clients_view(r@)),
{
    broadcast use vstd::multiset::group_multiset_axioms;
    broadcast use vstd::seq_lib::group_to_multiset_ensures;

    let ghost whole = clients_view(v@).to_multiset();
    let mut v = v;
    let mut out: Vec<ClientInfo> = Vec::new();
    proof {
        assert(clients_view(out@) =~= Seq::<ClientInfoView>::empty());
        assert(clients_view(out@).to_multiset() =~= vstd::multiset::Multiset::empty());
        assert(clients_view(out@).to_multiset().add(clients_view(v@).to_multiset()) =~= whole);
    }
    while v.len() > 0
        invariant
            clients_view(out@).to_multiset().add(clients_view(v@).to_multiset()) == whole,
            clients_sorted(clients_view(out@)),
        decreases v.len(),
    {
        let ghost vb = v@;
        let x = v.pop().unwrap();
        proof {
            assert(clients_view(vb) =~= clients_view(v@).push(x@));
            vstd::seq_lib::to_multiset_build(clients_view(v@), x@);
        }
        let pos = insert_position(&out, &x);
        let ghost o = clients_view(out@);
        let ghost xv = x@;
        out.insert(pos, x);
        proof {
            let n = clients_view(out@);
            assert(n =~= o.insert(pos as int, xv));
            vstd::seq_lib::to_multiset_insert(o, pos as int, xv);
            assert(clients_view(out@).to_multiset().add(clients_view(v@).to_multiset()) =~= whole);
            assert forall|i: int, j: int| 0 <= i < j < n.len() implies client_order(n[i], n[j])
                != NameOrder::Greater by {
                if i < pos && j == pos {
                    assert(client_order(xv, o[i]) != NameOrder::Less);
                    lemma_client_order_flip(xv, o[i]);
                } else if i == pos && j > pos {
                    assert(client_order(xv, o[pos as int]) == NameOrder::Less);
                    if j - 1 > pos {
                        lemma_client_order_trans(xv, o[pos as int], o[j - 1]);
                    }
                } else if i < pos && j > pos {
                    assert(n[i] == o[i] && n[j] == o[j - 1]);
                } else if i > pos {
                    assert(n[i] == o[i - 1] && n[j] == o[j - 1]);
                }
            }
        }
    }
    proof {
        assert(clients_view(v@) =~= Seq::<ClientInfoView>::empty());
    }
    out
}

/// `a` is the info `b` with its players sorted.
pub open spec fn sorted_from(a: ServerInfoView, b: ServerInfoView) -> bool {
    &&& a == b.with_clients(a.clients)
    &&& clients_sorted(a.clients)
    &&& a.clients.to_multiset() == b.clients.to_multiset()
}

impl ServerInfo {
    /// Sorts the players.
    pub fn sort_clients(&mut self)
        ensures
            sorted_from(final(self)@, old(self)@),
    {
        let mut c: Vec<ClientInfo> = Vec::new();
        std::mem::swap(&mut c, &mut self.clients);
        self.clients = sort_client_list(c);
        assert(self@ =~= old(self)@.with_clients(self@.clients));
    }
}

// ---------------------------------------------------------------------------
// Putting parts together.

/// Merging the part `o` into `s`: the result, and the merged part. Parts
/// must share token and version, and the version must come in parts. A
/// part already received changes nothing; overlapping parts are refused.
/// Otherwise the players of the two are joined, those of the first part of
/// an extended info first, and that part's start is kept.
pub open spec fn merge_result(s: PartialServerInfoView, o: PartialServerInfoView) -> (
    Result<(), MergeError>,
    PartialServerInfoView,
) {
    if s.info.token != o.info.token {
        (Err(MergeError::DifferingTokens), s)
    } else if s.info.info_version != o.info.info_version {
        (Err(MergeError::DifferingVersions), s)
    } else if s.info.info_version != ServerInfoVersion::V664 && s.info.info_version
        != ServerInfoVersion::V6Ex {
        (Err(MergeError::NotMultipartVersion), s)
    } else if s.received & o.received == o.received {
        (Ok(()), s)
    } else if s.received & o.received != 0 {
        (Err(MergeError::OverlappingInfos), s)
    } else if s.info.info_version == ServerInfoVersion::V6Ex && s.received & 1 == 0 {
        (
            Ok(()),
            PartialServerInfoView {
                info: o.info.with_clients(o.info.clients + s.info.clients),
                received: o.received,
            },
        )
    } else {
        (
            Ok(()),
            PartialServerInfoView {
                info: s.info.with_clients(s.info.clients + o.info.clients),
                received: s.received,
            },
        )
    }
}

/// All players an info announces are there.
pub open spec fn complete(p: PartialServerInfoView) -> bool {
    p.info.clients.len() == p.info.num_clients
}

impl PartialServerInfo {
    /// Merges the part `other` into this one.
    pub fn merge(&mut self, other: PartialServerInfo) -> (r: Result<(), MergeError>)
        ensures
            r == merge_result(old(self)@, other@).0,
            final(self)@ == merge_result(old(self)@, other@).1,
    {
        let mut other = other;
        if self.info.token != other.info.token {
            return Err(MergeError::DifferingTokens);
        }
        if self.info.info_version != other.info.info_version {
            return Err(MergeError::DifferingVersions);
        }
        if self.info.info_version != ServerInfoVersion::V664 && self.info.info_version
            != ServerInfoVersion::V6Ex {
            return Err(MergeError::NotMultipartVersion);
        }
        if self.received & other.received == other.received {
            return Ok(());
        }
        if self.received & other.received != 0 {
            return Err(MergeError::OverlappingInfos);
        }
        if self.info.info_version == ServerInfoVersion::V6Ex && self.received & 1 == 0 {
            std::mem::swap(self, &mut other);
        }
        let ghost h = self@.info;
        let ghost tail = other@.info.clients;
        self.info.clients.append(&mut other.info.clients);
        proof {
            assert(clients_view(self.info.clients@) =~= h.clients + tail);
            assert(self@.info =~= h.with_clients(h.clients + tail));
        }
        Ok(())
    }

    /// The number of players this part holds.
    pub fn clients_len(&self) -> (r: usize)
        ensures
            r == self@.info.clients.len(),
    {
        self.info.clients.len()
    }

    /// Whether merging the part `other` into this one succeeds and leaves
    /// more than `limit` players.
    pub fn merge_exceeds(&self, other: &PartialServerInfo, limit: usize) -> (r: bool)
        ensures
            r == (merge_result(self@, other@).0 is Ok && merge_result(self@, other@).1.info.clients.len()
                > limit),
    {
        if self.info.token != other.info.token {
            return false;
        }
        if self.info.info_version != other.info.info_version {
            return false;
        }
        if self.info.info_version != ServerInfoVersion::V664 && self.info.info_version
            != ServerInfoVersion::V6Ex {
            return false;
        }
        if self.received & other.received == other.received {
            return self.info.clients.len() > limit;
        }
        if self.received & other.received != 0 {
            return false;
        }
        let a = self.info.clients.len();
        let b = other.info.clients.len();
        a > limit || b > limit - a
    }

    /// The token the part answers.
    pub fn token(&self) -> (r: i32)
        ensures
            r == self@.info.token,
    {
        self.info.token
    }

    /// The info, with its players sorted, once all of them are there.
    pub fn get_info(&mut self) -> (r: Option<&ServerInfo>)
        requires
            old(self)@.info.clients.len() <= i32::MAX,
        ensures
            !complete(old(self)@) ==> r is None && final(self)@ == old(self)@,
            complete(old(self)@) ==> {
                &&& r matches Some(i) && i@ == final(self)@.info
                &&& final(self)@.received == old(self)@.received
                &&& sorted_from(final(self)@.info, old(self)@.info)
            },
    {
        if self.info.clients.len() as i32 != self.info.num_clients {
            return None;
        }
        self.info.sort_clients();
        Some(&self.info)
    }

    /// Takes the info, with its players sorted, once all of them are there;
    /// then the part counts as having received everything.
    pub fn take_info(&mut self) -> (r: Option<ServerInfo>)
        requires
            old(self)@.info.clients.len() <= i32::MAX,
        ensures
            !complete(old(self)@) ==> r is None && final(self)@ == old(self)@,
            complete(old(self)@) ==> {
                &&& r matches Some(i) && sorted_from(i@, old(self)@.info)
                &&& final(self)@ == PartialServerInfoView { info: empty_info(), received: u64::MAX }
            },
    {
        if self.info.clients.len() as i32 != self.info.num_clients {
            return None;
        }
        self.info.sort_clients();
        self.received = u64::MAX;
        let mut info = ServerInfo::default();
        std::mem::swap(&mut info, &mut self.info);
        assert(self@ =~= PartialServerInfoView { info: empty_info(), received: u64::MAX });
        Some(info)
    }
}

/// The info of a complete part, with its players sorted.
fn complete_info(rv: ReceivedServerInfoVersion, data: &[u8]) -> (r: Option<ServerInfo>)
    requires
        !(parse_info(data@, rv) is Overflow),
    ensures
        match parse_info(data@, rv) {
            InfoParse::Parsed(p) => r matches Some(i) && sorted_from(i@, p.info),
            _ => r is None,
        },
{
    match parse_server_info(data, rv) {
        InfoOutcome::Parsed(p) => {
            let mut info = p.info;
            info.sort_clients();
            Some(info)
        },
        _ => None,
    }
}

/// A part as it was parsed.
fn partial_info(rv: ReceivedServerInfoVersion, data: &[u8]) -> (r: Option<PartialServerInfo>)
    requires
        !(parse_info(data@, rv) is Overflow),
    ensures
        match parse_info(data@, rv) {
            InfoParse::Parsed(p) => r matches Some(x) && x@ == p,
            _ => r is None,
        },
{
    match parse_server_info(data, rv) {
        InfoOutcome::Parsed(p) => Some(p),
        _ => None,
    }
}

impl<'a> Info5Response<'a> {
    /// Parses a 0.5 server info.
    pub fn parse(self) -> (r: Option<ServerInfo>)
        requires
            !(parse_info(self.0@, ReceivedServerInfoVersion::Normal(ServerInfoVersion::V5)) is Overflow),
        ensures
            match parse_info(self.0@, ReceivedServerInfoVersion::Normal(ServerInfoVersion::V5)) {
                InfoParse::Parsed(p) => r matches Some(i) && sorted_from(i@, p.info),
                _ => r is None,
            },
    {
        complete_info(ReceivedServerInfoVersion::Normal(ServerInfoVersion::V5), self.0)
    }
}

impl<'a> Info6Response<'a> {
    /// Parses a 0.6 server info.
    pub fn parse(self) -> (r: Option<ServerInfo>)
        requires
            !(parse_info(self.0@, ReceivedServerInfoVersion::Normal(ServerInfoVersion::V6)) is Overflow),
        ensures
            match parse_info(self.0@, ReceivedServerInfoVersion::Normal(ServerInfoVersion::V6)) {
                InfoParse::Parsed(p) => r matches Some(i) && sorted_from(i@, p.info),
                _ => r is None,
            },
    {
        complete_info(ReceivedServerInfoVersion::Normal(ServerInfoVersion::V6), self.0)
    }
}

impl<'a> Info6DdperResponse<'a> {
    /// Parses a 0.6 server info of the DDNet player extension.
    pub fn parse(self) -> (r: Option<ServerInfo>)
        requires
            !(parse_info(self.0@, ReceivedServerInfoVersion::Normal(ServerInfoVersion::V6Ddper)) is Overflow),
        ensures
            match parse_info(self.0@, ReceivedServerInfoVersion::Normal(ServerInfoVersion::V6Ddper)) {
                InfoParse::Parsed(p) => r matches Some(i) && sorted_from(i@, p.info),
                _ => r is None,
            },
    {
        complete_info(ReceivedServerInfoVersion::Normal(ServerInfoVersion::V6Ddper), self.0)
    }
}

impl<'a> Info7Response<'a> {
    /// Parses a 0.7 server info.
    pub fn parse(self) -> (r: Option<ServerInfo>)
        requires
            !(parse_info(self.2@, ReceivedServerInfoVersion::Normal(ServerInfoVersion::V7)) is Overflow),
        ensures
            match parse_info(self.2@, ReceivedServerInfoVersion::Normal(ServerInfoVersion::V7)) {
                InfoParse::Parsed(p) => r matches Some(i) && sorted_from(i@, p.info),
                _ => r is None,
            },
    {
        complete_info(ReceivedServerInfoVersion::Normal(ServerInfoVersion::V7), self.2)
    }
}

impl<'a> Info664Response<'a> {
    /// Parses a part of a 64-player 0.6 server info.
    pub fn parse(self) -> (r: Option<PartialServerInfo>)
        requires
            !(parse_info(self.0@, ReceivedServerInfoVersion::Normal(ServerInfoVersion::V664)) is Overflow),
        ensures
            match parse_info(self.0@, ReceivedServerInfoVersion::Normal(ServerInfoVersion::V664)) {
                InfoParse::Parsed(p) => r matches Some(x) && x@ == p,
                _ => r is None,
            },
    {
        partial_info(ReceivedServerInfoVersion::Normal(ServerInfoVersion::V664), self.0)
    }
}

impl<'a> Info6ExResponse<'a> {
    /// Parses the first part of an extended 0.6 server info.
    pub fn parse(self) -> (r: Option<PartialServerInfo>)
        requires
            !(parse_info(self.0@, ReceivedServerInfoVersion::Normal(ServerInfoVersion::V6Ex)) is Overflow),
        ensures
            match parse_info(self.0@, ReceivedServerInfoVersion::Normal(ServerInfoVersion::V6Ex)) {
                InfoParse::Parsed(p) => r matches Some(x) && x@ == p,
                _ => r is None,
            },
    {
        partial_info(ReceivedServerInfoVersion::Normal(ServerInfoVersion::V6Ex), self.0)
    }
}

impl<'a> Info6ExMoreResponse<'a> {
    /// Parses a further part of an extended 0.6 server info.
    pub fn parse(self) -> (r: Option<PartialServerInfo>)
        requires
            !(parse_info(self.0@, ReceivedServerInfoVersion::V6ExMore) is Overflow),
        ensures
            match parse_info(self.0@, ReceivedServerInfoVersion::V6ExMore) {
                InfoParse::Parsed(p) => r matches Some(x) && x@ == p,
                _ => r is None,
            },
    {
        partial_info(ReceivedServerInfoVersion::V6ExMore, self.0)
    }
}

} // verus!
