//! Game messages. A message is a sequence of fields, each an integer that
//! must lie in bounds or a NUL-terminated string, which may have to be free
//! of control characters.
pub mod game;

use vstd::prelude::*;
use crate::buffer::CapacityError;
use crate::gamenet::Error;
use crate::packer::first_nul;
use crate::packer::int_encoding;
use crate::packer::int_len;
use crate::packer::int_value;
use crate::packer::int_warning;
use crate::packer::lemma_first_nul_at;
use crate::packer::lemma_int_roundtrip;
use crate::packer::no_nul;
use crate::packer::opt_seq;
use crate::packer::sanitize;
use crate::packer::Packer;
use crate::packer::Unpacker;
use crate::packer::Warning;

verus! {

/// The kind of a field of a message.
#[derive(Clone, Copy, Debug, PartialEq, Eq, Structural)]
pub enum Field {
    /// An integer within the inclusive bounds.
    Int(i32, i32),
    /// A string.
    Str,
    /// A string without control characters.
    Sanitized,
}

/// A field of a message as it is read or written.
#[derive(Clone, Copy, Debug)]
pub enum Value<'a> {
    Int(i32),
    Str(&'a [u8]),
}

/// The type of a message: a number, or a UUID for extended types.
#[derive(Clone, Copy, Debug, PartialEq, Eq)]
pub enum MessageId {
    Ordinal(i32),
    Uuid([u8; 16]),
}

/// A tuning parameter, in hundredths of its unit.
#[derive(Clone, Copy, Debug, PartialEq, Eq, Structural)]
pub struct TuneParam(pub i32);

/// A field of a message, as a mathematical value.
pub enum Item {
    Int(i32),
    Str(Seq<u8>),
}

impl<'a> Value<'a> {
    pub open spec fn item(self) -> Item {
        match self {
            Value::Int(v) => Item::Int(v),
            Value::Str(s) => Item::Str(s@),
        }
    }
}

/// The items of the values `v`.
pub open spec fn items_of(v: Seq<Value>) -> Seq<Item> {
    Seq::new(v.len(), |i: int| v[i].item())
}

/// `s` holds no control characters (bytes below `b' '`).
pub open spec fn no_control(s: Seq<u8>) -> bool {
    forall|i: int| 0 <= i < s.len() ==> s[i] >= 32
}

/// The field kind `f` accepts the item `x`.
pub open spec fn accepts(f: Field, x: Item) -> bool {
    match (f, x) {
        (Field::Int(lo, hi), Item::Int(v)) => lo <= v && v <= hi,
        (Field::Str, Item::Str(s)) => true,
        (Field::Sanitized, Item::Str(s)) => no_control(s),
        _ => false,
    }
}

/// The items fit the fields one by one.
pub open spec fn fits_msg(fields: Seq<Field>, items: Seq<Item>) -> bool {
    &&& items.len() == fields.len()
    &&& forall|i: int| 0 <= i < fields.len() ==> #[trigger] accepts(fields[i], items[i])
}

/// Reading one field of kind `f` from `data`: the item or the error, the
/// bytes left, and the warnings raised.
pub open spec fn parse_field(f: Field, data: Seq<u8>) -> (Result<Item, Error>, Seq<u8>, Seq<Warning>) {
    match f {
        Field::Int(lo, hi) => if data.len() < int_len(data) {
            (Err(Error::UnexpectedEnd), Seq::empty(), Seq::empty())
        } else {
            let v = int_value(data) as i32;
            let rest = data.subrange(int_len(data), data.len() as int);
            let w = opt_seq(int_warning(data));
            if lo <= v && v <= hi {
                (Ok(Item::Int(v)), rest, w)
            } else {
                (Err(Error::IntOutOfRange), rest, w)
            }
        },
        _ => match first_nul(data) {
            None => (Err(Error::UnexpectedEnd), Seq::empty(), Seq::empty()),
            Some(i) => {
                let s = data.subrange(0, i);
                let rest = data.subrange(i + 1, data.len() as int);
                if f == Field::Sanitized && !no_control(s) {
                    (Err(Error::ControlCharacters), rest, Seq::empty())
                } else {
                    (Ok(Item::Str(s)), rest, Seq::empty())
                }
            },
        },
    }
}

/// Prepends the items `items` and the warnings `warns` to the outcome `r`
/// of reading further fields.
pub open spec fn prepend(
    items: Seq<Item>,
    warns: Seq<Warning>,
    r: (Result<Seq<Item>, Error>, Seq<u8>, Seq<Warning>),
) -> (Result<Seq<Item>, Error>, Seq<u8>, Seq<Warning>) {
    (
        match r.0 {
            Ok(x) => Ok(items + x),
            Err(e) => Err(e),
        },
        r.1,
        warns + r.2,
    )
}

/// Reading the fields `fields` in order from `data`: the items or the
/// first error, the bytes left, and the warnings raised.
pub open spec fn parse(fields: Seq<Field>, data: Seq<u8>) -> (
    Result<Seq<Item>, Error>,
    Seq<u8>,
    Seq<Warning>,
)
    decreases fields.len(),
{
    if fields.len() == 0 {
        (Ok(Seq::empty()), data, Seq::empty())
    } else {
        let step = parse_field(fields[0], data);
        match step.0 {
            Err(e) => (Err(e), step.1, step.2),
            Ok(x) => prepend(seq![x], step.2, parse(fields.drop_first(), step.1)),
        }
    }
}

/// Reading a message with fields `fields` from `before` gives `r`, leaves
/// `after` and turns the warnings `warns_before` into `warns_after`; a
/// message read in full warns about bytes left over, which are consumed.
pub open spec fn decoded_msg(
    fields: Seq<Field>,
    before: Seq<u8>,
    after: Seq<u8>,
    warns_before: Seq<Warning>,
    warns_after: Seq<Warning>,
    r: Result<Seq<Item>, Error>,
) -> bool {
    let p = parse(fields, before);
    match p.0 {
        Err(e) => r == Err::<Seq<Item>, Error>(e) && after == p.1 && warns_after == warns_before
            + p.2,
        Ok(items) => {
            &&& r == Ok::<Seq<Item>, Error>(items)
            &&& after == Seq::<u8>::empty()
            &&& warns_after == warns_before + p.2 + (if p.1.len() > 0 {
                seq![Warning::ExcessData]
            } else {
                Seq::empty()
            })
        },
    }
}

/// The bytes an item is written as.
pub open spec fn item_encoding(x: Item) -> Seq<u8> {
    match x {
        Item::Int(v) => int_encoding(v),
        Item::Str(s) => s + seq![0u8],
    }
}

/// The bytes items are written as, one after the other.
pub open spec fn encoding(items: Seq<Item>) -> Seq<u8>
    decreases items.len(),
{
    if items.len() == 0 {
        Seq::empty()
    } else {
        item_encoding(items[0]) + encoding(items.drop_first())
    }
}

/// No string item holds a NUL byte.
pub open spec fn writable(items: Seq<Item>) -> bool {
    forall|i: int| 0 <= i < items.len() ==> (#[trigger] items[i] matches Item::Str(s) ==> no_nul(s))
}

/// Reading the fields after `i` of them continues reading all of them.
proof fn lemma_parse_step(fields: Seq<Field>, i: int, data: Seq<u8>)
    requires
        0 <= i < fields.len(),
    ensures
        parse(fields.subrange(i, fields.len() as int), data) == ({
            let step = parse_field(fields[i], data);
            match step.0 {
                Err(e) => (Err(e), step.1, step.2),
                Ok(x) => prepend(
                    seq![x],
                    step.2,
                    parse(fields.subrange(i + 1, fields.len() as int), step.1),
                ),
            }
        }),
{
    let f = fields.subrange(i, fields.len() as int);
    assert(f.drop_first() =~= fields.subrange(i + 1, fields.len() as int));
    assert(f[0] == fields[i]);
}

/// Prepending twice is prepending the concatenations.
proof fn lemma_prepend_prepend(
    a: Seq<Item>,
    wa: Seq<Warning>,
    b: Seq<Item>,
    wb: Seq<Warning>,
    r: (Result<Seq<Item>, Error>, Seq<u8>, Seq<Warning>),
)
    ensures
        prepend(a, wa, prepend(b, wb, r)) == prepend(a + b, wa + wb, r),
{
    assert(wa + (wb + r.2) =~= (wa + wb) + r.2);
    match r.0 {
        Ok(x) => {
            assert(a + (b + x) =~= (a + b) + x);
        },
        Err(_) => {},
    }
}

/// Reads the fields `fields` in order: each integer must lie in its bounds
/// and each sanitized string must be free of control characters; stops at
/// the first field that is missing or invalid.
pub fn read_fields<'a>(warns: &mut Vec<Warning>, p: &mut Unpacker<'a>, fields: &[Field]) -> (r: Result<
    Vec<Value<'a>>,
    Error,
>)
    ensures
        ({
            let pr = parse(fields@, old(p)@);
            &&& final(p)@ == pr.1
            &&& final(warns)@ == old(warns)@ + pr.2
            &&& match r {
                Ok(v) => pr.0 == Ok::<Seq<Item>, Error>(items_of(v@)),
                Err(e) => pr.0 == Err::<Seq<Item>, Error>(e),
            }
        }),
        r matches Ok(v) ==> fits_msg(fields@, items_of(v@)),
{
    let ghost data = p@;
    let ghost w0 = warns@;
    let ghost mut wacc: Seq<Warning> = Seq::empty();
    let mut v: Vec<Value<'a>> = Vec::new();
    let mut i: usize = 0;
    proof {
        assert(fields@.subrange(0, fields@.len() as int) =~= fields@);
        assert(items_of(v@) =~= Seq::<Item>::empty());
        assert(prepend(Seq::empty(), Seq::empty(), parse(fields@, data)) =~= parse(fields@, data)) by {
            match parse(fields@, data).0 {
                Ok(x) => {
                    assert(Seq::<Item>::empty() + x =~= x);
                },
                Err(_) => {},
            }
            assert(Seq::<Warning>::empty() + parse(fields@, data).2 =~= parse(fields@, data).2);
        }
    }
    while i < fields.len()
        invariant
            i <= fields@.len(),
            data == old(p)@,
            w0 == old(warns)@,
            warns@ == w0 + wacc,
            parse(fields@, data) == prepend(
                items_of(v@),
                wacc,
                parse(fields@.subrange(i as int, fields@.len() as int), p@),
            ),
            v@.len() == i,
            forall|j: int| 0 <= j < i ==> #[trigger] accepts(fields@[j], items_of(v@)[j]),
        decreases fields.len() - i,
    {
        proof {
            lemma_parse_step(fields@, i as int, p@);
        }
        let ghost before = p@;
        let ghost vb = v@;
        let ghost wb = warns@;
        let f = fields[i];
        let value = match f {
            Field::Int(lo, hi) => {
                let x = match p.read_int(warns) {
                    Ok(x) => x,
                    Err(_) => {
                        return Err(Error::UnexpectedEnd);
                    },
                };
                proof {
                    wacc = wacc + opt_seq(int_warning(before));
                }
                if !(lo <= x && x <= hi) {
                    return Err(Error::IntOutOfRange);
                }
                Value::Int(x)
            },
            _ => {
                let s = match p.read_string() {
                    Ok(s) => s,
                    Err(_) => {
                        return Err(Error::UnexpectedEnd);
                    },
                };
                proof {
                    lemma_nul_prefix(before);
                }
                let sanitized = match f {
                    Field::Sanitized => true,
                    _ => false,
                };
                if sanitized {
                    match sanitize(warns, s) {
                        Ok(_) => {},
                        Err(_) => {
                            return Err(Error::ControlCharacters);
                        },
                    }
                }
                proof {
                    assert(warns@ =~= w0 + wacc);
                }
                Value::Str(s)
            },
        };
        v.push(value);
        proof {
            let step = parse_field(fields@[i as int], before);
            assert(step.0 == Ok::<Item, Error>(value.item()));
            lemma_prepend_prepend(
                items_of(vb),
                wacc.subrange(0, wacc.len() - step.2.len()),
                seq![value.item()],
                step.2,
                parse(fields@.subrange(i + 1, fields@.len() as int), p@),
            );
            assert(items_of(v@) =~= items_of(vb) + seq![value.item()]);
            assert(wacc.subrange(0, wacc.len() - step.2.len()) + step.2 =~= wacc);
            assert forall|j: int| 0 <= j < i + 1 implies #[trigger] accepts(
                fields@[j],
                items_of(v@)[j],
            ) by {
                if j < i {
                    assert(items_of(v@)[j] == items_of(vb)[j]);
                }
            }
        }
        i = i + 1;
    }
    proof {
        assert(fields@.subrange(i as int, fields@.len() as int) =~= Seq::<Field>::empty());
        assert(items_of(v@) + Seq::<Item>::empty() =~= items_of(v@));
        assert(wacc + Seq::<Warning>::empty() =~= wacc);
    }
    Ok(v)
}

/// What `read_string` returns when it finds a NUL.
proof fn lemma_nul_prefix(s: Seq<u8>)
    ensures
        first_nul(s) matches Some(i) ==> 0 <= i < s.len(),
{
    if exists|i: int| 0 <= i < s.len() && s[i] == 0 {
        crate::packer::lemma_first_nul_exists(s);
    }
}

/// The encoding of two runs of items is the encoding of the first
/// followed by that of the second.
pub proof fn lemma_encoding_append(a: Seq<Item>, b: Seq<Item>)
    ensures
        encoding(a + b) == encoding(a) + encoding(b),
    decreases a.len(),
{
    if a.len() == 0 {
        assert(a + b =~= b);
        assert(encoding(a) + encoding(b) =~= encoding(b));
    } else {
        assert((a + b)[0] == a[0]);
        assert((a + b).drop_first() =~= a.drop_first() + b);
        lemma_encoding_append(a.drop_first(), b);
        assert(encoding(a + b) =~= encoding(a) + encoding(b));
    }
}

/// The encoding of one item.
proof fn lemma_encoding_single(x: Item)
    ensures
        encoding(seq![x]) == item_encoding(x),
{
    assert(seq![x].drop_first() =~= Seq::<Item>::empty());
    assert(seq![x][0] == x);
    assert(encoding(Seq::<Item>::empty()) == Seq::<u8>::empty());
    assert(item_encoding(x) + Seq::<u8>::empty() =~= item_encoding(x));
}

/// Writes the values one after the other; fails if they do not fit, with
/// the packer then holding only part of them.
pub fn write_values(p: &mut Packer, values: &[Value]) -> (r: Result<(), CapacityError>)
    requires
        writable(items_of(values@)),
    ensures
        final(p).capacity() == old(p).capacity(),
        (r is Ok) <==> old(p)@.len() + encoding(items_of(values@)).len() <= old(p).capacity(),
        r is Ok ==> final(p)@ == old(p)@ + encoding(items_of(values@)),
{
    let ghost items = items_of(values@);
    let mut i: usize = 0;
    proof {
        assert(items.subrange(0, 0) =~= Seq::<Item>::empty());
        assert(old(p)@ + encoding(Seq::<Item>::empty()) =~= old(p)@);
    }
    while i < values.len()
        invariant
            i <= values@.len(),
            items == items_of(values@),
            writable(items),
            p.capacity() == old(p).capacity(),
            p@ == old(p)@ + encoding(items.subrange(0, i as int)),
        decreases values.len() - i,
    {
        let ghost before = p@;
        proof {
            lemma_encoding_append(items.subrange(0, i as int), seq![items[i as int]]);
            lemma_encoding_single(items[i as int]);
            assert(items.subrange(0, i as int) + seq![items[i as int]] =~= items.subrange(0, i + 1));
            lemma_encoding_append(items.subrange(0, i + 1), items.subrange(i + 1, items.len() as int));
            assert(items.subrange(0, i + 1) + items.subrange(i + 1, items.len() as int) =~= items);
            assert(items[i as int] == values@[i as int].item());
        }
        let w = match values[i] {
            Value::Int(v) => p.write_int(v),
            Value::Str(s) => p.write_string(s),
        };
        match w {
            Ok(()) => {},
            Err(e) => {
                return Err(e);
            },
        }
        proof {
            assert(p@ =~= old(p)@ + encoding(items.subrange(0, i + 1)));
        }
        i = i + 1;
    }
    proof {
        assert(items.subrange(0, i as int) =~= items);
        use_type_invariant(&*p);
    }
    Ok(())
}

/// The encoding of an integer, followed by anything, reads back as that
/// integer, without warnings.
pub proof fn lemma_int_prefix(x: i32, t: Seq<u8>)
    ensures
        ({
            let u = int_encoding(x) + t;
            &&& int_len(u) == int_encoding(x).len()
            &&& int_value(u) == x
            &&& int_warning(u) is None
            &&& u.len() >= int_len(u)
        }),
{
    lemma_int_roundtrip(x);
    let s = int_encoding(x);
    let u = s + t;
    assert forall|k: int| 0 <= k < s.len() implies u[k] == s[k] by {}
    if s.len() >= 1 {
        assert(u[0] == s[0]);
    }
    if s.len() >= 2 {
        assert(u[1] == s[1]);
    }
    if s.len() >= 3 {
        assert(u[2] == s[2]);
    }
    if s.len() >= 4 {
        assert(u[3] == s[3]);
    }
    if s.len() >= 5 {
        assert(u[4] == s[4]);
    }
}

/// Reading a field from the encoding of an item it accepts, followed by
/// anything, gives the item back.
proof fn lemma_parse_field_encoding(f: Field, x: Item, tail: Seq<u8>)
    requires
        accepts(f, x),
        x matches Item::Str(s) ==> no_nul(s),
    ensures
        parse_field(f, item_encoding(x) + tail) == (
            Ok::<Item, Error>(x),
            tail,
            Seq::<Warning>::empty(),
        ),
{
    let data = item_encoding(x) + tail;
    match x {
        Item::Int(v) => {
            lemma_int_prefix(v, tail);
            assert(data.subrange(int_len(data), data.len() as int) =~= tail);
        },
        Item::Str(s) => {
            let l = s.len() as int;
            assert forall|j: int| 0 <= j < l implies data[j] != 0 by {
                assert(data[j] == s[j]);
            }
            assert(data[l] == 0);
            lemma_first_nul_at(data, l);
            assert(data.subrange(0, l) =~= s);
            assert(data.subrange(l + 1, data.len() as int) =~= tail);
        },
    }
}

/// Reading fields from the encoding of items that fit them, followed by
/// anything, gives the items back, leaves what followed and warns about
/// nothing.
pub proof fn lemma_parse_encoding(fields: Seq<Field>, items: Seq<Item>, rest: Seq<u8>)
    requires
        fits_msg(fields, items),
        writable(items),
    ensures
        parse(fields, encoding(items) + rest) == (
            Ok::<Seq<Item>, Error>(items),
            rest,
            Seq::<Warning>::empty(),
        ),
    decreases fields.len(),
{
    if fields.len() == 0 {
        assert(items =~= Seq::<Item>::empty());
        assert(encoding(items) + rest =~= rest);
    } else {
        let x = items[0];
        let tail = encoding(items.drop_first()) + rest;
        let data = encoding(items) + rest;
        assert(data =~= item_encoding(x) + tail);
        assert(accepts(fields[0], x));
        assert(fits_msg(fields.drop_first(), items.drop_first())) by {
            assert forall|i: int| 0 <= i < fields.drop_first().len() implies #[trigger] accepts(
                fields.drop_first()[i],
                items.drop_first()[i],
            ) by {
                assert(accepts(fields[i + 1], items[i + 1]));
            }
        }
        assert(writable(items.drop_first())) by {
            assert forall|i: int| 0 <= i < items.drop_first().len() implies (
            #[trigger] items.drop_first()[i] matches Item::Str(s) ==> no_nul(s)) by {
                assert(items[i + 1] matches Item::Str(s) ==> no_nul(s));
            }
        }
        assert(items[0] matches Item::Str(s) ==> no_nul(s));
        lemma_parse_field_encoding(fields[0], x, tail);
        lemma_parse_encoding(fields.drop_first(), items.drop_first(), rest);
        assert(seq![x] + items.drop_first() =~= items);
        assert(Seq::<Warning>::empty() + Seq::<Warning>::empty() =~= Seq::<Warning>::empty());
    }
}

/// Integers as message items.
pub open spec fn int_items(s: Seq<i32>) -> Seq<Item> {
    Seq::new(s.len(), |i: int| Item::Int(s[i]))
}

/// Integer fields with the bounds `b`.
pub open spec fn int_fields(b: Seq<(i32, i32)>) -> Seq<Field> {
    Seq::new(b.len(), |i: int| Field::Int(b[i].0, b[i].1))
}

/// The integer of the value at `k`, which must be an integer.
pub fn int_at(v: &[Value], k: usize) -> (r: i32)
    requires
        k < v@.len(),
        v@[k as int] is Int,
    ensures
        Item::Int(r) == v@[k as int].item(),
{
    match v[k] {
        Value::Int(x) => x,
        Value::Str(_) => 0,
    }
}

/// The string of the value at `k`, which must be a string.
pub fn str_at<'a>(v: &[Value<'a>], k: usize) -> (r: &'a [u8])
    requires
        k < v@.len(),
        v@[k as int] is Str,
    ensures
        Item::Str(r@) == v@[k as int].item(),
{
    match v[k] {
        Value::Str(s) => s,
        Value::Int(_) => &[],
    }
}

/// The integers of values that are all integers.
pub fn ints_of(v: &[Value]) -> (r: Vec<i32>)
    requires
        forall|i: int| 0 <= i < v@.len() ==> (#[trigger] v@[i]) is Int,
    ensures
        r@.len() == v@.len(),
        forall|i: int| 0 <= i < v@.len() ==> Item::Int(#[trigger] r@[i]) == v@[i].item(),
{
    let mut r: Vec<i32> = Vec::new();
    let mut i: usize = 0;
    while i < v.len()
        invariant
            i <= v@.len(),
            r@.len() == i,
            forall|j: int| 0 <= j < v@.len() ==> (#[trigger] v@[j]) is Int,
            forall|j: int| 0 <= j < i ==> Item::Int(#[trigger] r@[j]) == v@[j].item(),
        decreases v.len() - i,
    {
        let x = int_at(v, i);
        r.push(x);
        i = i + 1;
    }
    r
}

/// Appends the integers `ints` as values.
pub fn push_ints(values: &mut Vec<Value>, ints: &[i32])
    ensures
        items_of(final(values)@) == items_of(old(values)@) + int_items(ints@),
{
    let mut i: usize = 0;
    while i < ints.len()
        invariant
            i <= ints@.len(),
            items_of(values@) == items_of(old(values)@) + int_items(ints@.subrange(0, i as int)),
        decreases ints.len() - i,
    {
        let ghost before = values@;
        values.push(Value::Int(ints[i]));
        proof {
            assert(items_of(values@) =~= items_of(before) + seq![Item::Int(ints@[i as int])]);
            assert(int_items(ints@.subrange(0, i + 1)) =~= int_items(ints@.subrange(0, i as int))
                + seq![Item::Int(ints@[i as int])]);
            assert(items_of(values@) =~= items_of(old(values)@) + int_items(
                ints@.subrange(0, i + 1),
            ));
        }
        i = i + 1;
    }
    proof {
        assert(ints@.subrange(0, i as int) =~= ints@);
    }
}

/// Integer items that fit integer fields are integers within the bounds.
pub proof fn lemma_int_items(b: Seq<(i32, i32)>, items: Seq<Item>, ints: Seq<i32>)
    requires
        fits_msg(int_fields(b), items),
        ints.len() == items.len(),
        forall|i: int| 0 <= i < ints.len() ==> Item::Int(#[trigger] ints[i]) == items[i],
    ensures
        crate::gamenet::fits(b, ints),
        int_items(ints) == items,
{
    assert forall|i: int| 0 <= i < b.len() implies #[trigger] crate::gamenet::in_bounds(
        b[i],
        ints[i],
    ) by {
        assert(accepts(int_fields(b)[i], items[i]));
        assert(Item::Int(ints[i]) == items[i]);
    }
    assert(int_items(ints) =~= items);
}

/// Integers within bounds, as items, fit the integer fields.
pub proof fn lemma_int_fits(b: Seq<(i32, i32)>, ints: Seq<i32>)
    requires
        crate::gamenet::fits(b, ints),
    ensures
        fits_msg(int_fields(b), int_items(ints)),
        writable(int_items(ints)),
{
    assert forall|i: int| 0 <= i < b.len() implies #[trigger] accepts(
        int_fields(b)[i],
        int_items(ints)[i],
    ) by {
        assert(crate::gamenet::in_bounds(b[i], ints[i]));
    }
}

/// Different integers make different items.
pub proof fn lemma_int_items_injective(a: Seq<i32>, b: Seq<i32>)
    requires
        int_items(a) == int_items(b),
    ensures
        a == b,
{
    assert(a.len() == int_items(a).len());
    assert(b.len() == int_items(b).len());
    assert forall|i: int| 0 <= i < a.len() implies a[i] == b[i] by {
        assert(int_items(a)[i] == Item::Int(a[i]));
        assert(int_items(b)[i] == Item::Int(b[i]));
        assert(int_items(a)[i] == int_items(b)[i]);
    }
    assert(a =~= b);
}

/// A string without control characters holds no NUL.
pub proof fn lemma_no_control_no_nul(s: Seq<u8>)
    requires
        no_control(s),
    ensures
        no_nul(s),
{
}

/// What a value read for a field of a given kind is.
pub proof fn lemma_value_at(fields: Seq<Field>, v: Seq<Value>, k: int)
    requires
        fits_msg(fields, items_of(v)),
        0 <= k < fields.len(),
    ensures
        fields[k] is Int ==> v[k] is Int,
        !(fields[k] is Int) ==> v[k] is Str,
        fields[k] matches Field::Int(lo, hi) ==> (v[k] matches Value::Int(x) && lo <= x && x <= hi),
{
    assert(accepts(fields[k], items_of(v)[k]));
}

} // verus!
