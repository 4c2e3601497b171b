//! Typed access to the `MX` header, and what raw header access guarantees.
use vstd::prelude::*;
use crate::message::{
    first_named,
    byte_views, is_digit, lines_for, replaced, same_name, valid_name, valid_value, values_of,
    values_valid, well_formed, without, MessageView, SSDPMessage, lemma_first_named_bounds,
};

verus! {

/// `MX`
pub open spec fn mx_name() -> Seq<u8> {
    seq![77u8, 88]
}

/// The number that a string of decimal digits spells.
pub open spec fn digits_value(s: Seq<u8>) -> nat
    decreases s.len(),
{
    if s.len() == 0 {
        0
    } else {
        digits_value(s.drop_last()) * 10 + (s.last() - 48) as nat
    }
}

pub open spec fn all_digits(s: Seq<u8>) -> bool {
    forall|i: int| 0 <= i < s.len() ==> is_digit(s[i])
}

/// The shortest decimal spelling of `n`.
pub open spec fn decimal(n: nat) -> Seq<u8>
    decreases n,
{
    if n < 10 {
        seq![(48 + n) as u8]
    } else {
        decimal(n / 10).push((48 + n % 10) as u8)
    }
}

/// The `MX` header of a message: present where the message holds exactly one
/// `MX` value made of one to three digits whose number fits in a byte.
pub open spec fn mx_of(m: MessageView) -> Option<u8> {
    let vs = values_of(m.headers, mx_name());
    if vs.len() == 1 && 1 <= vs[0].len() <= 3 && all_digits(vs[0]) && digits_value(vs[0]) <= 255 {
        Some(digits_value(vs[0]) as u8)
    } else {
        None
    }
}

pub proof fn lemma_values_of_concat(
    a: Seq<(Seq<u8>, Seq<u8>)>,
    b: Seq<(Seq<u8>, Seq<u8>)>,
    name: Seq<u8>,
)
    ensures
        values_of(a + b, name) == values_of(a, name) + values_of(b, name),
    decreases b.len(),
{
    if b.len() == 0 {
        assert(a + b =~= a);
        assert(values_of(a, name) + values_of(b, name) =~= values_of(a, name));
    } else {
        assert((a + b).drop_last() =~= a + b.drop_last());
        lemma_values_of_concat(a, b.drop_last(), name);
        assert(values_of(a + b, name) =~= values_of(a, name) + values_of(b, name));
    }
}

pub proof fn lemma_values_of_without(hs: Seq<(Seq<u8>, Seq<u8>)>, name: Seq<u8>)
    ensures
        values_of(without(hs, name), name) == Seq::<Seq<u8>>::empty(),
    decreases hs.len(),
{
    if hs.len() > 0 {
        lemma_values_of_without(hs.drop_last(), name);
        if !same_name(hs.last().0, name) {
            let w = without(hs.drop_last(), name);
            assert(w.push(hs.last()).drop_last() =~= w);
        }
    }
}

pub proof fn lemma_values_of_lines_for(name: Seq<u8>, vals: Seq<Seq<u8>>)
    ensures
        values_of(lines_for(name, vals), name) == vals,
    decreases vals.len(),
{
    if vals.len() > 0 {
        lemma_values_of_lines_for(name, vals.drop_last());
        assert(lines_for(name, vals).drop_last() =~= lines_for(name, vals.drop_last()));
        assert(vals.drop_last().push(vals.last()) =~= vals);
    } else {
        assert(lines_for(name, vals) =~= seq![]);
    }
}

pub proof fn lemma_values_of_none(hs: Seq<(Seq<u8>, Seq<u8>)>, name: Seq<u8>)
    requires
        forall|k: int| 0 <= k < hs.len() ==> !same_name(#[trigger] hs[k].0, name),
    ensures
        values_of(hs, name) == Seq::<Seq<u8>>::empty(),
    decreases hs.len(),
{
    if hs.len() > 0 {
        assert forall|k: int| 0 <= k < hs.drop_last().len() implies !same_name(
            #[trigger] hs.drop_last()[k].0,
            name,
        ) by {
            assert(hs.drop_last()[k] == hs[k]);
        }
        lemma_values_of_none(hs.drop_last(), name);
        assert(hs.last() == hs[hs.len() - 1]);
    }
}

/// Reading a header right after setting it gives back exactly the values set,
/// in order, whatever the message held before.
pub proof fn lemma_set_then_get(hs: Seq<(Seq<u8>, Seq<u8>)>, name: Seq<u8>, vals: Seq<Seq<u8>>)
    ensures
        values_of(replaced(hs, name, lines_for(name, vals)), name) == vals,
{
    let f = first_named(hs, name, 0);
    lemma_first_named_bounds(hs, name, 0);
    let a = hs.take(f);
    assert forall|k: int| 0 <= k < a.len() implies !same_name(#[trigger] a[k].0, name) by {
        assert(a[k] == hs[k]);
    }
    lemma_values_of_none(a, name);
    let l = lines_for(name, vals);
    let w = without(hs.skip(f), name);
    lemma_values_of_concat(a + l, w, name);
    lemma_values_of_concat(a, l, name);
    lemma_values_of_without(hs.skip(f), name);
    lemma_values_of_lines_for(name, vals);
    assert(Seq::<Seq<u8>>::empty() + vals + Seq::<Seq<u8>>::empty() =~= vals);
}

fn mx_name_bytes() -> (r: Vec<u8>)
    ensures
        r@ == mx_name(),
{
    let r: Vec<u8> = vec![77u8, 88];
    assert(r@ =~= mx_name());
    r
}

fn decimal_bytes(n: u8) -> (r: Vec<u8>)
    ensures
        r@ == decimal(n as nat),
        1 <= r@.len() <= 3,
        all_digits(r@),
        digits_value(r@) == n,
{
    reveal_with_fuel(decimal, 3);
    reveal_with_fuel(digits_value, 4);
    let mut r: Vec<u8> = Vec::new();
    if n >= 100 {
        r.push(48 + n / 100);
        r.push(48 + (n / 10) % 10);
        r.push(48 + n % 10);
        assert(r@ =~= decimal(n as nat));
        assert(r@.drop_last() =~= seq![r@[0], r@[1]]);
        assert(r@.drop_last().drop_last() =~= seq![r@[0]]);
        assert(seq![r@[0]].drop_last() =~= Seq::<u8>::empty());
    } else if n >= 10 {
        r.push(48 + n / 10);
        r.push(48 + n % 10);
        assert(r@ =~= decimal(n as nat));
        assert(r@.drop_last() =~= seq![r@[0]]);
        assert(seq![r@[0]].drop_last() =~= Seq::<u8>::empty());
    } else {
        r.push(48 + n);
        assert(r@ =~= decimal(n as nat));
        assert(r@.drop_last() =~= Seq::<u8>::empty());
    }
    r
}

fn digits_of(s: &[u8]) -> (r: Option<u8>)
    ensures
        r == (if 1 <= s@.len() <= 3 && all_digits(s@) && digits_value(s@) <= 255 {
            Some(digits_value(s@) as u8)
        } else {
            None
        }),
{
    if s.len() < 1 || s.len() > 3 {
        return None;
    }
    let mut v: u32 = 0;
    let mut i: usize = 0;
    while i < s.len()
        invariant
            1 <= s@.len() <= 3,
            i <= s@.len(),
            all_digits(s@.take(i as int)),
            v == digits_value(s@.take(i as int)),
            v < 1000,
            i == 0 ==> v == 0,
            i == 1 ==> v < 10,
            i == 2 ==> v < 100,
        decreases s@.len() - i,
    {
        if s[i] < 48 || s[i] > 57 {
            assert(!all_digits(s@)) by {
                assert(!is_digit(s@[i as int]));
            }
            return None;
        }
        assert(s@.take(i + 1).drop_last() =~= s@.take(i as int));
        v = v * 10 + (s[i] - 48) as u32;
        i = i + 1;
    }
    assert(s@.take(i as int) =~= s@);
    if v > 255 {
        None
    } else {
        Some(v as u8)
    }
}

impl SSDPMessage {
    /// The `MX` header, where one is present and reads as a byte.
    pub fn get_mx(&self) -> (r: Option<u8>)
        ensures
            r == mx_of(self@),
    {
        let name = mx_name_bytes();
        match self.get_raw(name.as_slice()) {
            None => None,
            Some(vs) => {
                if vs.len() != 1 {
                    return None;
                }
                assert(byte_views(vs@)[0] == vs@[0]@);
                digits_of(vs[0].as_slice())
            },
        }
    }

    /// Sets the `MX` header to `n`, replacing any earlier value.
    pub fn set_mx(&mut self, n: u8)
        ensures
            final(self)@.kind == old(self)@.kind,
            final(self)@.headers == replaced(
                old(self)@.headers,
                mx_name(),
                seq![(mx_name(), decimal(n as nat))],
            ),
            well_formed(old(self)@) ==> well_formed(final(self)@),
            mx_of(final(self)@) == Some(n),
    {
        let name = mx_name_bytes();
        let d = decimal_bytes(n);
        let ghost dv = d@;
        let mut vals: Vec<Vec<u8>> = Vec::new();
        vals.push(d);
        assert(byte_views(vals@) =~= seq![dv]);
        assert(lines_for(mx_name(), seq![dv]) =~= seq![(mx_name(), dv)]);
        assert(valid_name(mx_name()));
        assert(valid_value(dv)) by {
            assert(is_digit(dv[0]) && is_digit(dv.last()));
        }
        assert(values_valid(seq![dv]));
        self.set_raw(name.as_slice(), vals);
        proof {
            lemma_set_then_get(old(self)@.headers, mx_name(), seq![dv]);
        }
    }
}

} // verus!
