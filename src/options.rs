//! The options of a message: an ordered multimap from option number to raw
//! values, kept in non-decreasing order of number and, within one number, in
//! insertion order. That is exactly the order in which they are encoded.
use vstd::prelude::*;
use crate::wire::{OptionEntry, options_sorted};
use crate::option::{is_registered, fits_format, registry};

verus! {

/// Where an option numbered `n` goes: after every entry numbered at most `n`.
pub open spec fn insert_pos(s: Seq<OptionEntry>, n: u16) -> int
    decreases s.len(),
{
    if s.len() == 0 {
        0
    } else if s.last().0 <= n {
        s.len() as int
    } else {
        insert_pos(s.drop_last(), n)
    }
}

/// `s` with `e` added after every entry whose number is at most `e.0`.
pub open spec fn insert_sorted(s: Seq<OptionEntry>, e: OptionEntry) -> Seq<OptionEntry> {
    let k = insert_pos(s, e.0);
    s.take(k).push(e) + s.skip(k)
}

/// The values stored under number `n`, in order.
pub open spec fn values_of(s: Seq<OptionEntry>, n: u16) -> Seq<Seq<u8>>
    decreases s.len(),
{
    if s.len() == 0 {
        seq![]
    } else if s.last().0 == n {
        values_of(s.drop_last(), n).push(s.last().1)
    } else {
        values_of(s.drop_last(), n)
    }
}

/// The split point of a sorted sequence: entries before it are numbered at
/// most `n`, those from it on above `n`.
pub proof fn lemma_insert_pos(s: Seq<OptionEntry>, n: u16)
    requires
        options_sorted(s),
    ensures
        0 <= insert_pos(s, n) <= s.len(),
        forall|i: int| 0 <= i < insert_pos(s, n) ==> s[i].0 <= n,
        forall|i: int| insert_pos(s, n) <= i < s.len() ==> s[i].0 > n,
    decreases s.len(),
{
    if s.len() > 0 {
        let t = s.drop_last();
        if s.last().0 > n {
            assert forall|i: int, j: int| 0 <= i < j < t.len() implies #[trigger] t[i].0 <= #[trigger] t[j].0 by {
                assert(t[i] == s[i] && t[j] == s[j]);
            }
            lemma_insert_pos(t, n);
            assert forall|i: int| 0 <= i < insert_pos(s, n) implies s[i].0 <= n by {
                assert(t[i] == s[i]);
            }
            assert forall|i: int| insert_pos(s, n) <= i < s.len() implies s[i].0 > n by {
                if i < t.len() {
                    assert(t[i] == s[i]);
                }
            }
        } else {
            assert forall|i: int| 0 <= i < insert_pos(s, n) implies s[i].0 <= n by {
                if i < s.len() - 1 {
                    assert(s[i].0 <= s[s.len() - 1].0);
                }
            }
        }
    }
}

/// The raw values of a list of byte vectors.
pub open spec fn byte_seqs(v: Seq<Vec<u8>>) -> Seq<Seq<u8>> {
    v.map_values(|x: Vec<u8>| x@)
}

/// Inserting keeps the options in order.
pub proof fn lemma_insert_sorted(s: Seq<OptionEntry>, e: OptionEntry)
    requires
        options_sorted(s),
    ensures
        options_sorted(insert_sorted(s, e)),
        insert_sorted(s, e).len() == s.len() + 1,
{
    lemma_insert_pos(s, e.0);
    let k = insert_pos(s, e.0);
    let r = insert_sorted(s, e);
    assert forall|i: int| 0 <= i < r.len() implies #[trigger] r[i] == (if i < k {
        s[i]
    } else if i == k {
        e
    } else {
        s[i - 1]
    }) by {}
}

/// When `n` is at least every number present, inserting appends.
pub proof fn lemma_insert_last(s: Seq<OptionEntry>, e: OptionEntry)
    requires
        forall|i: int| 0 <= i < s.len() ==> s[i].0 <= e.0,
    ensures
        insert_sorted(s, e) == s.push(e),
{
    assert(s.take(s.len() as int) =~= s);
    assert(s.skip(s.len() as int) =~= Seq::<OptionEntry>::empty());
    assert(s.push(e) + Seq::<OptionEntry>::empty() =~= s.push(e));
}

/// An ordered multimap of options, keyed by option number.
#[derive(PartialEq, Eq, Debug)]
pub struct Options {
    entries: Vec<(u16, Vec<u8>)>,
}

pub open spec fn entries_view(v: Seq<(u16, Vec<u8>)>) -> Seq<OptionEntry> {
    v.map_values(|e: (u16, Vec<u8>)| (e.0, e.1@))
}

impl View for Options {
    type V = Seq<OptionEntry>;

    closed spec fn view(&self) -> Seq<OptionEntry> {
        entries_view(self.entries@)
    }
}

impl Clone for Options {
    fn clone(&self) -> (r: Options)
        ensures
            r@ == self@,
    {
        let mut r = Options::new();
        let mut i: usize = 0;
        let n = self.len();
        while i < n
            invariant
                n == self@.len(),
                i <= n,
                r@ == self@.take(i as int),
                options_sorted(self@),
            decreases n - i,
        {
            let (num, v) = self.entry(i);
            let bytes = copy_bytes(v);
            proof {
                lemma_insert_last(r@, (num, bytes@));
            }
            r.push_raw(num, bytes);
            assert(r@ =~= self@.take(i + 1));
            i = i + 1;
        }
        assert(self@.take(n as int) =~= self@);
        r
    }
}

impl Options {
    #[verifier::type_invariant]
    spec fn inv(self) -> bool {
        options_sorted(entries_view(self.entries@))
    }

    pub fn new() -> (r: Options)
        ensures
            r@ == Seq::<OptionEntry>::empty(),
    {
        let r = Options { entries: Vec::new() };
        assert(r@ =~= Seq::<OptionEntry>::empty());
        r
    }

    /// The number of stored values, over all numbers.
    pub fn len(&self) -> (r: usize)
        ensures
            r == self@.len(),
            options_sorted(self@),
    {
        proof {
            use_type_invariant(self);
        }
        self.entries.len()
    }

    /// The `i`-th value in iteration order, with its number.
    pub fn entry(&self, i: usize) -> (r: (u16, &[u8]))
        requires
            i < self@.len(),
        ensures
            r.0 == self@[i as int].0,
            r.1@ == self@[i as int].1,
    {
        (self.entries[i].0, self.entries[i].1.as_slice())
    }

    /// Adds a raw value under `number`, after the values already there.
    pub fn push_raw(&mut self, number: u16, raw_value: Vec<u8>)
        ensures
            final(self)@ == insert_sorted(old(self)@, (number, raw_value@)),
    {
        proof {
            use_type_invariant(&*self);
        }
        let ghost s = self@;
        let mut taken = Options::new();
        std::mem::swap(self, &mut taken);
        proof {
            use_type_invariant(&taken);
        }
        let Options { mut entries } = taken;
        assert(entries_view(entries@) == s);
        let mut k: usize = entries.len();
        assert(s.take(k as int) =~= s);
        while k > 0 && entries[k - 1].0 > number
            invariant
                k <= entries.len(),
                s == entries_view(entries@),
                insert_pos(s, number) == insert_pos(s.take(k as int), number),
            decreases k,
        {
            assert(s.take(k as int).drop_last() =~= s.take(k - 1));
            k = k - 1;
        }
        assert(s.take(k as int).len() == 0 || s.take(k as int).last().0 <= number);
        proof {
            lemma_insert_sorted(s, (number, raw_value@));
        }
        let ghost rv = raw_value@;
        entries.insert(k, (number, raw_value));
        assert(entries_view(entries@) =~= insert_sorted(s, (number, rv)));
        *self = Options { entries };
    }

    /// Every raw value stored under `number`, in order; `None` when there is none.
    pub fn get_raw(&self, number: u16) -> (r: Option<Vec<Vec<u8>>>)
        ensures
            r is None <==> values_of(self@, number).len() == 0,
            r is Some ==> byte_seqs(r->Some_0@) == values_of(self@, number),
    {
        let mut out: Vec<Vec<u8>> = Vec::new();
        let mut i: usize = 0;
        while i < self.entries.len()
            invariant
                i <= self.entries.len(),
                byte_seqs(out@) == values_of(self@.take(i as int), number),
            decreases self.entries.len() - i,
        {
            assert(self@.take(i + 1).drop_last() =~= self@.take(i as int));
            assert(self@[i as int] == (self.entries@[i as int].0, self.entries@[i as int].1@));
            if self.entries[i].0 == number {
                let v = copy_bytes(self.entries[i].1.as_slice());
                out.push(v);
                assert(byte_seqs(out@) =~= values_of(self@.take(i as int), number).push(
                    self@[i as int].1,
                ));
            }
            i = i + 1;
        }
        assert(self@.take(i as int) =~= self@);
        if out.len() == 0 {
            None
        } else {
            Some(out)
        }
    }

    /// Adds a typed option under its number, after the values already there.
    pub fn push(&mut self, option: crate::option::Option)
        ensures
            final(self)@ == insert_sorted(old(self)@, (option.spec_number(), option.spec_bytes())),
    {
        let number = option.number();
        let bytes = option.value_to_bytes();
        self.push_raw(number, bytes);
    }

    /// Every value stored under `number`, typed by the registry; `None` when
    /// there is none.
    pub fn get(&self, number: u16) -> (r: Option<Vec<crate::option::Option>>)
        ensures
            r is None <==> values_of(self@, number).len() == 0,
            r is Some ==> {
                let v = r->Some_0@;
                let raw = values_of(self@, number);
                &&& v.len() == raw.len()
                &&& forall|i: int|
                    0 <= i < v.len() ==> {
                        &&& (#[trigger] v[i]).spec_number() == number
                        &&& v[i].holds_value(raw[i])
                        &&& (v[i] is Unknown <==> !(is_registered(number) && fits_format(
                            registry(number),
                            raw[i],
                        )))
                    }
            },
    {
        match self.get_raw(number) {
            None => None,
            Some(raw) => {
                let mut out: Vec<crate::option::Option> = Vec::new();
                let mut i: usize = 0;
                while i < raw.len()
                    invariant
                        i <= raw@.len(),
                        out@.len() == i,
                        forall|j: int|
                            0 <= j < i ==> {
                                &&& (#[trigger] out@[j]).spec_number() == number
                                &&& out@[j].holds_value(raw@[j]@)
                                &&& (out@[j] is Unknown <==> !(is_registered(number)
                                    && fits_format(registry(number), raw@[j]@)))
                            },
                    decreases raw@.len() - i,
                {
                    let o = crate::option::Option::from_raw(number, raw[i].as_slice());
                    out.push(o);
                    i = i + 1;
                }
                assert forall|j: int| 0 <= j < raw@.len() implies raw@[j]@ == #[trigger] byte_seqs(raw@)[j] by {}
                Some(out)
            },
        }
    }

    /// A cursor over the options in iteration order.
    pub fn iter(&self) -> (r: RawOptionsIterator<'_>)
        ensures
            r.options@ == self@,
            r.place == 0,
            options_sorted(self@),
    {
        proof {
            use_type_invariant(self);
        }
        RawOptionsIterator::new(self)
    }
}

/// A fresh copy of the bytes of `s`.
pub fn copy_bytes(s: &[u8]) -> (r: Vec<u8>)
    ensures
        r@ == s@,
{
    let mut r: Vec<u8> = Vec::with_capacity(s.len());
    let mut i: usize = 0;
    while i < s.len()
        invariant
            i <= s.len(),
            r@ == s@.take(i as int),
        decreases s.len() - i,
    {
        r.push(s[i]);
        assert(r@ =~= s@.take(i + 1));
        i = i + 1;
    }
    assert(s@.take(i as int) =~= s@);
    r
}

/// Walks the options of an `Options` as `(number, value)` pairs, in
/// non-decreasing order of number and insertion order within a number.
pub struct RawOptionsIterator<'a> {
    pub options: &'a Options,
    pub place: usize,
}

impl<'a> RawOptionsIterator<'a> {
    pub fn new(options: &'a Options) -> (r: RawOptionsIterator<'a>)
        ensures
            r.options == options,
            r.place == 0,
    {
        RawOptionsIterator { options, place: 0 }
    }

    /// The next pair, or `None` once every option has been handed out.
    pub fn next(&mut self) -> (r: Option<(u16, &'a [u8])>)
        ensures
            final(self).options == old(self).options,
            old(self).place < old(self).options@.len() ==> {
                &&& r is Some
                &&& r->Some_0.0 == old(self).options@[old(self).place as int].0
                &&& r->Some_0.1@ == old(self).options@[old(self).place as int].1
                &&& final(self).place == old(self).place + 1
            },
            old(self).place >= old(self).options@.len() ==> r is None && final(self).place == old(
                self,
            ).place,
    {
        if self.place < self.options.len() {
            let e = self.options.entry(self.place);
            self.place = self.place + 1;
            Some(e)
        } else {
            None
        }
    }
}

} // verus!
