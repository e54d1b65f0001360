//! The option part of a CoAP message: an ordered map from option numbers to
//! lists of values, and its delta encoding on the wire (RFC 7252, 3.1).

use vstd::prelude::*;
use vstd::slice::{slice_subrange, slice_to_vec};

verus! {

/// What an option map holds: `(number, values)` entries in strictly
/// increasing order of number.
pub type OptionsView = Seq<(usize, Seq<Seq<u8>>)>;

/// Whether the entries are in strictly increasing order of number.
pub open spec fn sorted_numbers(s: OptionsView) -> bool {
    forall|i: int, j: int| 0 <= i < j < s.len() ==> #[trigger] s[i].0 < #[trigger] s[j].0
}

/// The values of option number `k`, if the map holds it.
pub open spec fn lookup(s: OptionsView, k: usize) -> Option<Seq<Seq<u8>>>
    decreases s.len(),
{
    if s.len() == 0 {
        None
    } else if s.last().0 == k {
        Some(s.last().1)
    } else {
        lookup(s.drop_last(), k)
    }
}

/// In a sorted map, the entry at `i` is what `lookup` finds for its number.
pub proof fn lemma_lookup_at(s: OptionsView, i: int)
    requires
        sorted_numbers(s),
        0 <= i < s.len(),
    ensures
        lookup(s, s[i].0) == Some(s[i].1),
    decreases s.len(),
{
    if i < s.len() - 1 {
        assert(s[i].0 < s.last().0);
        assert(s.drop_last()[i] == s[i]);
        lemma_lookup_at(s.drop_last(), i);
    }
}

/// A number that no entry has is not found.
pub proof fn lemma_lookup_absent(s: OptionsView, k: usize)
    requires
        forall|i: int| 0 <= i < s.len() ==> s[i].0 != k,
    ensures
        lookup(s, k) is None,
    decreases s.len(),
{
    if s.len() > 0 {
        assert forall|i: int| 0 <= i < s.drop_last().len() implies s.drop_last()[i].0 != k by {
            assert(s.drop_last()[i] == s[i]);
        }
        lemma_lookup_absent(s.drop_last(), k);
    }
}

/// A number found by `lookup` is the number of some entry.
pub proof fn lemma_lookup_some(s: OptionsView, k: usize)
    requires
        lookup(s, k) is Some,
    ensures
        exists|i: int| 0 <= i < s.len() && s[i].0 == k && s[i].1 == lookup(s, k).unwrap(),
    decreases s.len(),
{
    if s.last().0 != k {
        lemma_lookup_some(s.drop_last(), k);
        let i = choose|i: int| 0 <= i < s.drop_last().len() && s.drop_last()[i].0 == k
            && s.drop_last()[i].1 == lookup(s.drop_last(), k).unwrap();
        assert(s[i] == s.drop_last()[i]);
    }
}

/// A sorted map is determined by what `lookup` finds in it: two sorted
/// maps that agree on every number are the same.
pub proof fn lemma_lookup_determines(s: OptionsView, t: OptionsView)
    requires
        sorted_numbers(s),
        sorted_numbers(t),
        forall|k: usize| lookup(s, k) == lookup(t, k),
    ensures
        s == t,
    decreases s.len() + t.len(),
{
    if s.len() == 0 {
        if t.len() > 0 {
            lemma_lookup_at(t, 0);
            assert(lookup(s, t[0].0) is None);
        }
        assert(t =~= s);
    } else if t.len() == 0 {
        lemma_lookup_at(s, 0);
        assert(lookup(t, s[0].0) is None);
    } else {
        let ks = s.last().0;
        let kt = t.last().0;
        lemma_lookup_at(s, s.len() - 1);
        lemma_lookup_at(t, t.len() - 1);
        lemma_lookup_some(t, ks);
        lemma_lookup_some(s, kt);
        let i = choose|i: int| 0 <= i < t.len() && t[i].0 == ks && t[i].1 == lookup(t, ks).unwrap();
        let j = choose|j: int| 0 <= j < s.len() && s[j].0 == kt && s[j].1 == lookup(s, kt).unwrap();
        if i < t.len() - 1 {
            assert(t[i].0 < t.last().0);
        }
        if j < s.len() - 1 {
            assert(s[j].0 < s.last().0);
        }
        assert(ks == kt);
        assert(s.last() == t.last());
        let s2 = s.drop_last();
        let t2 = t.drop_last();
        assert(sorted_numbers(s2)) by {
            assert forall|a: int, b: int| 0 <= a < b < s2.len() implies #[trigger] s2[a].0 < #[trigger] s2[b].0 by {
                assert(s2[a] == s[a] && s2[b] == s[b]);
            }
        }
        assert(sorted_numbers(t2)) by {
            assert forall|a: int, b: int| 0 <= a < b < t2.len() implies #[trigger] t2[a].0 < #[trigger] t2[b].0 by {
                assert(t2[a] == t[a] && t2[b] == t[b]);
            }
        }
        assert forall|k: usize| lookup(s2, k) == lookup(t2, k) by {
            if k == ks {
                assert forall|a: int| 0 <= a < s2.len() implies s2[a].0 != k by {
                    assert(s2[a] == s[a]);
                    assert(s[a].0 < s.last().0);
                }
                assert forall|a: int| 0 <= a < t2.len() implies t2[a].0 != k by {
                    assert(t2[a] == t[a]);
                    assert(t[a].0 < t.last().0);
                }
                lemma_lookup_absent(s2, k);
                lemma_lookup_absent(t2, k);
            } else {
                assert(lookup(s, k) == lookup(s2, k));
                assert(lookup(t, k) == lookup(t2, k));
            }
        }
        lemma_lookup_determines(s2, t2);
        assert(s =~= s2.push(s.last()));
        assert(t =~= t2.push(t.last()));
    }
}

#[derive(Debug)]
struct OptionEntry {
    number: usize,
    values: Vec<Vec<u8>>,
}

/// The byte strings of a list of values.
pub open spec fn values_view(v: Vec<Vec<u8>>) -> Seq<Seq<u8>> {
    v@.map_values(|x: Vec<u8>| x@)
}

spec fn entry_view(e: OptionEntry) -> (usize, Seq<Seq<u8>>) {
    (e.number, values_view(e.values))
}

/// Option numbers mapped to their values, ordered by number.
#[derive(Debug)]
pub struct OptionMap {
    entries: Vec<OptionEntry>,
}

impl View for OptionMap {
    type V = OptionsView;

    closed spec fn view(&self) -> OptionsView {
        self.entries@.map_values(|e: OptionEntry| entry_view(e))
    }
}

impl OptionMap {
    /// Every map keeps its entries in strictly increasing order of number;
    /// `use_type_invariant` on a map gives this to any caller.
    #[verifier::type_invariant]
    pub open spec fn inv(self) -> bool {
        sorted_numbers(self@)
    }

    pub fn new() -> (m: OptionMap)
        ensures
            m@ == Seq::<(usize, Seq<Seq<u8>>)>::empty(),
    {
        let m = OptionMap { entries: Vec::new() };
        assert(m@ =~= Seq::<(usize, Seq<Seq<u8>>)>::empty());
        m
    }

    /// The number of option numbers in the map.
    pub fn len(&self) -> (n: usize)
        ensures
            n == self@.len(),
    {
        self.entries.len()
    }

    /// The values of option number `k`.
    pub fn get(&self, k: usize) -> (r: Option<&Vec<Vec<u8>>>)
        ensures
            r is Some == lookup(self@, k) is Some,
            r matches Some(v) ==> values_view(*v) == lookup(self@, k).unwrap(),
    {
        proof {
            use_type_invariant(self);
        }
        let mut i: usize = 0;
        while i < self.entries.len()
            invariant
                i <= self.entries@.len(),
                sorted_numbers(self@),
                forall|j: int| 0 <= j < i ==> self@[j].0 != k,
            decreases self.entries@.len() - i,
        {
            assert(self@[i as int] == entry_view(self.entries@[i as int]));
            if self.entries[i].number == k {
                proof {
                    lemma_lookup_at(self@, i as int);
                }
                return Some(&self.entries[i].values);
            }
            i = i + 1;
        }
        proof {
            lemma_lookup_absent(self@, k);
        }
        None
    }

    /// The position of the first entry whose number is not below `k`.
    fn position(&self, k: usize) -> (i: usize)
        ensures
            i <= self@.len(),
            forall|j: int| 0 <= j < i ==> self@[j].0 < k,
            i < self@.len() ==> self@[i as int].0 >= k,
    {
        let mut i: usize = 0;
        while i < self.entries.len()
            invariant
                i <= self.entries@.len(),
                forall|j: int| 0 <= j < i ==> self@[j].0 < k,
            decreases self.entries@.len() - i,
        {
            if self.entries[i].number >= k {
                return i;
            }
            i = i + 1;
        }
        i
    }

    /// Sets the values of option number `k`, replacing any it had.
    pub fn insert(&mut self, k: usize, values: Vec<Vec<u8>>)
        ensures
            lookup(final(self)@, k) == Some(values_view(values)),
            forall|j: usize| j != k ==> lookup(final(self)@, j) == lookup(old(self)@, j),
    {
        proof {
            use_type_invariant(&*self);
        }
        let i = self.position(k);
        let ghost old_view = self@;
        let mut entries: Vec<OptionEntry> = Vec::new();
        std::mem::swap(&mut entries, &mut self.entries);
        assert(entries@.map_values(|e: OptionEntry| entry_view(e)) == old_view);
        if i < entries.len() && entries[i].number == k {
            entries.set(i, OptionEntry { number: k, values });
        } else {
            entries.insert(i, OptionEntry { number: k, values });
        }
        let ghost new_view = entries@.map_values(|e: OptionEntry| entry_view(e));
        proof {
            if i < old_view.len() && old_view[i as int].0 == k {
                assert(new_view =~= old_view.update(i as int, (k, values_view(values))));
            } else {
                assert(new_view =~= old_view.insert(i as int, (k, values_view(values))));
            }
            assert(sorted_numbers(new_view));
            assert(new_view[i as int] == (k, values_view(values)));
            lemma_lookup_at(new_view, i as int);
            assert forall|j: usize| j != k implies lookup(new_view, j) == lookup(old_view, j) by {
                lemma_lookup_moves(old_view, new_view, i as int, j, !(i < old_view.len() && old_view[i as int].0 == k));
            }
        }
        self.entries = entries;
    }

    /// Appends `value` to the values of option number `k`, creating the
    /// entry if the map has none.
    pub fn push_value(&mut self, k: usize, value: Vec<u8>)
        ensures
            lookup(final(self)@, k) == Some(
                match lookup(old(self)@, k) {
                    Some(vs) => vs.push(value@),
                    None => seq![value@],
                },
            ),
            forall|j: usize| j != k ==> lookup(final(self)@, j) == lookup(old(self)@, j),
    {
        proof {
            use_type_invariant(&*self);
        }
        let i = self.position(k);
        let ghost old_view = self@;
        let mut entries: Vec<OptionEntry> = Vec::new();
        std::mem::swap(&mut entries, &mut self.entries);
        assert(entries@.map_values(|e: OptionEntry| entry_view(e)) == old_view);
        let ghost new_values: Seq<Seq<u8>>;
        if i < entries.len() && entries[i].number == k {
            let mut entry = entries.remove(i);
            let ghost before = values_view(entry.values);
            entry.values.push(value);
            proof {
                new_values = values_view(entry.values);
                assert(new_values =~= before.push(value@));
                lemma_lookup_at(old_view, i as int);
            }
            entries.insert(i, entry);
        } else {
            let mut values: Vec<Vec<u8>> = Vec::new();
            values.push(value);
            proof {
                new_values = values_view(values);
                assert(new_values =~= seq![value@]);
                assert forall|j: int| 0 <= j < old_view.len() implies old_view[j].0 != k by {
                    if j >= i {
                        if j > i {
                            assert(old_view[i as int].0 < old_view[j].0);
                        }
                    }
                }
                lemma_lookup_absent(old_view, k);
            }
            entries.insert(i, OptionEntry { number: k, values });
        }
        let ghost new_view = entries@.map_values(|e: OptionEntry| entry_view(e));
        proof {
            if i < old_view.len() && old_view[i as int].0 == k {
                assert(new_view =~= old_view.update(i as int, (k, new_values)));
            } else {
                assert(new_view =~= old_view.insert(i as int, (k, new_values)));
            }
            assert(sorted_numbers(new_view));
            assert(new_view[i as int] == (k, new_values));
            lemma_lookup_at(new_view, i as int);
            assert forall|j: usize| j != k implies lookup(new_view, j) == lookup(old_view, j) by {
                lemma_lookup_moves(old_view, new_view, i as int, j, !(i < old_view.len() && old_view[i as int].0 == k));
            }
        }
        self.entries = entries;
    }

    /// Empties the values of option number `k`, if the map holds it; the
    /// number stays in the map with no values.
    pub fn clear_values(&mut self, k: usize)
        ensures
            lookup(final(self)@, k) == match lookup(old(self)@, k) {
                Some(_) => Some(Seq::<Seq<u8>>::empty()),
                None => None,
            },
            forall|j: usize| j != k ==> lookup(final(self)@, j) == lookup(old(self)@, j),
    {
        proof {
            use_type_invariant(&*self);
        }
        let i = self.position(k);
        if i < self.entries.len() && self.entries[i].number == k {
            proof {
                lemma_lookup_at(self@, i as int);
            }
            let empty: Vec<Vec<u8>> = Vec::new();
            assert(values_view(empty) =~= Seq::<Seq<u8>>::empty());
            self.insert(k, empty);
        } else {
            proof {
                let v = self@;
                assert forall|j: int| 0 <= j < v.len() implies v[j].0 != k by {
                    if j > i {
                        assert(v[i as int].0 < v[j].0);
                    }
                }
                lemma_lookup_absent(v, k);
            }
        }
    }
}

/// Replacing the entry at `i` (or, when `inserted`, inserting one there)
/// with an entry for another number leaves what `lookup` finds for `j`
/// unchanged.
proof fn lemma_lookup_moves(old_view: OptionsView, new_view: OptionsView, i: int, j: usize, inserted: bool)
    requires
        sorted_numbers(old_view),
        sorted_numbers(new_view),
        0 <= i < new_view.len(),
        new_view[i].0 != j,
        !inserted ==> i < old_view.len() && new_view == old_view.update(i, new_view[i])
            && old_view[i].0 == new_view[i].0,
        inserted ==> i <= old_view.len() && new_view == old_view.insert(i, new_view[i]),
    ensures
        lookup(new_view, j) == lookup(old_view, j),
{
    if lookup(old_view, j) is Some {
        lemma_lookup_some(old_view, j);
        let m = choose|m: int| 0 <= m < old_view.len() && old_view[m].0 == j
            && old_view[m].1 == lookup(old_view, j).unwrap();
        if !inserted {
            assert(m != i);
            assert(old_view.update(i, new_view[i])[m] == old_view[m]);
            assert(new_view[m] == old_view[m]);
            lemma_lookup_at(new_view, m);
            lemma_lookup_at(old_view, m);
        } else {
            let m2 = if m < i { m } else { m + 1 };
            assert(new_view.len() == old_view.len() + 1);
            assert(old_view.insert(i, new_view[i])[m2] == old_view[m]);
            assert(new_view[m2] == old_view[m]);
            lemma_lookup_at(new_view, m2);
            lemma_lookup_at(old_view, m);
        }
    } else {
        if lookup(new_view, j) is Some {
            lemma_lookup_some(new_view, j);
            let m = choose|m: int| 0 <= m < new_view.len() && new_view[m].0 == j
                && new_view[m].1 == lookup(new_view, j).unwrap();
            assert(m != i);
            if !inserted {
                assert(old_view.update(i, new_view[i])[m] == old_view[m]);
                assert(old_view[m] == new_view[m]);
                lemma_lookup_at(old_view, m);
            } else {
                let m2 = if m < i { m } else { m - 1 };
                assert(new_view.len() == old_view.len() + 1);
                assert(old_view.insert(i, new_view[i])[m] == old_view[m2]);
                assert(old_view[m2] == new_view[m]);
                lemma_lookup_at(old_view, m2);
            }
        }
    }
}

impl Clone for OptionMap {
    fn clone(&self) -> (r: OptionMap)
        ensures
            r@ == self@,
    {
        proof {
            use_type_invariant(self);
        }
        let mut entries: Vec<OptionEntry> = Vec::new();
        let mut i: usize = 0;
        while i < self.entries.len()
            invariant
                i <= self.entries@.len(),
                entries@.map_values(|e: OptionEntry| entry_view(e)) == self@.take(i as int),
            decreases self.entries@.len() - i,
        {
            let e = &self.entries[i];
            let mut values: Vec<Vec<u8>> = Vec::new();
            let mut j: usize = 0;
            while j < e.values.len()
                invariant
                    j <= e.values@.len(),
                    values_view(values) == values_view(e.values).take(j as int),
                decreases e.values@.len() - j,
            {
                let ghost old_vals = values;
                let item = slice_to_vec(e.values[j].as_slice());
                values.push(item);
                assert(values@ == old_vals@.push(item));
                assert(values_view(values) =~= values_view(old_vals).push(item@));
                assert(values_view(e.values)[j as int] == e.values@[j as int]@);
                j = j + 1;
                assert(values_view(values) =~= values_view(e.values).take(j as int));
            }
            assert(values_view(e.values).take(j as int) =~= values_view(e.values));
            let ghost before = entries@;
            let ne = OptionEntry { number: e.number, values };
            assert(entry_view(ne) == entry_view(*e));
            entries.push(ne);
            assert(entries@ == before.push(ne));
            assert(entries@.map_values(|e: OptionEntry| entry_view(e)) =~= before.map_values(|e: OptionEntry| entry_view(e)).push(entry_view(ne)));
            assert(self@[i as int] == entry_view(*e));
            assert(entries@.map_values(|e: OptionEntry| entry_view(e)) =~= self@.take(i + 1));
            i = i + 1;
        }
        assert(self@.take(i as int) =~= self@);
        OptionMap { entries }
    }
}

// ---- encoding ----

/// The 4-bit field that stands for a delta or a length `x`: the value itself
/// up to 12, 13 for a one-byte extension, 14 for a two-byte extension.
pub open spec fn nibble(x: nat) -> nat {
    if x <= 12 {
        x
    } else if x < 269 {
        13
    } else {
        14
    }
}

/// The extension bytes that follow the option header byte for a delta or a
/// length `x` (the two-byte form keeps the low 16 bits of `x - 269`).
pub open spec fn ext_bytes(x: nat) -> Seq<u8> {
    if x <= 12 {
        Seq::empty()
    } else if x < 269 {
        seq![(x - 13) as u8]
    } else {
        seq![(((x - 269) as nat / 256) % 256) as u8, ((x - 269) as nat % 256) as u8]
    }
}

/// The header of one option: the delta/length byte, then the delta
/// extension, then the length extension.
pub open spec fn option_header(delta: nat, len: nat) -> Seq<u8> {
    seq![(nibble(delta) * 16 + nibble(len)) as u8] + ext_bytes(delta) + ext_bytes(len)
}

/// The options of a map, one `(number, value)` pair per value, in order.
pub open spec fn flatten(s: OptionsView) -> Seq<(usize, Seq<u8>)>
    decreases s.len(),
{
    if s.len() == 0 {
        Seq::empty()
    } else {
        flatten(s.drop_last()) + pairs(s.last())
    }
}

/// The `(number, value)` pairs of one entry.
pub open spec fn pairs(e: (usize, Seq<Seq<u8>>)) -> Seq<(usize, Seq<u8>)> {
    e.1.map_values(|v: Seq<u8>| (e.0, v))
}

/// The number of the last option, or `prev` when there is none.
pub open spec fn last_number(flat: Seq<(usize, Seq<u8>)>, prev: nat) -> nat {
    if flat.len() == 0 {
        prev
    } else {
        flat.last().0 as nat
    }
}

/// The wire form of a list of options, each number written as its
/// difference from the one before (from `prev` for the first).
pub open spec fn encode_flat(flat: Seq<(usize, Seq<u8>)>, prev: nat) -> Seq<u8>
    decreases flat.len(),
{
    if flat.len() == 0 {
        Seq::empty()
    } else {
        option_header((flat[0].0 - prev) as nat, flat[0].1.len()) + flat[0].1 + encode_flat(
            flat.drop_first(),
            flat[0].0 as nat,
        )
    }
}

/// The wire form of an option map.
pub open spec fn encode_options(s: OptionsView) -> Seq<u8> {
    encode_flat(flatten(s), 0)
}

/// Encoding one more option appends its header and value.
pub proof fn lemma_encode_flat_push(flat: Seq<(usize, Seq<u8>)>, prev: nat, x: (usize, Seq<u8>))
    ensures
        encode_flat(flat.push(x), prev) == encode_flat(flat, prev) + option_header(
            (x.0 - last_number(flat, prev)) as nat,
            x.1.len(),
        ) + x.1,
    decreases flat.len(),
{
    if flat.len() == 0 {
        let f = flat.push(x);
        assert(f.drop_first() =~= Seq::<(usize, Seq<u8>)>::empty());
        assert(f[0] == x);
        assert(encode_flat(f.drop_first(), x.0 as nat) =~= Seq::<u8>::empty());
        assert(encode_flat(flat, prev) =~= Seq::<u8>::empty());
        assert(encode_flat(f, prev) =~= option_header((x.0 - prev) as nat, x.1.len()) + x.1);
    } else {
        let f = flat.push(x);
        assert(f.drop_first() =~= flat.drop_first().push(x));
        lemma_encode_flat_push(flat.drop_first(), flat[0].0 as nat, x);
        assert(last_number(flat.drop_first(), flat[0].0 as nat) == last_number(flat, prev));
        assert(encode_flat(f, prev) =~= encode_flat(flat, prev) + option_header(
            (x.0 - last_number(flat, prev)) as nat,
            x.1.len(),
        ) + x.1);
    }
}

/// Appends the bytes of `b` to `out`.
pub fn append_bytes(out: &mut Vec<u8>, b: &[u8])
    ensures
        final(out)@ == old(out)@ + b@,
{
    let mut i: usize = 0;
    while i < b.len()
        invariant
            i <= b@.len(),
            out@ == old(out)@ + b@.take(i as int),
        decreases b@.len() - i,
    {
        out.push(b[i]);
        i = i + 1;
        assert(out@ =~= old(out)@ + b@.take(i as int));
    }
    assert(b@.take(b@.len() as int) =~= b@);
}

/// Appends the option header for `delta` and `len` to `out`.
fn push_option_header(out: &mut Vec<u8>, delta: usize, len: usize)
    ensures
        final(out)@ == old(out)@ + option_header(delta as nat, len as nat),
{
    let dn: usize = if delta <= 12 { delta } else if delta < 269 { 13 } else { 14 };
    let ln: usize = if len <= 12 { len } else if len < 269 { 13 } else { 14 };
    out.push((dn * 16 + ln) as u8);
    if delta > 12 && delta < 269 {
        out.push((delta - 13) as u8);
    } else if delta >= 269 {
        let fix = delta - 269;
        out.push(((fix / 256) % 256) as u8);
        out.push((fix % 256) as u8);
    }
    if len > 12 && len < 269 {
        out.push((len - 13) as u8);
    } else if len >= 269 {
        let fix = len - 269;
        out.push(((fix / 256) % 256) as u8);
        out.push((fix % 256) as u8);
    }
    assert(final(out)@ =~= old(out)@ + option_header(delta as nat, len as nat));
}

impl OptionMap {
    /// The wire form of the options, in order of number.
    pub fn encode(&self) -> (out: Vec<u8>)
        ensures
            out@ == encode_options(self@),
    {
        proof {
            use_type_invariant(self);
        }
        let mut out: Vec<u8> = Vec::new();
        let mut prev: usize = 0;
        let n = self.entries.len();
        let ghost s = self@;
        let mut i: usize = 0;
        while i < n
            invariant
                s == self@,
                n == s.len(),
                sorted_numbers(s),
                i <= n,
                out@ == encode_flat(flatten(s.take(i as int)), 0),
                prev == last_number(flatten(s.take(i as int)), 0),
                forall|m: int| i <= m < n ==> prev <= s[m].0,
            decreases n - i,
        {
            let entry = &self.entries[i];
            assert(s[i as int] == entry_view(*entry));
            let number = entry.number;
            let ghost before = flatten(s.take(i as int));
            let ghost ps = pairs(s[i as int]);
            let mut j: usize = 0;
            while j < entry.values.len()
                invariant
                    s == self@,
                    n == s.len(),
                    sorted_numbers(s),
                    i < n,
                    entry == self.entries@[i as int],
                    number == entry.number,
                    s[i as int] == entry_view(*entry),
                    ps == pairs(s[i as int]),
                    j <= entry.values@.len(),
                    out@ == encode_flat(before + ps.take(j as int), 0),
                    prev == last_number(before + ps.take(j as int), 0),
                    prev <= number,
                    forall|m: int| i < m < n ==> prev <= s[m].0,
                decreases entry.values@.len() - j,
            {
                let v = &entry.values[j];
                let ghost acc = before + ps.take(j as int);
                assert(ps[j as int] == (number, v@));
                let delta = number - prev;
                push_option_header(&mut out, delta, v.len());
                append_bytes(&mut out, v.as_slice());
                proof {
                    lemma_encode_flat_push(acc, 0, (number, v@));
                    assert(before + ps.take(j + 1) =~= acc.push((number, v@)));
                    assert forall|m: int| i < m < n implies number <= s[m].0 by {
                        assert(s[i as int].0 < s[m].0);
                    }
                }
                prev = number;
                j = j + 1;
            }
            proof {
                assert(ps.take(j as int) =~= ps);
                assert(s.take(i + 1).drop_last() =~= s.take(i as int));
                assert(flatten(s.take(i + 1)) == before + ps);
            }
            i = i + 1;
        }
        assert(s.take(n as int) =~= s);
        out
    }
}

// ---- decoding ----

/// Why the options of a message could not be read.
#[derive(Debug, Clone, Copy, PartialEq, Eq, Structural)]
pub enum OptionsError {
    InvalidOptionDelta,
    InvalidOptionLength,
}

/// Reads the delta or length that the 4-bit field `nib` stands for, with its
/// extension bytes starting at `at`: the value and the position after it.
/// A field of 15 fails with `fifteen`.
pub open spec fn read_ext(buf: Seq<u8>, at: int, nib: nat, fifteen: OptionsError) -> Result<(nat, int), OptionsError> {
    if nib == 13 {
        if at >= buf.len() {
            Err(OptionsError::InvalidOptionLength)
        } else {
            Ok((buf[at] as nat + 13, at + 1))
        }
    } else if nib == 14 {
        if at + 1 >= buf.len() {
            Err(OptionsError::InvalidOptionLength)
        } else {
            Ok((buf[at] as nat * 256 + buf[at + 1] as nat + 269, at + 2))
        }
    } else if nib == 15 {
        Err(fifteen)
    } else {
        Ok((nib, at))
    }
}

/// What reading at `idx` gives: the end of the options (the end of the
/// buffer or the payload marker `0xFF`), a failure, or the next option with
/// its number, its value and the position after it.
pub enum OptionStep {
    End,
    Fail(OptionsError),
    Next(usize, Seq<u8>, int),
}

/// One step of reading options; `number` is the number of the option before.
#[verifier::opaque]
pub open spec fn decode_step(buf: Seq<u8>, idx: int, number: nat) -> OptionStep {
    if idx >= buf.len() || buf[idx] == 0xFF {
        OptionStep::End
    } else {
        let byte = buf[idx];
        match read_ext(buf, idx + 1, byte as nat / 16, OptionsError::InvalidOptionDelta) {
            Err(e) => OptionStep::Fail(e),
            Ok((delta, at)) => match read_ext(buf, at, byte as nat % 16, OptionsError::InvalidOptionLength) {
                Err(e) => OptionStep::Fail(e),
                Ok((len, at2)) => if number + delta > usize::MAX {
                    OptionStep::Fail(OptionsError::InvalidOptionDelta)
                } else if at2 + len > buf.len() {
                    OptionStep::Fail(OptionsError::InvalidOptionLength)
                } else {
                    OptionStep::Next((number + delta) as usize, buf.subrange(at2, at2 + len), at2 + len)
                },
            },
        }
    }
}

/// Puts `acc` in front of the options of a successful result.
pub open spec fn prepend(acc: Seq<(usize, Seq<u8>)>, r: Result<(Seq<(usize, Seq<u8>)>, int), OptionsError>) -> Result<(Seq<(usize, Seq<u8>)>, int), OptionsError> {
    match r {
        Ok((f, end)) => Ok((acc + f, end)),
        Err(e) => Err(e),
    }
}

/// Reads the options from `idx` on: the options in order and the position
/// where they end (the payload marker or the end of the buffer).
pub open spec fn decode_from(buf: Seq<u8>, idx: int, number: nat) -> Result<(Seq<(usize, Seq<u8>)>, int), OptionsError>
    decreases buf.len() - idx,
{
    match decode_step(buf, idx, number) {
        OptionStep::End => Ok((Seq::empty(), idx)),
        OptionStep::Fail(e) => Err(e),
        OptionStep::Next(n, v, next) => if next <= idx || next > buf.len() {
            Err(OptionsError::InvalidOptionLength)
        } else {
            prepend(seq![(n, v)], decode_from(buf, next, n as nat))
        },
    }
}

/// Whether the numbers of a list of options never decrease.
pub open spec fn nondecreasing(flat: Seq<(usize, Seq<u8>)>) -> bool {
    forall|i: int, j: int| 0 <= i < j < flat.len() ==> #[trigger] flat[i].0 <= #[trigger] flat[j].0
}

/// The map that adding the options in order builds: each value joins the
/// entry of its number, in the order read.
pub open spec fn group(flat: Seq<(usize, Seq<u8>)>) -> OptionsView
    decreases flat.len(),
{
    if flat.len() == 0 {
        Seq::empty()
    } else {
        let g = group(flat.drop_last());
        let x = flat.last();
        if g.len() > 0 && g.last().0 == x.0 {
            g.update(g.len() - 1, (x.0, g.last().1.push(x.1)))
        } else {
            g.push((x.0, seq![x.1]))
        }
    }
}

/// Grouping options whose numbers never decrease gives a sorted map whose
/// last number is the last option's.
pub proof fn lemma_group_sorted(flat: Seq<(usize, Seq<u8>)>)
    requires
        nondecreasing(flat),
    ensures
        sorted_numbers(group(flat)),
        flat.len() > 0 ==> group(flat).len() > 0 && group(flat).last().0 == flat.last().0,
        flat.len() == 0 ==> group(flat).len() == 0,
    decreases flat.len(),
{
    if flat.len() > 0 {
        let d = flat.drop_last();
        assert(nondecreasing(d)) by {
            assert forall|i: int, j: int| 0 <= i < j < d.len() implies #[trigger] d[i].0 <= #[trigger] d[j].0 by {
                assert(d[i] == flat[i]);
                assert(d[j] == flat[j]);
            }
        }
        lemma_group_sorted(d);
        if d.len() > 0 {
            assert(d.last() == flat[flat.len() - 2]);
        }
    }
}

/// Reads `x`'s delta or length field with its extension.
fn read_ext_exec(buf: &[u8], at: usize, nib: u8, fifteen: OptionsError) -> (r: Result<(usize, usize), OptionsError>)
    requires
        at <= buf@.len(),
        nib < 16,
    ensures
        match read_ext(buf@, at as int, nib as nat, fifteen) {
            Ok((v, next)) => r == Ok::<(usize, usize), OptionsError>((v as usize, next as usize)) && next <= buf@.len(),
            Err(e) => r == Err::<(usize, usize), OptionsError>(e),
        },
{
    if nib == 13 {
        if at >= buf.len() {
            return Err(OptionsError::InvalidOptionLength);
        }
        Ok((buf[at] as usize + 13, at + 1))
    } else if nib == 14 {
        if at >= buf.len() || at + 1 >= buf.len() {
            return Err(OptionsError::InvalidOptionLength);
        }
        Ok((buf[at] as usize * 256 + buf[at + 1] as usize + 269, at + 2))
    } else if nib == 15 {
        Err(fifteen)
    } else {
        Ok((nib as usize, at))
    }
}

impl OptionMap {
    /// Reads options from `buf` starting at `start`, until the payload marker
    /// or the end of the buffer: the map they build and the position where
    /// they end.
    pub fn decode(buf: &[u8], start: usize) -> (r: Result<(OptionMap, usize), OptionsError>)
        requires
            start <= buf@.len(),
        ensures
            match decode_from(buf@, start as int, 0) {
                Ok((flat, end)) => r matches Ok((m, e)) && m@ == group(flat) && e == end,
                Err(err) => r matches Err(e2) && e2 == err,
            },
    {
        reveal(decode_step);
        let mut entries: Vec<OptionEntry> = Vec::new();
        let mut idx = start;
        let mut number: usize = 0;
        let ghost mut acc: Seq<(usize, Seq<u8>)> = Seq::empty();
        loop
            invariant
                start <= idx <= buf@.len(),
                decode_from(buf@, start as int, 0) == prepend(acc, decode_from(buf@, idx as int, number as nat)),
                entries@.map_values(|e: OptionEntry| entry_view(e)) == group(acc),
                nondecreasing(acc),
                number == last_number(acc, 0),
                forall|i: int| 0 <= i < acc.len() ==> acc[i].0 <= number,
            decreases buf@.len() - idx,
        {
            proof {
                reveal(decode_step);
            }
            let ghost cur = decode_from(buf@, idx as int, number as nat);
            if idx >= buf.len() || buf[idx] == 0xFF {
                proof {
                    assert(acc + Seq::<(usize, Seq<u8>)>::empty() =~= acc);
                    lemma_group_sorted(acc);
                }
                let m = OptionMap { entries };
                return Ok((m, idx));
            }
            let byte = buf[idx];
            let d = read_ext_exec(buf, idx + 1, byte / 16, OptionsError::InvalidOptionDelta);
            let (delta, at) = match d {
                Ok(p) => p,
                Err(e) => {
                    return Err(e);
                },
            };
            let l = read_ext_exec(buf, at, byte % 16, OptionsError::InvalidOptionLength);
            let (len, at2) = match l {
                Ok(p) => p,
                Err(e) => {
                    return Err(e);
                },
            };
            let new_number = match number.checked_add(delta) {
                Some(x) => x,
                None => {
                    return Err(OptionsError::InvalidOptionDelta);
                },
            };
            if len > buf.len() - at2 {
                return Err(OptionsError::InvalidOptionLength);
            }
            let end = at2 + len;
            let value = slice_to_vec(slice_subrange(buf, at2, end));
            let ghost old_acc = acc;
            let ghost old_group = group(acc);
            let elen = entries.len();
            if elen > 0 && entries[elen - 1].number == new_number {
                let mut last = entries.pop().unwrap();
                let ghost before = values_view(last.values);
                last.values.push(value);
                proof {
                    assert(values_view(last.values) =~= before.push(buf@.subrange(at2 as int, end as int)));
                }
                entries.push(last);
            } else {
                let mut values: Vec<Vec<u8>> = Vec::new();
                values.push(value);
                proof {
                    assert(values_view(values) =~= seq![buf@.subrange(at2 as int, end as int)]);
                }
                entries.push(OptionEntry { number: new_number, values });
            }
            proof {
                let x = (new_number, buf@.subrange(at2 as int, end as int));
                acc = old_acc.push(x);
                assert(acc.drop_last() =~= old_acc);
                assert(acc.last() == x);
                lemma_group_sorted(old_acc);
                assert(entries@.map_values(|e: OptionEntry| entry_view(e)) =~= group(acc));
                assert(nondecreasing(acc)) by {
                    assert forall|i: int, j: int| 0 <= i < j < acc.len() implies #[trigger] acc[i].0 <= #[trigger] acc[j].0 by {
                        if j == acc.len() - 1 {
                            assert(acc[i] == old_acc[i]);
                        } else {
                            assert(acc[i] == old_acc[i]);
                            assert(acc[j] == old_acc[j]);
                        }
                    }
                }
                assert forall|i: int| 0 <= i < acc.len() implies acc[i].0 <= new_number by {
                    if i < old_acc.len() {
                        assert(acc[i] == old_acc[i]);
                    }
                }
                assert(prepend(old_acc, prepend(seq![x], decode_from(buf@, end as int, new_number as nat)))
                    == prepend(acc, decode_from(buf@, end as int, new_number as nat))) by {
                    assert(old_acc + seq![x] =~= acc);
                    match decode_from(buf@, end as int, new_number as nat) {
                        Ok((f, e)) => {
                            assert(old_acc + (seq![x] + f) =~= acc + f);
                        },
                        Err(_) => {},
                    }
                }
            }
            idx = end;
            number = new_number;
        }
    }
}

// ---- the roundtrip law ----

/// The largest delta or length that the option header can carry.
pub open spec fn max_ext() -> nat {
    65804
}

/// The number after option `i` is at least its number and at most
/// `max_ext()` above it.
pub open spec fn gap_ok(flat: Seq<(usize, Seq<u8>)>, i: int) -> bool {
    flat[i].0 <= flat[i + 1].0 <= flat[i].0 + max_ext()
}

/// Whether a list of options can be written and read back unchanged when the
/// option before them has number `prev`: numbers never decrease, no step
/// between numbers and no value length exceeds `max_ext()`.
pub open spec fn encodable(flat: Seq<(usize, Seq<u8>)>, prev: nat) -> bool {
    &&& forall|i: int| 0 <= i < flat.len() ==> (#[trigger] flat[i]).1.len() <= max_ext()
    &&& forall|i: int| 0 <= i < flat.len() - 1 ==> #[trigger] gap_ok(flat, i)
    &&& flat.len() > 0 ==> prev <= flat[0].0 <= prev + max_ext()
}

/// Whether an option map can be written and read back unchanged: every
/// number has at least one value, no value is longer than `max_ext()`, the
/// first number and every step between numbers are at most `max_ext()`.
pub open spec fn encodable_options(s: OptionsView) -> bool {
    &&& forall|i: int| 0 <= i < s.len() ==> (#[trigger] s[i]).1.len() > 0
    &&& forall|i: int, j: int| 0 <= i < s.len() && 0 <= j < s[i].1.len() ==> (#[trigger] s[i].1[j]).len() <= max_ext()
    &&& s.len() > 0 ==> s[0].0 <= max_ext()
    &&& forall|i: int| 0 <= i < s.len() - 1 ==> #[trigger] map_gap_ok(s, i)
}

/// The number after entry `i` is at most `max_ext()` above its number.
pub open spec fn map_gap_ok(s: OptionsView, i: int) -> bool {
    s[i + 1].0 <= s[i].0 + max_ext()
}

/// Reading one option header and value that were written with
/// `option_header` gives them back.
proof fn lemma_decode_step_encoded(pre: Seq<u8>, delta: nat, v: Seq<u8>, rest: Seq<u8>, prev: nat)
    requires
        delta <= max_ext(),
        v.len() <= max_ext(),
        prev + delta <= usize::MAX,
    ensures
        decode_step(pre + option_header(delta, v.len()) + v + rest, pre.len() as int, prev) == OptionStep::Next(
            (prev + delta) as usize,
            v,
            (pre.len() + option_header(delta, v.len()).len() + v.len()) as int,
        ),
{
    reveal(decode_step);
    let h = option_header(delta, v.len());
    let buf = pre + h + v + rest;
    let idx = pre.len() as int;
    let dn = nibble(delta);
    let ln = nibble(v.len());
    assert(buf[idx] == h[0]);
    assert(h[0] == (dn * 16 + ln) as u8);
    assert(dn <= 14 && ln <= 14);
    assert(buf[idx] as nat / 16 == dn);
    assert(buf[idx] as nat % 16 == ln);
    let de = ext_bytes(delta);
    let le = ext_bytes(v.len());
    assert(h == seq![(dn * 16 + ln) as u8] + de + le);
    assert forall|k: int| 0 <= k < de.len() implies buf[idx + 1 + k] == de[k] by {
        assert(buf[idx + 1 + k] == h[1 + k]);
    }
    assert forall|k: int| 0 <= k < le.len() implies buf[idx + 1 + de.len() + k] == le[k] by {
        assert(buf[idx + 1 + de.len() + k] == h[1 + de.len() + k]);
    }
    assert(read_ext(buf, idx + 1, dn, OptionsError::InvalidOptionDelta) == Ok::<(nat, int), OptionsError>((delta, idx + 1 + de.len()))) by {
        if delta > 12 && delta < 269 {
            assert(buf[idx + 1] == de[0]);
        } else if delta >= 269 {
            assert(buf[idx + 1] == de[0]);
            assert(buf[idx + 2] == de[1]);
        }
    }
    let at = idx + 1 + de.len();
    assert(read_ext(buf, at, ln, OptionsError::InvalidOptionLength) == Ok::<(nat, int), OptionsError>((v.len(), at + le.len()))) by {
        if v.len() > 12 && v.len() < 269 {
            assert(buf[at] == le[0]);
        } else if v.len() >= 269 {
            assert(buf[at] == le[0]);
            assert(buf[at + 1] == le[1]);
        }
    }
    let at2 = at + le.len();
    assert(at2 == idx + h.len());
    assert(buf.subrange(at2, at2 + v.len()) =~= v);
}

/// A step that reads an option continues reading after it.
proof fn lemma_decode_from_next(buf: Seq<u8>, idx: int, prev: nat, x: (usize, Seq<u8>), next: int)
    requires
        decode_step(buf, idx, prev) == OptionStep::Next(x.0, x.1, next),
        idx < next <= buf.len(),
    ensures
        decode_from(buf, idx, prev) == prepend(seq![x], decode_from(buf, next, x.0 as nat)),
{
}

/// Reading at the end of the buffer or at a payload marker ends the options.
proof fn lemma_decode_from_end(buf: Seq<u8>, idx: int, prev: nat)
    requires
        idx >= buf.len() || buf[idx] == 0xFF,
    ensures
        decode_from(buf, idx, prev) == Ok::<(Seq<(usize, Seq<u8>)>, int), OptionsError>((Seq::empty(), idx)),
{
    reveal(decode_step);
}

/// The options after the first of an encodable list are encodable after it.
proof fn lemma_encodable_rest(flat: Seq<(usize, Seq<u8>)>, prev: nat)
    requires
        encodable(flat, prev),
        flat.len() > 0,
    ensures
        encodable(flat.drop_first(), flat[0].0 as nat),
        flat[0].1.len() <= max_ext(),
        prev <= flat[0].0 <= prev + max_ext(),
{
    let d = flat.drop_first();
    assert forall|i: int| 0 <= i < d.len() implies (#[trigger] d[i]).1.len() <= max_ext() by {
        assert(d[i] == flat[i + 1]);
    }
    assert forall|i: int| 0 <= i < d.len() - 1 implies #[trigger] gap_ok(d, i) by {
        assert(gap_ok(flat, i + 1));
        assert(d[i] == flat[i + 1]);
        assert(d[i + 1] == flat[i + 2]);
    }
    if d.len() > 0 {
        assert(gap_ok(flat, 0));
    }
    assert(flat[0] == flat[0]);
}

/// Reading options written by `encode_flat` gives them back, and stops where
/// they end: at the end of the buffer or at a payload marker.
pub proof fn lemma_decode_encoded(pre: Seq<u8>, flat: Seq<(usize, Seq<u8>)>, prev: nat, tail: Seq<u8>)
    requires
        encodable(flat, prev),
        tail.len() == 0 || tail[0] == 0xFF,
    ensures
        decode_from(pre + encode_flat(flat, prev) + tail, pre.len() as int, prev) == Ok::<(Seq<(usize, Seq<u8>)>, int), OptionsError>(
            (flat, (pre.len() + encode_flat(flat, prev).len()) as int),
        ),
    decreases flat.len(),
{
    let buf = pre + encode_flat(flat, prev) + tail;
    let idx = pre.len() as int;
    if flat.len() == 0 {
        assert(buf =~= pre + tail);
        if tail.len() > 0 {
            assert(buf[idx] == tail[0]);
        }
        lemma_decode_from_end(buf, idx, prev);
        assert(flat =~= Seq::<(usize, Seq<u8>)>::empty());
    } else {
        let x = flat[0];
        let d = flat.drop_first();
        lemma_encodable_rest(flat, prev);
        let delta = (x.0 - prev) as nat;
        let h = option_header(delta, x.1.len());
        let rest = encode_flat(d, x.0 as nat);
        assert(encode_flat(flat, prev) == h + x.1 + rest);
        let pre2 = pre + h + x.1;
        assert(buf =~= pre + h + x.1 + (rest + tail));
        lemma_decode_step_encoded(pre, delta, x.1, rest + tail, prev);
        assert((prev + delta) as usize == x.0);
        let next = pre2.len() as int;
        assert(buf =~= pre2 + rest + tail);
        lemma_decode_from_next(buf, idx, prev, x, next);
        lemma_decode_encoded(pre2, d, x.0 as nat, tail);
        assert(seq![x] + d =~= flat);
    }
}

/// The options of a sorted map, grouped again, are the map.
proof fn lemma_group_pairs(f: Seq<(usize, Seq<u8>)>, n: usize, vs: Seq<Seq<u8>>)
    requires
        group(f).len() == 0 || group(f).last().0 < n,
        vs.len() > 0,
    ensures
        group(f + pairs((n, vs))) == group(f).push((n, vs)),
    decreases vs.len(),
{
    let p = pairs((n, vs));
    let vs2 = vs.drop_last();
    let p2 = pairs((n, vs2));
    assert(f + p =~= (f + p2).push((n, vs.last())));
    assert((f + p).drop_last() =~= f + p2);
    assert((f + p).last() == (n, vs.last()));
    if vs2.len() == 0 {
        assert(f + p2 =~= f);
        assert(vs =~= seq![vs.last()]);
    } else {
        lemma_group_pairs(f, n, vs2);
        assert(vs2.push(vs.last()) =~= vs);
        let g = group(f);
        let g2 = g.push((n, vs2));
        assert(g2.update(g2.len() - 1, (n, g2.last().1.push(vs.last()))) =~= g.push((n, vs)));
    }
}

/// Flattening a sorted map with no empty entries and grouping again gives
/// the map back; the flattened options keep the map's gaps.
pub proof fn lemma_flatten_group(s: OptionsView)
    requires
        sorted_numbers(s),
        forall|i: int| 0 <= i < s.len() ==> (#[trigger] s[i]).1.len() > 0,
    ensures
        group(flatten(s)) == s,
        s.len() > 0 ==> flatten(s).len() > 0 && flatten(s).last().0 == s.last().0,
        s.len() == 0 ==> flatten(s).len() == 0,
    decreases s.len(),
{
    if s.len() > 0 {
        let d = s.drop_last();
        assert forall|i: int| 0 <= i < d.len() implies (#[trigger] d[i]).1.len() > 0 by {
            assert(d[i] == s[i]);
        }
        assert(sorted_numbers(d)) by {
            assert forall|i: int, j: int| 0 <= i < j < d.len() implies #[trigger] d[i].0 < #[trigger] d[j].0 by {
                assert(d[i] == s[i]);
                assert(d[j] == s[j]);
            }
        }
        lemma_flatten_group(d);
        if d.len() > 0 {
            assert(d.last() == s[s.len() - 2]);
        }
        lemma_group_pairs(flatten(d), s.last().0, s.last().1);
        assert(d.push(s.last()) =~= s);
        let p = pairs(s.last());
        assert(p.last() == (s.last().0, s.last().1.last()));
    }
}

/// The flattened options of an encodable map can be encoded.
proof fn lemma_flatten_encodable(s: OptionsView)
    requires
        sorted_numbers(s),
        encodable_options(s),
    ensures
        encodable(flatten(s), 0),
        s.len() > 0 ==> flatten(s).len() > 0 && flatten(s).last().0 == s.last().0,
    decreases s.len(),
{
    if s.len() > 0 {
        let d = s.drop_last();
        assert(sorted_numbers(d)) by {
            assert forall|i: int, j: int| 0 <= i < j < d.len() implies #[trigger] d[i].0 < #[trigger] d[j].0 by {
                assert(d[i] == s[i]);
                assert(d[j] == s[j]);
            }
        }
        assert(encodable_options(d)) by {
            assert forall|i: int| 0 <= i < d.len() implies (#[trigger] d[i]).1.len() > 0 by {
                assert(d[i] == s[i]);
            }
            assert forall|i: int, j: int| 0 <= i < d.len() && 0 <= j < d[i].1.len() implies (#[trigger] d[i].1[j]).len() <= max_ext() by {
                assert(d[i] == s[i]);
            }
            if d.len() > 0 {
                assert(d[0] == s[0]);
            }
            assert forall|i: int| 0 <= i < d.len() - 1 implies #[trigger] map_gap_ok(d, i) by {
                assert(map_gap_ok(s, i));
                assert(d[i] == s[i]);
                assert(d[i + 1] == s[i + 1]);
            }
        }
        lemma_flatten_encodable(d);
        let f = flatten(d);
        let last = s.last();
        let p = pairs(last);
        let g = flatten(s);
        assert(g == f + p);
        assert(last.1.len() > 0);
        assert forall|i: int| 0 <= i < g.len() implies (#[trigger] g[i]).1.len() <= max_ext() by {
            if i >= f.len() {
                assert(g[i] == p[i - f.len()]);
                assert(s[s.len() - 1].1[i - f.len()].len() <= max_ext());
            } else {
                assert(g[i] == f[i]);
            }
        }
        if d.len() > 0 {
            assert(d.last() == s[s.len() - 2]);
            assert(s[s.len() - 2].0 < s[s.len() - 1].0);
            assert(map_gap_ok(s, s.len() - 2));
            assert(s[s.len() - 1].0 <= s[s.len() - 2].0 + max_ext());
        } else {
            assert(s[0] == last);
        }
        assert forall|i: int| 0 <= i < g.len() - 1 implies #[trigger] gap_ok(g, i) by {
            if i + 1 < f.len() {
                assert(gap_ok(f, i));
                assert(g[i] == f[i]);
                assert(g[i + 1] == f[i + 1]);
            } else if i + 1 == f.len() {
                assert(g[i] == f.last());
                assert(g[i + 1] == p[0]);
            } else {
                assert(g[i] == p[i - f.len()]);
                assert(g[i + 1] == p[i + 1 - f.len()]);
            }
        }
        if f.len() == 0 {
            assert(g[0] == p[0]);
        } else {
            assert(g[0] == f[0]);
        }
    }
}

/// Writing an option map and reading the bytes back (followed by nothing or
/// by a payload marker) gives the same map, and reading stops where the
/// options end.
pub proof fn lemma_options_roundtrip(pre: Seq<u8>, s: OptionsView, tail: Seq<u8>)
    requires
        sorted_numbers(s),
        encodable_options(s),
        tail.len() == 0 || tail[0] == 0xFF,
    ensures
        decode_from(pre + encode_options(s) + tail, pre.len() as int, 0) == Ok::<(Seq<(usize, Seq<u8>)>, int), OptionsError>(
            (flatten(s), (pre.len() + encode_options(s).len()) as int),
        ),
        group(flatten(s)) == s,
{
    lemma_flatten_encodable(s);
    lemma_decode_encoded(pre, flatten(s), 0, tail);
    lemma_flatten_group(s);
}

} // verus!
