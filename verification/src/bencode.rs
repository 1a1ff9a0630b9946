//! Canonical bencode encoding: byte strings, integers, lists and dictionaries
//! whose keys are emitted in ascending byte order.

use vstd::prelude::*;

verus! {

/// Compares the suffixes of `a` and `b` that start at `i`, byte by byte.
pub open spec fn lex_lt_from(a: Seq<u8>, b: Seq<u8>, i: int) -> bool
    decreases a.len() - i,
{
    if i >= b.len() {
        false
    } else if i >= a.len() {
        true
    } else if a[i] != b[i] {
        a[i] < b[i]
    } else {
        lex_lt_from(a, b, i + 1)
    }
}

/// `a` comes strictly before `b` in the order of raw bytes.
pub open spec fn lex_lt(a: Seq<u8>, b: Seq<u8>) -> bool {
    lex_lt_from(a, b, 0)
}

/// No key comes before itself.
pub proof fn lemma_lex_irreflexive(a: Seq<u8>, i: int)
    requires
        0 <= i,
    ensures
        !lex_lt_from(a, a, i),
    decreases a.len() - i,
{
    if i < a.len() {
        lemma_lex_irreflexive(a, i + 1);
    }
}

/// If `a` comes before `b` and `b` before `c`, then `a` comes before `c`.
pub proof fn lemma_lex_transitive(a: Seq<u8>, b: Seq<u8>, c: Seq<u8>, i: int)
    requires
        0 <= i,
        lex_lt_from(a, b, i),
        lex_lt_from(b, c, i),
    ensures
        lex_lt_from(a, c, i),
    decreases a.len() - i,
{
    if i < a.len() && i < b.len() && i < c.len() && a[i] == b[i] && b[i] == c[i] {
        lemma_lex_transitive(a, b, c, i + 1);
    }
}

/// Two keys of which neither comes before the other are the same from `i` on.
pub proof fn lemma_lex_total(a: Seq<u8>, b: Seq<u8>, i: int)
    requires
        0 <= i <= a.len(),
        i <= b.len(),
        !lex_lt_from(a, b, i),
        !lex_lt_from(b, a, i),
    ensures
        a.len() == b.len(),
        forall|j: int| i <= j < a.len() ==> a[j] == b[j],
    decreases a.len() - i,
{
    if i < a.len() && i < b.len() {
        lemma_lex_total(a, b, i + 1);
    }
}

/// How two keys stand to each other in the order of raw bytes.
#[derive(Clone, Copy, Debug, PartialEq, Eq, Structural)]
pub enum KeyOrder {
    Before,
    Same,
    After,
}

/// Orders two keys by their raw bytes.
pub fn order_keys(a: &[u8], b: &[u8]) -> (r: KeyOrder)
    ensures
        r == KeyOrder::Before <==> lex_lt(a@, b@),
        r == KeyOrder::Same <==> a@ == b@,
        r == KeyOrder::After <==> lex_lt(b@, a@),
{
    let mut i: usize = 0;
    while i < a.len() && i < b.len()
        invariant
            i <= a.len(),
            i <= b.len(),
            forall|j: int| 0 <= j < i ==> a@[j] == b@[j],
            lex_lt(a@, b@) == lex_lt_from(a@, b@, i as int),
            lex_lt(b@, a@) == lex_lt_from(b@, a@, i as int),
        decreases a.len() - i,
    {
        if a[i] < b[i] {
            proof {
                lemma_lex_irreflexive(a@, 0);
            }
            return KeyOrder::Before;
        }
        if a[i] > b[i] {
            proof {
                lemma_lex_irreflexive(a@, 0);
            }
            return KeyOrder::After;
        }
        i += 1;
    }
    proof {
        lemma_lex_irreflexive(a@, 0);
    }
    if i < b.len() {
        KeyOrder::Before
    } else if i < a.len() {
        KeyOrder::After
    } else {
        assert(a@ =~= b@);
        KeyOrder::Same
    }
}


/// The decimal digits of `n` in ASCII, most significant first.
pub open spec fn decimal_digits(n: nat) -> Seq<u8>
    decreases n,
{
    if n < 10 {
        seq![(48 + n) as u8]
    } else {
        decimal_digits(n / 10).push((48 + n % 10) as u8)
    }
}

/// The decimal text of an integer: a minus sign for a negative one, then its digits.
pub open spec fn integer_text(v: int) -> Seq<u8> {
    if v < 0 {
        seq![45u8] + decimal_digits((-v) as nat)
    } else {
        decimal_digits(v as nat)
    }
}

/// An integer as `i<value>e`.
pub open spec fn integer_encoding(v: int) -> Seq<u8> {
    seq![105u8] + integer_text(v) + seq![101u8]
}

/// A byte string as `<length>:<bytes>`.
pub open spec fn bytes_encoding(b: Seq<u8>) -> Seq<u8> {
    decimal_digits(b.len()) + seq![58u8] + b
}

/// The given encoded items one after the other.
pub open spec fn concat_items(items: Seq<Seq<u8>>) -> Seq<u8>
    decreases items.len(),
{
    if items.len() == 0 {
        Seq::empty()
    } else {
        concat_items(items.drop_last()) + items.last()
    }
}

/// A list of already encoded items as `l<items>e`.
pub open spec fn list_encoding(items: Seq<Seq<u8>>) -> Seq<u8> {
    seq![108u8] + concat_items(items) + seq![101u8]
}

/// Each entry as its key, encoded as a byte string, followed by its encoded value.
pub open spec fn concat_entries(entries: Seq<(Seq<u8>, Seq<u8>)>) -> Seq<u8>
    decreases entries.len(),
{
    if entries.len() == 0 {
        Seq::empty()
    } else {
        concat_entries(entries.drop_last()) + bytes_encoding(entries.last().0)
            + entries.last().1
    }
}

/// The entries stand in strictly ascending order of their keys.
pub open spec fn strictly_sorted(entries: Seq<(Seq<u8>, Seq<u8>)>) -> bool {
    forall|i: int, j: int| 0 <= i < j < entries.len() ==> lex_lt(entries[i].0, entries[j].0)
}

/// Some entry has the key `k`.
pub open spec fn has_key(entries: Seq<(Seq<u8>, Seq<u8>)>, k: Seq<u8>) -> bool {
    exists|i: int| 0 <= i < entries.len() && #[trigger] entries[i].0 == k
}

/// The place of an entry with the key `k`.
pub open spec fn key_index(entries: Seq<(Seq<u8>, Seq<u8>)>, k: Seq<u8>) -> int {
    choose|i: int| 0 <= i < entries.len() && #[trigger] entries[i].0 == k
}

/// The map from keys to encoded values that the entries hold.
pub open spec fn entries_map(entries: Seq<(Seq<u8>, Seq<u8>)>) -> Map<Seq<u8>, Seq<u8>> {
    Map::new(|k: Seq<u8>| has_key(entries, k), |k: Seq<u8>| entries[key_index(entries, k)].1)
}

/// The strictly sorted sequence of entries that holds exactly the pairs of `m`.
pub open spec fn canonical_entries(m: Map<Seq<u8>, Seq<u8>>) -> Seq<(Seq<u8>, Seq<u8>)> {
    choose|s: Seq<(Seq<u8>, Seq<u8>)>| strictly_sorted(s) && entries_map(s) == m
}

/// A dictionary as `d<entries>e`, the entries in ascending order of their keys.
pub open spec fn dict_encoding(m: Map<Seq<u8>, Seq<u8>>) -> Seq<u8> {
    seq![100u8] + concat_entries(canonical_entries(m)) + seq![101u8]
}

/// In a strictly sorted sequence the map gives each entry's value at its key.
pub proof fn lemma_map_lookup(entries: Seq<(Seq<u8>, Seq<u8>)>, i: int)
    requires
        strictly_sorted(entries),
        0 <= i < entries.len(),
    ensures
        entries_map(entries).dom().contains(entries[i].0),
        entries_map(entries)[entries[i].0] == entries[i].1,
{
    let k = entries[i].0;
    assert(has_key(entries, k));
    let j = key_index(entries, k);
    lemma_lex_irreflexive(k, 0);
    assert(j == i) by {
        if j < i {
            assert(lex_lt(entries[j].0, entries[i].0));
        } else if i < j {
            assert(lex_lt(entries[i].0, entries[j].0));
        }
    }
}

/// Two strictly sorted sequences that hold the same map are the same sequence:
/// the order in which a dictionary was filled leaves no trace in it.
pub proof fn lemma_canonical_unique(a: Seq<(Seq<u8>, Seq<u8>)>, b: Seq<(Seq<u8>, Seq<u8>)>)
    requires
        strictly_sorted(a),
        strictly_sorted(b),
        entries_map(a) == entries_map(b),
    ensures
        a == b,
    decreases a.len(),
{
    if a.len() == 0 {
        if b.len() > 0 {
            lemma_map_lookup(b, 0);
            assert(has_key(a, b[0].0));
        }
        assert(a =~= b);
    } else if b.len() == 0 {
        lemma_map_lookup(a, 0);
        assert(has_key(b, a[0].0));
    } else {
        let n = a.len() - 1;
        let m = b.len() - 1;
        // the greatest keys agree
        lemma_map_lookup(a, n);
        lemma_map_lookup(b, m);
        assert(has_key(b, a[n].0));
        assert(has_key(a, b[m].0));
        let j = key_index(b, a[n].0);
        let i = key_index(a, b[m].0);
        lemma_lex_irreflexive(a[n].0, 0);
        if j < m {
            assert(lex_lt(b[j].0, b[m].0));
            if i < n {
                assert(lex_lt(a[i].0, a[n].0));
                lemma_lex_transitive(a[n].0, b[m].0, a[n].0, 0);
            }
        }
        assert(j == m);
        assert(a[n] == b[m]);
        let a0 = a.drop_last();
        let b0 = b.drop_last();
        assert(strictly_sorted(a0));
        assert(strictly_sorted(b0));
        assert forall|k: Seq<u8>| has_key(a0, k) implies has_key(b0, k) && entries_map(a0)[k]
            == entries_map(b0)[k] by {
            lemma_rest_lookup(a, b, k);
        }
        assert forall|k: Seq<u8>| has_key(b0, k) implies has_key(a0, k) by {
            lemma_rest_lookup(b, a, k);
        }
        assert(entries_map(a0) =~= entries_map(b0));
        lemma_canonical_unique(a0, b0);
        assert(a =~= a0.push(a[n]));
        assert(b =~= b0.push(b[m]));
    }
}

/// A key of `a` below its last one is a key of `b` below its last one, with the same value.
proof fn lemma_rest_lookup(a: Seq<(Seq<u8>, Seq<u8>)>, b: Seq<(Seq<u8>, Seq<u8>)>, k: Seq<u8>)
    requires
        strictly_sorted(a),
        strictly_sorted(b),
        entries_map(a) == entries_map(b),
        a.len() > 0,
        b.len() > 0,
        a.last() == b.last(),
        has_key(a.drop_last(), k),
    ensures
        has_key(b.drop_last(), k),
        entries_map(a.drop_last())[k] == entries_map(b.drop_last())[k],
{
    let a0 = a.drop_last();
    let b0 = b.drop_last();
    let i = key_index(a0, k);
    assert(a0[i] == a[i]);
    assert(strictly_sorted(a0));
    assert(strictly_sorted(b0));
    lemma_map_lookup(a0, i);
    lemma_map_lookup(a, i);
    assert(has_key(b, k));
    let j = key_index(b, k);
    lemma_map_lookup(b, j);
    assert(lex_lt(a[i].0, a.last().0));
    lemma_lex_irreflexive(k, 0);
    assert(j < b.len() - 1);
    assert(b0[j] == b[j]);
    assert(has_key(b0, k));
    lemma_map_lookup(b0, j);
}

/// The canonical entries of the map that a strictly sorted sequence holds are that sequence.
pub proof fn lemma_canonical_entries(entries: Seq<(Seq<u8>, Seq<u8>)>)
    requires
        strictly_sorted(entries),
    ensures
        canonical_entries(entries_map(entries)) == entries,
{
    let m = entries_map(entries);
    let c = canonical_entries(m);
    assert(strictly_sorted(entries) && entries_map(entries) == m);
    lemma_canonical_unique(c, entries);
}


/// Two insertions under different keys commute: the encoding of a dictionary
/// does not depend on the order in which its fields were inserted.
pub proof fn lemma_insertion_order(
    m: Map<Seq<u8>, Seq<u8>>,
    k1: Seq<u8>,
    v1: Seq<u8>,
    k2: Seq<u8>,
    v2: Seq<u8>,
)
    requires
        k1 != k2,
    ensures
        dict_encoding(m.insert(k1, v1).insert(k2, v2)) == dict_encoding(
            m.insert(k2, v2).insert(k1, v1),
        ),
{
    assert(m.insert(k1, v1).insert(k2, v2) =~= m.insert(k2, v2).insert(k1, v1));
}

/// A dictionary of three keys is encoded with its keys in ascending order,
/// whether they were inserted in that order or in the reverse one.
pub proof fn lemma_three_keys_in_order(
    k1: Seq<u8>,
    v1: Seq<u8>,
    k2: Seq<u8>,
    v2: Seq<u8>,
    k3: Seq<u8>,
    v3: Seq<u8>,
)
    requires
        lex_lt(k1, k2),
        lex_lt(k2, k3),
    ensures
        dict_encoding(Map::<Seq<u8>, Seq<u8>>::empty().insert(k1, v1).insert(k2, v2).insert(k3, v3))
            == seq![100u8] + bytes_encoding(k1) + v1 + bytes_encoding(k2) + v2 + bytes_encoding(k3)
            + v3 + seq![101u8],
        dict_encoding(Map::<Seq<u8>, Seq<u8>>::empty().insert(k3, v3).insert(k2, v2).insert(k1, v1))
            == seq![100u8] + bytes_encoding(k1) + v1 + bytes_encoding(k2) + v2 + bytes_encoding(k3)
            + v3 + seq![101u8],
{
    let empty = Map::<Seq<u8>, Seq<u8>>::empty();
    let m = empty.insert(k1, v1).insert(k2, v2).insert(k3, v3);
    let s0 = Seq::<(Seq<u8>, Seq<u8>)>::empty();
    let s1 = s0.insert(0, (k1, v1));
    let s2 = s1.insert(1, (k2, v2));
    let s3 = s2.insert(2, (k3, v3));
    lemma_lex_transitive(k1, k2, k3, 0);
    assert(entries_map(s0) =~= empty);
    lemma_insert_entry(s0, 0, k1, v1);
    lemma_insert_entry(s1, 1, k2, v2);
    lemma_insert_entry(s2, 2, k3, v3);
    lemma_canonical_entries(s3);
    assert(s3.drop_last() =~= s2);
    assert(s2.drop_last() =~= s1);
    assert(s1.drop_last() =~= s0);
    assert(concat_entries(s0) =~= Seq::<u8>::empty());
    assert(s1.last() == (k1, v1) && s2.last() == (k2, v2) && s3.last() == (k3, v3));
    assert(concat_entries(s1) =~= bytes_encoding(k1) + v1);
    assert(concat_entries(s2) =~= bytes_encoding(k1) + v1 + bytes_encoding(k2) + v2);
    assert(concat_entries(s3) =~= bytes_encoding(k1) + v1 + bytes_encoding(k2) + v2
        + bytes_encoding(k3) + v3);
    assert(dict_encoding(m) =~= seq![100u8] + bytes_encoding(k1) + v1 + bytes_encoding(k2) + v2
        + bytes_encoding(k3) + v3 + seq![101u8]);
    lemma_lex_irreflexive(k1, 0);
    lemma_lex_irreflexive(k2, 0);
    assert(k1 != k2 && k2 != k3 && k1 != k3);
    assert(empty.insert(k3, v3).insert(k2, v2).insert(k1, v1) =~= m);
}

/// Putting a new key at its place keeps the order and adds the pair to the map.
proof fn lemma_insert_entry(s: Seq<(Seq<u8>, Seq<u8>)>, p: int, k: Seq<u8>, v: Seq<u8>)
    requires
        strictly_sorted(s),
        0 <= p <= s.len(),
        forall|i: int| 0 <= i < p ==> lex_lt(s[i].0, k),
        p < s.len() ==> lex_lt(k, s[p].0),
    ensures
        strictly_sorted(s.insert(p, (k, v))),
        entries_map(s.insert(p, (k, v))) == entries_map(s).insert(k, v),
{
    let t = s.insert(p, (k, v));
    assert forall|i: int, j: int| 0 <= i < j < t.len() implies lex_lt(t[i].0, t[j].0) by {
        if j == p {
        } else if i == p {
            if j - 1 > p {
                assert(lex_lt(s[p].0, s[j - 1].0));
                lemma_lex_transitive(k, s[p].0, s[j - 1].0, 0);
            }
        } else if i < p && j > p {
            assert(lex_lt(s[i].0, s[j - 1].0));
        } else if i > p {
            assert(lex_lt(s[i - 1].0, s[j - 1].0));
        } else {
            assert(lex_lt(s[i].0, s[j].0));
        }
    }
    let m0 = entries_map(s).insert(k, v);
    let m1 = entries_map(t);
    assert(t[p].0 == k);
    lemma_map_lookup(t, p);
    lemma_lex_irreflexive(k, 0);
    assert forall|q: Seq<u8>| m1.dom().contains(q) implies m0.dom().contains(q) && m0[q]
        == m1[q] by {
        let i = key_index(t, q);
        lemma_map_lookup(t, i);
        if i < p {
            assert(s[i].0 == q);
            lemma_map_lookup(s, i);
        } else if i > p {
            assert(s[i - 1].0 == q);
            lemma_map_lookup(s, i - 1);
        }
    }
    assert forall|q: Seq<u8>| m0.dom().contains(q) implies m1.dom().contains(q) by {
        if q != k {
            let i = key_index(s, q);
            if i < p {
                assert(t[i].0 == q);
            } else {
                assert(t[i + 1].0 == q);
            }
        }
    }
    assert(m1 =~= m0);
}

/// Giving a key that is present a new value keeps the order and updates the map.
proof fn lemma_replace_entry(s: Seq<(Seq<u8>, Seq<u8>)>, p: int, v: Seq<u8>)
    requires
        strictly_sorted(s),
        0 <= p < s.len(),
    ensures
        strictly_sorted(s.update(p, (s[p].0, v))),
        entries_map(s.update(p, (s[p].0, v))) == entries_map(s).insert(s[p].0, v),
{
    let k = s[p].0;
    let t = s.update(p, (k, v));
    assert forall|i: int, j: int| 0 <= i < j < t.len() implies lex_lt(t[i].0, t[j].0) by {
        assert(lex_lt(s[i].0, s[j].0));
    }
    let m0 = entries_map(s).insert(k, v);
    let m1 = entries_map(t);
    lemma_map_lookup(t, p);
    assert forall|q: Seq<u8>| m1.dom().contains(q) implies m0.dom().contains(q) && m0[q]
        == m1[q] by {
        let i = key_index(t, q);
        lemma_map_lookup(t, i);
        assert(s[i].0 == q);
        lemma_map_lookup(s, i);
        lemma_map_lookup(s, p);
        if i != p {
            lemma_lex_irreflexive(k, 0);
            if i < p {
                assert(lex_lt(s[i].0, s[p].0));
            } else {
                assert(lex_lt(s[p].0, s[i].0));
            }
        }
    }
    assert forall|q: Seq<u8>| m0.dom().contains(q) implies m1.dom().contains(q) by {
        if q != k {
            let i = key_index(s, q);
            assert(t[i].0 == q);
        }
    }
    assert(m1 =~= m0);
}

/// Appends the decimal digits of `n`.
fn push_decimal(out: &mut Vec<u8>, n: u64)
    ensures
        final(out)@ == old(out)@ + decimal_digits(n as nat),
    decreases n,
{
    if n >= 10 {
        push_decimal(out, n / 10);
    }
    let d: u8 = (n % 10) as u8;
    out.push(48 + d);
    proof {
        if n >= 10 {
            assert(final(out)@ =~= old(out)@ + decimal_digits(n as nat));
        } else {
            assert(final(out)@ =~= old(out)@ + decimal_digits(n as nat));
        }
    }
}

/// Appends an integer as `i<value>e`.
pub fn push_integer(out: &mut Vec<u8>, v: i64)
    ensures
        final(out)@ == old(out)@ + integer_encoding(v as int),
{
    out.push(105);
    if v < 0 {
        out.push(45);
        let m: u64 = if v == i64::MIN {
            9223372036854775808u64
        } else {
            (-v) as u64
        };
        push_decimal(out, m);
    } else {
        push_decimal(out, v as u64);
    }
    out.push(101);
    proof {
        assert(final(out)@ =~= old(out)@ + integer_encoding(v as int));
    }
}

/// Appends a byte string as `<length>:<bytes>`.
pub fn push_bytes(out: &mut Vec<u8>, b: &[u8])
    ensures
        final(out)@ == old(out)@ + bytes_encoding(b@),
{
    push_decimal(out, b.len() as u64);
    out.push(58);
    out.extend_from_slice(b);
    proof {
        assert(final(out)@ =~= old(out)@ + bytes_encoding(b@));
    }
}

/// Encodes an integer.
pub fn encode_integer(v: i64) -> (out: Vec<u8>)
    ensures
        out@ == integer_encoding(v as int),
{
    let mut out: Vec<u8> = Vec::new();
    push_integer(&mut out, v);
    proof {
        assert(out@ =~= integer_encoding(v as int));
    }
    out
}

/// Encodes a byte string.
pub fn encode_bytes(b: &[u8]) -> (out: Vec<u8>)
    ensures
        out@ == bytes_encoding(b@),
{
    let mut out: Vec<u8> = Vec::new();
    push_bytes(&mut out, b);
    proof {
        assert(out@ =~= bytes_encoding(b@));
    }
    out
}

/// The byte sequences that the vectors hold.
pub open spec fn item_views(items: Seq<Vec<u8>>) -> Seq<Seq<u8>> {
    items.map_values(|v: Vec<u8>| v@)
}

/// Encodes a list from its items, each already encoded.
pub fn encode_list(items: &Vec<Vec<u8>>) -> (out: Vec<u8>)
    ensures
        out@ == list_encoding(item_views(items@)),
{
    let mut out: Vec<u8> = Vec::new();
    out.push(108);
    let mut i: usize = 0;
    while i < items.len()
        invariant
            i <= items.len(),
            out@ == seq![108u8] + concat_items(item_views(items@).take(i as int)),
        decreases items.len() - i,
    {
        out.extend_from_slice(items[i].as_slice());
        proof {
            let t = item_views(items@).take(i + 1);
            assert(t.drop_last() =~= item_views(items@).take(i as int));
            assert(t.last() == items@[i as int]@);
            assert(out@ =~= seq![108u8] + concat_items(t));
        }
        i += 1;
    }
    out.push(101);
    proof {
        assert(item_views(items@).take(i as int) =~= item_views(items@));
    }
    out
}

/// One entry of a dictionary: a key and the encoding of its value.
pub struct Entry {
    pub key: Vec<u8>,
    pub value: Vec<u8>,
}

/// A dictionary under construction. Its entries are kept in ascending order of
/// their keys, so that the order of insertion leaves no trace in the encoding.
pub struct Dictionary {
    entries: Vec<Entry>,
}

impl View for Dictionary {
    type V = Map<Seq<u8>, Seq<u8>>;

    /// The map from keys to encoded values.
    open spec fn view(&self) -> Map<Seq<u8>, Seq<u8>> {
        entries_map(self.entries())
    }
}

impl Dictionary {
    /// The entries in the order in which they are stored.
    pub closed spec fn entries(&self) -> Seq<(Seq<u8>, Seq<u8>)> {
        Seq::new(self.entries@.len(), |i: int| (self.entries@[i].key@, self.entries@[i].value@))
    }

    /// The entries stand in strictly ascending order of their keys.
    pub open spec fn well_formed(&self) -> bool {
        strictly_sorted(self.entries())
    }

    /// An empty dictionary.
    pub fn new() -> (d: Dictionary)
        ensures
            d.well_formed(),
            d@ == Map::<Seq<u8>, Seq<u8>>::empty(),
    {
        let d = Dictionary { entries: Vec::new() };
        proof {
            assert(d@ =~= Map::<Seq<u8>, Seq<u8>>::empty());
        }
        d
    }

    /// The place where `key` stands or would stand, and whether it is present.
    fn locate(&self, key: &[u8]) -> (r: (usize, bool))
        requires
            self.well_formed(),
        ensures
            r.0 <= self.entries().len(),
            forall|i: int| 0 <= i < r.0 ==> lex_lt(self.entries()[i].0, key@),
            r.1 ==> r.0 < self.entries().len() && self.entries()[r.0 as int].0 == key@,
            !r.1 && r.0 < self.entries().len() ==> lex_lt(key@, self.entries()[r.0 as int].0),
    {
        let mut p: usize = 0;
        while p < self.entries.len()
            invariant
                p <= self.entries@.len(),
                forall|i: int| 0 <= i < p ==> lex_lt(self.entries()[i].0, key@),
            decreases self.entries@.len() - p,
        {
            match order_keys(self.entries[p].key.as_slice(), key) {
                KeyOrder::Before => {
                    p += 1;
                },
                KeyOrder::Same => {
                    return (p, true);
                },
                KeyOrder::After => {
                    return (p, false);
                },
            }
        }
        (p, false)
    }

    /// Sets the value of `key`, whatever was inserted before and in which order.
    pub fn insert(&mut self, key: Vec<u8>, value: Vec<u8>)
        requires
            old(self).well_formed(),
        ensures
            final(self).well_formed(),
            final(self)@ == old(self)@.insert(key@, value@),
    {
        let (p, present) = self.locate(key.as_slice());
        let ghost before = self.entries();
        if present {
            self.entries[p] = Entry { key, value };
            proof {
                assert(self.entries() =~= before.update(p as int, (before[p as int].0, value@)));
                lemma_replace_entry(before, p as int, value@);
            }
        } else {
            self.entries.insert(p, Entry { key, value });
            proof {
                assert(self.entries() =~= before.insert(p as int, (key@, value@)));
                lemma_insert_entry(before, p as int, key@, value@);
            }
        }
    }

    /// Encodes the dictionary, its keys in ascending order.
    pub fn encode(&self) -> (out: Vec<u8>)
        requires
            self.well_formed(),
        ensures
            out@ == dict_encoding(self@),
    {
        let mut out: Vec<u8> = Vec::new();
        out.push(100);
        let mut i: usize = 0;
        while i < self.entries.len()
            invariant
                i <= self.entries@.len(),
                out@ == seq![100u8] + concat_entries(self.entries().take(i as int)),
            decreases self.entries@.len() - i,
        {
            push_bytes(&mut out, self.entries[i].key.as_slice());
            out.extend_from_slice(self.entries[i].value.as_slice());
            proof {
                let t = self.entries().take(i + 1);
                assert(t.drop_last() =~= self.entries().take(i as int));
                assert(t.last() == self.entries()[i as int]);
                assert(out@ =~= seq![100u8] + concat_entries(t));
            }
            i += 1;
        }
        out.push(101);
        proof {
            assert(self.entries().take(i as int) =~= self.entries());
            lemma_canonical_entries(self.entries());
        }
        out
    }
}

} // verus!
