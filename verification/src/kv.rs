//! Ordered string-keyed map with a mathematical `Map` view.
//!
//! The replicated state's `data` field is kept as a vector of entries sorted
//! strictly ascending by key, so that iteration order is canonical: equal maps
//! always serialize to equal bytes, which the digest comparison relies on.

use vstd::prelude::*;

verus! {

/// Lexicographic order on character sequences, by Unicode scalar value.
pub open spec fn str_lt(a: Seq<char>, b: Seq<char>) -> bool
    decreases a.len(),
{
    if b.len() == 0 {
        false
    } else if a.len() == 0 {
        true
    } else if a[0] as u32 != b[0] as u32 {
        (a[0] as u32) < (b[0] as u32)
    } else {
        str_lt(a.drop_first(), b.drop_first())
    }
}

pub proof fn lemma_str_lt_irrefl(a: Seq<char>)
    ensures
        !str_lt(a, a),
    decreases a.len(),
{
    if a.len() > 0 {
        lemma_str_lt_irrefl(a.drop_first());
    }
}

pub proof fn lemma_str_lt_connected(a: Seq<char>, b: Seq<char>)
    ensures
        !str_lt(a, b) && !str_lt(b, a) ==> a =~= b,
    decreases a.len(),
{
    if a.len() > 0 && b.len() > 0 {
        if a[0] as u32 == b[0] as u32 {
            lemma_str_lt_connected(a.drop_first(), b.drop_first());
            if !str_lt(a, b) && !str_lt(b, a) {
                assert(a[0] == b[0]) by {
                    vstd::utf8::char_u32_cast(a[0], a[0] as u32);
                    vstd::utf8::char_u32_cast(b[0], a[0] as u32);
                }
                assert(a =~= seq![a[0]] + a.drop_first());
                assert(b =~= seq![b[0]] + b.drop_first());
            }
        }
    }
}

pub proof fn lemma_str_lt_trans(a: Seq<char>, b: Seq<char>, c: Seq<char>)
    requires
        str_lt(a, b),
        str_lt(b, c),
    ensures
        str_lt(a, c),
    decreases a.len() + b.len() + c.len(),
{
    if c.len() == 0 {
        // str_lt(b, c) is false; contradiction
    } else if b.len() == 0 {
        // str_lt(a, b) is false; contradiction
    } else if a.len() == 0 {
    } else {
        let a0 = a[0] as u32;
        let b0 = b[0] as u32;
        let c0 = c[0] as u32;
        if a0 == b0 && b0 == c0 {
            lemma_str_lt_trans(a.drop_first(), b.drop_first(), c.drop_first());
        }
    }
}

/// Strict order implies inequality of the sequences.
pub proof fn lemma_str_lt_neq(a: Seq<char>, b: Seq<char>)
    requires
        str_lt(a, b),
    ensures
        a != b,
{
    if a =~= b {
        lemma_str_lt_irrefl(a);
    }
}

/// Dropping an equal prefix does not change the order of two sequences.
pub proof fn lemma_str_lt_skip(a: Seq<char>, b: Seq<char>, i: int)
    requires
        0 <= i <= a.len(),
        0 <= i <= b.len(),
        a.subrange(0, i) =~= b.subrange(0, i),
    ensures
        str_lt(a, b) == str_lt(a.skip(i), b.skip(i)),
    decreases i,
{
    if i > 0 {
        // a and b share their first character
        assert(a[0] == b[0]) by {
            assert(a.subrange(0, i)[0] == b.subrange(0, i)[0]);
        }
        assert(a.drop_first().subrange(0, i - 1) =~= b.drop_first().subrange(0, i - 1)) by {
            assert forall|j: int| 0 <= j < i - 1 implies a.drop_first()[j] == b.drop_first()[j] by {
                assert(a.subrange(0, i)[j + 1] == b.subrange(0, i)[j + 1]);
            }
        }
        lemma_str_lt_skip(a.drop_first(), b.drop_first(), i - 1);
        assert(a.drop_first().skip(i - 1) =~= a.skip(i));
        assert(b.drop_first().skip(i - 1) =~= b.skip(i));
        assert(str_lt(a, b) == str_lt(a.drop_first(), b.drop_first()));
    } else {
        assert(a.skip(0) =~= a);
        assert(b.skip(0) =~= b);
    }
}

/// Decides `str_lt` on two string slices.
pub fn str_cmp_lt(a: &str, b: &str) -> (r: bool)
    ensures
        r == str_lt(a@, b@),
{
    let alen: usize = a.unicode_len();
    let blen: usize = b.unicode_len();
    let mut i: usize = 0;
    loop
        invariant
            0 <= i <= alen,
            0 <= i <= blen,
            alen == a@.len(),
            blen == b@.len(),
            a@.subrange(0, i as int) =~= b@.subrange(0, i as int),
        decreases alen - i,
    {
        proof {
            lemma_str_lt_skip(a@, b@, i as int);
        }
        if i == alen || i == blen {
            return alen < blen;
        }
        let ca = a.get_char(i);
        let cb = b.get_char(i);
        if ca as u32 != cb as u32 {
            proof {
                assert(a@.skip(i as int)[0] == ca);
                assert(b@.skip(i as int)[0] == cb);
            }
            return (ca as u32) < (cb as u32);
        }
        proof {
            assert(ca == cb) by {
                vstd::utf8::char_u32_cast(ca, ca as u32);
                vstd::utf8::char_u32_cast(cb, ca as u32);
            }
            assert(a@.subrange(0, i + 1 as int) =~= b@.subrange(0, i + 1 as int)) by {
                assert forall|j: int| 0 <= j < i + 1 implies (#[trigger] a@.subrange(
                    0,
                    i + 1 as int,
                )[j]) == b@.subrange(0, i + 1 as int)[j] by {
                    if j < i {
                        assert(a@.subrange(0, i as int)[j] == b@.subrange(0, i as int)[j]);
                    }
                }
            }
        }
        i = i + 1;
    }
}

/// Decides equality of two string slices, as character sequences.
pub fn str_eq(a: &str, b: &str) -> (r: bool)
    ensures
        r == (a@ == b@),
{
    let alen: usize = a.unicode_len();
    let blen: usize = b.unicode_len();
    if alen != blen {
        proof {
            if a@ == b@ {
                assert(a@.len() == b@.len());
            }
        }
        return false;
    }
    let mut i: usize = 0;
    while i < alen
        invariant
            0 <= i <= alen,
            alen == a@.len(),
            alen == b@.len(),
            forall|j: int| 0 <= j < i ==> a@[j] == b@[j],
        decreases alen - i,
    {
        let ca = a.get_char(i);
        let cb = b.get_char(i);
        if ca as u32 != cb as u32 {
            proof {
                if a@ == b@ {
                    assert(a@[i as int] == b@[i as int]);
                }
            }
            return false;
        }
        proof {
            assert(ca == cb) by {
                vstd::utf8::char_u32_cast(ca, ca as u32);
                vstd::utf8::char_u32_cast(cb, ca as u32);
            }
        }
        i = i + 1;
    }
    proof {
        assert(a@ =~= b@);
    }
    true
}

/// One key-value pair of the replicated data map.
#[derive(Debug, PartialEq, Eq)]
pub struct KvEntry {
    pub key: String,
    pub value: Vec<u8>,
}

impl KvEntry {
    /// The pair as a mathematical value.
    pub open spec fn pair(self) -> (Seq<char>, Seq<u8>) {
        (self.key@, self.value@)
    }
}

/// The map realized by a sequence of pairs, later entries winning.
pub open spec fn kv_as_map(s: Seq<(Seq<char>, Seq<u8>)>) -> Map<Seq<char>, Seq<u8>>
    decreases s.len(),
{
    if s.len() == 0 {
        Map::empty()
    } else {
        kv_as_map(s.drop_last()).insert(s.last().0, s.last().1)
    }
}

/// Keys strictly ascending in `str_lt` order.
pub open spec fn kv_sorted(s: Seq<(Seq<char>, Seq<u8>)>) -> bool {
    forall|i: int, j: int| 0 <= i < j < s.len() ==> str_lt(#[trigger] s[i].0, #[trigger] s[j].0)
}

pub proof fn lemma_kv_as_map_contains(s: Seq<(Seq<char>, Seq<u8>)>, k: Seq<char>)
    ensures
        kv_as_map(s).contains_key(k) <==> exists|i: int| 0 <= i < s.len() && (#[trigger] s[i].0)
            == k,
    decreases s.len(),
{
    if s.len() > 0 {
        lemma_kv_as_map_contains(s.drop_last(), k);
        if s.last().0 == k {
            assert(s[s.len() - 1].0 == k);
        } else if kv_as_map(s).contains_key(k) {
            let i = choose|i: int| 0 <= i < s.drop_last().len() && (#[trigger] s.drop_last()[i].0)
                == k;
            assert(s[i].0 == k);
        } else {
            if exists|i: int| 0 <= i < s.len() && (#[trigger] s[i].0) == k {
                let i = choose|i: int| 0 <= i < s.len() && (#[trigger] s[i].0) == k;
                assert(i < s.len() - 1);
                assert(s.drop_last()[i].0 == k);
            }
        }
    }
}

pub proof fn lemma_kv_as_map_index(s: Seq<(Seq<char>, Seq<u8>)>, i: int)
    requires
        0 <= i < s.len(),
        forall|p: int, q: int| 0 <= p < q < s.len() ==> (#[trigger] s[p].0) != (#[trigger] s[q].0),
    ensures
        kv_as_map(s).contains_key(s[i].0),
        kv_as_map(s)[s[i].0] == s[i].1,
    decreases s.len(),
{
    lemma_kv_as_map_contains(s, s[i].0);
    if i == s.len() - 1 {
    } else {
        assert(s[i].0 != s[s.len() - 1].0);
        assert(s.drop_last()[i] == s[i]);
        lemma_kv_as_map_index(s.drop_last(), i);
    }
}

/// Sorted sequences have pairwise distinct keys.
pub proof fn lemma_kv_sorted_unique(s: Seq<(Seq<char>, Seq<u8>)>)
    requires
        kv_sorted(s),
    ensures
        forall|p: int, q: int| 0 <= p < q < s.len() ==> (#[trigger] s[p].0) != (#[trigger] s[q].0),
{
    assert forall|p: int, q: int| 0 <= p < q < s.len() implies (#[trigger] s[p].0)
        != (#[trigger] s[q].0) by {
        lemma_str_lt_neq(s[p].0, s[q].0);
    }
}

/// A sorted sequence of pairs is determined by the map it realizes.
pub proof fn lemma_kv_canonical(s1: Seq<(Seq<char>, Seq<u8>)>, s2: Seq<(Seq<char>, Seq<u8>)>)
    requires
        kv_sorted(s1),
        kv_sorted(s2),
        kv_as_map(s1) == kv_as_map(s2),
    ensures
        s1 =~= s2,
    decreases s1.len(),
{
    lemma_kv_sorted_unique(s1);
    lemma_kv_sorted_unique(s2);
    if s1.len() == 0 {
        if s2.len() > 0 {
            lemma_kv_as_map_index(s2, s2.len() - 1);
            lemma_kv_as_map_contains(s1, s2.last().0);
        }
    } else if s2.len() == 0 {
        lemma_kv_as_map_index(s1, s1.len() - 1);
        lemma_kv_as_map_contains(s2, s1.last().0);
    } else {
        let k1 = s1.last().0;
        let k2 = s2.last().0;
        // The last key of each is the maximum of the shared domain, so they agree.
        lemma_kv_as_map_index(s1, s1.len() - 1);
        lemma_kv_as_map_index(s2, s2.len() - 1);
        lemma_kv_as_map_contains(s1, k2);
        lemma_kv_as_map_contains(s2, k1);
        let i1 = choose|i: int| 0 <= i < s1.len() && (#[trigger] s1[i].0) == k2;
        let i2 = choose|i: int| 0 <= i < s2.len() && (#[trigger] s2[i].0) == k1;
        if k1 != k2 {
            assert(i1 < s1.len() - 1);
            assert(i2 < s2.len() - 1);
            assert(str_lt(k2, k1));
            assert(str_lt(k1, k2));
            lemma_str_lt_trans(k1, k2, k1);
            lemma_str_lt_irrefl(k1);
        }
        assert(s1.last().1 == s2.last().1) by {
            assert(kv_as_map(s1)[k1] == s1.last().1);
            assert(kv_as_map(s2)[k1] == s2.last().1);
        }
        assert(kv_as_map(s1.drop_last()) =~= kv_as_map(s2.drop_last())) by {
            assert forall|k: Seq<char>|
                kv_as_map(s1.drop_last()).contains_key(k) == kv_as_map(
                    s2.drop_last(),
                ).contains_key(k) by {
                lemma_kv_as_map_contains(s1.drop_last(), k);
                lemma_kv_as_map_contains(s2.drop_last(), k);
                lemma_kv_as_map_contains(s1, k);
                lemma_kv_as_map_contains(s2, k);
                if k != k1 {
                    if exists|i: int| 0 <= i < s1.len() && (#[trigger] s1[i].0) == k {
                        let i = choose|i: int| 0 <= i < s1.len() && (#[trigger] s1[i].0) == k;
                        assert(i < s1.len() - 1);
                        assert(s1.drop_last()[i].0 == k);
                    }
                    if exists|i: int| 0 <= i < s2.len() && (#[trigger] s2[i].0) == k {
                        let i = choose|i: int| 0 <= i < s2.len() && (#[trigger] s2[i].0) == k;
                        assert(i < s2.len() - 1);
                        assert(s2.drop_last()[i].0 == k);
                    }
                } else {
                    if exists|i: int| 0 <= i < s1.drop_last().len()
                        && (#[trigger] s1.drop_last()[i].0) == k {
                        let i = choose|i: int|
                            0 <= i < s1.drop_last().len() && (#[trigger] s1.drop_last()[i].0) == k;
                        assert(s1[i].0 == k1);
                    }
                    if exists|i: int| 0 <= i < s2.drop_last().len()
                        && (#[trigger] s2.drop_last()[i].0) == k {
                        let i = choose|i: int|
                            0 <= i < s2.drop_last().len() && (#[trigger] s2.drop_last()[i].0) == k;
                        assert(s2[i].0 == k1);
                    }
                }
            }
            assert forall|k: Seq<char>|
                #[trigger] kv_as_map(s1.drop_last()).contains_key(k) implies kv_as_map(
                s1.drop_last(),
            )[k] == kv_as_map(s2.drop_last())[k] by {
                lemma_kv_as_map_contains(s1.drop_last(), k);
                let i = choose|i: int|
                    0 <= i < s1.drop_last().len() && (#[trigger] s1.drop_last()[i].0) == k;
                assert(s1[i].0 == k);
                assert(k != k1);
                lemma_kv_as_map_index(s1.drop_last(), i);
                lemma_kv_as_map_index(s1, i);
                lemma_kv_as_map_contains(s2.drop_last(), k);
                let j = choose|j: int|
                    0 <= j < s2.drop_last().len() && (#[trigger] s2.drop_last()[j].0) == k;
                lemma_kv_as_map_index(s2.drop_last(), j);
                lemma_kv_as_map_index(s2, j);
                assert(kv_as_map(s1)[k] == kv_as_map(s2)[k]);
            }
        }
        lemma_kv_canonical(s1.drop_last(), s2.drop_last());
        assert(s1 =~= s1.drop_last() + seq![s1.last()]);
        assert(s2 =~= s2.drop_last() + seq![s2.last()]);
    }
}

/// String-keyed byte-value map, kept sorted by key.
#[derive(Debug, PartialEq, Eq)]
pub struct KvMap {
    entries: Vec<KvEntry>,
}

impl View for KvMap {
    type V = Map<Seq<char>, Seq<u8>>;

    open spec fn view(&self) -> Map<Seq<char>, Seq<u8>> {
        kv_as_map(self.kv_seq())
    }
}

impl KvMap {
    /// The underlying sorted sequence of pairs; the canonical form of the map.
    pub closed spec fn kv_seq(self) -> Seq<(Seq<char>, Seq<u8>)> {
        self.entries@.map(|_i: int, e: KvEntry| e.pair())
    }

    /// Keys of the entry vector are strictly ascending; holds of every value
    /// of the type, since the fields are private and every operation keeps it.
    #[verifier::type_invariant]
    pub open spec fn sorted(self) -> bool {
        kv_sorted(self.kv_seq())
    }

    pub fn new() -> (r: KvMap)
        ensures
            r@ == Map::<Seq<char>, Seq<u8>>::empty(),
            r.kv_seq() =~= Seq::<(Seq<char>, Seq<u8>)>::empty(),
    {
        let r = KvMap { entries: Vec::new() };
        proof {
            assert(r.kv_seq() =~= Seq::<(Seq<char>, Seq<u8>)>::empty());
        }
        r
    }

    /// Number of entries; also the size of the map's domain.
    pub fn len(&self) -> (n: usize)
        ensures
            n == self.kv_seq().len(),
            n == self@.dom().len(),
    {
        proof {
            use_type_invariant(&*self);
            lemma_kv_sorted_unique(self.kv_seq());
            lemma_kv_dom_len(self.kv_seq());
        }
        self.entries.len()
    }

    pub fn is_empty(&self) -> (r: bool)
        ensures
            r == (self@.dom().len() == 0),
            r == (self.kv_seq().len() == 0),
    {
        self.len() == 0
    }

    /// The key of the entry at a position of the canonical sequence.
    pub fn key_at(&self, i: usize) -> (k: &String)
        requires
            i < self.kv_seq().len(),
        ensures
            k@ == self.kv_seq()[i as int].0,
    {
        &self.entries[i].key
    }

    /// The value of the entry at a position of the canonical sequence.
    pub fn value_at(&self, i: usize) -> (v: &Vec<u8>)
        requires
            i < self.kv_seq().len(),
        ensures
            v@ == self.kv_seq()[i as int].1,
    {
        &self.entries[i].value
    }

    pub fn get(&self, key: &str) -> (r: Option<&Vec<u8>>)
        ensures
            match r {
                Some(v) => self@.contains_key(key@) && v@ == self@[key@],
                None => !self@.contains_key(key@),
            },
    {
        proof {
            use_type_invariant(&*self);
            lemma_kv_sorted_unique(self.kv_seq());
            lemma_kv_as_map_contains(self.kv_seq(), key@);
        }
        let n = self.entries.len();
        let mut i: usize = 0;
        while i < n
            invariant
                0 <= i <= n,
                n == self.kv_seq().len(),
                kv_sorted(self.kv_seq()),
                forall|p: int, q: int|
                    0 <= p < q < self.kv_seq().len() ==> (#[trigger] self.kv_seq()[p].0)
                        != (#[trigger] self.kv_seq()[q].0),
                forall|j: int| 0 <= j < i ==> (#[trigger] self.kv_seq()[j].0) != key@,
            decreases n - i,
        {
            if str_eq(self.entries[i].key.as_str(), key) {
                proof {
                    lemma_kv_as_map_index(self.kv_seq(), i as int);
                }
                return Some(&self.entries[i].value);
            }
            proof {
                assert(self.kv_seq()[i as int].0 == self.entries@[i as int].key@);
            }
            i = i + 1;
        }
        proof {
            lemma_kv_as_map_contains(self.kv_seq(), key@);
        }
        None
    }

    /// Whether the map holds the key.
    pub fn contains_key(&self, key: &str) -> (r: bool)
        ensures
            r == self@.contains_key(key@),
    {
        match self.get(key) {
            Some(_) => true,
            None => false,
        }
    }

    pub fn insert(&mut self, key: String, value: Vec<u8>)
        ensures
            final(self)@ == old(self)@.insert(key@, value@),
    {
        proof {
            use_type_invariant(&*self);
            lemma_kv_sorted_unique(old(self).kv_seq());
        }
        let ghost old_seq = self.kv_seq();
        let mut es: Vec<KvEntry> = Vec::new();
        core::mem::swap(&mut es, &mut self.entries);
        proof {
            assert(self.kv_seq() =~= Seq::<(Seq<char>, Seq<u8>)>::empty());
        }
        let n = es.len();
        let mut i: usize = 0;
        while i < n && str_cmp_lt(es[i].key.as_str(), key.as_str())
            invariant
                0 <= i <= n,
                n == es.len(),
                kv_sorted(old_seq),
                es@.map(|_i: int, e: KvEntry| e.pair()) =~= old_seq,
                forall|j: int| 0 <= j < i ==> str_lt(#[trigger] old_seq[j].0, key@),
            decreases n - i,
        {
            proof {
                assert(old_seq[i as int].0 == es@[i as int].key@);
            }
            i = i + 1;
        }
        let ghost pos = i as int;
        if i < n && str_eq(es[i].key.as_str(), key.as_str()) {
            // replace in place
            es[i] = KvEntry { key, value };
            proof {
                let new_seq = es@.map(|_i: int, e: KvEntry| e.pair());
                assert(new_seq =~= old_seq.update(pos, (key@, value@)));
                lemma_kv_insert_replace(old_seq, pos, key@, value@);
                assert(kv_sorted(new_seq));
            }
        } else {
            proof {
                if pos < old_seq.len() {
                    lemma_str_lt_connected(old_seq[pos].0, key@);
                    if !str_lt(key@, old_seq[pos].0) {
                        assert(old_seq[pos].0 =~= key@);
                        assert(old_seq[pos].0 == es@[pos].key@);
                        assert(false);
                    }
                }
                assert forall|j: int| pos <= j < old_seq.len() implies str_lt(
                    key@,
                    #[trigger] old_seq[j].0,
                ) by {
                    if j > pos {
                        lemma_str_lt_trans(key@, old_seq[pos].0, old_seq[j].0);
                    }
                }
            }
            es.insert(i, KvEntry { key, value });
            proof {
                let new_seq = es@.map(|_i: int, e: KvEntry| e.pair());
                assert(new_seq =~= old_seq.insert(pos, (key@, value@)));
                lemma_kv_insert_fresh(old_seq, pos, key@, value@);
                assert(kv_sorted(new_seq));
            }
        }
        self.entries = es;
    }

    pub fn remove(&mut self, key: &str)
        ensures
            final(self)@ == old(self)@.remove(key@),
    {
        proof {
            use_type_invariant(&*self);
            lemma_kv_sorted_unique(old(self).kv_seq());
            lemma_kv_as_map_contains(old(self).kv_seq(), key@);
        }
        let ghost old_seq = self.kv_seq();
        let mut es: Vec<KvEntry> = Vec::new();
        core::mem::swap(&mut es, &mut self.entries);
        proof {
            assert(self.kv_seq() =~= Seq::<(Seq<char>, Seq<u8>)>::empty());
        }
        let n = es.len();
        let mut i: usize = 0;
        while i < n
            invariant
                0 <= i <= n,
                n == es.len(),
                kv_sorted(old_seq),
                old_seq == old(self).kv_seq(),
                es@.map(|_i: int, e: KvEntry| e.pair()) =~= old_seq,
                forall|j: int| 0 <= j < i ==> (#[trigger] old_seq[j].0) != key@,
            decreases n - i,
        {
            if str_eq(es[i].key.as_str(), key) {
                proof {
                    assert(old_seq[i as int] == es@[i as int].pair());
                    assert(old_seq[i as int].0 == key@);
                }
                let ghost pre = es@;
                es.remove(i);
                proof {
                    let f = |_i: int, e: KvEntry| e.pair();
                    assert(es@ == pre.remove(i as int));
                    assert forall|j: int| 0 <= j < es@.len() implies (#[trigger] es@.map(f)[j])
                        == old_seq.remove(i as int)[j] by {
                        if j < i {
                            assert(es@[j] == pre[j]);
                            assert(pre.map(f)[j] == old_seq[j]);
                        } else {
                            assert(es@[j] == pre[j + 1]);
                            assert(pre.map(f)[j + 1] == old_seq[j + 1]);
                        }
                    }
                    let new_seq = es@.map(f);
                    assert(new_seq =~= old_seq.remove(i as int));
                    lemma_kv_remove(old_seq, i as int);
                    assert(kv_sorted(new_seq));
                }
                self.entries = es;
                proof {
                    assert(self.kv_seq() =~= old_seq.remove(i as int));
                    assert(self@ == kv_as_map(old_seq).remove(key@));
                }
                return ;
            }
            proof {
                assert(old_seq[i as int].0 == es@[i as int].key@);
            }
            i = i + 1;
        }
        proof {
            assert(!old(self)@.contains_key(key@));
            assert(old(self)@.remove(key@) =~= old(self)@);
        }
        self.entries = es;
    }
}

impl Clone for KvMap {
    fn clone(&self) -> (r: Self)
        ensures
            r@ == self@,
            r.kv_seq() == self.kv_seq(),
    {
        proof {
            use_type_invariant(&*self);
        }
        let n = self.entries.len();
        let mut es: Vec<KvEntry> = Vec::new();
        let mut i: usize = 0;
        while i < n
            invariant
                0 <= i <= n,
                n == self.kv_seq().len(),
                n == self.entries@.len(),
                es@.map(|_i: int, e: KvEntry| e.pair()) =~= self.kv_seq().subrange(0, i as int),
            decreases n - i,
        {
            let key = self.entries[i].key.clone();
            let value = clone_bytes(&self.entries[i].value);
            let e = KvEntry { key, value };
            let ghost ge = e;
            let ghost prev = es@;
            proof {
                assert(prev.map(|_i: int, e: KvEntry| e.pair()).len() == i as int);
                assert(prev.len() == i as int);
                assert(ge.key@ == self.entries@[i as int].key@);
                assert(ge.value@ == self.entries@[i as int].value@);
            }
            es.push(e);
            proof {
                let f = |_i: int, e: KvEntry| e.pair();
                assert(es@ == prev.push(ge));
                assert forall|j: int| 0 <= j < i + 1 implies (#[trigger] es@.map(f)[j])
                    == self.kv_seq().subrange(0, i + 1 as int)[j] by {
                    if j < i {
                        assert(prev.map(f)[j] == self.kv_seq().subrange(0, i as int)[j]);
                        assert(es@[j] == prev[j]);
                    } else {
                        assert(es@[j] == ge);
                        assert(self.kv_seq()[j].0 == self.entries@[j].key@);
                    }
                }
                assert(es@.map(f) =~= self.kv_seq().subrange(0, i + 1 as int));
            }
            i = i + 1;
        }
        let r = KvMap { entries: es };
        proof {
            use_type_invariant(&*self);
            assert(r.kv_seq() =~= self.kv_seq());
        }
        r
    }
}

/// Clones a byte vector, preserving its contents exactly.
pub fn clone_bytes(v: &Vec<u8>) -> (r: Vec<u8>)
    ensures
        r@ == v@,
{
    let r = v.clone();
    proof {
        assert(r@ =~= v@);
    }
    r
}

/// Replacing the value at an existing key keeps the order and realizes `insert`.
proof fn lemma_kv_insert_replace(s: Seq<(Seq<char>, Seq<u8>)>, i: int, k: Seq<char>, v: Seq<u8>)
    requires
        kv_sorted(s),
        0 <= i < s.len(),
        s[i].0 == k,
    ensures
        kv_sorted(s.update(i, (k, v))),
        kv_as_map(s.update(i, (k, v))) == kv_as_map(s).insert(k, v),
{
    let t = s.update(i, (k, v));
    assert(kv_sorted(t)) by {
        assert forall|p: int, q: int| 0 <= p < q < t.len() implies str_lt(
            #[trigger] t[p].0,
            #[trigger] t[q].0,
        ) by {
            assert(t[p].0 == s[p].0);
            assert(t[q].0 == s[q].0);
        }
    }
    lemma_kv_sorted_unique(s);
    lemma_kv_sorted_unique(t);
    assert(kv_as_map(t) =~= kv_as_map(s).insert(k, v)) by {
        assert forall|key: Seq<char>|
            kv_as_map(t).contains_key(key) == kv_as_map(s).insert(k, v).contains_key(key) by {
            lemma_kv_as_map_contains(t, key);
            lemma_kv_as_map_contains(s, key);
            if key == k {
                assert(t[i].0 == k);
            } else {
                if exists|j: int| 0 <= j < t.len() && (#[trigger] t[j].0) == key {
                    let j = choose|j: int| 0 <= j < t.len() && (#[trigger] t[j].0) == key;
                    assert(s[j].0 == key);
                }
                if exists|j: int| 0 <= j < s.len() && (#[trigger] s[j].0) == key {
                    let j = choose|j: int| 0 <= j < s.len() && (#[trigger] s[j].0) == key;
                    assert(t[j].0 == key);
                }
            }
        }
        assert forall|key: Seq<char>| #[trigger]
            kv_as_map(t).contains_key(key) implies kv_as_map(t)[key] == kv_as_map(s).insert(
            k,
            v,
        )[key] by {
            lemma_kv_as_map_contains(t, key);
            let j = choose|j: int| 0 <= j < t.len() && (#[trigger] t[j].0) == key;
            lemma_kv_as_map_index(t, j);
            if key == k {
                assert(j == i);
            } else {
                assert(j != i);
                assert(s[j].0 == key);
                lemma_kv_as_map_index(s, j);
            }
        }
    }
}

/// Inserting a fresh key at its sorted position keeps the order and realizes `insert`.
proof fn lemma_kv_insert_fresh(s: Seq<(Seq<char>, Seq<u8>)>, i: int, k: Seq<char>, v: Seq<u8>)
    requires
        kv_sorted(s),
        0 <= i <= s.len(),
        forall|j: int| 0 <= j < i ==> str_lt(#[trigger] s[j].0, k),
        forall|j: int| i <= j < s.len() ==> str_lt(k, #[trigger] s[j].0),
    ensures
        kv_sorted(s.insert(i, (k, v))),
        kv_as_map(s.insert(i, (k, v))) == kv_as_map(s).insert(k, v),
{
    let t = s.insert(i, (k, v));
    assert(kv_sorted(t)) by {
        assert forall|p: int, q: int| 0 <= p < q < t.len() implies str_lt(
            #[trigger] t[p].0,
            #[trigger] t[q].0,
        ) by {
            if p < i && q < i {
                assert(t[p].0 == s[p].0 && t[q].0 == s[q].0);
            } else if p < i && q == i {
                assert(t[p].0 == s[p].0);
            } else if p < i && q > i {
                assert(t[p].0 == s[p].0 && t[q].0 == s[q - 1].0);
                lemma_str_lt_trans(s[p].0, k, s[q - 1].0);
            } else if p == i && q > i {
                assert(t[q].0 == s[q - 1].0);
            } else {
                assert(t[p].0 == s[p - 1].0 && t[q].0 == s[q - 1].0);
            }
        }
    }
    lemma_kv_sorted_unique(s);
    lemma_kv_sorted_unique(t);
    assert(kv_as_map(t) =~= kv_as_map(s).insert(k, v)) by {
        assert forall|key: Seq<char>|
            kv_as_map(t).contains_key(key) == kv_as_map(s).insert(k, v).contains_key(key) by {
            lemma_kv_as_map_contains(t, key);
            lemma_kv_as_map_contains(s, key);
            if key == k {
                assert(t[i].0 == k);
            } else {
                if exists|j: int| 0 <= j < t.len() && (#[trigger] t[j].0) == key {
                    let j = choose|j: int| 0 <= j < t.len() && (#[trigger] t[j].0) == key;
                    if j < i {
                        assert(s[j].0 == key);
                    } else {
                        assert(j > i);
                        assert(s[j - 1].0 == key);
                    }
                }
                if exists|j: int| 0 <= j < s.len() && (#[trigger] s[j].0) == key {
                    let j = choose|j: int| 0 <= j < s.len() && (#[trigger] s[j].0) == key;
                    if j < i {
                        assert(t[j].0 == key);
                    } else {
                        assert(t[j + 1].0 == key);
                    }
                }
            }
        }
        assert forall|key: Seq<char>| #[trigger]
            kv_as_map(t).contains_key(key) implies kv_as_map(t)[key] == kv_as_map(s).insert(
            k,
            v,
        )[key] by {
            lemma_kv_as_map_contains(t, key);
            let j = choose|j: int| 0 <= j < t.len() && (#[trigger] t[j].0) == key;
            lemma_kv_as_map_index(t, j);
            if key == k {
                if j != i {
                    lemma_str_lt_irrefl(k);
                    if j < i {
                        assert(str_lt(s[j].0, k));
                        assert(s[j].0 == k);
                    } else {
                        assert(str_lt(k, s[j - 1].0));
                        assert(s[j - 1].0 == k);
                    }
                }
                assert(t[i] == (k, v));
            } else {
                assert(j != i);
                if j < i {
                    assert(s[j].0 == key);
                    lemma_kv_as_map_index(s, j);
                } else {
                    assert(s[j - 1].0 == key);
                    lemma_kv_as_map_index(s, j - 1);
                }
            }
        }
    }
}

/// Removing the entry at a key's position keeps the order and realizes `remove`.
proof fn lemma_kv_remove(s: Seq<(Seq<char>, Seq<u8>)>, i: int)
    requires
        kv_sorted(s),
        0 <= i < s.len(),
    ensures
        kv_sorted(s.remove(i)),
        kv_as_map(s.remove(i)) == kv_as_map(s).remove(s[i].0),
{
    let k = s[i].0;
    let t = s.remove(i);
    assert(kv_sorted(t)) by {
        assert forall|p: int, q: int| 0 <= p < q < t.len() implies str_lt(
            #[trigger] t[p].0,
            #[trigger] t[q].0,
        ) by {
            if p < i && q < i {
                assert(t[p].0 == s[p].0 && t[q].0 == s[q].0);
            } else if p < i {
                assert(t[p].0 == s[p].0 && t[q].0 == s[q + 1].0);
            } else {
                assert(t[p].0 == s[p + 1].0 && t[q].0 == s[q + 1].0);
            }
        }
    }
    lemma_kv_sorted_unique(s);
    lemma_kv_sorted_unique(t);
    assert(kv_as_map(t) =~= kv_as_map(s).remove(k)) by {
        assert forall|key: Seq<char>|
            kv_as_map(t).contains_key(key) == kv_as_map(s).remove(k).contains_key(key) by {
            lemma_kv_as_map_contains(t, key);
            lemma_kv_as_map_contains(s, key);
            if key == k {
                if exists|j: int| 0 <= j < t.len() && (#[trigger] t[j].0) == key {
                    let j = choose|j: int| 0 <= j < t.len() && (#[trigger] t[j].0) == key;
                    if j < i {
                        assert(s[j].0 == k && s[i].0 == k);
                    } else {
                        assert(s[j + 1].0 == k && s[i].0 == k);
                    }
                }
            } else {
                if exists|j: int| 0 <= j < t.len() && (#[trigger] t[j].0) == key {
                    let j = choose|j: int| 0 <= j < t.len() && (#[trigger] t[j].0) == key;
                    if j < i {
                        assert(s[j].0 == key);
                    } else {
                        assert(s[j + 1].0 == key);
                    }
                }
                if exists|j: int| 0 <= j < s.len() && (#[trigger] s[j].0) == key {
                    let j = choose|j: int| 0 <= j < s.len() && (#[trigger] s[j].0) == key;
                    if j < i {
                        assert(t[j].0 == key);
                    } else {
                        assert(j != i);
                        assert(t[j - 1].0 == key);
                    }
                }
            }
        }
        assert forall|key: Seq<char>| #[trigger]
            kv_as_map(t).contains_key(key) implies kv_as_map(t)[key] == kv_as_map(s).remove(
            k,
        )[key] by {
            lemma_kv_as_map_contains(t, key);
            let j = choose|j: int| 0 <= j < t.len() && (#[trigger] t[j].0) == key;
            lemma_kv_as_map_index(t, j);
            if j < i {
                lemma_kv_as_map_index(s, j);
            } else {
                lemma_kv_as_map_index(s, j + 1);
            }
        }
    }
}

/// With distinct keys, the realized map's domain has one element per entry.
pub proof fn lemma_kv_dom_len(s: Seq<(Seq<char>, Seq<u8>)>)
    requires
        forall|p: int, q: int| 0 <= p < q < s.len() ==> (#[trigger] s[p].0) != (#[trigger] s[q].0),
    ensures
        kv_as_map(s).dom().len() == s.len(),
        kv_as_map(s).dom().finite(),
    decreases s.len(),
{
    if s.len() > 0 {
        lemma_kv_dom_len(s.drop_last());
        lemma_kv_as_map_contains(s.drop_last(), s.last().0);
        assert(forall|i: int|
            0 <= i < s.drop_last().len() ==> (#[trigger] s.drop_last()[i].0) == s[i].0);
        assert(!kv_as_map(s.drop_last()).contains_key(s.last().0));
        assert(kv_as_map(s).dom() =~= kv_as_map(s.drop_last()).dom().insert(s.last().0));
    }
}


impl KvMap {
    /// Decides equality of two maps as mathematical values.
    pub fn equals(&self, other: &KvMap) -> (r: bool)
        ensures
            r == (self@ == other@),
    {
        proof {
            use_type_invariant(&*self);
            use_type_invariant(&*other);
        }
        let n = self.len();
        let m = other.len();
        if n != m {
            proof {
                if self@ == other@ {
                    lemma_kv_canonical(self.kv_seq(), other.kv_seq());
                }
            }
            return false;
        }
        let mut i: usize = 0;
        while i < n
            invariant
                0 <= i <= n,
                n == self.kv_seq().len(),
                n == other.kv_seq().len(),
                kv_sorted(self.kv_seq()),
                kv_sorted(other.kv_seq()),
                forall|j: int| 0 <= j < i ==> (#[trigger] self.kv_seq()[j]) == other.kv_seq()[j],
            decreases n - i,
        {
            let keys_eq = str_eq(self.key_at(i).as_str(), other.key_at(i).as_str());
            let vals_eq = bytes_eq(self.value_at(i), other.value_at(i));
            if !(keys_eq && vals_eq) {
                proof {
                    if self@ == other@ {
                        lemma_kv_canonical(self.kv_seq(), other.kv_seq());
                    }
                }
                return false;
            }
            i = i + 1;
        }
        proof {
            assert(self.kv_seq() =~= other.kv_seq());
        }
        true
    }
}

/// Decides equality of two byte vectors.
pub fn bytes_eq(a: &Vec<u8>, b: &Vec<u8>) -> (r: bool)
    ensures
        r == (a@ == b@),
{
    let n = a.len();
    if n != b.len() {
        return false;
    }
    let mut i: usize = 0;
    while i < n
        invariant
            0 <= i <= n,
            n == a@.len(),
            n == b@.len(),
            forall|j: int| 0 <= j < i ==> a@[j] == b@[j],
        decreases n - i,
    {
        if a[i] != b[i] {
            return false;
        }
        i = i + 1;
    }
    proof {
        assert(a@ =~= b@);
    }
    true
}


} // verus!
