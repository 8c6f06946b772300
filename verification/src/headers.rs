//! The header mapping: keys stored as received, duplicate keys
//! overwrite, lookups either exact or case-insensitive.

use vstd::prelude::*;

verus! {

/// A header entry at the specification level: key and value as
/// character sequences.
pub type Entry = (Seq<char>, Seq<char>);

/// ASCII case folding of one character, as a code point: the
/// letters `A` to `Z` map to their lower-case forms, everything
/// else is left alone.
pub open spec fn fold_char(c: char) -> u32 {
    let u = c as u32;
    if 65 <= u && u <= 90 {
        (u + 32) as u32
    } else {
        u
    }
}

/// ASCII case folding of a whole character sequence.
pub open spec fn fold_chars(s: Seq<char>) -> Seq<u32> {
    Seq::new(s.len(), |i: int| fold_char(s[i]))
}

/// Two character sequences that are equal up to ASCII case.
pub open spec fn ci_eq(a: Seq<char>, b: Seq<char>) -> bool {
    fold_chars(a) == fold_chars(b)
}

/// The first index whose key equals `key` exactly, if any.
pub open spec fn first_exact(es: Seq<Entry>, key: Seq<char>) -> Option<Seq<char>>
    decreases es.len(),
{
    if es.len() == 0 {
        None
    } else if es[0].0 == key {
        Some(es[0].1)
    } else {
        first_exact(es.skip(1), key)
    }
}

/// The first index whose key equals `key` up to ASCII case, if any.
pub open spec fn first_ci(es: Seq<Entry>, key: Seq<char>) -> Option<Seq<char>>
    decreases es.len(),
{
    if es.len() == 0 {
        None
    } else if ci_eq(es[0].0, key) {
        Some(es[0].1)
    } else {
        first_ci(es.skip(1), key)
    }
}

/// Insertion with overwrite: the first entry carrying `key` exactly is
/// replaced in place; with no such entry the pair goes to the end.
pub open spec fn entries_insert(es: Seq<Entry>, key: Seq<char>, value: Seq<char>) -> Seq<Entry>
    decreases es.len(),
{
    if es.len() == 0 {
        seq![(key, value)]
    } else if es[0].0 == key {
        seq![(key, value)] + es.skip(1)
    } else {
        seq![es[0]] + entries_insert(es.skip(1), key, value)
    }
}

/// Keys are pairwise distinct.
pub open spec fn unique_keys(es: Seq<Entry>) -> bool {
    forall|i: int, j: int| 0 <= i < j < es.len() ==> es[i].0 != es[j].0
}

/// The header block of one request.  Entries keep the order they were
/// inserted in; a repeated key overwrites the earlier value.
#[derive(Debug)]
pub struct HeaderMap {
    entries: Vec<(String, String)>,
}

impl View for HeaderMap {
    type V = Seq<Entry>;

    closed spec fn view(&self) -> Seq<Entry> {
        Seq::new(self.entries@.len(), |i: int| (self.entries@[i].0@, self.entries@[i].1@))
    }
}

impl HeaderMap {
    /// Every key occurs once: the map shape an overwrite-on-insert
    /// history guarantees.
    pub open spec fn wf(&self) -> bool {
        unique_keys(self@)
    }

    /// An empty header block.
    pub fn new() -> (r: HeaderMap)
        ensures
            r@ == Seq::<Entry>::empty(),
            r.wf(),
    {
        let r = HeaderMap { entries: Vec::new() };
        proof {
            assert(r@ =~= Seq::<Entry>::empty());
        }
        r
    }

    /// How many distinct headers are stored.
    pub fn len(&self) -> (n: usize)
        ensures
            n == self@.len(),
    {
        self.entries.len()
    }

    /// The entry at one index, key then value.
    pub fn entry_at(&self, i: usize) -> (r: (String, String))
        requires
            i < self@.len(),
        ensures
            (r.0@, r.1@) == self@[i as int],
    {
        let pair = &self.entries[i];
        (pair.0.clone(), pair.1.clone())
    }

    /// Store `value` under `key` as received: an entry whose key is
    /// exactly `key` is overwritten, otherwise the pair is appended.
    pub fn insert(&mut self, key: String, value: String)
        ensures
            final(self)@ == entries_insert(old(self)@, key@, value@),
            old(self).wf() ==> final(self).wf(),
    {
        let ghost orig = self@;
        let n = self.entries.len();
        for i in 0..n
            invariant
                n == self.entries.len(),
                self@ == orig,
                orig == old(self)@,
                forall|j: int| 0 <= j < i ==> orig[j].0 != key@,
        {
            if self.entries[i].0 == key {
                proof {
                    assert(orig[i as int].0 == key@);
                }
                self.entries.set(i, (key, value));
                proof {
                    let gi = i as int;
                    lemma_insert_hits(orig, key@, value@, gi);
                    assert(entries_insert(orig, key@, value@) == orig.update(gi, (key@, value@)));
                    assert(self@ =~= orig.update(gi, (key@, value@)));
                    if unique_keys(orig) {
                        assert forall|p: int, q: int|
                            0 <= p < q < self@.len() implies self@[p].0 != self@[q].0 by {
                            assert(orig[p].0 != orig[q].0);
                            if p == gi {
                                assert(self@[q].0 == orig[q].0);
                                assert(orig[q].0 != orig[gi].0);
                            } else if q == gi {
                                assert(self@[p].0 == orig[p].0);
                                assert(orig[p].0 != orig[gi].0);
                            }
                        }
                    }
                }
                return ;
            }
        }
        self.entries.push((key, value));
        proof {
            lemma_insert_appends(orig, key@, value@);
            assert(self@ =~= orig + seq![(key@, value@)]);
            if unique_keys(orig) {
                assert forall|i: int, j: int| 0 <= i < j < self@.len() implies self@[i].0
                    != self@[j].0 by {
                    if j == self@.len() - 1 {
                        assert(orig[i].0 != key@);
                    }
                }
            }
        }
    }

    /// Exact, case-sensitive lookup.
    pub fn get(&self, key: &str) -> (r: Option<String>)
        ensures
            match r {
                Some(v) => first_exact(self@, key@) == Some(v@),
                None => first_exact(self@, key@) is None,
            },
    {
        proof {
            assert(self@.skip(0) =~= self@);
        }
        let n = self.entries.len();
        for i in 0..n
            invariant
                n == self.entries.len(),
                first_exact(self@, key@) == first_exact(self@.skip(i as int), key@),
        {
            proof {
                lemma_first_exact_step(self@, key@, i as int);
            }
            if str_eq(self.entries[i].0.as_str(), key) {
                return Some(self.entries[i].1.clone());
            }
        }
        proof {
            assert(self@.skip(n as int) =~= Seq::<Entry>::empty());
        }
        None
    }

    /// Case-insensitive lookup: the first entry whose key equals `key`
    /// up to ASCII case.
    pub fn get_ci(&self, key: &str) -> (r: Option<String>)
        ensures
            match r {
                Some(v) => first_ci(self@, key@) == Some(v@),
                None => first_ci(self@, key@) is None,
            },
    {
        proof {
            assert(self@.skip(0) =~= self@);
        }
        let n = self.entries.len();
        for i in 0..n
            invariant
                n == self.entries.len(),
                first_ci(self@, key@) == first_ci(self@.skip(i as int), key@),
        {
            proof {
                lemma_first_ci_step(self@, key@, i as int);
            }
            if str_eq_ci(self.entries[i].0.as_str(), key) {
                return Some(self.entries[i].1.clone());
            }
        }
        proof {
            assert(self@.skip(n as int) =~= Seq::<Entry>::empty());
        }
        None
    }
}

proof fn lemma_first_exact_step(es: Seq<Entry>, key: Seq<char>, i: int)
    requires
        0 <= i < es.len(),
    ensures
        es[i].0 == key ==> first_exact(es.skip(i), key) == Some(es[i].1),
        es[i].0 != key ==> first_exact(es.skip(i), key) == first_exact(es.skip(i + 1), key),
{
    assert(es.skip(i)[0] == es[i]);
    assert(es.skip(i).skip(1) =~= es.skip(i + 1));
}

proof fn lemma_first_ci_step(es: Seq<Entry>, key: Seq<char>, i: int)
    requires
        0 <= i < es.len(),
    ensures
        ci_eq(es[i].0, key) ==> first_ci(es.skip(i), key) == Some(es[i].1),
        !ci_eq(es[i].0, key) ==> first_ci(es.skip(i), key) == first_ci(es.skip(i + 1), key),
{
    assert(es.skip(i)[0] == es[i]);
    assert(es.skip(i).skip(1) =~= es.skip(i + 1));
}

/// Overwriting the first hit at index `i` is what `entries_insert`
/// does when indices below `i` miss.
proof fn lemma_insert_hits(es: Seq<Entry>, key: Seq<char>, value: Seq<char>, i: int)
    requires
        0 <= i < es.len(),
        es[i].0 == key,
        forall|j: int| 0 <= j < i ==> es[j].0 != key,
    ensures
        entries_insert(es, key, value) =~= es.update(i, (key, value)),
    decreases i,
{
    if i == 0 {
        assert(entries_insert(es, key, value) == seq![(key, value)] + es.skip(1));
        assert(seq![(key, value)] + es.skip(1) =~= es.update(0, (key, value)));
    } else {
        assert(es.skip(1)[i - 1] == es[i]);
        assert(forall|j: int| 0 <= j < i - 1 ==> es.skip(1)[j] == es[j + 1]);
        lemma_insert_hits(es.skip(1), key, value, i - 1);
        assert(entries_insert(es, key, value) == seq![es[0]] + entries_insert(
            es.skip(1),
            key,
            value,
        ));
        assert(seq![es[0]] + es.skip(1).update(i - 1, (key, value)) =~= es.update(
            i,
            (key, value),
        ));
    }
}

/// With no hit anywhere, `entries_insert` appends.
proof fn lemma_insert_appends(es: Seq<Entry>, key: Seq<char>, value: Seq<char>)
    requires
        forall|j: int| 0 <= j < es.len() ==> es[j].0 != key,
    ensures
        entries_insert(es, key, value) =~= es + seq![(key, value)],
    decreases es.len(),
{
    if es.len() == 0 {
        assert(entries_insert(es, key, value) =~= es + seq![(key, value)]);
    } else {
        assert(forall|j: int| 0 <= j < es.skip(1).len() ==> es.skip(1)[j] == es[j + 1]);
        lemma_insert_appends(es.skip(1), key, value);
        assert(seq![es[0]] + (es.skip(1) + seq![(key, value)]) =~= es + seq![(key, value)]);
    }
}

/// Whether two strings hold the same characters.
pub fn str_eq(a: &str, b: &str) -> (r: bool)
    ensures
        r == (a@ == b@),
{
    let na = a.unicode_len();
    let nb = b.unicode_len();
    if na != nb {
        return false;
    }
    for i in 0..na
        invariant
            na == a@.len(),
            na == b@.len(),
            forall|j: int| 0 <= j < i ==> a@[j] == b@[j],
    {
        if a.get_char(i) != b.get_char(i) {
            return false;
        }
    }
    proof {
        assert(a@ =~= b@);
    }
    true
}

/// Whether two characters are the same up to ASCII case.
fn char_eq_ci(a: char, b: char) -> (r: bool)
    ensures
        r == (fold_char(a) == fold_char(b)),
{
    let au = a as u32;
    let bu = b as u32;
    let al = if 65 <= au && au <= 90 {
        au + 32
    } else {
        au
    };
    let bl = if 65 <= bu && bu <= 90 {
        bu + 32
    } else {
        bu
    };
    al == bl
}

/// Whether two strings are equal up to ASCII case.
pub fn str_eq_ci(a: &str, b: &str) -> (r: bool)
    ensures
        r == ci_eq(a@, b@),
{
    let na = a.unicode_len();
    let nb = b.unicode_len();
    if na != nb {
        proof {
            assert(fold_chars(a@).len() != fold_chars(b@).len());
        }
        return false;
    }
    for i in 0..na
        invariant
            na == a@.len(),
            na == b@.len(),
            forall|j: int| 0 <= j < i ==> fold_char(a@[j]) == fold_char(b@[j]),
    {
        if !char_eq_ci(a.get_char(i), b.get_char(i)) {
            proof {
                assert(fold_chars(a@)[i as int] != fold_chars(b@)[i as int]);
            }
            return false;
        }
    }
    proof {
        assert(fold_chars(a@) =~= fold_chars(b@));
    }
    true
}

/// Case-insensitive lookup sees only the folded key: two keys equal up
/// to ASCII case give the same result on every header block.
pub proof fn lemma_ci_lookup_case_blind(es: Seq<Entry>, k1: Seq<char>, k2: Seq<char>)
    requires
        ci_eq(k1, k2),
    ensures
        first_ci(es, k1) == first_ci(es, k2),
    decreases es.len(),
{
    if es.len() > 0 {
        lemma_ci_lookup_case_blind(es.skip(1), k1, k2);
    }
}

/// What a case-insensitive lookup yields: nothing exactly when no
/// stored key matches up to ASCII case, and otherwise the value of
/// the first entry whose key does.
pub proof fn lemma_ci_lookup_finds_first_match(es: Seq<Entry>, key: Seq<char>)
    ensures
        match first_ci(es, key) {
            Some(v) => exists|i: int|
                0 <= i < es.len() && #[trigger] ci_eq(es[i].0, key) && es[i].1 == v && (forall|
                    j: int,
                |
                    0 <= j < i ==> !ci_eq(es[j].0, key)),
            None => forall|i: int| 0 <= i < es.len() ==> !(#[trigger] ci_eq(es[i].0, key)),
        },
    decreases es.len(),
{
    if es.len() > 0 {
        lemma_ci_lookup_finds_first_match(es.skip(1), key);
        if ci_eq(es[0].0, key) {
            let i = 0int;
            assert(0 <= i < es.len() && ci_eq(es[i].0, key) && es[i].1 == es[0].1 && (forall|
                j: int,
            |
                0 <= j < i ==> !ci_eq(es[j].0, key)));
        } else {
            match first_ci(es.skip(1), key) {
                Some(v) => {
                    let i = choose|i: int|
                        0 <= i < es.skip(1).len() && #[trigger] ci_eq(es.skip(1)[i].0, key)
                            && es.skip(1)[i].1 == v && (forall|j: int|
                            0 <= j < i ==> !ci_eq(es.skip(1)[j].0, key));
                    assert(es.skip(1)[i] == es[i + 1]);
                    assert(forall|j: int| 1 <= j < i + 1 ==> es.skip(1)[j - 1] == es[j]);
                    assert(0 <= i + 1 < es.len() && ci_eq(es[i + 1].0, key) && es[i + 1].1 == v
                        && (forall|j: int| 0 <= j < i + 1 ==> !ci_eq(es[j].0, key)));
                },
                None => {
                    assert forall|i: int| 0 <= i < es.len() implies !(#[trigger] ci_eq(
                        es[i].0,
                        key,
                    )) by {
                        if i >= 1 {
                            assert(es.skip(1)[i - 1] == es[i]);
                            assert(!ci_eq(es.skip(1)[i - 1].0, key));
                        }
                    }
                },
            }
        }
    }
}

/// Insertion overwrites: after storing `value` under `key`, an exact
/// lookup of `key` yields `value`, and every other key reads as
/// before.
pub proof fn lemma_insert_then_lookup(es: Seq<Entry>, key: Seq<char>, value: Seq<char>, other: Seq<char>)
    ensures
        first_exact(entries_insert(es, key, value), key) == Some(value),
        other != key ==> first_exact(entries_insert(es, key, value), other) == first_exact(
            es,
            other,
        ),
    decreases es.len(),
{
    let es2 = entries_insert(es, key, value);
    if es.len() == 0 {
        assert(es2 == seq![(key, value)]);
        assert(es2.skip(1) =~= Seq::<Entry>::empty());
        if other != key {
            assert(es2[0].0 != other);
            assert(first_exact(es2, other) == first_exact(es2.skip(1), other));
            assert(first_exact(es2, other) is None);
        }
    } else if es[0].0 == key {
        assert(es2 == seq![(key, value)] + es.skip(1));
        assert(es2[0] == (key, value));
        assert(es2.skip(1) =~= es.skip(1));
        if other != key {
            assert(es2[0].0 != other);
            assert(es[0].0 != other);
            assert(first_exact(es2, other) == first_exact(es.skip(1), other));
            assert(first_exact(es, other) == first_exact(es.skip(1), other));
        }
    } else {
        lemma_insert_then_lookup(es.skip(1), key, value, other);
        assert(es2 == seq![es[0]] + entries_insert(es.skip(1), key, value));
        assert(es2[0] == es[0]);
        assert(es2.skip(1) =~= entries_insert(es.skip(1), key, value));
        if other != key {
            if es[0].0 == other {
                assert(first_exact(es2, other) == Some(es2[0].1));
                assert(first_exact(es, other) == Some(es[0].1));
            } else {
                assert(first_exact(es2, other) == first_exact(es2.skip(1), other));
                assert(first_exact(es, other) == first_exact(es.skip(1), other));
            }
        }
    }
}

} // verus!
