use vstd::prelude::*;

verus! {

/// Looks `k` up in an association list: the first pair with that key.
pub open spec fn spec_lookup(
    pairs: Seq<(Seq<char>, Seq<char>)>,
    k: Seq<char>,
) -> Option<Seq<char>>
    decreases pairs.len(),
{
    if pairs.len() == 0 {
        None
    } else if pairs[0].0 == k {
        Some(pairs[0].1)
    } else {
        spec_lookup(pairs.drop_first(), k)
    }
}

/// Binds `k` to `v` in an association list: an existing key keeps its
/// position and gets the new value, a new key goes to the end.
pub open spec fn spec_insert(
    pairs: Seq<(Seq<char>, Seq<char>)>,
    k: Seq<char>,
    v: Seq<char>,
) -> Seq<(Seq<char>, Seq<char>)>
    decreases pairs.len(),
{
    if pairs.len() == 0 {
        seq![(k, v)]
    } else if pairs[0].0 == k {
        seq![(k, v)] + pairs.drop_first()
    } else {
        seq![pairs[0]] + spec_insert(pairs.drop_first(), k, v)
    }
}

/// After binding `k`, looking `k` up yields the new value: the
/// last-declared binding of a key is the one that counts.
pub proof fn lemma_lookup_insert_same(pairs: Seq<(Seq<char>, Seq<char>)>, k: Seq<char>, v: Seq<char>)
    ensures
        spec_lookup(spec_insert(pairs, k, v), k) == Some(v),
    decreases pairs.len(),
{
    if pairs.len() == 0 {
    } else if pairs[0].0 == k {
        assert((seq![(k, v)] + pairs.drop_first())[0] == (k, v));
    } else {
        lemma_lookup_insert_same(pairs.drop_first(), k, v);
        assert((seq![pairs[0]] + spec_insert(pairs.drop_first(), k, v)).drop_first()
            =~= spec_insert(pairs.drop_first(), k, v));
    }
}

/// Binding `k` leaves every other key's binding unchanged.
pub proof fn lemma_lookup_insert_other(
    pairs: Seq<(Seq<char>, Seq<char>)>,
    k: Seq<char>,
    v: Seq<char>,
    other: Seq<char>,
)
    requires
        other != k,
    ensures
        spec_lookup(spec_insert(pairs, k, v), other) == spec_lookup(pairs, other),
    decreases pairs.len(),
{
    reveal_with_fuel(spec_lookup, 3);
    if pairs.len() == 0 {
        assert(spec_insert(pairs, k, v) == seq![(k, v)]);
        assert(seq![(k, v)][0] == (k, v));
        assert(seq![(k, v)].drop_first() =~= Seq::<(Seq<char>, Seq<char>)>::empty());
    } else if pairs[0].0 == k {
        assert((seq![(k, v)] + pairs.drop_first())[0] == (k, v));
        assert((seq![(k, v)] + pairs.drop_first()).drop_first() =~= pairs.drop_first());
    } else {
        lemma_lookup_insert_other(pairs.drop_first(), k, v, other);
        assert((seq![pairs[0]] + spec_insert(pairs.drop_first(), k, v))[0] == pairs[0]);
        assert((seq![pairs[0]] + spec_insert(pairs.drop_first(), k, v)).drop_first()
            =~= spec_insert(pairs.drop_first(), k, v));
    }
}

/// An ordered map from names to text values: the bindings that one rule
/// match extracts, and the parameters of one query string. Keys are
/// unique; rebinding a key overwrites its value where it stands.
#[derive(Debug, PartialEq)]
pub struct StrMap {
    pairs: Vec<(String, String)>,
}

impl View for StrMap {
    type V = Seq<(Seq<char>, Seq<char>)>;

    closed spec fn view(&self) -> Seq<(Seq<char>, Seq<char>)> {
        Seq::new(self.pairs@.len(), |i: int| (self.pairs@[i].0@, self.pairs@[i].1@))
    }
}

impl StrMap {
    /// An empty map.
    pub fn new() -> (r: StrMap)
        ensures
            r@ =~= Seq::<(Seq<char>, Seq<char>)>::empty(),
    {
        StrMap { pairs: Vec::new() }
    }

    pub fn len(&self) -> (n: usize)
        ensures
            n == self@.len(),
    {
        self.pairs.len()
    }

    pub fn is_empty(&self) -> (r: bool)
        ensures
            r == (self@.len() == 0),
    {
        self.pairs.len() == 0
    }

    /// The pair at position `i`, in declaration order.
    pub fn pair(&self, i: usize) -> (r: (&String, &String))
        requires
            i < self@.len(),
        ensures
            r.0@ == self@[i as int].0,
            r.1@ == self@[i as int].1,
    {
        (&self.pairs[i].0, &self.pairs[i].1)
    }

    /// Binds `k` to `v`; a key already present keeps its position and
    /// takes the new value.
    pub fn insert(&mut self, k: String, v: String)
        ensures
            final(self)@ == spec_insert(old(self)@, k@, v@),
    {
        let m = self.pairs.len();
        let mut i: usize = 0;
        while i < m
            invariant
                i <= m,
                m == self.pairs@.len(),
                self == old(self),
                forall|j: int| 0 <= j < i ==> self@[j].0 != k@,
            decreases m - i,
        {
            if crate::text::str_eq(self.pairs[i].0.as_str(), k.as_str()) {
                let ghost oldview = self@;
                self.pairs[i] = (k, v);
                proof {
                    assert(self@[i as int] == (k@, v@));
                    assert(self@ =~= oldview.update(i as int, (k@, v@)));
                    lemma_insert_at(oldview, oldview[i as int].1, i as int, self@);
                }
                return ;
            }
            i += 1;
        }
        let ghost oldview = self@;
        self.pairs.push((k, v));
        proof {
            assert(self@ =~= oldview + seq![(k@, v@)]);
            lemma_insert_missing(oldview, k@, v@);
        }
    }

    /// The value bound to `k`, if any.
    pub fn get<'a>(&'a self, k: &str) -> (r: Option<&'a String>)
        ensures
            match r {
                Some(v) => spec_lookup(self@, k@) == Some(v@),
                None => spec_lookup(self@, k@) is None,
            },
    {
        let m = self.pairs.len();
        let mut i: usize = 0;
        proof {
            assert(self@.skip(0) =~= self@);
        }
        while i < m
            invariant
                i <= m,
                m == self.pairs@.len(),
                spec_lookup(self@, k@) == spec_lookup(self@.skip(i as int), k@),
            decreases m - i,
        {
            proof {
                assert(self@.skip(i as int)[0] == self@[i as int]);
                assert(self@.skip(i as int).drop_first() =~= self@.skip(i + 1));
            }
            if crate::text::str_eq(self.pairs[i].0.as_str(), k) {
                return Some(&self.pairs[i].1);
            }
            i += 1;
        }
        proof {
            assert(self@.skip(m as int).len() == 0);
        }
        None
    }
}

/// Inserting a key that first occurs at `i` updates position `i` alone.
proof fn lemma_insert_at(
    pairs: Seq<(Seq<char>, Seq<char>)>,
    oldv: Seq<char>,
    i: int,
    updated: Seq<(Seq<char>, Seq<char>)>,
)
    requires
        0 <= i < pairs.len(),
        forall|j: int| 0 <= j < i ==> pairs[j].0 != updated[i].0,
        pairs[i].0 == updated[i].0,
        updated =~= pairs.update(i, updated[i]),
    ensures
        spec_insert(pairs, updated[i].0, updated[i].1) =~= updated,
    decreases i,
{
    if i == 0 {
        assert(spec_insert(pairs, updated[0].0, updated[0].1) =~= seq![updated[0]]
            + pairs.drop_first());
        assert(seq![updated[0]] + pairs.drop_first() =~= updated);
    } else {
        lemma_insert_at(pairs.drop_first(), oldv, i - 1, updated.drop_first());
        assert(spec_insert(pairs, updated[i].0, updated[i].1) =~= seq![pairs[0]] + spec_insert(
            pairs.drop_first(),
            updated[i].0,
            updated[i].1,
        ));
        assert(updated.drop_first()[i - 1] == updated[i]);
        assert(updated.drop_first() =~= pairs.drop_first().update(i - 1, updated[i]));
        assert(seq![pairs[0]] + updated.drop_first() =~= updated);
    }
}

/// Inserting a key that is absent appends the new pair at the end.
proof fn lemma_insert_missing(pairs: Seq<(Seq<char>, Seq<char>)>, k: Seq<char>, v: Seq<char>)
    requires
        forall|j: int| 0 <= j < pairs.len() ==> pairs[j].0 != k,
    ensures
        spec_insert(pairs, k, v) =~= pairs + seq![(k, v)],
    decreases pairs.len(),
{
    if pairs.len() == 0 {
        assert(spec_insert(pairs, k, v) =~= seq![(k, v)]);
        assert(pairs + seq![(k, v)] =~= seq![(k, v)]);
    } else {
        assert(forall|j: int|
            0 <= j < pairs.drop_first().len() ==> pairs.drop_first()[j].0 != k);
        lemma_insert_missing(pairs.drop_first(), k, v);
        assert(seq![pairs[0]] + (pairs.drop_first() + seq![(k, v)]) =~= pairs + seq![(k, v)]);
    }
}

} // verus!
