//! Captured route parameters: a mapping from parameter name to the matched
//! path text, carried in a request's extension store.

use vstd::prelude::*;

verus! {

/// The mapping described by a sequence of key/value pairs, later pairs
/// winning over earlier ones of the same key.
pub open spec fn pairs_map(s: Seq<(Seq<u8>, Seq<u8>)>) -> Map<Seq<u8>, Seq<u8>>
    decreases s.len(),
{
    if s.len() == 0 {
        Map::empty()
    } else {
        pairs_map(s.drop_last()).insert(s.last().0, s.last().1)
    }
}

/// No two pairs of `s` share a key.
pub open spec fn unique_keys(s: Seq<(Seq<u8>, Seq<u8>)>) -> bool {
    forall|i: int, j: int| 0 <= i < j < s.len() ==> (#[trigger] s[i]).0 != (#[trigger] s[j]).0
}

/// A key is in the mapping of `s` exactly when some pair of `s` carries it.
pub proof fn lemma_pairs_map_key(s: Seq<(Seq<u8>, Seq<u8>)>, k: Seq<u8>)
    ensures
        pairs_map(s).contains_key(k) <==> exists|i: int| 0 <= i < s.len() && (#[trigger] s[i]).0
            == k,
    decreases s.len(),
{
    if s.len() > 0 {
        let sd = s.drop_last();
        lemma_pairs_map_key(sd, k);
        if s.last().0 == k {
            assert(s[s.len() - 1].0 == k);
        } else {
            if pairs_map(s).contains_key(k) {
                let i = choose|i: int| 0 <= i < sd.len() && (#[trigger] sd[i]).0 == k;
                assert(s[i].0 == k);
            }
            if exists|i: int| 0 <= i < s.len() && (#[trigger] s[i]).0 == k {
                let i = choose|i: int| 0 <= i < s.len() && (#[trigger] s[i]).0 == k;
                assert(i < s.len() - 1);
                assert(sd[i].0 == k);
            }
        }
    }
}

/// The mapping of `s` sends the key of each pair to that pair's value, when
/// no two pairs share a key.
pub proof fn lemma_pairs_map_at(s: Seq<(Seq<u8>, Seq<u8>)>, i: int)
    requires
        unique_keys(s),
        0 <= i < s.len(),
    ensures
        pairs_map(s).contains_key(s[i].0),
        pairs_map(s)[s[i].0] == s[i].1,
    decreases s.len(),
{
    if i == s.len() - 1 {
        assert(s.last() == s[i]);
    } else {
        let sd = s.drop_last();
        assert(sd[i] == s[i]);
        lemma_pairs_map_at(sd, i);
        assert(s.last().0 != s[i].0);
    }
}

/// With unique keys, replacing the pair that holds a key updates the mapping
/// exactly as inserting that key would.
pub proof fn lemma_pairs_map_update(s: Seq<(Seq<u8>, Seq<u8>)>, i: int, v: Seq<u8>)
    requires
        unique_keys(s),
        0 <= i < s.len(),
    ensures
        pairs_map(s.update(i, (s[i].0, v))) == pairs_map(s).insert(s[i].0, v),
    decreases s.len(),
{
    let k = s[i].0;
    let t = s.update(i, (k, v));
    if i == s.len() - 1 {
        assert(t.drop_last() =~= s.drop_last());
        assert(t.last() == (k, v));
        assert(pairs_map(t) =~= pairs_map(s).insert(k, v));
    } else {
        assert(t.drop_last() =~= s.drop_last().update(i, (k, v)));
        assert(s.drop_last()[i] == s[i]);
        lemma_pairs_map_update(s.drop_last(), i, v);
        assert(t.last() == s.last());
        lemma_pairs_map_key(s.drop_last(), s.last().0);
        assert(s.last().0 != k);
        assert(pairs_map(t) =~= pairs_map(s).insert(k, v));
    }
}

/// The parameters captured while matching a request path: parameter names
/// bound to the path text they matched, each name at most once.
#[derive(Clone, Debug)]
pub struct Params {
    pairs: Vec<(Vec<u8>, Vec<u8>)>,
}

impl View for Params {
    type V = Map<Seq<u8>, Seq<u8>>;

    closed spec fn view(&self) -> Map<Seq<u8>, Seq<u8>> {
        pairs_map(self.pairs.deep_view())
    }
}

impl Default for Params {
    /// The default capture set is empty.
    fn default() -> (r: Params)
        ensures
            r@ == Map::<Seq<u8>, Seq<u8>>::empty(),
            r.wf(),
    {
        Params::new()
    }
}

impl Params {
    /// The stored pairs, one per captured parameter name.
    pub closed spec fn spec_pairs(self) -> Seq<(Seq<u8>, Seq<u8>)> {
        self.pairs.deep_view()
    }

    /// Each parameter name is stored at most once.
    pub closed spec fn wf(self) -> bool {
        unique_keys(self.pairs.deep_view())
    }

    pub fn new() -> (r: Params)
        ensures
            r@ == Map::<Seq<u8>, Seq<u8>>::empty(),
            r.wf(),
    {
        let r = Params { pairs: Vec::new() };
        proof {
            assert(r.pairs.deep_view() =~~= Seq::<(Seq<u8>, Seq<u8>)>::empty());
        }
        r
    }

    /// The value captured for `name`, if that parameter was bound.
    #[verifier::loop_isolation(false)]
    pub fn get(&self, name: &Vec<u8>) -> (r: Option<&Vec<u8>>)
        requires
            self.wf(),
        ensures
            r matches Some(v) ==> self@.contains_key(name@) && v@ == self@[name@],
            r is None ==> !self@.contains_key(name@),
    {
        let ghost s = self.pairs.deep_view();
        let mut i: usize = 0;
        while i < self.pairs.len()
            invariant
                i <= self.pairs.len(),
                s == self.pairs.deep_view(),
                forall|j: int| 0 <= j < i ==> (#[trigger] s[j]).0 != name@,
            decreases self.pairs.len() - i,
        {
            proof {
                assert(s[i as int].0 =~= self.pairs@[i as int].0@);
            }
            if crate::http::bytes_eq(&self.pairs[i].0, name) {
                proof {
                    assert(s[i as int].0 == name@);
                    lemma_pairs_map_at(s, i as int);
                    assert(s[i as int].1 =~= self.pairs@[i as int].1@);
                }
                return Some(&self.pairs[i].1);
            }
            i += 1;
        }
        proof {
            lemma_pairs_map_key(s, name@);
        }
        None
    }

    /// Binds `name` to `value`, replacing any earlier binding of the name.
    #[verifier::loop_isolation(false)]
    pub fn set(&mut self, name: Vec<u8>, value: Vec<u8>)
        requires
            old(self).wf(),
        ensures
            final(self)@ == old(self)@.insert(name@, value@),
            final(self).wf(),
    {
        let ghost s = self.pairs.deep_view();
        let mut i: usize = 0;
        while i < self.pairs.len()
            invariant
                i <= self.pairs.len(),
                s == self.pairs.deep_view(),
                unique_keys(s),
                forall|j: int| 0 <= j < i ==> (#[trigger] s[j]).0 != name@,
            decreases self.pairs.len() - i,
        {
            proof {
                assert(s[i as int].0 =~= self.pairs@[i as int].0@);
            }
            if crate::http::bytes_eq(&self.pairs[i].0, &name) {
                proof {
                    assert(s[i as int].0 == name@);
                }
                self.pairs[i] = (name, value);
                proof {
                    assert(self.pairs.deep_view() =~~= s.update(i as int, (s[i as int].0, value@)));
                    lemma_pairs_map_update(s, i as int, value@);
                    assert forall|a: int, b: int|
                        0 <= a < b < self.pairs.deep_view().len() implies (#[trigger] self.pairs
                        .deep_view()[a]).0 != (#[trigger] self.pairs.deep_view()[b]).0 by {
                        assert(s[a].0 == self.pairs.deep_view()[a].0);
                        assert(s[b].0 == self.pairs.deep_view()[b].0);
                    }
                }
                return ;
            }
            i += 1;
        }
        self.pairs.push((name, value));
        proof {
            let t = self.pairs.deep_view();
            assert(t =~~= s.push((name@, value@)));
            assert(t.drop_last() =~~= s);
            assert(pairs_map(t) == pairs_map(s).insert(name@, value@));
            lemma_pairs_map_key(s, name@);
            assert forall|a: int, b: int| 0 <= a < b < t.len() implies (#[trigger] t[a]).0
                != (#[trigger] t[b]).0 by {
                if b < t.len() - 1 {
                    assert(s[a].0 != s[b].0);
                } else {
                    assert(t[b].0 == name@);
                    assert(s[a].0 != name@);
                }
            }
        }
    }

    /// Borrows the underlying name/value pairs.
    pub fn get_ref(&self) -> (r: &Vec<(Vec<u8>, Vec<u8>)>)
        ensures
            r.deep_view() == self.spec_pairs(),
            pairs_map(r.deep_view()) == self@,
    {
        &self.pairs
    }

    /// Hands the underlying name/value pairs out.
    pub fn into_inner(self) -> (r: Vec<(Vec<u8>, Vec<u8>)>)
        ensures
            r.deep_view() == self.spec_pairs(),
            pairs_map(r.deep_view()) == self@,
    {
        self.pairs
    }

    /// How many parameters are bound.
    pub fn len(&self) -> (r: usize)
        ensures
            r == self.spec_pairs().len(),
    {
        self.pairs.len()
    }
}

} // verus!
