//! The per-request side-channel store: a map from an extension kind to one
//! value of that kind, at most one value per kind.
//!
//! The store is a closed enumeration of the kinds a request can carry: the
//! captured route parameters, an injected byte string, and an injected
//! number. Inserting a second value of a kind replaces the first and hands
//! the first back.

use crate::params::Params;
use vstd::prelude::*;

verus! {

/// One value carried in a request's extension store.
#[derive(Clone, Debug)]
pub enum Extension {
    /// The route parameters captured while matching the path.
    Params(Params),
    /// An injected byte-string context value.
    Text(Vec<u8>),
    /// An injected numeric context value.
    Number(u64),
}

/// The kind of an extension value: the key under which it is stored.
#[derive(Clone, Copy, Debug, PartialEq, Eq, Structural)]
pub enum ExtKind {
    Params,
    Text,
    Number,
}

/// The mathematical value of an [`Extension`].
pub enum ExtensionView {
    Params(Map<Seq<u8>, Seq<u8>>),
    Text(Seq<u8>),
    Number(u64),
}

impl View for Extension {
    type V = ExtensionView;

    open spec fn view(&self) -> ExtensionView {
        match self {
            Extension::Params(p) => ExtensionView::Params(p@),
            Extension::Text(t) => ExtensionView::Text(t@),
            Extension::Number(n) => ExtensionView::Number(*n),
        }
    }
}

impl Extension {
    /// The key under which this value is stored.
    pub open spec fn kind(self) -> ExtKind {
        match self {
            Extension::Params(_) => ExtKind::Params,
            Extension::Text(_) => ExtKind::Text,
            Extension::Number(_) => ExtKind::Number,
        }
    }

    /// A parameter extension holds well-formed parameters.
    pub open spec fn wf(self) -> bool {
        match self {
            Extension::Params(p) => p.wf(),
            _ => true,
        }
    }

    /// The key under which this value is stored.
    pub fn kind_of(&self) -> (r: ExtKind)
        ensures
            r == self.kind(),
    {
        match self {
            Extension::Params(_) => ExtKind::Params,
            Extension::Text(_) => ExtKind::Text,
            Extension::Number(_) => ExtKind::Number,
        }
    }
}

/// The mapping described by a sequence of extension values, later values
/// winning over earlier ones of the same kind.
pub open spec fn exts_map(s: Seq<Extension>) -> Map<ExtKind, ExtensionView>
    decreases s.len(),
{
    if s.len() == 0 {
        Map::empty()
    } else {
        exts_map(s.drop_last()).insert(s.last().kind(), s.last()@)
    }
}

/// No two values of `s` share a kind.
pub open spec fn unique_kinds(s: Seq<Extension>) -> bool {
    forall|i: int, j: int|
        0 <= i < j < s.len() ==> (#[trigger] s[i]).kind() != (#[trigger] s[j]).kind()
}

/// A kind is in the mapping of `s` exactly when some value of `s` has it.
pub proof fn lemma_exts_map_key(s: Seq<Extension>, k: ExtKind)
    ensures
        exts_map(s).contains_key(k) <==> exists|i: int|
            0 <= i < s.len() && (#[trigger] s[i]).kind() == k,
    decreases s.len(),
{
    if s.len() > 0 {
        let sd = s.drop_last();
        lemma_exts_map_key(sd, k);
        if s.last().kind() == k {
            assert(s[s.len() - 1].kind() == k);
        } else {
            if exts_map(s).contains_key(k) {
                let i = choose|i: int| 0 <= i < sd.len() && (#[trigger] sd[i]).kind() == k;
                assert(s[i].kind() == k);
            }
            if exists|i: int| 0 <= i < s.len() && (#[trigger] s[i]).kind() == k {
                let i = choose|i: int| 0 <= i < s.len() && (#[trigger] s[i]).kind() == k;
                assert(i < s.len() - 1);
                assert(sd[i].kind() == k);
            }
        }
    }
}

/// With no two values sharing a kind, the mapping's domain has exactly
/// one kind per stored value.
pub proof fn lemma_exts_map_dom_size(s: Seq<Extension>)
    requires
        unique_kinds(s),
    ensures
        exts_map(s).dom().finite(),
        exts_map(s).dom().len() == s.len(),
    decreases s.len(),
{
    if s.len() == 0 {
        assert(exts_map(s).dom() =~= Set::<ExtKind>::empty());
    } else {
        let sd = s.drop_last();
        lemma_exts_map_dom_size(sd);
        lemma_exts_map_key(sd, s.last().kind());
        assert forall|j: int| 0 <= j < sd.len() implies (#[trigger] sd[j]).kind()
            != s.last().kind() by {
            assert(sd[j] == s[j]);
        }
        assert(!exts_map(sd).contains_key(s.last().kind()));
        assert(exts_map(s).dom() =~= exts_map(sd).dom().insert(s.last().kind()));
    }
}

/// The mapping of `s` sends the kind of each value to that value, when no
/// two values share a kind.
pub proof fn lemma_exts_map_at(s: Seq<Extension>, i: int)
    requires
        unique_kinds(s),
        0 <= i < s.len(),
    ensures
        exts_map(s).contains_key(s[i].kind()),
        exts_map(s)[s[i].kind()] == s[i]@,
    decreases s.len(),
{
    if i == s.len() - 1 {
        assert(s.last() == s[i]);
    } else {
        let sd = s.drop_last();
        assert(sd[i] == s[i]);
        lemma_exts_map_at(sd, i);
        assert(s.last().kind() != s[i].kind());
    }
}

/// Replacing the value that holds a kind by a value of the same kind
/// updates exactly that kind in the mapping.
pub proof fn lemma_exts_map_update(s: Seq<Extension>, i: int, v: Extension)
    requires
        unique_kinds(s),
        0 <= i < s.len(),
        v.kind() == s[i].kind(),
    ensures
        exts_map(s.update(i, v)) == exts_map(s).insert(s[i].kind(), v@),
    decreases s.len(),
{
    let k = s[i].kind();
    let t = s.update(i, v);
    if i == s.len() - 1 {
        assert(t.drop_last() =~= s.drop_last());
        assert(t.last() == v);
        assert(exts_map(t) =~= exts_map(s).insert(k, v@));
    } else {
        assert(t.drop_last() =~= s.drop_last().update(i, v));
        assert(s.drop_last()[i] == s[i]);
        lemma_exts_map_update(s.drop_last(), i, v);
        assert(t.last() == s.last());
        assert(s.last().kind() != k);
        assert(exts_map(t) =~= exts_map(s).insert(k, v@));
    }
}

/// Taking out the value that holds a kind removes exactly that kind from
/// the mapping, when no two values share a kind.
pub proof fn lemma_exts_map_remove(s: Seq<Extension>, i: int)
    requires
        unique_kinds(s),
        0 <= i < s.len(),
    ensures
        exts_map(s.remove(i)) == exts_map(s).remove(s[i].kind()),
    decreases s.len(),
{
    let k = s[i].kind();
    if i == s.len() - 1 {
        assert(s.remove(i) =~= s.drop_last());
        lemma_exts_map_key(s.drop_last(), k);
        assert forall|j: int| 0 <= j < s.drop_last().len() implies (#[trigger] s.drop_last()[
        j]).kind() != k by {
            assert(s.drop_last()[j] == s[j]);
        }
        assert(!exts_map(s.drop_last()).contains_key(k));
        assert(exts_map(s.remove(i)) =~= exts_map(s).remove(k));
    } else {
        let sd = s.drop_last();
        assert(sd[i] == s[i]);
        lemma_exts_map_remove(sd, i);
        assert(s.remove(i).drop_last() =~= sd.remove(i));
        assert(s.remove(i).last() == s.last());
        assert(s.last().kind() != k);
        assert(exts_map(s.remove(i)) =~= exts_map(s).remove(k));
    }
}

/// The per-request extension store.
#[derive(Clone, Debug)]
pub struct Extensions {
    items: Vec<Extension>,
}

impl View for Extensions {
    type V = Map<ExtKind, ExtensionView>;

    closed spec fn view(&self) -> Map<ExtKind, ExtensionView> {
        exts_map(self.items@)
    }
}

impl Default for Extensions {
    /// The default store is empty.
    fn default() -> (r: Extensions)
        ensures
            r@ == Map::<ExtKind, ExtensionView>::empty(),
            r.wf(),
            r.spec_items().len() == 0,
    {
        Extensions::new()
    }
}

impl Extensions {
    /// The stored values, one per kind.
    pub closed spec fn spec_items(self) -> Seq<Extension> {
        self.items@
    }

    /// Each kind is stored at most once, and every value is well-formed.
    pub closed spec fn wf(self) -> bool {
        unique_kinds(self.items@) && forall|i: int|
            0 <= i < self.items@.len() ==> (#[trigger] self.items@[i]).wf()
    }

    pub fn new() -> (r: Extensions)
        ensures
            r@ == Map::<ExtKind, ExtensionView>::empty(),
            r.wf(),
            r.spec_items().len() == 0,
    {
        Extensions { items: Vec::new() }
    }

    /// Under well-formedness, the stored count is the number of kinds the
    /// store maps: one stored value per kind.
    pub proof fn lemma_len_is_dom_size(self)
        requires
            self.wf(),
        ensures
            self@.dom().finite(),
            self.spec_items().len() == self@.dom().len(),
    {
        lemma_exts_map_dom_size(self.items@);
    }

    /// How many values are stored.
    pub fn len(&self) -> (r: usize)
        ensures
            r == self.spec_items().len(),
    {
        self.items.len()
    }

    /// Whether the store holds no value.
    pub fn is_empty(&self) -> (r: bool)
        ensures
            r == (self.spec_items().len() == 0),
            r ==> self@ == Map::<ExtKind, ExtensionView>::empty(),
    {
        self.items.len() == 0
    }

    /// Drops every stored value.
    pub fn clear(&mut self)
        ensures
            final(self)@ == Map::<ExtKind, ExtensionView>::empty(),
            final(self).wf(),
            final(self).spec_items().len() == 0,
    {
        self.items.clear();
    }

    /// Stores `value` under its kind, replacing and returning any value of
    /// the same kind that was stored before.
    #[verifier::loop_isolation(false)]
    pub fn insert(&mut self, value: Extension) -> (r: Option<Extension>)
        requires
            old(self).wf(),
            value.wf(),
        ensures
            final(self)@ == old(self)@.insert(value.kind(), value@),
            final(self).wf(),
            r matches Some(prev) ==> old(self)@.contains_key(value.kind()) && prev@ == old(
                self,
            )@[value.kind()] && prev.kind() == value.kind() && final(self).spec_items().len()
                == old(self).spec_items().len(),
            r is None ==> !old(self)@.contains_key(value.kind()) && final(self).spec_items().len()
                == old(self).spec_items().len() + 1,
    {
        let ghost s = self.items@;
        let k = value.kind_of();
        let mut i: usize = 0;
        while i < self.items.len()
            invariant
                i <= self.items.len(),
                self.items@ == s,
                forall|j: int| 0 <= j < i ==> (#[trigger] s[j]).kind() != value.kind(),
            decreases self.items.len() - i,
        {
            if self.items[i].kind_of() == k {
                proof {
                    lemma_exts_map_at(s, i as int);
                    lemma_exts_map_remove(s, i as int);
                }
                let prev = self.items.remove(i);
                self.items.push(value);
                proof {
                    assert(self.items@ =~= s.remove(i as int).push(value));
                    assert(self.items@.drop_last() =~= s.remove(i as int));
                    assert(self@ =~= old(self)@.insert(value.kind(), value@));
                    assert forall|a: int, b: int|
                        0 <= a < b < self.items@.len() implies (#[trigger] self.items@[a]).kind()
                        != (#[trigger] self.items@[b]).kind() by {
                        if b < self.items@.len() - 1 {
                            let sr = s.remove(i as int);
                            assert(sr[a].kind() != sr[b].kind());
                        } else {
                            let sr = s.remove(i as int);
                            if a < i {
                                assert(sr[a] == s[a]);
                            } else {
                                assert(sr[a] == s[a + 1]);
                            }
                        }
                    }
                }
                return Some(prev);
            }
            i += 1;
        }
        proof {
            lemma_exts_map_key(s, value.kind());
        }
        self.items.push(value);
        proof {
            assert(self.items@.drop_last() =~= s);
            assert(self@ =~= old(self)@.insert(value.kind(), value@));
            assert forall|a: int, b: int|
                0 <= a < b < self.items@.len() implies (#[trigger] self.items@[a]).kind()
                != (#[trigger] self.items@[b]).kind() by {
                if b == self.items@.len() - 1 {
                    assert(self.items@[a] == s[a]);
                }
            }
        }
        None
    }

    /// Borrows the stored value of the given kind, if any.
    #[verifier::loop_isolation(false)]
    pub fn get(&self, kind: ExtKind) -> (r: Option<&Extension>)
        requires
            self.wf(),
        ensures
            r matches Some(e) ==> self@.contains_key(kind) && e@ == self@[kind] && e.kind() == kind
                && e.wf(),
            r is None ==> !self@.contains_key(kind),
    {
        let ghost s = self.items@;
        let mut i: usize = 0;
        while i < self.items.len()
            invariant
                i <= self.items.len(),
                forall|j: int| 0 <= j < i ==> (#[trigger] s[j]).kind() != kind,
            decreases self.items.len() - i,
        {
            if self.items[i].kind_of() == kind {
                proof {
                    lemma_exts_map_at(s, i as int);
                }
                return Some(&self.items[i]);
            }
            i += 1;
        }
        proof {
            lemma_exts_map_key(s, kind);
        }
        None
    }

    /// Borrows the stored value of the given kind mutably, if any. While
    /// the caller keeps the borrowed value's kind, the store afterwards
    /// maps that kind to whatever the caller left behind.
    #[verifier::loop_isolation(false)]
    pub fn get_mut(&mut self, kind: ExtKind) -> (r: Option<&mut Extension>)
        requires
            old(self).wf(),
        ensures
            r is Some <==> old(self)@.contains_key(kind),
            r is None ==> *final(self) == *old(self),
            r matches Some(e) ==> {
                &&& (*e)@ == old(self)@[kind]
                &&& (*e).kind() == kind
                &&& final(self).spec_items().len() == old(self).spec_items().len()
                &&& ((final(e).kind() == kind && final(e).wf()) ==> final(self).wf()
                    && final(self)@ == old(self)@.insert(kind, final(e)@))
            },
    {
        let ghost s = self.items@;
        let mut i: usize = 0;
        let mut found: Option<usize> = None;
        while i < self.items.len()
            invariant
                i <= self.items.len(),
                found is None,
                forall|j: int| 0 <= j < i ==> (#[trigger] s[j]).kind() != kind,
            decreases self.items.len() - i,
        {
            if self.items[i].kind_of() == kind {
                found = Some(i);
                break ;
            }
            i += 1;
        }
        match found {
            Some(idx) => {
                proof {
                    lemma_exts_map_at(s, idx as int);
                    assert forall|v: Extension| v.kind() == kind && v.wf() implies {
                        &&& exts_map(s.update(idx as int, v)) == exts_map(s).insert(kind, v@)
                        &&& unique_kinds(s.update(idx as int, v))
                        &&& forall|j: int|
                            0 <= j < s.len() ==> (#[trigger] s.update(idx as int, v)[j]).wf()
                    } by {
                        lemma_exts_map_update(s, idx as int, v);
                        let t = s.update(idx as int, v);
                        assert forall|a: int, b: int|
                            0 <= a < b < t.len() implies (#[trigger] t[a]).kind()
                            != (#[trigger] t[b]).kind() by {
                            if a != idx {
                                assert(t[a] == s[a]);
                            }
                            if b != idx {
                                assert(t[b] == s[b]);
                            }
                        }
                        assert forall|j: int| 0 <= j < s.len() implies (#[trigger] t[j]).wf() by {
                            if j != idx {
                                assert(t[j] == s[j]);
                            }
                        }
                    }
                }
                Some(&mut self.items[idx])
            },
            None => {
                proof {
                    lemma_exts_map_key(s, kind);
                }
                None
            },
        }
    }

    /// Takes the stored value of the given kind out, if any.
    #[verifier::loop_isolation(false)]
    pub fn remove(&mut self, kind: ExtKind) -> (r: Option<Extension>)
        requires
            old(self).wf(),
        ensures
            final(self)@ == old(self)@.remove(kind),
            final(self).wf(),
            r matches Some(prev) ==> old(self)@.contains_key(kind) && prev@ == old(self)@[kind]
                && prev.kind() == kind && prev.wf() && final(self).spec_items().len() + 1
                == old(self).spec_items().len(),
            r is None ==> !old(self)@.contains_key(kind) && final(self)@ == old(self)@
                && final(self).spec_items() == old(self).spec_items(),
    {
        let ghost s = self.items@;
        let mut i: usize = 0;
        while i < self.items.len()
            invariant
                i <= self.items.len(),
                self.items@ == s,
                forall|j: int| 0 <= j < i ==> (#[trigger] s[j]).kind() != kind,
            decreases self.items.len() - i,
        {
            if self.items[i].kind_of() == kind {
                proof {
                    lemma_exts_map_at(s, i as int);
                    lemma_exts_map_remove(s, i as int);
                }
                let prev = self.items.remove(i);
                proof {
                    assert forall|a: int, b: int|
                        0 <= a < b < self.items@.len() implies (#[trigger] self.items@[a]).kind()
                        != (#[trigger] self.items@[b]).kind() by {
                        let sr = s.remove(i as int);
                        assert(self.items@[a] == sr[a] && self.items@[b] == sr[b]);
                        if a < i {
                            assert(sr[a] == s[a]);
                        } else {
                            assert(sr[a] == s[a + 1]);
                        }
                        if b < i {
                            assert(sr[b] == s[b]);
                        } else {
                            assert(sr[b] == s[b + 1]);
                        }
                    }
                }
                return Some(prev);
            }
            i += 1;
        }
        proof {
            lemma_exts_map_key(s, kind);
            assert(final(self)@ =~= old(self)@.remove(kind));
        }
        None
    }
}

} // verus!
