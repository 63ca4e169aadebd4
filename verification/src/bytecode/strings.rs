//! The string table of an encoded unit: each distinct string once, in order of first use.

use vstd::hash_map::StringHashMap;
use vstd::prelude::*;

verus! {

/// The table after string `s` was asked for.
pub open spec fn add_str(t: Seq<Seq<char>>, s: Seq<char>) -> Seq<Seq<char>> {
    if t.contains(s) {
        t
    } else {
        t.push(s)
    }
}

/// The table after each of `ss` was asked for, in order.
pub open spec fn add_strs(t: Seq<Seq<char>>, ss: Seq<Seq<char>>) -> Seq<Seq<char>>
    decreases ss.len(),
{
    if ss.len() == 0 {
        t
    } else {
        add_str(add_strs(t, ss.drop_last()), ss.last())
    }
}

/// `b` continues table `a`.
pub open spec fn continues(a: Seq<Seq<char>>, b: Seq<Seq<char>>) -> bool {
    a.len() <= b.len() && b.take(a.len() as int) == a
}

/// Every one of `ss` is in table `t`.
pub open spec fn all_in(ss: Seq<Seq<char>>, t: Seq<Seq<char>>) -> bool {
    forall|i: int| 0 <= i < ss.len() ==> t.contains(#[trigger] ss[i])
}

pub proof fn lemma_add_str(t: Seq<Seq<char>>, s: Seq<char>)
    requires
        t.no_duplicates(),
    ensures
        add_str(t, s).no_duplicates(),
        continues(t, add_str(t, s)),
        add_str(t, s).contains(s),
{
    if !t.contains(s) {
        assert(t.push(s)[t.len() as int] == s);
        assert(t.push(s).take(t.len() as int) =~= t);
    } else {
        assert(t.take(t.len() as int) =~= t);
    }
}

pub proof fn lemma_continues_trans(a: Seq<Seq<char>>, b: Seq<Seq<char>>, c: Seq<Seq<char>>)
    requires
        continues(a, b),
        continues(b, c),
    ensures
        continues(a, c),
{
    assert(c.take(a.len() as int) =~= b.take(a.len() as int));
}

pub proof fn lemma_continues_refl(a: Seq<Seq<char>>)
    ensures
        continues(a, a),
{
    assert(a.take(a.len() as int) =~= a);
}

pub proof fn lemma_all_in_continues(ss: Seq<Seq<char>>, a: Seq<Seq<char>>, b: Seq<Seq<char>>)
    requires
        all_in(ss, a),
        continues(a, b),
    ensures
        all_in(ss, b),
{
    assert forall|i: int| 0 <= i < ss.len() implies b.contains(#[trigger] ss[i]) by {
        let j = choose|j: int| 0 <= j < a.len() && a[j] == ss[i];
        assert(b[j] == b.take(a.len() as int)[j]);
    }
}

/// A table stays free of duplicates, only grows, and then holds what was asked for.
pub proof fn lemma_add_strs(t: Seq<Seq<char>>, ss: Seq<Seq<char>>)
    requires
        t.no_duplicates(),
    ensures
        add_strs(t, ss).no_duplicates(),
        continues(t, add_strs(t, ss)),
        all_in(ss, add_strs(t, ss)),
    decreases ss.len(),
{
    if ss.len() == 0 {
        lemma_continues_refl(t);
    } else {
        let u = add_strs(t, ss.drop_last());
        lemma_add_strs(t, ss.drop_last());
        lemma_add_str(u, ss.last());
        lemma_continues_trans(t, u, add_strs(t, ss));
        lemma_all_in_continues(ss.drop_last(), u, add_strs(t, ss));
        assert forall|i: int| 0 <= i < ss.len() implies add_strs(t, ss).contains(
            #[trigger] ss[i],
        ) by {
            if i < ss.len() - 1 {
                assert(ss.drop_last()[i] == ss[i]);
            }
        }
    }
}

pub proof fn lemma_add_strs_concat(t: Seq<Seq<char>>, a: Seq<Seq<char>>, b: Seq<Seq<char>>)
    ensures
        add_strs(t, a + b) == add_strs(add_strs(t, a), b),
    decreases b.len(),
{
    if b.len() == 0 {
        assert(a + b =~= a);
    } else {
        assert((a + b).drop_last() =~= a + b.drop_last());
        lemma_add_strs_concat(t, a, b.drop_last());
    }
}

/// Where `s` stands in table `t`.
pub open spec fn str_index(t: Seq<Seq<char>>, s: Seq<char>) -> nat {
    t.index_of(s) as nat
}

pub proof fn lemma_str_index(t: Seq<Seq<char>>, s: Seq<char>, i: int)
    requires
        t.no_duplicates(),
        0 <= i < t.len(),
        t[i] == s,
    ensures
        str_index(t, s) == i,
{
    assert(t.contains(s));
}

/// A string keeps its index while the table grows.
pub proof fn lemma_str_index_stable(a: Seq<Seq<char>>, b: Seq<Seq<char>>, s: Seq<char>)
    requires
        continues(a, b),
        b.no_duplicates(),
        a.contains(s),
    ensures
        str_index(a, s) == str_index(b, s),
        str_index(a, s) < a.len(),
        a[str_index(a, s) as int] == s,
        b[str_index(a, s) as int] == s,
{
    let i = a.index_of(s);
    assert(0 <= i < a.len() && a[i] == s);
    assert(b.take(a.len() as int)[i] == b[i]);
    lemma_str_index(b, s, i);
}

/// The table being built.
pub struct Strings {
    /// Where each string stands in the list.
    pub map: StringHashMap<usize>,
    pub list: Vec<String>,
}

impl View for Strings {
    type V = Seq<Seq<char>>;

    open spec fn view(&self) -> Seq<Seq<char>> {
        self.list.deep_view()
    }
}

impl Strings {
    /// No string stands twice, and the map says where each one stands.
    pub open spec fn wf(&self) -> bool {
        &&& self@.no_duplicates()
        &&& forall|k: Seq<char>| #[trigger] self.map@.contains_key(k) <==> self@.contains(k)
        &&& forall|k: Seq<char>| #[trigger]
            self.map@.contains_key(k) ==> self.map@[k] == str_index(self@, k)
    }

    pub fn new() -> (r: Strings)
        ensures
            r@ == Seq::<Seq<char>>::empty(),
            r.wf(),
    {
        let r = Strings { map: StringHashMap::new(), list: Vec::new() };
        assert(r@ =~= Seq::<Seq<char>>::empty());
        r
    }

    /// The index of `s`, which is added if it is new.
    pub fn idx(&mut self, s: &str) -> (r: usize)
        requires
            old(self).wf(),
        ensures
            final(self).wf(),
            final(self)@ == add_str(old(self)@, s@),
            r == str_index(final(self)@, s@),
            r < final(self)@.len(),
    {
        if let Some(i) = self.map.get(s) {
            assert(self@.contains(s@));
            return *i;
        }
        let n: usize = self.list.len();
        proof {
            assert(!self@.contains(s@));
            lemma_add_str(self@, s@);
        }
        self.map.insert(s.to_owned(), n);
        self.list.push(s.to_owned());
        proof {
            let before = old(self)@;
            assert(self@ =~= before.push(s@));
            lemma_str_index(self@, s@, n as int);
            assert forall|k: Seq<char>| #[trigger]
                self.map@.contains_key(k) implies self.map@[k] == str_index(self@, k) by {
                if k != s@ {
                    assert(old(self).map@.contains_key(k));
                    lemma_str_index_stable(before, self@, k);
                }
            }
            assert forall|k: Seq<char>| #[trigger] self.map@.contains_key(k) <==> self@.contains(
                k,
            ) by {
                if before.contains(k) {
                    let j = choose|j: int| 0 <= j < before.len() && before[j] == k;
                    assert(self@[j] == k);
                }
                if self@.contains(k) && k != s@ {
                    let j = choose|j: int| 0 <= j < self@.len() && self@[j] == k;
                    assert(before[j] == k);
                }
                assert(self@[n as int] == s@);
                assert(old(self).map@.contains_key(k) <==> before.contains(k));
            }
        }
        n
    }
}

} // verus!
