use vstd::prelude::*;

verus! {

/// Association from key names to substitution text, with unique keys.
///
/// This is the render mapping handed to [`crate::Template::render`]: the pairs
/// are kept in insertion order, and no key occurs twice.
pub struct Mapping {
    pub pairs: Vec<(String, String)>,
}

impl View for Mapping {
    type V = Seq<(Seq<char>, Seq<char>)>;

    open spec fn view(&self) -> Seq<(Seq<char>, Seq<char>)> {
        Seq::new(self.pairs@.len(), |i: int| (self.pairs@[i].0@, self.pairs@[i].1@))
    }
}

/// Whether some pair of `pairs` has the key `k`.
pub open spec fn map_has(pairs: Seq<(Seq<char>, Seq<char>)>, k: Seq<char>) -> bool {
    exists|i: int| 0 <= i < pairs.len() && pairs[i].0 == k
}

/// The value paired with the key `k`; meaningful when the keys are
/// unique and `map_has(pairs, k)` holds.
pub open spec fn map_val(pairs: Seq<(Seq<char>, Seq<char>)>, k: Seq<char>) -> Seq<char> {
    let i = choose|i: int| 0 <= i < pairs.len() && pairs[i].0 == k;
    pairs[i].1
}

/// The keys of `pairs` are pairwise distinct.
pub open spec fn map_wf(pairs: Seq<(Seq<char>, Seq<char>)>) -> bool {
    forall|i: int, j: int| 0 <= i < j < pairs.len() ==> (#[trigger] pairs[i]).0 != (#[trigger] pairs[j]).0
}

/// Relies on `str`'s `==` (its `PartialEq` impl): two string slices are
/// equal exactly when their character sequences are.
#[verifier::external_body]
pub(crate) fn str_eq(a: &str, b: &str) -> (r: bool)
    ensures
        r == (a@ == b@),
{
    a == b
}

impl Mapping {
    /// All keys distinct.
    pub open spec fn wf(&self) -> bool {
        map_wf(self@)
    }

    /// An empty mapping.
    pub fn new() -> (r: Mapping)
        ensures
            r@ == Seq::<(Seq<char>, Seq<char>)>::empty(),
            r.wf(),
    {
        let r = Mapping { pairs: Vec::new() };
        proof {
            assert(r@ =~= Seq::<(Seq<char>, Seq<char>)>::empty());
        }
        r
    }

    /// Number of key-value pairs.
    pub fn len(&self) -> (n: usize)
        ensures
            n == self@.len(),
    {
        self.pairs.len()
    }

    /// Bind `key` to `value`: replaces the old value if the key is already
    /// present, otherwise appends the new pair.
    pub fn insert(&mut self, key: &str, value: &str)
        requires
            old(self).wf(),
        ensures
            final(self).wf(),
            map_has(old(self)@, key@) ==> exists|j: int|
                0 <= j < old(self)@.len() && old(self)@[j].0 == key@ && final(self)@ == old(
                    self,
                )@.update(j, (key@, value@)),
            !map_has(old(self)@, key@) ==> final(self)@ == old(self)@.push((key@, value@)),
    {
        let ghost orig = self@;
        let n = self.pairs.len();
        let mut i: usize = 0;
        while i < n
            invariant
                n == self.pairs.len(),
                i <= n,
                orig == old(self)@,
                self@ == orig,
                map_wf(orig),
                forall|j: int| 0 <= j < i ==> orig[j].0 != key@,
            decreases n - i,
        {
            if str_eq(self.pairs[i].0.as_str(), key) {
                let owned_key = key.to_owned();
                let owned_val = value.to_owned();
                self.pairs.set(i, (owned_key, owned_val));
                proof {
                    assert(self@ =~= orig.update(i as int, (key@, value@)));
                    let ghost w = i as int;
                    assert(0 <= w < orig.len() && orig[w].0 == key@ && self@ == orig.update(
                        w,
                        (key@, value@),
                    ));
                    assert forall|a: int, b: int| 0 <= a < b < self@.len() implies (
                    #[trigger] self@[a]).0 != (#[trigger] self@[b]).0 by {
                        assert(self@[a].0 == if a == w {
                            key@
                        } else {
                            orig[a].0
                        });
                    }
                }
                return ;
            }
            i += 1;
        }
        let owned_key = key.to_owned();
        let owned_val = value.to_owned();
        self.pairs.push((owned_key, owned_val));
        proof {
            assert(self@ =~= orig.push((key@, value@)));
            assert(!map_has(orig, key@));
            assert forall|a: int, b: int| 0 <= a < b < self@.len() implies (#[trigger] self@[a]).0
                != (#[trigger] self@[b]).0 by {
                if b == orig.len() {
                    assert(orig[a].0 != key@);
                }
            }
        }
    }

    /// Look the key up; `Some` exactly when the mapping has it.
    pub fn get(&self, key: &str) -> (r: Option<&String>)
        requires
            self.wf(),
        ensures
            match r {
                Some(v) => map_has(self@, key@) && v@ == map_val(self@, key@),
                None => !map_has(self@, key@),
            },
    {
        let n = self.pairs.len();
        let mut i: usize = 0;
        while i < n
            invariant
                n == self.pairs.len(),
                i <= n,
                map_wf(self@),
                forall|j: int| 0 <= j < i ==> self@[j].0 != key@,
            decreases n - i,
        {
            if str_eq(self.pairs[i].0.as_str(), key) {
                proof {
                    assert(map_has(self@, key@)) by {
                        assert(self@[i as int].0 == key@);
                    }
                    let c = choose|c: int| 0 <= c < self@.len() && self@[c].0 == key@;
                    assert(c == i as int);
                }
                return Some(&self.pairs[i].1);
            }
            i += 1;
        }
        None
    }
}

} // verus!
