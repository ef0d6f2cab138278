//! An append-only store of strings that hands out small integer ids.

use vstd::prelude::*;

verus! {

/// `gxhash::GxBuildHasher`, the hasher of the interner's index.
#[verifier::external_type_specification]
#[verifier::external_body]
pub struct ExGxBuildHasher(gxhash::GxBuildHasher);

/// The entries of an index: the id under each string.
pub uninterp spec fn index_entries(
    index: std::collections::HashMap<String, usize, gxhash::GxBuildHasher>,
) -> Map<Seq<char>, usize>;

/// `gxhash::GxHashMap::default`: a map without entries. Its hasher is seeded
/// from the thread's random number generator, which needs the random source
/// of the operating system.
#[verifier::external_body]
fn index_new() -> (r: std::collections::HashMap<String, usize, gxhash::GxBuildHasher>)
    ensures
        forall|s: Seq<char>| !(#[trigger] index_entries(r).contains_key(s)),
{
    gxhash::GxHashMap::default()
}

/// `HashMap::get` on a `gxhash::GxHashMap`: the id stored under the string,
/// if one is.
#[verifier::external_body]
fn index_get(
    index: &std::collections::HashMap<String, usize, gxhash::GxBuildHasher>,
    key: &str,
) -> (r: Option<usize>)
    ensures
        r == if index_entries(*index).contains_key(key@) {
            Some(index_entries(*index)[key@])
        } else {
            None
        },
{
    index.get(key).copied()
}

/// `HashMap::insert` on a `gxhash::GxHashMap`: the map then holds `value`
/// under `key`, and under every other key what it held.
#[verifier::external_body]
fn index_insert(
    index: &mut std::collections::HashMap<String, usize, gxhash::GxBuildHasher>,
    key: String,
    value: usize,
)
    ensures
        index_entries(*final(index)) == index_entries(*old(index)).insert(key@, value),
{
    index.insert(key, value);
}

/// The id of an interned string: its place in the store.
#[derive(Copy, Clone, Eq, PartialEq, Structural, Hash, Debug)]
pub struct Id(usize);

impl Id {
    /// The place in the store that the id stands for.
    pub closed spec fn place(self) -> usize {
        self.0
    }

    /// The id for a place in a store. Ids are meant to come from
    /// [`Interner::insert`]; one made here is good for a store only if the
    /// store has that many strings.
    #[inline(always)]
    pub fn from_usize(value: usize) -> (r: Id)
        ensures
            r.place() == value,
    {
        Id(value)
    }

    /// Two ids for the same place are the same id.
    pub proof fn lemma_same_place(a: Id, b: Id)
        requires
            a.place() == b.place(),
        ensures
            a == b,
    {
    }
}

/// The store. Equal strings get equal ids, and an id stays good for as long
/// as the store lives.
pub struct Interner {
    index: std::collections::HashMap<String, usize, gxhash::GxBuildHasher>,
    data: Vec<String>,
}

impl View for Interner {
    type V = Seq<Seq<char>>;

    /// The stored strings in the order of their ids.
    closed spec fn view(&self) -> Seq<Seq<char>> {
        Seq::new(self.data@.len(), |i: int| self.data@[i]@)
    }
}

impl Interner {
    /// The index knows exactly the stored strings, each under its place.
    pub closed spec fn wf(&self) -> bool {
        &&& forall|i: int|
            0 <= i < self.data@.len() ==> index_entries(self.index).contains_key(
                #[trigger] self.data@[i]@,
            ) && index_entries(self.index)[self.data@[i]@] == i
        &&& forall|s: Seq<char>| #[trigger]
            index_entries(self.index).contains_key(s) ==> index_entries(self.index)[s]
                < self.data@.len() && self.data@[index_entries(self.index)[s] as int]@ == s
    }

    /// No string is stored twice.
    pub proof fn lemma_distinct(&self, i: int, j: int)
        requires
            self.wf(),
            0 <= i < self@.len(),
            0 <= j < self@.len(),
            self@[i] == self@[j],
        ensures
            i == j,
    {
        assert(index_entries(self.index)[self.data@[i]@] == i);
        assert(index_entries(self.index)[self.data@[j]@] == j);
    }

    pub fn new() -> (r: Interner)
        ensures
            r.wf(),
            r@.len() == 0,
    {
        Interner { index: index_new(), data: Vec::new() }
    }

    /// The id of `string`: the one it has, if it is stored; else it is
    /// stored at the end, and the id is its place there. Nothing that was
    /// stored changes.
    pub fn insert(&mut self, string: &str) -> (id: Id)
        requires
            old(self).wf(),
        ensures
            final(self).wf(),
            id.place() < final(self)@.len(),
            final(self)@[id.place() as int] == string@,
            final(self)@ == if old(self)@.contains(string@) {
                old(self)@
            } else {
                old(self)@.push(string@)
            },
            !old(self)@.contains(string@) ==> id.place() == old(self)@.len(),
    {
        if let Some(place) = index_get(&self.index, string) {
            assert(self@[place as int] == string@);
            return Id(place);
        }
        proof {
            if self@.contains(string@) {
                let i = choose|i: int| 0 <= i < self@.len() && self@[i] == string@;
                assert(self.data@[i]@ == string@);
            }
        }
        let place = self.data.len();
        self.data.push(string.to_owned());
        index_insert(&mut self.index, string.to_owned(), place);
        assert(self@ =~= old(self)@.push(string@));
        assert forall|i: int| 0 <= i < self.data@.len() implies index_entries(
            self.index,
        ).contains_key(#[trigger] self.data@[i]@) && index_entries(self.index)[self.data@[i]@]
            == i by {
            if i < place {
                assert(self.data@[i] == old(self).data@[i]);
            }
        }
        assert forall|s: Seq<char>| #[trigger]
            index_entries(self.index).contains_key(s) implies index_entries(self.index)[s]
            < self.data@.len() && self.data@[index_entries(self.index)[s] as int]@ == s by {
            if s != string@ {
                assert(index_entries(old(self).index).contains_key(s));
                let at = index_entries(old(self).index)[s] as int;
                assert(self.data@[at] == old(self).data@[at]);
            }
        }
        Id(place)
    }

    /// The string of an id of this store.
    #[inline(always)]
    pub fn resolve(&self, id: Id) -> (r: &str)
        requires
            id.place() < self@.len(),
        ensures
            r@ == self@[id.place() as int],
    {
        self.data[id.0].as_str()
    }

    /// The string of an id of this store.
    #[inline(always)]
    pub fn resolve_unchecked(&self, id: Id) -> (r: &str)
        requires
            id.place() < self@.len(),
        ensures
            r@ == self@[id.place() as int],
    {
        self.data[id.0].as_str()
    }

    #[inline(always)]
    pub fn len(&self) -> (r: usize)
        ensures
            r == self@.len(),
    {
        self.data.len()
    }

    #[inline(always)]
    pub fn is_empty(&self) -> (r: bool)
        ensures
            r == (self@.len() == 0),
    {
        self.data.len() == 0
    }
}

impl Default for Interner {
    fn default() -> (r: Interner)
        ensures
            r.wf(),
            r@.len() == 0,
    {
        Interner::new()
    }
}

} // verus!
