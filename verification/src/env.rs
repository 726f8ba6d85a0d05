//! Environment variable providers: the external name→value store the
//! evaluator reads and the facade writes. Absent and empty are distinct.

use vstd::prelude::*;

use std::collections::HashMap;

verus! {

/// Compare two string slices by their characters.
pub fn str_eq(a: &str, b: &str) -> (r: bool)
    ensures
        r == (a@ == b@),
{
    let n = a.unicode_len();
    let m = b.unicode_len();
    if n != m {
        return false;
    }
    let mut i: usize = 0;
    while i < n
        invariant
            i <= n,
            n as nat == a@.len(),
            n as nat == b@.len(),
            forall|j: int| 0 <= j < i ==> a@[j] == b@[j],
        decreases n - i,
    {
        if a.get_char(i) != b.get_char(i) {
            return false;
        }
        i += 1;
    }
    proof {
        assert(a@ =~= b@);
    }
    true
}

/// Trait for environment variable providers.
pub trait EnvProvider {
    /// The mapping this provider holds.
    spec fn env(&self) -> Map<Seq<char>, Seq<char>>;

    /// The current binding of `name`, or `None` when it is absent.
    fn var(&self, name: &str) -> (r: Option<String>)
        ensures
            match r {
                Some(v) => self.env().contains_key(name@) && self.env()[name@] == v@,
                None => !self.env().contains_key(name@),
            },
    ;

    /// Bind `name` to `value`: an idempotent overwrite.
    fn set_var(&mut self, name: &str, value: &str)
        ensures
            final(self).env() == old(self).env().insert(name@, value@),
    ;
}

/// The views of a sequence of name/value pairs.
pub open spec fn pairs_view(s: Seq<(String, String)>) -> Seq<(Seq<char>, Seq<char>)> {
    s.map_values(|p: (String, String)| (p.0@, p.1@))
}

/// The first value bound to `name` in the pair sequence.
pub open spec fn pairs_get(s: Seq<(Seq<char>, Seq<char>)>, name: Seq<char>) -> Option<Seq<char>>
    decreases s.len(),
{
    if s.len() == 0 {
        None
    } else if s[0].0 == name {
        Some(s[0].1)
    } else {
        pairs_get(s.drop_first(), name)
    }
}

/// The mapping a pair sequence holds, earlier pairs shadowing later
/// ones.
pub open spec fn pairs_map(s: Seq<(Seq<char>, Seq<char>)>) -> Map<Seq<char>, Seq<char>> {
    Map::new(
        |k: Seq<char>| pairs_get(s, k) is Some,
        |k: Seq<char>| pairs_get(s, k)->Some_0,
    )
}

/// An in-memory environment provider, convertible from a hash map.
#[derive(Debug)]
pub struct HashMapProvider {
    entries: Vec<(String, String)>,
}

impl HashMapProvider {
    /// An empty provider.
    pub fn new() -> (r: Self)
        ensures
            r.env() == Map::<Seq<char>, Seq<char>>::empty(),
    {
        let r = HashMapProvider { entries: Vec::new() };
        proof {
            assert(pairs_view(r.entries@) =~= Seq::<(Seq<char>, Seq<char>)>::empty());
            assert(r.env() =~= Map::<Seq<char>, Seq<char>>::empty());
        }
        r
    }
}

impl EnvProvider for HashMapProvider {
    closed spec fn env(&self) -> Map<Seq<char>, Seq<char>> {
        pairs_map(pairs_view(self.entries@))
    }

    fn var(&self, name: &str) -> (r: Option<String>) {
        let ghost pv = pairs_view(self.entries@);
        let n = self.entries.len();
        let mut i: usize = 0;
        proof {
            assert(pv.skip(0) =~= pv);
        }
        while i < n
            invariant
                i <= n,
                n == self.entries@.len(),
                pv == pairs_view(self.entries@),
                pairs_get(pv, name@) == pairs_get(pv.skip(i as int), name@),
            decreases n - i,
        {
            proof {
                let p = self.entries@[i as int];
                assert(pv.skip(i as int)[0] == (p.0@, p.1@));
                assert(pv.skip(i as int).drop_first() =~= pv.skip(i as int + 1));
            }
            if str_eq(self.entries[i].0.as_str(), name) {
                return Some(self.entries[i].1.clone());
            }
            i += 1;
        }
        proof {
            assert(pv.skip(n as int) =~= Seq::<(Seq<char>, Seq<char>)>::empty());
        }
        None
    }

    fn set_var(&mut self, name: &str, value: &str) {
        let ghost pv0 = pairs_view(self.entries@);
        self.entries.insert(0, (name.to_owned(), value.to_owned()));
        proof {
            let pv1 = pairs_view(self.entries@);
            assert(pv1.drop_first() =~= pv0);
            assert(pv1[0] == (name@, value@));
            assert(self.env() =~= old(self).env().insert(name@, value@));
        }
    }
}

/// Relies on `HashMap::into_iter` and `Vec: FromIterator`: the pairs are
/// exactly the map's entries, each key once, in some order.
#[verifier::external_body]
fn hash_map_entries(m: HashMap<String, String>) -> (r: Vec<(String, String)>)
    ensures
        forall|i: int|
            0 <= i < r@.len() ==> m@.contains_key(#[trigger] r@[i].0) && m@[r@[i].0] == r@[i].1,
        forall|i: int, j: int| 0 <= i < j < r@.len() ==> r@[i].0@ != r@[j].0@,
        r@.len() == m@.len(),
{
    m.into_iter().collect()
}

impl From<HashMap<String, String>> for HashMapProvider {
    /// The provider holding exactly the map's bindings. (No contract is
    /// stated through `from_spec`: the entry order of a hash map is not
    /// a function of its contents.)
    fn from(m: HashMap<String, String>) -> (r: Self) {
        HashMapProvider { entries: hash_map_entries(m) }
    }
}

impl vstd::std_specs::convert::FromSpecImpl<HashMap<String, String>> for HashMapProvider {
    open spec fn obeys_from_spec() -> bool {
        false
    }

    open spec fn from_spec(m: HashMap<String, String>) -> Self {
        arbitrary()
    }
}

} // verus!
