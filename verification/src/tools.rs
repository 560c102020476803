//! Which tool windows are open: the bookkeeping behind a panel of tools.

use vstd::prelude::*;

verus! {

/// The names of the tools whose windows are open.  No name is held twice.
#[derive(Debug)]
pub struct OpenSet {
    names: Vec<String>,
}

/// Groups of tools, and which of them are open.
pub struct InnerTools<T> {
    pub tools: Vec<Vec<T>>,
    pub open: OpenSet,
}

impl View for OpenSet {
    type V = Set<Seq<char>>;

    /// The set of the names held.
    closed spec fn view(&self) -> Set<Seq<char>> {
        self.names.deep_view().to_set()
    }
}

impl OpenSet {
    #[verifier::type_invariant]
    pub closed spec fn wf(self) -> bool {
        self.names.deep_view().no_duplicates()
    }

    /// A set with no name in it.
    pub fn new() -> (r: OpenSet)
        ensures
            r@ == Set::<Seq<char>>::empty(),
            r.wf(),
    {
        let r = OpenSet { names: Vec::new() };
        assert(r.names.deep_view() =~= Seq::<Seq<char>>::empty());
        assert(r@ =~= Set::<Seq<char>>::empty());
        r
    }

    /// The place of `key` among the names, if it is held.
    fn position(&self, key: &String) -> (r: Option<usize>)
        ensures
            r is Some <==> self@.contains(key@),
            r is Some ==> r.unwrap() < self.names@.len() && self.names.deep_view()[r.unwrap() as int]
                == key@,
    {
        let ghost held = self.names.deep_view();
        let mut i: usize = 0;
        while i < self.names.len()
            invariant
                i <= self.names@.len(),
                held == self.names.deep_view(),
                forall|k: int| 0 <= k < i ==> #[trigger] held[k] != key@,
            decreases self.names@.len() - i,
        {
            if self.names[i] == *key {
                assert(held[i as int] == key@);
                return Some(i);
            }
            i += 1;
        }
        None
    }

    /// Whether `key` is held.
    pub fn contains(&self, key: &str) -> (r: bool)
        ensures
            r == self@.contains(key@),
    {
        let owned = key.to_owned();
        self.position(&owned).is_some()
    }

    /// The names held, each once, in no particular order.
    pub fn names(&self) -> (r: &Vec<String>)
        ensures
            r.deep_view().to_set() == self@,
            r.deep_view().no_duplicates(),
    {
        proof {
            use_type_invariant(self);
        }
        &self.names
    }

    /// Puts `key` into the set; nothing changes where it is held already.
    pub fn insert(&mut self, key: &str)
        ensures
            final(self)@ == old(self)@.insert(key@),
    {
        proof {
            use_type_invariant(&*self);
        }
        let owned = key.to_owned();
        if self.position(&owned).is_none() {
            let ghost before = self.names.deep_view();
            let mut names: Vec<String> = Vec::new();
            assert(names.deep_view() =~= Seq::<Seq<char>>::empty());
            std::mem::swap(&mut self.names, &mut names);
            names.push(owned);
            proof {
                assert(names.deep_view() =~= before.push(key@));
                assert(names.deep_view().to_set() =~= before.to_set().insert(key@)) by {
                    assert forall|name: Seq<char>|
                        before.push(key@).contains(name) <==> (before.contains(name) || name
                            == key@) by {
                        if before.push(key@).contains(name) {
                            let i = choose|i: int|
                                0 <= i < before.push(key@).len() && before.push(key@)[i] == name;
                            if i < before.len() {
                                assert(before[i] == name);
                            }
                        }
                        if before.contains(name) {
                            let i = choose|i: int| 0 <= i < before.len() && before[i] == name;
                            assert(before.push(key@)[i] == name);
                        }
                        if name == key@ {
                            assert(before.push(key@)[before.len() as int] == name);
                        }
                    }
                }
            }
            std::mem::swap(&mut self.names, &mut names);
        } else {
            assert(self@ =~= self@.insert(key@));
        }
    }

    /// Takes `key` out of the set; nothing changes where it is not held.
    pub fn remove(&mut self, key: &str)
        ensures
            final(self)@ == old(self)@.remove(key@),
    {
        proof {
            use_type_invariant(&*self);
        }
        let owned = key.to_owned();
        match self.position(&owned) {
            None => {
                assert(self@ =~= self@.remove(key@));
            },
            Some(at) => {
                let ghost before = self.names.deep_view();
                let mut names: Vec<String> = Vec::new();
                assert(names.deep_view() =~= Seq::<Seq<char>>::empty());
                std::mem::swap(&mut self.names, &mut names);
                names.remove(at);
                proof {
                    let after = names.deep_view();
                    assert(after =~= before.remove(at as int));
                    assert forall|name: Seq<char>|
                        after.contains(name) <==> (before.contains(name) && name != key@) by {
                        if after.contains(name) {
                            let i = choose|i: int| 0 <= i < after.len() && after[i] == name;
                            if i < at {
                                assert(before[i] == name);
                            } else {
                                assert(before[i + 1] == name);
                            }
                        }
                        if before.contains(name) && name != key@ {
                            let i = choose|i: int| 0 <= i < before.len() && before[i] == name;
                            if i < at {
                                assert(after[i] == name);
                            } else {
                                assert(after[i - 1] == name);
                            }
                        }
                    }
                    assert(after.to_set() =~= before.to_set().remove(key@));
                }
                std::mem::swap(&mut self.names, &mut names);
            },
        }
    }
}

impl<T> InnerTools<T> {
    /// A panel of the given groups of tools, with every window closed.
    pub fn from_tools(tools: Vec<Vec<T>>) -> (r: Self)
        ensures
            r.tools == tools,
            r.open@ == Set::<Seq<char>>::empty(),
    {
        let open = OpenSet::new();
        Self { tools, open }
    }
}

/// Records that the window of the tool named `key` is open, or that it is
/// closed.
pub fn set_open(open: &mut OpenSet, key: &str, is_open: bool)
    ensures
        final(open)@ == (if is_open {
            old(open)@.insert(key@)
        } else {
            old(open)@.remove(key@)
        }),
{
    if is_open {
        if !open.contains(key) {
            open.insert(key);
        } else {
            assert(open@ =~= open@.insert(key@));
        }
    } else {
        open.remove(key);
    }
}

} // verus!
