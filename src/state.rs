use vstd::prelude::*;

verus! {

/// What can go wrong when a state is built or addressed.
#[derive(Debug, Clone, Copy, PartialEq, Eq, Structural)]
pub enum StateError {
    /// A named lookup on an anonymous state, or of a name it does not hold.
    UnknownName,
    /// A position outside `0..len`.
    IndexOutOfBounds,
    /// The same name was given for two positions.
    DuplicateName,
    /// The names given are not one per value.
    NameCountMismatch,
}

/// No name occurs twice.
pub open spec fn names_distinct(names: Seq<Seq<char>>) -> bool {
    forall|i: int, j: int|
        0 <= i < names.len() && 0 <= j < names.len() && i != j ==> names[i] != names[j]
}

/// The character sequences of a list of names.
pub open spec fn str_views(ns: Seq<&str>) -> Seq<Seq<char>> {
    ns.map_values(|s: &str| s@)
}

/// A vector of scalars of fixed length, addressed by position and, when it
/// was built with names, by name.
pub struct State<T> {
    x: Vec<T>,
    names: Vec<String>,
    no_names: bool,
}

impl<T: Copy> State<T> {
    /// The scalars, in order.
    pub closed spec fn values(&self) -> Seq<T> {
        self.x@
    }

    /// The names, one per position; empty for an anonymous state.
    pub closed spec fn names(&self) -> Seq<Seq<char>> {
        self.names@.map_values(|s: String| s@)
    }

    /// Whether the state was built with names.
    pub closed spec fn named(&self) -> bool {
        !self.no_names
    }

    /// A named state has one distinct name per value; an anonymous one has none.
    pub open spec fn wf(&self) -> bool {
        if self.named() {
            self.names().len() == self.values().len() && names_distinct(self.names())
        } else {
            self.names().len() == 0
        }
    }

    /// Same values, same names, same kind.
    pub open spec fn same_as(&self, other: &State<T>) -> bool {
        &&& self.values() == other.values()
        &&& self.names() == other.names()
        &&& self.named() == other.named()
    }

    /// Builds a state from its values and, optionally, one distinct name per value.
    #[verifier::loop_isolation(false)]
    pub fn new(vals: Vec<T>, names_opt: Option<Vec<&str>>) -> (r: Result<State<T>, StateError>)
        ensures
            names_opt is None ==> (r matches Ok(s) && s.values() == vals@ && !s.named()),
            names_opt is Some && names_opt->Some_0.len() != vals.len() ==> r == Err::<State<T>, StateError>(
                StateError::NameCountMismatch,
            ),
            names_opt is Some && names_opt->Some_0.len() == vals.len() && !names_distinct(str_views(names_opt->Some_0@))
                ==> r == Err::<State<T>, StateError>(StateError::DuplicateName),
            names_opt is Some && names_opt->Some_0.len() == vals.len() && names_distinct(str_views(names_opt->Some_0@))
                ==> r is Ok && r->Ok_0.values() == vals@ && r->Ok_0.named() && r->Ok_0.names()
                == str_views(names_opt->Some_0@),
            r matches Ok(s) ==> s.wf(),
    {
        match names_opt {
            None => {
                let s = State { x: vals, names: Vec::new(), no_names: true };
                assert(s.names() =~= Seq::<Seq<char>>::empty());
                Ok(s)
            },
            Some(ns) => {
                if ns.len() != vals.len() {
                    return Err(StateError::NameCountMismatch);
                }
                let mut owned: Vec<String> = Vec::new();
                let mut i: usize = 0;
                while i < ns.len()
                    invariant
                        0 <= i <= ns.len(),
                        owned.len() == i,
                        ns.len() == vals.len(),
                        owned@.map_values(|s: String| s@) =~= str_views(ns@).take(i as int),
                        names_distinct(str_views(ns@).take(i as int)),
                    decreases ns.len() - i,
                {
                    let key: String = ns[i].to_owned();
                    let mut j: usize = 0;
                    while j < owned.len()
                        invariant
                            0 <= j <= owned.len(),
                            owned.len() == i,
                            i < ns.len(),
                            key@ == ns@[i as int]@,
                            owned@.map_values(|s: String| s@) =~= str_views(ns@).take(i as int),
                            forall|k: int| 0 <= k < j ==> owned@[k]@ != key@,
                        decreases owned.len() - j,
                    {
                        if owned[j] == key {
                            proof {
                                let vs = str_views(ns@);
                                assert(owned@.map_values(|s: String| s@)[j as int] == owned@[j as int]@);
                                assert(vs[j as int] == vs.take(i as int)[j as int]);
                                assert(vs[j as int] == vs[i as int]);
                                assert(!names_distinct(vs));
                            }
                            return Err(StateError::DuplicateName);
                        }
                        j += 1;
                    }
                    proof {
                        let vs = str_views(ns@);
                        assert forall|k: int| 0 <= k < i implies vs[k] != vs[i as int] by {
                            assert(owned@.map_values(|s: String| s@)[k] == owned@[k]@);
                            assert(vs.take(i as int)[k] == vs[k]);
                        }
                        assert(vs.take(i as int + 1) =~= vs.take(i as int).push(vs[i as int]));
                    }
                    owned.push(key);
                    i += 1;
                }
                assert(str_views(ns@).take(i as int) =~= str_views(ns@));
                Ok(State { x: vals, names: owned, no_names: false })
            },
        }
    }
    /// The number of scalars.
    pub fn len(&self) -> (r: usize)
        ensures
            r == self.values().len(),
    {
        self.x.len()
    }

    /// Whether the state was built with names.
    pub fn is_named(&self) -> (r: bool)
        ensures
            r == self.named(),
    {
        !self.no_names
    }

    /// The scalar at position `i`.
    pub fn get(&self, i: usize) -> (r: Result<T, StateError>)
        ensures
            i < self.values().len() ==> r == Ok::<T, StateError>(self.values()[i as int]),
            i >= self.values().len() ==> r == Err::<T, StateError>(StateError::IndexOutOfBounds),
    {
        if i < self.x.len() {
            Ok(self.x[i])
        } else {
            Err(StateError::IndexOutOfBounds)
        }
    }

    /// Writes `v` at position `i`; nothing else changes.
    pub fn set(&mut self, i: usize, v: T) -> (r: Result<(), StateError>)
        ensures
            final(self).names() == old(self).names(),
            final(self).named() == old(self).named(),
            i < old(self).values().len() ==> r is Ok && final(self).values() == old(
                self,
            ).values().update(i as int, v),
            i >= old(self).values().len() ==> r == Err::<(), StateError>(
                StateError::IndexOutOfBounds,
            ) && final(self).values() == old(self).values(),
    {
        if i < self.x.len() {
            self.x.set(i, v);
            Ok(())
        } else {
            Err(StateError::IndexOutOfBounds)
        }
    }

    /// The position that carries `name`, if the state is named and holds it.
    pub fn index_of(&self, name: &str) -> (r: Option<usize>)
        requires
            self.wf(),
        ensures
            r is Some ==> self.named() && r->Some_0 < self.values().len() && self.names()[r->Some_0 as int]
                == name@,
            r is None <==> !self.named() || !self.names().contains(name@),
    {
        if self.no_names {
            return None;
        }
        let key: String = name.to_owned();
        let mut i: usize = 0;
        while i < self.names.len()
            invariant
                self.wf(),
                self.named(),
                key@ == name@,
                0 <= i <= self.names.len(),
                forall|k: int| 0 <= k < i ==> self.names()[k] != name@,
            decreases self.names.len() - i,
        {
            if self.names[i] == key {
                assert(self.names()[i as int] == self.names@[i as int]@);
                return Some(i);
            }
            i += 1;
        }
        assert(!self.names().contains(name@));
        None
    }

    /// The scalar carried by `name`.
    pub fn get_by_name(&self, name: &str) -> (r: Result<T, StateError>)
        requires
            self.wf(),
        ensures
            forall|i: int|
                0 <= i < self.names().len() && self.named() && self.names()[i] == name@ ==> r
                    == Ok::<T, StateError>(self.values()[i]),
            !self.named() || !self.names().contains(name@) ==> r == Err::<T, StateError>(
                StateError::UnknownName,
            ),
    {
        match self.index_of(name) {
            Some(i) => Ok(self.x[i]),
            None => Err(StateError::UnknownName),
        }
    }

    /// Writes `v` at the position that carries `name`; nothing else changes.
    pub fn set_by_name(&mut self, name: &str, v: T) -> (r: Result<(), StateError>)
        requires
            old(self).wf(),
        ensures
            final(self).wf(),
            final(self).names() == old(self).names(),
            final(self).named() == old(self).named(),
            forall|i: int|
                0 <= i < old(self).names().len() && old(self).named() && old(self).names()[i]
                    == name@ ==> r is Ok && final(self).values() == old(self).values().update(i, v),
            !old(self).named() || !old(self).names().contains(name@) ==> r == Err::<
                (),
                StateError,
            >(StateError::UnknownName) && final(self).values() == old(self).values(),
    {
        match self.index_of(name) {
            Some(i) => {
                self.x.set(i, v);
                Ok(())
            },
            None => Err(StateError::UnknownName),
        }
    }

    /// A copy of the scalars.
    pub fn vec(&self) -> (r: Vec<T>)
        ensures
            r@ == self.values(),
    {
        let mut r: Vec<T> = Vec::new();
        let mut i: usize = 0;
        while i < self.x.len()
            invariant
                0 <= i <= self.x.len(),
                r@ == self.values().take(i as int),
            decreases self.x.len() - i,
        {
            r.push(self.x[i]);
            i += 1;
            assert(r@ =~= self.values().take(i as int));
        }
        assert(self.values().take(i as int) =~= self.values());
        r
    }

    /// The scalars, borrowed.
    pub fn vec_ref(&self) -> (r: &Vec<T>)
        ensures
            r@ == self.values(),
    {
        &self.x
    }

    /// A copy of the names, one per position; empty for an anonymous state.
    pub fn names_list(&self) -> (r: Vec<String>)
        ensures
            r@.map_values(|s: String| s@) == self.names(),
    {
        let mut r: Vec<String> = Vec::new();
        let mut i: usize = 0;
        while i < self.names.len()
            invariant
                0 <= i <= self.names.len(),
                r@.map_values(|s: String| s@) =~= self.names().take(i as int),
            decreases self.names.len() - i,
        {
            let c: String = self.names[i].clone();
            assert(c@ == self.names()[i as int]);
            assert(self.names().take(i as int + 1) =~= self.names().take(i as int).push(c@));
            r.push(c);
            i += 1;
        }
        assert(self.names().take(i as int) =~= self.names());
        r
    }

    /// An independent copy of the whole state.
    pub fn duplicate(&self) -> (r: State<T>)
        ensures
            r.values() == self.values(),
            r.names() == self.names(),
            r.named() == self.named(),
    {
        State { x: self.vec(), names: self.names_list(), no_names: self.no_names }
    }

    /// Replaces all the scalars at once by as many new ones.
    pub(crate) fn replace_values(&mut self, v: Vec<T>)
        requires
            v.len() == old(self).values().len(),
        ensures
            final(self).values() == v@,
            final(self).names() == old(self).names(),
            final(self).named() == old(self).named(),
    {
        self.x = v;
    }
}

} // verus!
