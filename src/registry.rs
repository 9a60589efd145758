use vstd::prelude::*;

use crate::error::ConnectionError;

verus! {

/// One capability that the server advertises.
#[derive(Debug, Clone)]
pub struct Global {
    /// Server-assigned name, unique among the live globals.
    pub name: u32,
    /// The protocol interface that the global implements.
    pub interface: String,
    /// The highest version of that interface the server supports.
    pub version: u32,
}

/// What a [`Global`] means: its name, its interface as characters, its version.
pub ghost struct GlobalView {
    pub name: u32,
    pub interface: Seq<char>,
    pub version: u32,
}

impl View for Global {
    type V = GlobalView;

    open spec fn view(&self) -> GlobalView {
        GlobalView { name: self.name, interface: self.interface@, version: self.version }
    }
}

/// Whether some entry of `s` carries the name `n`.
pub open spec fn has_name(s: Seq<GlobalView>, n: u32) -> bool {
    exists|i: int| 0 <= i < s.len() && #[trigger] s[i].name == n
}

/// No two entries of `s` share a name.
pub open spec fn names_unique(s: Seq<GlobalView>) -> bool {
    forall|i: int, j: int|
        0 <= i < s.len() && 0 <= j < s.len() && i != j ==> #[trigger] s[i].name != #[trigger] s[j].name
}

/// The set of names that `s` holds.
pub open spec fn name_set(s: Seq<GlobalView>) -> Set<u32> {
    Set::new(|n: u32| has_name(s, n))
}

/// The position of the entry named `n` (the first one, should there be several).
pub open spec fn index_of(s: Seq<GlobalView>, n: u32) -> int
    recommends
        has_name(s, n),
{
    choose|i: int| 0 <= i < s.len() && s[i].name == n && (forall|k: int| 0 <= k < i ==> s[k].name != n)
}

/// Proves that `index_of` picks the earliest entry carrying the name.
proof fn lemma_index_of(s: Seq<GlobalView>, n: u32, i: int)
    requires
        0 <= i < s.len(),
        s[i].name == n,
        forall|k: int| 0 <= k < i ==> s[k].name != n,
    ensures
        index_of(s, n) == i,
{
    let j = index_of(s, n);
    assert(0 <= j < s.len() && s[j].name == n && (forall|k: int| 0 <= k < j ==> s[k].name != n));
    if j < i {
        assert(s[j].name != n);
    } else if i < j {
        assert(s[i].name != n);
    }
}

/// The table of currently advertised globals, in the order they arrived.
#[derive(Debug)]
pub struct RegistryState {
    globals: Vec<Global>,
}

impl View for RegistryState {
    type V = Seq<GlobalView>;

    closed spec fn view(&self) -> Seq<GlobalView> {
        self.globals@.map_values(|g: Global| g@)
    }
}

impl RegistryState {
    /// The table's invariant: each live name occurs once.
    pub open spec fn wf(&self) -> bool {
        names_unique(self@)
    }

    /// An empty table, as the registry object has when it is created.
    pub fn new() -> (r: RegistryState)
        ensures
            r.wf(),
            r@ == Seq::<GlobalView>::empty(),
    {
        let r = RegistryState { globals: Vec::new() };
        assert(r@ =~= Seq::<GlobalView>::empty());
        r
    }

    /// Number of live globals.
    pub fn len(&self) -> (r: usize)
        ensures
            r == self@.len(),
    {
        self.globals.len()
    }

    /// Whether no global is live.
    pub fn is_empty(&self) -> (r: bool)
        ensures
            r == (self@.len() == 0),
    {
        self.globals.len() == 0
    }

    /// The position of the global named `name`, if it is live.
    pub fn position_of(&self, name: u32) -> (r: Option<usize>)
        ensures
            r is None <==> !has_name(self@, name),
            r matches Some(i) ==> i == index_of(self@, name),
    {
        let mut i: usize = 0;
        while i < self.globals.len()
            invariant
                i <= self.globals@.len(),
                self@.len() == self.globals@.len(),
                forall|k: int| 0 <= k < i ==> self@[k].name != name,
            decreases self.globals@.len() - i,
        {
            if self.globals[i].name == name {
                proof {
                    lemma_index_of(self@, name, i as int);
                }
                return Some(i);
            }
            i += 1;
        }
        None
    }

    /// Whether a global named `name` is live.
    pub fn contains_name(&self, name: u32) -> (r: bool)
        ensures
            r == has_name(self@, name),
    {
        self.position_of(name).is_some()
    }

    /// Records a newly announced global at the end of the table. A name that
    /// is already live is a protocol violation: the table is left as it was
    /// and the violation is reported.
    pub fn add(&mut self, global: Global) -> (r: Result<(), ConnectionError>)
        requires
            old(self).wf(),
        ensures
            final(self).wf(),
            has_name(old(self)@, global.name) ==> r == Err::<(), ConnectionError>(
                ConnectionError::ProtocolConsistencyViolation { name: global.name },
            ) && final(self)@ == old(self)@,
            !has_name(old(self)@, global.name) ==> r is Ok && final(self)@ == old(self)@.push(
                global@,
            ),
    {
        let name = global.name;
        if self.contains_name(name) {
            return Err(ConnectionError::ProtocolConsistencyViolation { name });
        }
        let ghost before = self@;
        self.globals.push(global);
        assert(self@ =~= before.push(global@));
        Ok(())
    }

    /// Takes the global named `name` out of the table and hands it back. A
    /// name that is not live is a protocol violation: the table is left as it
    /// was and the violation is reported.
    pub fn remove(&mut self, name: u32) -> (r: Result<Global, ConnectionError>)
        requires
            old(self).wf(),
        ensures
            final(self).wf(),
            !has_name(old(self)@, name) ==> r == Err::<Global, ConnectionError>(
                ConnectionError::ProtocolConsistencyViolation { name },
            ) && final(self)@ == old(self)@,
            has_name(old(self)@, name) ==> (r matches Ok(g) && g@ == old(self)@[index_of(
                old(self)@,
                name,
            )] && final(self)@ == old(self)@.remove(index_of(old(self)@, name))),
    {
        match self.position_of(name) {
            None => Err(ConnectionError::ProtocolConsistencyViolation { name }),
            Some(i) => {
                let ghost before = self@;
                let g = self.globals.remove(i);
                assert(self@ =~= before.remove(i as int));
                Ok(g)
            },
        }
    }

    /// A copy of every live global, in table order.
    pub fn snapshot(&self) -> (r: Vec<Global>)
        ensures
            r@.map_values(|g: Global| g@) == self@,
    {
        let mut out: Vec<Global> = Vec::new();
        let mut i: usize = 0;
        while i < self.globals.len()
            invariant
                i <= self.globals@.len(),
                self@.len() == self.globals@.len(),
                out@.map_values(|g: Global| g@) == self@.subrange(0, i as int),
            decreases self.globals@.len() - i,
        {
            let g = &self.globals[i];
            let copy = Global { name: g.name, interface: g.interface.clone(), version: g.version };
            let ghost prev = out@;
            out.push(copy);
            assert(out@.map_values(|g: Global| g@) =~= prev.map_values(|g: Global| g@).push(
                copy@,
            ));
            assert(self@.subrange(0, i + 1) =~= self@.subrange(0, i as int).push(self@[i as int]));
            i += 1;
        }
        assert(self@.subrange(0, i as int) =~= self@);
        out
    }

    /// The first global, in table order, that implements `interface` at
    /// `min_version` or above.
    pub fn find(&self, interface: &str, min_version: u32) -> (r: Option<Global>)
        ensures
            r is None ==> forall|k: int|
                0 <= k < self@.len() ==> !(#[trigger] self@[k].interface == interface@
                    && self@[k].version >= min_version),
            r matches Some(g) ==> (exists|i: int|
                0 <= i < self@.len() && g@ == #[trigger] self@[i] && g@.interface == interface@
                    && g@.version >= min_version && forall|k: int|
                    0 <= k < i ==> !(#[trigger] self@[k].interface == interface@
                        && self@[k].version >= min_version)),
    {
        let wanted = interface.to_owned();
        let mut i: usize = 0;
        while i < self.globals.len()
            invariant
                i <= self.globals@.len(),
                self@.len() == self.globals@.len(),
                wanted@ == interface@,
                forall|k: int|
                    0 <= k < i ==> !(#[trigger] self@[k].interface == interface@
                        && self@[k].version >= min_version),
            decreases self.globals@.len() - i,
        {
            let g = &self.globals[i];
            if g.interface == wanted && g.version >= min_version {
                let copy = Global { name: g.name, interface: g.interface.clone(), version: g.version };
                assert(copy@ == self@[i as int]);
                return Some(copy);
            }
            i += 1;
        }
        None
    }
}

} // verus!
