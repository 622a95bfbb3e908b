//! Claim sets: the transient reservations that keep a source file, or a
//! destination volume, from being handed to two transfers at once.

use vstd::prelude::*;
use vstd::string::*;

verus! {

/// A set of claimed names.
pub struct ClaimSet {
    names: Vec<String>,
}

impl View for ClaimSet {
    type V = Set<Seq<char>>;

    closed spec fn view(&self) -> Set<Seq<char>> {
        Set::new(|name: Seq<char>| exists|i: int| 0 <= i < self.names@.len() && self.names@[i]@ == name)
    }
}

impl ClaimSet {
    /// A claim set that holds nothing.
    pub fn new() -> (claims: ClaimSet)
        ensures
            claims@ == Set::<Seq<char>>::empty(),
    {
        let claims = ClaimSet { names: Vec::new() };
        assert(claims@ =~= Set::<Seq<char>>::empty());
        claims
    }

    /// Tells whether `name` is claimed.
    pub fn contains(&self, name: &str) -> (held: bool)
        ensures
            held == self@.contains(name@),
    {
        let wanted: String = name.to_owned();
        let mut i: usize = 0;
        while i < self.names.len()
            invariant
                i <= self.names@.len(),
                wanted@ == name@,
                forall|j: int| 0 <= j < i ==> self.names@[j]@ != name@,
            decreases self.names.len() - i,
        {
            if self.names[i] == wanted {
                return true;
            }
            i = i + 1;
        }
        false
    }

    /// Claims `name` if nobody holds it. The claim is granted exactly when the
    /// name was free; either way the name is held afterwards.
    pub fn claim(&mut self, name: &str) -> (granted: bool)
        ensures
            granted == !old(self)@.contains(name@),
            final(self)@ == old(self)@.insert(name@),
    {
        if self.contains(name) {
            assert(self@ =~= self@.insert(name@));
            return false;
        }
        let ghost before = self.names@;
        self.names.push(name.to_owned());
        proof {
            let after = self.names@;
            assert forall|s: Seq<char>| self@.contains(s) <==> old(self)@.insert(name@).contains(
                s,
            ) by {
                if self@.contains(s) {
                    let i = choose|i: int| 0 <= i < after.len() && after[i]@ == s;
                    if i < before.len() {
                        assert(before[i]@ == s);
                    }
                }
                if old(self)@.contains(s) {
                    let i = choose|i: int| 0 <= i < before.len() && before[i]@ == s;
                    assert(after[i]@ == s);
                }
                if s == name@ {
                    assert(after[before.len() as int]@ == s);
                }
            }
            assert(self@ =~= old(self)@.insert(name@));
        }
        true
    }

    /// Gives up the claim on `name`. Other claims stay as they are.
    pub fn release(&mut self, name: &str)
        ensures
            final(self)@ == old(self)@.remove(name@),
    {
        let wanted: String = name.to_owned();
        let mut kept: Vec<String> = Vec::new();
        let mut i: usize = 0;
        while i < self.names.len()
            invariant
                i <= self.names@.len(),
                wanted@ == name@,
                forall|k: int| 0 <= k < kept@.len() ==> kept@[k]@ != name@,
                forall|k: int|
                    0 <= k < kept@.len() ==> exists|j: int|
                        0 <= j < i && self.names@[j]@ == #[trigger] kept@[k]@,
                forall|j: int|
                    0 <= j < i && self.names@[j]@ != name@ ==> exists|k: int|
                        0 <= k < kept@.len() && kept@[k]@ == #[trigger] self.names@[j]@,
            decreases self.names.len() - i,
        {
            if self.names[i] != wanted {
                let ghost prior = kept@;
                kept.push(self.names[i].clone());
                proof {
                    assert(kept@[prior.len() as int]@ == self.names@[i as int]@);
                    assert forall|j: int|
                        0 <= j < i + 1 && self.names@[j]@ != name@ implies exists|k: int|
                        0 <= k < kept@.len() && kept@[k]@ == #[trigger] self.names@[j]@ by {
                        if j < i {
                            let k = choose|k: int|
                                0 <= k < prior.len() && prior[k]@ == self.names@[j]@;
                            assert(kept@[k]@ == self.names@[j]@);
                        }
                    }
                }
            }
            i = i + 1;
        }
        let ghost before = self.names@;
        self.names = kept;
        proof {
            assert forall|s: Seq<char>| self@.contains(s) <==> old(self)@.remove(name@).contains(
                s,
            ) by {
                if self@.contains(s) {
                    let k = choose|k: int| 0 <= k < self.names@.len() && self.names@[k]@ == s;
                    let j = choose|j: int| 0 <= j < before.len() && before[j]@ == self.names@[k]@;
                    assert(before[j]@ == s);
                }
                if old(self)@.remove(name@).contains(s) {
                    let j = choose|j: int| 0 <= j < before.len() && before[j]@ == s;
                    let k = choose|k: int|
                        0 <= k < self.names@.len() && self.names@[k]@ == before[j]@;
                    assert(self.names@[k]@ == s);
                }
            }
            assert(self@ =~= old(self)@.remove(name@));
        }
    }
}

} // verus!
