//! Credentials that were accepted once, and are accepted from then on to keep
//! a visitor interested.

use vstd::prelude::*;
use crate::text::{bytes_eq, copy_bytes};

verus! {

/// A username and the password given with it.
pub struct UsernamePasswordTuple {
    pub username: Vec<u8>,
    pub password: Vec<u8>,
}

impl View for UsernamePasswordTuple {
    type V = (Seq<u8>, Seq<u8>);

    open spec fn view(&self) -> (Seq<u8>, Seq<u8>) {
        (self.username@, self.password@)
    }
}

impl UsernamePasswordTuple {
    pub fn new(username: &[u8], password: &[u8]) -> (r: Self)
        ensures
            r@ == (username@, password@),
    {
        UsernamePasswordTuple { username: copy_bytes(username), password: copy_bytes(password) }
    }

    /// A copy that owns its bytes.
    pub fn into_owned(self) -> (r: Self)
        ensures
            r@ == self@,
    {
        self
    }
}

/// The set of credentials ever accepted. It never shrinks.
pub struct StoredPasswords {
    pairs: Vec<UsernamePasswordTuple>,
}

impl View for StoredPasswords {
    type V = Set<(Seq<u8>, Seq<u8>)>;

    closed spec fn view(&self) -> Set<(Seq<u8>, Seq<u8>)> {
        Set::new(|p: (Seq<u8>, Seq<u8>)| exists|i: int| 0 <= i < self.pairs@.len() && #[trigger] self.pairs@[i]@ == p)
    }
}

impl StoredPasswords {
    pub fn new() -> (r: Self)
        ensures
            r@ == Set::<(Seq<u8>, Seq<u8>)>::empty(),
    {
        let r = StoredPasswords { pairs: Vec::new() };
        assert(r@ =~= Set::<(Seq<u8>, Seq<u8>)>::empty());
        r
    }

    /// Whether this pair was accepted before.
    pub fn seen(&self, username: &[u8], password: &[u8]) -> (r: bool)
        ensures
            r == self@.contains((username@, password@)),
    {
        let mut i: usize = 0;
        while i < self.pairs.len()
            invariant
                0 <= i <= self.pairs@.len(),
                forall|j: int| 0 <= j < i ==> #[trigger] self.pairs@[j]@ != (username@, password@),
            decreases self.pairs@.len() - i,
        {
            let p = &self.pairs[i];
            if bytes_eq(p.username.as_slice(), username) && bytes_eq(p.password.as_slice(), password) {
                assert(self.pairs@[i as int]@ == (username@, password@));
                assert(self@.contains((username@, password@)));
                return true;
            }
            i = i + 1;
        }
        false
    }

    /// Remembers the pair; says whether it is new.
    pub fn store(&mut self, username: &[u8], password: &[u8]) -> (r: bool)
        ensures
            final(self)@ == old(self)@.insert((username@, password@)),
            r == !old(self)@.contains((username@, password@)),
    {
        if self.seen(username, password) {
            assert(self@ =~= old(self)@.insert((username@, password@)));
            return false;
        }
        let ghost before = self.pairs@;
        self.pairs.push(UsernamePasswordTuple::new(username, password).into_owned());
        assert forall|p: (Seq<u8>, Seq<u8>)|
            self@.contains(p) <==> #[trigger] old(self)@.insert((username@, password@)).contains(p) by {
            if old(self)@.contains(p) {
                let i = choose|i: int| 0 <= i < before.len() && #[trigger] before[i]@ == p;
                assert(self.pairs@[i] == before[i]);
            }
            if self@.contains(p) {
                let i = choose|i: int| 0 <= i < self.pairs@.len() && #[trigger] self.pairs@[i]@ == p;
                if i < before.len() {
                    assert(self.pairs@[i] == before[i]);
                }
            }
            if p == (username@, password@) {
                assert(self.pairs@[before.len() as int]@ == p);
            }
        }
        assert(self@ =~= old(self)@.insert((username@, password@)));
        true
    }
}

/// What all connections of the process share.
pub struct State {
    /// Credentials accepted once, and accepted from then on.
    pub previously_accepted_passwords: StoredPasswords,
}

impl State {
    pub fn new() -> (r: Self)
        ensures
            r.previously_accepted_passwords@ == Set::<(Seq<u8>, Seq<u8>)>::empty(),
    {
        State { previously_accepted_passwords: StoredPasswords::new() }
    }
}

} // verus!
