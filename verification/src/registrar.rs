//! The name registrar: the bus-side table of well-known service names and
//! the connections that hold them. A name has at most one holder; a
//! re-request by the holder is a no-op, a request by anyone else is
//! refused, and release is idempotent and only for the holder.

use vstd::prelude::*;

use crate::value::str_eq;

verus! {

/// Why a name request failed.
#[derive(Clone, Copy, PartialEq, Eq, Structural, Debug)]
pub enum NameError {
    /// The name is already held by a different connection.
    NameTaken,
}

/// The bus-side table of claimed names, each with its owner's connection
/// identifier.
pub struct NameRegistrar {
    names: Vec<(String, u64)>,
}

impl View for NameRegistrar {
    type V = Seq<(Seq<char>, u64)>;

    closed spec fn view(&self) -> Seq<(Seq<char>, u64)> {
        self.names@.map_values(|t: (String, u64)| (t.0@, t.1))
    }
}

/// Whether some connection holds the name.
pub open spec fn name_held(names: Seq<(Seq<char>, u64)>, name: Seq<char>) -> bool {
    exists|j: int| 0 <= j < names.len() && names[j].0 == name
}

/// The position of the name's entry.
pub open spec fn name_index(names: Seq<(Seq<char>, u64)>, name: Seq<char>) -> int {
    choose|j: int| 0 <= j < names.len() && names[j].0 == name
}

/// The holder of the name (meaningful when the name is held).
pub open spec fn holder_of(names: Seq<(Seq<char>, u64)>, name: Seq<char>) -> u64 {
    names[name_index(names, name)].1
}

/// Each name is claimed at most once.
pub open spec fn names_wf(names: Seq<(Seq<char>, u64)>) -> bool {
    forall|a: int, b: int| 0 <= a < b < names.len() ==> names[a].0 != names[b].0
}

impl NameRegistrar {
    /// An empty table.
    pub fn new() -> (r: NameRegistrar)
        ensures
            r@.len() == 0,
            names_wf(r@),
    {
        let r = NameRegistrar { names: Vec::new() };
        proof {
            assert(r@ =~= Seq::<(Seq<char>, u64)>::empty());
        }
        r
    }

    /// How many names are claimed.
    pub fn names_len(&self) -> (r: usize)
        ensures
            r == self@.len(),
    {
        self.names.len()
    }

    /// Where the name's entry stands, if anywhere.
    fn find_name(&self, name: &str) -> (r: Option<usize>)
        requires
            names_wf(self@),
        ensures
            r matches Some(j) ==> {
                &&& j < self@.len()
                &&& self@[j as int].0 == name@
                &&& name_held(self@, name@)
                &&& j as int == name_index(self@, name@)
            },
            r is None <==> !name_held(self@, name@),
    {
        let n = self.names.len();
        let mut j: usize = 0;
        while j < n
            invariant
                names_wf(self@),
                n == self.names.len(),
                j <= n,
                forall|k: int| 0 <= k < j ==> self@[k].0 != name@,
            decreases n - j,
        {
            if str_eq(self.names[j].0.as_str(), name) {
                proof {
                    let cj = name_index(self@, name@);
                    assert(self@[j as int].0 == name@);
                    assert(name_held(self@, name@));
                    assert(0 <= cj < self@.len() && self@[cj].0 == name@);
                    if cj < j as int {
                        assert(self@[cj].0 != self@[j as int].0);
                    }
                    if (j as int) < cj {
                        assert(self@[j as int].0 != self@[cj].0);
                    }
                    assert(cj == j as int);
                }
                return Some(j);
            }
            j = j + 1;
        }
        proof {
            assert(!name_held(self@, name@)) by {
                if name_held(self@, name@) {
                    let w = name_index(self@, name@);
                    assert(self@[w].0 != name@);
                }
            }
        }
        None
    }

    /// Claim a well-known name for the connection `owner`: granted when
    /// the name is free, a no-op when `owner` already holds it, and
    /// refused with `NameTaken` exactly when another connection holds it.
    pub fn request_name(&mut self, owner: u64, name: &str) -> (r: Result<(), NameError>)
        requires
            names_wf(old(self)@),
        ensures
            names_wf(final(self)@),
            r is Ok <==> (!name_held(old(self)@, name@) || holder_of(old(self)@, name@) == owner),
            r is Err ==> final(self)@ == old(self)@,
            (name_held(old(self)@, name@) && holder_of(old(self)@, name@) == owner)
                ==> final(self)@ == old(self)@,
            !name_held(old(self)@, name@) ==> final(self)@ == old(self)@.push((name@, owner)),
            name_held(final(self)@, name@),
            r is Ok ==> holder_of(final(self)@, name@) == owner,
    {
        match self.find_name(name) {
            Some(j) => {
                if self.names[j].1 == owner {
                    Ok(())
                } else {
                    Err(NameError::NameTaken)
                }
            },
            None => {
                self.names.push((name.to_owned(), owner));
                proof {
                    let s0 = old(self)@;
                    let s1 = self@;
                    assert(s1 =~~= s0.push((name@, owner)));
                    let n = s1.len() - 1;
                    assert(s1[n].0 == name@);
                    assert(name_held(s1, name@));
                    assert forall|a: int, b: int| 0 <= a < b < s1.len() implies s1[a].0
                        != s1[b].0 by {
                        if b == s1.len() - 1 {
                            if s0[a].0 == name@ {
                                assert(name_held(s0, name@));
                            }
                        } else {
                            assert(s0[a].0 != s0[b].0);
                        }
                    }
                    let cj = name_index(s1, name@);
                    assert(0 <= cj < s1.len() && s1[cj].0 == name@);
                    if cj < n {
                        assert(s1[cj].0 != s1[n].0);
                    }
                    assert(cj == n);
                }
                Ok(())
            },
        }
    }

    /// Release the name if `owner` holds it; anything else — the name is
    /// free, or held by someone else — changes nothing. Idempotent.
    pub fn release_name(&mut self, owner: u64, name: &str)
        requires
            names_wf(old(self)@),
        ensures
            names_wf(final(self)@),
            (name_held(old(self)@, name@) && holder_of(old(self)@, name@) == owner)
                ==> final(self)@ == old(self)@.remove(name_index(old(self)@, name@)),
            !(name_held(old(self)@, name@) && holder_of(old(self)@, name@) == owner)
                ==> final(self)@ == old(self)@,
    {
        match self.find_name(name) {
            Some(j) => {
                if self.names[j].1 == owner {
                    self.names.remove(j);
                    proof {
                        let s0 = old(self)@;
                        let s1 = self@;
                        old(self).names@.remove_ensures(j as int);
                        s0.remove_ensures(j as int);
                        assert(s1 =~~= s0.remove(j as int));
                        assert forall|a: int, b: int| 0 <= a < b < s1.len() implies s1[a].0
                            != s1[b].0 by {
                            let a0 = if a < j as int {
                                a
                            } else {
                                a + 1
                            };
                            let b0 = if b < j as int {
                                b
                            } else {
                                b + 1
                            };
                            assert(s1[a].0 == s0[a0].0);
                            assert(s1[b].0 == s0[b0].0);
                            assert(s0[a0].0 != s0[b0].0);
                        }
                    }
                }
            },
            None => {},
        }
    }
}

} // verus!
