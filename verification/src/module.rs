//! Kernel lookup: a module maps function names to packed functions.
//!
//! The bundled system-library module is a registration log: compiled
//! kernel objects register their symbols by name, and a lookup yields a
//! handle to the latest registration under that name. The caller keeps
//! whatever the handle indexes — here the handle is the position in the
//! registration order.

use vstd::prelude::*;
use vstd::string::StringExecFns;

verus! {

/// A callable kernel, named by its registration handle.
#[derive(Clone, Copy, Debug, PartialEq, Eq, Structural)]
pub struct PackedFunc {
    pub handle: usize,
}

/// Anything that resolves kernel names.
pub trait Module {
    /// The function a name resolves to, if any.
    spec fn spec_get_function(&self, name: Seq<char>) -> Option<PackedFunc>;

    /// Resolves a kernel by name.
    fn get_function(&self, name: &str) -> (r: Option<PackedFunc>)
        ensures
            r == self.spec_get_function(name@),
    ;
}

/// The position of the latest registration of `name`, if any.
pub open spec fn spec_find_last(names: Seq<Seq<char>>, name: Seq<char>) -> Option<int>
    decreases names.len(),
{
    if names.len() == 0 {
        None
    } else if names.last() == name {
        Some(names.len() - 1)
    } else {
        spec_find_last(names.drop_last(), name)
    }
}

/// The process-wide registry of compiled kernels, as a registration log.
pub struct SystemLibModule {
    names: Vec<String>,
}

impl SystemLibModule {
    /// The registered names, in registration order.
    pub closed spec fn registered(&self) -> Seq<Seq<char>> {
        Seq::new(self.names@.len(), |i: int| self.names@[i]@)
    }

    /// Registers a symbol name and hands back its handle: its position in
    /// the registration order.
    pub fn register(&mut self, name: String) -> (h: usize)
        ensures
            final(self).registered() == old(self).registered().push(name@),
            h == old(self).registered().len(),
    {
        let h = self.names.len();
        self.names.push(name);
        proof {
            assert(self.registered() =~= old(self).registered().push(self.names@[h as int]@));
        }
        h
    }
}

impl Default for SystemLibModule {
    /// A registry with nothing registered.
    fn default() -> (r: SystemLibModule)
        ensures
            r.registered().len() == 0,
    {
        let r = SystemLibModule { names: Vec::new() };
        proof {
            assert(r.registered() =~= Seq::<Seq<char>>::empty());
        }
        r
    }
}

impl Module for SystemLibModule {
    /// The latest registration under the name, wrapped as a callable
    /// handle.
    open spec fn spec_get_function(&self, name: Seq<char>) -> Option<PackedFunc> {
        match spec_find_last(self.registered(), name) {
            Some(i) => Some(PackedFunc { handle: i as usize }),
            None => None,
        }
    }

    fn get_function(&self, name: &str) -> (r: Option<PackedFunc>)
        ensures
            r == self.spec_get_function(name@),
    {
        let name_s = String::from_str(name);
        let n = self.names.len();
        proof {
            assert(self.registered().take(n as int) =~= self.registered());
        }
        let mut k = n;
        while k > 0
            invariant
                k <= n,
                n == self.names@.len(),
                name_s@ == name@,
                spec_find_last(self.registered(), name@) == spec_find_last(
                    self.registered().take(k as int),
                    name@,
                ),
            decreases k,
        {
            k = k - 1;
            if self.names[k] == name_s {
                proof {
                    let reg = self.registered();
                    assert(reg.take(k + 1).last() == reg[k as int]);
                    assert(reg[k as int] == name@);
                }
                return Some(PackedFunc { handle: k });
            }
            proof {
                let reg = self.registered();
                assert(reg.take(k + 1).last() == reg[k as int]);
                assert(reg.take(k + 1).drop_last() =~= reg.take(k as int));
            }
        }
        proof {
            assert(self.registered().take(0) =~= Seq::<Seq<char>>::empty());
        }
        None
    }
}

} // verus!
