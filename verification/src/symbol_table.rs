use vstd::prelude::*;

use std::collections::HashMap;

use crate::path::{file_name_of, path_file_name};

verus! {

broadcast use vstd::std_specs::hash::group_hash_axioms;

/// What the symbol backend returned for one address: best-effort function
/// and module names, either possibly absent.
#[derive(Debug)]
pub struct SymbolicatedFrame {
    pub function: Option<String>,
    pub module: Option<String>,
}

/// A source of symbol information for raw instruction addresses. One
/// lookup is comparatively expensive, so the symbol table caches every
/// answer and asks once per distinct address.
pub trait SymbolResolver {
    fn resolve(&mut self, address: u64) -> SymbolicatedFrame;
}

/// Symbol information cached for one address; immutable once cached.
#[derive(Debug, Clone)]
pub struct SymbolInfo {
    pub function: Option<String>,
    pub module: Option<String>,
}

impl SymbolInfo {
    pub fn get_function(&self) -> (r: Option<&str>)
        ensures
            r is Some <==> self.function is Some,
            r is Some ==> r->0@ == self.function->0@,
    {
        match &self.function {
            Some(f) => Some(f.as_str()),
            None => None,
        }
    }

    /// The final component of the cached module path, trailing separators
    /// ignored; absent when no module is cached, for a root or prefix-only
    /// path, and for a `.` or `..` final component.
    pub fn get_module_name(&self) -> (r: Option<&str>)
        ensures
            match r {
                Some(name) => {
                    &&& self.module is Some
                    &&& path_file_name(self.module->0@) == Some(name@)
                },
                None => self.module is None || path_file_name(self.module->0@) is None,
            },
    {
        match &self.module {
            Some(path) => file_name_of(path.as_str()),
            None => None,
        }
    }
}

/// Whether `v` already lists `address`.
fn holds_address(v: &Vec<u64>, address: u64) -> (b: bool)
    ensures
        b == v@.contains(address),
{
    let n = v.len();
    let mut i: usize = 0;
    while i < n
        invariant
            i <= n,
            n == v@.len(),
            forall|q: int| 0 <= q < i ==> v@[q] != address,
        decreases n - i,
    {
        if v[i] == address {
            return true;
        }
        i = i + 1;
    }
    false
}

/// Extending a prefix by one element extends its membership by it.
proof fn lemma_take_step_to_set(s: Seq<u64>, j: int)
    requires
        0 <= j < s.len(),
    ensures
        s.take(j + 1).to_set() == s.take(j).to_set().insert(s[j]),
{
    let pre = s.take(j);
    let cur = s.take(j + 1);
    assert forall|x: u64| cur.to_set().contains(x) implies pre.to_set().insert(s[j]).contains(
        x,
    ) by {
        let i = choose|i: int| 0 <= i < cur.len() && cur[i] == x;
        if i < j {
            assert(pre[i] == x);
        }
    }
    assert forall|x: u64| pre.to_set().insert(s[j]).contains(x) implies cur.to_set().contains(
        x,
    ) by {
        if x == s[j] {
            assert(cur[j] == x);
        } else {
            let i = choose|i: int| 0 <= i < pre.len() && pre[i] == x;
            assert(cur[i] == x);
        }
    }
    assert(cur.to_set() =~= pre.to_set().insert(s[j]));
}

/// The per-run cache of resolved addresses: append-only for the run's
/// lifetime, never evicting, never shared across runs.
#[derive(Debug)]
pub struct SymbolTable {
    pub address_to_symbol_table: HashMap<u64, SymbolInfo>,
}

impl SymbolTable {
    pub fn new() -> (r: Self)
        ensures
            r.address_to_symbol_table@ == Map::<u64, SymbolInfo>::empty(),
    {
        Self { address_to_symbol_table: HashMap::new() }
    }

    /// Caches symbol information for every address of `backtrace`: an
    /// address not held yet is resolved — via the resolver, once — and
    /// inserted; an address already held keeps its entry untouched and is
    /// not resolved again. The body makes one resolver call per element
    /// of `unresolved_addresses(backtrace)`, whose contract pins that
    /// list as duplicate-free and exactly the addresses not yet cached;
    /// the call count itself is beyond these contracts, since nothing is
    /// promised of a caller-supplied resolver.
    pub fn symbolicate<R: SymbolResolver>(&mut self, backtrace: &Vec<u64>, symbolicator: &mut R)
        ensures
            final(self).address_to_symbol_table@.dom() == old(self).address_to_symbol_table@.dom() + backtrace@.to_set(),
            forall|a: u64|
                old(self).address_to_symbol_table@.dom().contains(a) ==> final(self).address_to_symbol_table@[a] == old(self).address_to_symbol_table@[a],
    {
        let missing = self.unresolved_addresses(backtrace);
        let ghost dom0 = self.address_to_symbol_table@.dom();
        proof {
            assert(missing@.take(0).to_set() =~= Set::<u64>::empty());
            assert(dom0 + missing@.take(0).to_set() =~= dom0);
        }
        let m = missing.len();
        let mut k: usize = 0;
        while k < m
            invariant
                m == missing@.len(),
                k <= m,
                forall|i1: int, i2: int|
                    0 <= i1 < i2 < missing@.len() ==> missing@[i1] != missing@[i2],
                missing@.to_set() == backtrace@.to_set().difference(dom0),
                dom0 == old(self).address_to_symbol_table@.dom(),
                self.address_to_symbol_table@.dom() == dom0 + missing@.take(k as int).to_set(),
                forall|a: u64|
                    dom0.contains(a) ==> self.address_to_symbol_table@[a] == old(
                        self,
                    ).address_to_symbol_table@[a],
            decreases m - k,
        {
            let address = missing[k];
            let frame = symbolicator.resolve(address);
            self.address_to_symbol_table.insert(
                address,
                SymbolInfo { function: frame.function, module: frame.module },
            );
            proof {
                assert(missing@.contains(address));
                assert(missing@.to_set().contains(address));
                assert(!dom0.contains(address));
                lemma_take_step_to_set(missing@, k as int);
                assert(self.address_to_symbol_table@.dom() =~= dom0 + missing@.take(
                    k as int + 1,
                ).to_set());
            }
            k = k + 1;
        }
        proof {
            assert(missing@.take(m as int) =~= missing@);
            assert(self.address_to_symbol_table@.dom() =~= old(
                self,
            ).address_to_symbol_table@.dom() + backtrace@.to_set());
        }
    }

    /// The addresses of `backtrace` that the table does not hold yet, in
    /// first-occurrence order and each exactly once: precisely the
    /// resolver lookups one pass of `symbolicate` makes.
    pub fn unresolved_addresses(&self, backtrace: &Vec<u64>) -> (missing: Vec<u64>)
        ensures
            forall|i1: int, i2: int|
                0 <= i1 < i2 < missing@.len() ==> missing@[i1] != missing@[i2],
            missing@.to_set() == backtrace@.to_set().difference(
                self.address_to_symbol_table@.dom(),
            ),
    {
        let ghost dom = self.address_to_symbol_table@.dom();
        let n = backtrace.len();
        let mut missing: Vec<u64> = Vec::new();
        proof {
            assert(missing@.to_set() =~= backtrace@.take(0).to_set().difference(dom));
        }
        let mut j: usize = 0;
        while j < n
            invariant
                n == backtrace@.len(),
                j <= n,
                dom == self.address_to_symbol_table@.dom(),
                forall|i1: int, i2: int|
                    0 <= i1 < i2 < missing@.len() ==> missing@[i1] != missing@[i2],
                missing@.to_set() == backtrace@.take(j as int).to_set().difference(dom),
            decreases n - j,
        {
            let ghost missing0 = missing@;
            let address = backtrace[j];
            if !self.address_to_symbol_table.contains_key(&address) && !holds_address(
                &missing,
                address,
            ) {
                missing.push(address);
                proof {
                    lemma_take_step_to_set(missing@, missing0.len() as int);
                    assert(missing@.take(missing0.len() as int) =~= missing0);
                    assert(missing@.take(missing@.len() as int) =~= missing@);
                }
            }
            proof {
                lemma_take_step_to_set(backtrace@, j as int);
                assert(missing@.to_set() =~= backtrace@.take(j as int + 1).to_set().difference(
                    dom,
                ));
            }
            j = j + 1;
        }
        proof {
            assert(backtrace@.take(n as int) =~= backtrace@);
        }
        missing
    }

    /// The cached symbol information for `address`, if the run has
    /// resolved it.
    pub fn symbol(&self, address: u64) -> (r: Option<&SymbolInfo>)
        ensures
            r is Some <==> self.address_to_symbol_table@.dom().contains(address),
            r is Some ==> *r->0 == self.address_to_symbol_table@[address],
    {
        self.address_to_symbol_table.get(&address)
    }
}

} // verus!
