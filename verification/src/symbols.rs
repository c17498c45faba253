//! Per-module dynamic symbol tables, the ELF insertion policy, and the
//! cross-module resolver.

use vstd::prelude::*;

use crate::elf_image::{DynSymbolV, ElfImage, STB_LOCAL, STB_WEAK, STV_HIDDEN, STV_INTERNAL,
    STV_PROTECTED};
use crate::error::Error;
use crate::module::ModuleType;

verus! {

/// The value a dynamic symbol resolves to.
#[derive(Debug, Clone, Copy, PartialEq, Eq, Hash, Structural)]
pub struct SymbolValue {
    /// The absolute physical address of the symbol
    pub address: u64,
    /// If the symbol is weak
    pub weak: bool,
    /// If the symbol is protected, meaning it prefers the definition in
    /// its own module
    pub protected: bool,
}

/// One named symbol in a table.
pub struct SymbolEntry {
    /// the symbol's name
    pub name: String,
    /// what it resolves to
    pub value: SymbolValue,
}

/// The mathematical value of a `SymbolEntry`.
pub struct SymbolEntryV {
    pub name: Seq<char>,
    pub value: SymbolValue,
}

impl View for SymbolEntry {
    type V = SymbolEntryV;

    open spec fn view(&self) -> SymbolEntryV {
        SymbolEntryV { name: self.name@, value: self.value }
    }
}

/// The value bound to `name`: the first entry carrying that name.
pub open spec fn spec_lookup(s: Seq<SymbolEntryV>, name: Seq<char>) -> Option<SymbolValue>
    decreases s.len(),
{
    if s.len() == 0 {
        None
    } else if s[0].name == name {
        Some(s[0].value)
    } else {
        spec_lookup(s.drop_first(), name)
    }
}

/// The table after binding `name` to `value` under the ELF linker
/// policy: a vacant name is inserted; a weak occupant is replaced; a
/// strong occupant shadows a weak newcomer; two strong bindings of one
/// name are an error.
pub open spec fn spec_insert(
    s: Seq<SymbolEntryV>,
    name: Seq<char>,
    value: SymbolValue,
) -> Result<Seq<SymbolEntryV>, ()>
    decreases s.len(),
{
    if s.len() == 0 {
        Ok(seq![SymbolEntryV { name, value }])
    } else if s[0].name == name {
        if s[0].value.weak {
            Ok(seq![SymbolEntryV { name, value }] + s.drop_first())
        } else if !value.weak {
            Err(())
        } else {
            Ok(s)
        }
    } else {
        match spec_insert(s.drop_first(), name, value) {
            Ok(t) => Ok(seq![s[0]] + t),
            Err(e) => Err(e),
        }
    }
}

/// One per-module symbol table: a list of named entries, looked up by
/// first match.
pub struct SymbolMap {
    /// the entries, in insertion order
    pub entries: Vec<SymbolEntry>,
}

impl View for SymbolMap {
    type V = Seq<SymbolEntryV>;

    open spec fn view(&self) -> Seq<SymbolEntryV> {
        Seq::new(self.entries@.len(), |i: int| self.entries@[i]@)
    }
}

impl SymbolMap {
    /// An empty table.
    pub fn new() -> (r: SymbolMap)
        ensures
            r@ == Seq::<SymbolEntryV>::empty(),
    {
        let r = SymbolMap { entries: Vec::new() };
        proof {
            assert(r@ =~= Seq::<SymbolEntryV>::empty());
        }
        r
    }

    /// Number of entries.
    pub fn len(&self) -> (r: usize)
        ensures
            r == self@.len(),
    {
        self.entries.len()
    }

    /// Look the name up: the first entry with that name, if any.
    pub fn get(&self, name: &String) -> (r: Option<SymbolValue>)
        ensures
            r == spec_lookup(self@, name@),
    {
        let n = self.entries.len();
        let mut i: usize = 0;
        proof {
            assert(self@.skip(0) =~= self@);
        }
        while i < n
            invariant
                i <= n,
                n == self.entries@.len(),
                spec_lookup(self@, name@) == spec_lookup(self@.skip(i as int), name@),
            decreases n - i,
        {
            proof {
                assert(self@.skip(i as int)[0] == self@[i as int]);
                assert(self@.skip(i as int).drop_first() =~= self@.skip(i as int + 1));
            }
            if self.entries[i].name == *name {
                return Some(self.entries[i].value);
            }
            i += 1;
        }
        proof {
            assert(self@.skip(n as int) =~= Seq::<SymbolEntryV>::empty());
        }
        None
    }

    /// Index of the first entry with that name, if any.
    fn find_index(&self, name: &String) -> (r: Option<usize>)
        ensures
            match r {
                Some(i) => i < self@.len() && self@[i as int].name == name@ && forall|j: int|
                    0 <= j < i ==> (#[trigger] self@[j]).name != name@,
                None => forall|j: int|
                    0 <= j < self@.len() ==> (#[trigger] self@[j]).name != name@,
            },
    {
        let n = self.entries.len();
        let mut i: usize = 0;
        while i < n
            invariant
                i <= n,
                n == self.entries@.len(),
                forall|j: int| 0 <= j < i ==> (#[trigger] self@[j]).name != name@,
            decreases n - i,
        {
            if self.entries[i].name == *name {
                return Some(i);
            }
            i += 1;
        }
        None
    }

    /// Bind `name` to `value` under the linker policy. `module` only
    /// names the module in the duplicate-symbol error.
    pub fn insert(&mut self, module: ModuleType, name: String, value: SymbolValue) -> (r: Result<
        (),
        Error,
    >)
        ensures
            r is Ok <==> spec_insert(old(self)@, name@, value) is Ok,
            r is Ok ==> final(self)@ == spec_insert(old(self)@, name@, value).unwrap(),
            r matches Err(e) ==> final(self)@ == old(self)@ && (e matches
                Error::DuplicateStrongSymbol { module: m, name: n } && m == module && n@
                == name@),
    {
        match self.find_index(&name) {
            None => {
                let ghost pre = self@;
                self.entries.push(SymbolEntry { name, value });
                proof {
                    assert(self@ =~= pre.push(SymbolEntryV { name: name@, value }));
                    lemma_insert_vacant(pre, name@, value);
                    assert(self@ =~= spec_insert(pre, name@, value).unwrap());
                }
                Ok(())
            },
            Some(i) => {
                proof {
                    lemma_insert_occupied(self@, name@, value, i as int);
                }
                if self.entries[i].value.weak {
                    let ghost pre = self@;
                    let e = &mut self.entries[i];
                    e.name = name;
                    e.value = value;
                    proof {
                        assert(self@ =~= pre.update(
                            i as int,
                            SymbolEntryV { name: name@, value },
                        ));
                    }
                    Ok(())
                } else if !value.weak {
                    Err(Error::DuplicateStrongSymbol { module, name })
                } else {
                    Ok(())
                }
            },
        }
    }
}

/// A dynamic symbol the table skips: undefined entries are defined
/// elsewhere; nameless, hidden, internal and local entries never take
/// part in cross-module linking.
pub open spec fn spec_skip_symbol(s: DynSymbolV) -> bool {
    ||| s.undefined
    ||| !s.named
    ||| s.vis == STV_HIDDEN
    ||| s.vis == STV_INTERNAL
    ||| s.bind == STB_LOCAL
}

/// The value a dynamic symbol contributes: its absolute address is the
/// module's absolute start plus the symbol's module-relative value.
pub open spec fn spec_symbol_value(s: DynSymbolV, start: u64) -> SymbolValue {
    SymbolValue {
        address: vstd::wrapping::u64_specs::wrapping_add(s.value, start),
        weak: s.bind == STB_WEAK,
        protected: s.vis == STV_PROTECTED,
    }
}

/// Loading a module's dynamic symbols into a table, in table order: the
/// resulting table and how many symbols were accepted, or an error where
/// two strong definitions of one name collide.
pub open spec fn spec_load_syms(
    table: Seq<SymbolEntryV>,
    syms: Seq<DynSymbolV>,
    start: u64,
) -> Result<(Seq<SymbolEntryV>, int), ()>
    decreases syms.len(),
{
    if syms.len() == 0 {
        Ok((table, 0))
    } else {
        let s = syms[0];
        if spec_skip_symbol(s) {
            spec_load_syms(table, syms.drop_first(), start)
        } else {
            match spec_insert(table, s.name, spec_symbol_value(s, start)) {
                Err(_) => Err(()),
                Ok(t) => match spec_load_syms(t, syms.drop_first(), start) {
                    Err(e) => Err(e),
                    Ok((t2, c)) => Ok((t2, c + 1)),
                },
            }
        }
    }
}

/// Shifting the count of a partial symbol load by symbols already
/// counted.
pub open spec fn spec_count_continue(
    r: Result<(Seq<SymbolEntryV>, int), ()>,
    add: int,
) -> Result<(Seq<SymbolEntryV>, int), ()> {
    match r {
        Err(e) => Err(e),
        Ok((t, c)) => Ok((t, c + add)),
    }
}

impl ElfImage {
    /// Load the defined dynamic symbols of this module into `table`,
    /// applying the linker policy for duplicate names. `start` is the
    /// absolute address of the module. Returns how many symbols were
    /// accepted.
    pub fn load_dynamic_symbols(
        &self,
        module: ModuleType,
        start: u64,
        table: &mut SymbolMap,
    ) -> (r: Result<u32, Error>)
        requires
            self.dyn_symbols@.len() <= u32::MAX,
        ensures
            r is Ok <==> spec_load_syms(old(table)@, self@.dyn_symbols, start) is Ok,
            r matches Ok(c) ==> final(table)@ == spec_load_syms(
                old(table)@,
                self@.dyn_symbols,
                start,
            ).unwrap().0 && c == spec_load_syms(old(table)@, self@.dyn_symbols, start).unwrap().1,
            r matches Err(e) ==> (e matches Error::DuplicateStrongSymbol {
                module: m,
                name: _,
            } && m == module),
    {
        let n = self.dyn_symbols.len();
        let mut i: usize = 0;
        let mut count: u32 = 0;
        proof {
            assert(self@.dyn_symbols.skip(0) =~= self@.dyn_symbols);
        }
        while i < n
            invariant
                i <= n,
                n == self.dyn_symbols@.len(),
                n <= u32::MAX,
                count <= i,
                spec_load_syms(old(table)@, self@.dyn_symbols, start) == spec_count_continue(
                    spec_load_syms(table@, self@.dyn_symbols.skip(i as int), start),
                    count as int,
                ),
            decreases n - i,
        {
            let ghost rest = self@.dyn_symbols.skip(i as int);
            proof {
                assert(rest[0] == self@.dyn_symbols[i as int]);
                assert(rest.drop_first() =~= self@.dyn_symbols.skip(i as int + 1));
            }
            let sym = &self.dyn_symbols[i];
            let skip_this = sym.undefined || !sym.named || sym.vis == STV_HIDDEN || sym.vis
                == STV_INTERNAL || sym.bind == STB_LOCAL;
            if !skip_this {
                let value = SymbolValue {
                    address: sym.value.wrapping_add(start),
                    weak: sym.bind == STB_WEAK,
                    protected: sym.vis == STV_PROTECTED,
                };
                proof {
                    assert(value == spec_symbol_value(rest[0], start));
                }
                let name = sym.name.clone();
                match table.insert(module, name, value) {
                    Ok(()) => {},
                    Err(e) => {
                        return Err(e);
                    },
                }
                count = count + 1;
            }
            i += 1;
        }
        proof {
            assert(self@.dyn_symbols.skip(n as int) =~= Seq::<DynSymbolV>::empty());
        }
        Ok(count)
    }
}

/// The per-module and synthetic symbol tables of one program image.
pub struct DynamicSymbolTables {
    pub rtld: SymbolMap,
    pub main: SymbolMap,
    pub subsdk0: SymbolMap,
    pub sdk: SymbolMap,
    /// the synthesized boundary symbols, not present in any ELF
    pub magic: SymbolMap,
}

/// The mathematical value of the five tables.
pub struct TablesV {
    pub rtld: Seq<SymbolEntryV>,
    pub main: Seq<SymbolEntryV>,
    pub subsdk0: Seq<SymbolEntryV>,
    pub sdk: Seq<SymbolEntryV>,
    pub magic: Seq<SymbolEntryV>,
}

impl View for DynamicSymbolTables {
    type V = TablesV;

    open spec fn view(&self) -> TablesV {
        TablesV {
            rtld: self.rtld@,
            main: self.main@,
            subsdk0: self.subsdk0@,
            sdk: self.sdk@,
            magic: self.magic@,
        }
    }
}

/// How many of the four lookups found a definition.
pub open spec fn spec_defined_count(
    a: Option<SymbolValue>,
    b: Option<SymbolValue>,
    c: Option<SymbolValue>,
    d: Option<SymbolValue>,
) -> int {
    (if a is Some {
        1int
    } else {
        0int
    }) + (if b is Some {
        1int
    } else {
        0int
    }) + (if c is Some {
        1int
    } else {
        0int
    }) + (if d is Some {
        1int
    } else {
        0int
    })
}

/// The definition of the lowest module kind, in module order.
pub open spec fn spec_first_defined(
    a: Option<SymbolValue>,
    b: Option<SymbolValue>,
    c: Option<SymbolValue>,
    d: Option<SymbolValue>,
) -> Option<SymbolValue> {
    if a is Some {
        a
    } else if b is Some {
        b
    } else if c is Some {
        c
    } else {
        d
    }
}

/// Every definition found is weak.
pub open spec fn spec_all_defined_weak(
    a: Option<SymbolValue>,
    b: Option<SymbolValue>,
    c: Option<SymbolValue>,
    d: Option<SymbolValue>,
) -> bool {
    &&& (a matches Some(v) ==> v.weak)
    &&& (b matches Some(v) ==> v.weak)
    &&& (c matches Some(v) ==> v.weak)
    &&& (d matches Some(v) ==> v.weak)
}

/// How many strong definitions were found.
pub open spec fn spec_strong_count(
    a: Option<SymbolValue>,
    b: Option<SymbolValue>,
    c: Option<SymbolValue>,
    d: Option<SymbolValue>,
) -> int {
    (if a matches Some(v) && !v.weak {
        1int
    } else {
        0int
    }) + (if b matches Some(v) && !v.weak {
        1int
    } else {
        0int
    }) + (if c matches Some(v) && !v.weak {
        1int
    } else {
        0int
    }) + (if d matches Some(v) && !v.weak {
        1int
    } else {
        0int
    })
}

/// The strong definition of the lowest module kind.
pub open spec fn spec_first_strong(
    a: Option<SymbolValue>,
    b: Option<SymbolValue>,
    c: Option<SymbolValue>,
    d: Option<SymbolValue>,
) -> Option<SymbolValue> {
    if a matches Some(v) && !v.weak {
        a
    } else if b matches Some(v) && !v.weak {
        b
    } else if c matches Some(v) && !v.weak {
        c
    } else if d matches Some(v) && !v.weak {
        d
    } else {
        None
    }
}

/// Why a name failed to resolve.
pub enum ResolveFailure {
    /// no module defines the name
    Unresolved,
    /// more than one module defines it strongly
    Ambiguous,
}

/// What `resolve` returns for a name: a synthetic symbol wins outright;
/// otherwise the definitions of the four modules are arbitrated by
/// binding strength, and ties among weak definitions go to the lowest
/// module kind.
pub open spec fn spec_resolve(t: TablesV, name: Seq<char>) -> Result<u64, ResolveFailure> {
    match spec_lookup(t.magic, name) {
        Some(v) => Ok(v.address),
        None => {
            let a = spec_lookup(t.rtld, name);
            let b = spec_lookup(t.main, name);
            let c = spec_lookup(t.subsdk0, name);
            let d = spec_lookup(t.sdk, name);
            if spec_defined_count(a, b, c, d) == 0 {
                Err(ResolveFailure::Unresolved)
            } else if spec_defined_count(a, b, c, d) == 1 {
                Ok(spec_first_defined(a, b, c, d).unwrap().address)
            } else if spec_all_defined_weak(a, b, c, d) {
                Ok(spec_first_defined(a, b, c, d).unwrap().address)
            } else if spec_strong_count(a, b, c, d) == 1 {
                Ok(spec_first_strong(a, b, c, d).unwrap().address)
            } else {
                Err(ResolveFailure::Ambiguous)
            }
        },
    }
}

/// The synthetic boundary symbols of one image: `__EX_start` at the
/// program base, `__EX_end` one past its end.
pub open spec fn spec_magic_table(start: u64, size: u32) -> Seq<SymbolEntryV> {
    seq![
        SymbolEntryV {
            name: "__EX_start"@,
            value: SymbolValue { address: start, weak: false, protected: false },
        },
        SymbolEntryV {
            name: "__EX_end"@,
            value: SymbolValue { address: (start + size) as u64, weak: false, protected: false },
        },
    ]
}

impl DynamicSymbolTables {
    /// Four empty module tables, and the magic table holding the image
    /// boundary symbols: `__EX_start` at the program base and `__EX_end`
    /// one past the image.
    pub fn new(start: u64, size: u32) -> (r: DynamicSymbolTables)
        requires
            start + size <= u64::MAX,
        ensures
            r@.rtld == Seq::<SymbolEntryV>::empty(),
            r@.main == Seq::<SymbolEntryV>::empty(),
            r@.subsdk0 == Seq::<SymbolEntryV>::empty(),
            r@.sdk == Seq::<SymbolEntryV>::empty(),
            r@.magic == spec_magic_table(start, size),
    {
        let mut magic = SymbolMap::new();
        proof {
            assert(magic@.len() == 0);
            assert(magic.entries@.len() == 0);
        }
        let name_start = "__EX_start".to_owned();
        let name_end = "__EX_end".to_owned();
        proof {
            assert(name_start@ == "__EX_start"@);
            assert(name_end@ == "__EX_end"@);
        }
        magic.entries.push(SymbolEntry {
            name: name_start,
            value: SymbolValue { address: start, weak: false, protected: false },
        });
        magic.entries.push(SymbolEntry {
            name: name_end,
            value: SymbolValue { address: start + size as u64, weak: false, protected: false },
        });
        proof {
            assert(magic.entries@.len() == 2);
            assert(magic@[0] == SymbolEntryV {
                name: "__EX_start"@,
                value: SymbolValue { address: start, weak: false, protected: false },
            });
            assert(magic@[1] == SymbolEntryV {
                name: "__EX_end"@,
                value: SymbolValue {
                    address: (start + size) as u64,
                    weak: false,
                    protected: false,
                },
            });
        }
        let r = DynamicSymbolTables {
            rtld: SymbolMap::new(),
            main: SymbolMap::new(),
            subsdk0: SymbolMap::new(),
            sdk: SymbolMap::new(),
            magic,
        };
        proof {
            assert(r@.magic =~= seq![
                SymbolEntryV {
                    name: "__EX_start"@,
                    value: SymbolValue { address: start, weak: false, protected: false },
                },
                SymbolEntryV {
                    name: "__EX_end"@,
                    value: SymbolValue {
                        address: (start + size) as u64,
                        weak: false,
                        protected: false,
                    },
                },
            ]);
        }
        r
    }

    /// Resolve a name to its absolute physical address. `_module` is the
    /// module asking; it is accepted for future protected-visibility
    /// arbitration and does not take part in the current policy.
    pub fn resolve(&self, _module: ModuleType, name: &String) -> (r: Result<u64, Error>)
        ensures
            r matches Ok(a) ==> spec_resolve(self@, name@) == Ok::<u64, ResolveFailure>(a),
            r is Err ==> spec_resolve(self@, name@) is Err,
            r matches Err(e) ==> (e matches Error::UnresolvedSymbol(n) ==> (spec_resolve(
                self@,
                name@,
            ) == Err::<u64, _>(ResolveFailure::Unresolved) && n@ == name@)),
            r matches Err(e) ==> (e matches Error::AmbiguousSymbol(n) ==> (spec_resolve(
                self@,
                name@,
            ) == Err::<u64, _>(ResolveFailure::Ambiguous) && n@ == name@)),
            r matches Err(e) ==> (e is UnresolvedSymbol || e is AmbiguousSymbol),
    {
        if let Some(v) = self.magic.get(name) {
            return Ok(v.address);
        }
        let a = self.rtld.get(name);
        let b = self.main.get(name);
        let c = self.subsdk0.get(name);
        let d = self.sdk.get(name);
        let count = (if a.is_some() {
            1u32
        } else {
            0u32
        }) + (if b.is_some() {
            1u32
        } else {
            0u32
        }) + (if c.is_some() {
            1u32
        } else {
            0u32
        }) + (if d.is_some() {
            1u32
        } else {
            0u32
        });
        if count == 0 {
            return Err(Error::UnresolvedSymbol(name.clone()));
        }
        let first = if let Some(v) = a {
            v
        } else if let Some(v) = b {
            v
        } else if let Some(v) = c {
            v
        } else if let Some(v) = d {
            v
        } else {
            proof {
                assert(false);
            }
            SymbolValue { address: 0, weak: false, protected: false }
        };
        if count == 1 {
            return Ok(first.address);
        }
        let all_weak = (match a {
            Some(v) => v.weak,
            None => true,
        }) && (match b {
            Some(v) => v.weak,
            None => true,
        }) && (match c {
            Some(v) => v.weak,
            None => true,
        }) && (match d {
            Some(v) => v.weak,
            None => true,
        });
        if all_weak {
            return Ok(first.address);
        }
        let strong_count = (match a {
            Some(v) => if v.weak {
                0u32
            } else {
                1u32
            },
            None => 0u32,
        }) + (match b {
            Some(v) => if v.weak {
                0u32
            } else {
                1u32
            },
            None => 0u32,
        }) + (match c {
            Some(v) => if v.weak {
                0u32
            } else {
                1u32
            },
            None => 0u32,
        }) + (match d {
            Some(v) => if v.weak {
                0u32
            } else {
                1u32
            },
            None => 0u32,
        });
        if strong_count == 1 {
            let strong = if let Some(v) = a {
                if !v.weak {
                    Some(v)
                } else {
                    None
                }
            } else {
                None
            };
            let strong = if strong.is_some() {
                strong
            } else if let Some(v) = b {
                if !v.weak {
                    Some(v)
                } else {
                    None
                }
            } else {
                None
            };
            let strong = if strong.is_some() {
                strong
            } else if let Some(v) = c {
                if !v.weak {
                    Some(v)
                } else {
                    None
                }
            } else {
                None
            };
            let strong = if strong.is_some() {
                strong
            } else if let Some(v) = d {
                if !v.weak {
                    Some(v)
                } else {
                    None
                }
            } else {
                None
            };
            match strong {
                Some(v) => {
                    return Ok(v.address);
                },
                None => {
                    proof {
                        assert(false);
                    }
                    return Err(Error::AmbiguousSymbol(name.clone()));
                },
            }
        }
        Err(Error::AmbiguousSymbol(name.clone()))
    }
}

/// Resolution is a function of the tables and the name alone: identical
/// inputs resolve to identical results, run after run.
pub proof fn lemma_resolve_deterministic(
    t1: TablesV,
    t2: TablesV,
    name1: Seq<char>,
    name2: Seq<char>,
)
    requires
        t1 == t2,
        name1 == name2,
    ensures
        spec_resolve(t1, name1) == spec_resolve(t2, name2),
{
}

/// Inserting a name that no entry carries appends it.
pub proof fn lemma_insert_vacant(s: Seq<SymbolEntryV>, name: Seq<char>, value: SymbolValue)
    requires
        forall|j: int| 0 <= j < s.len() ==> (#[trigger] s[j]).name != name,
    ensures
        spec_insert(s, name, value) == Ok::<_, ()>(s.push(SymbolEntryV { name, value })),
    decreases s.len(),
{
    if s.len() == 0 {
        assert(s.push(SymbolEntryV { name, value }) =~= seq![SymbolEntryV { name, value }]);
    } else {
        assert(forall|j: int|
            0 <= j < s.drop_first().len() ==> (#[trigger] s.drop_first()[j]).name != name);
        lemma_insert_vacant(s.drop_first(), name, value);
        assert(seq![s[0]] + s.drop_first().push(SymbolEntryV { name, value }) =~= s.push(
            SymbolEntryV { name, value },
        ));
    }
}

/// Inserting a name whose first occupant sits at index `i` either
/// replaces that entry (weak occupant), keeps the table (strong occupant,
/// weak newcomer), or fails (both strong).
pub proof fn lemma_insert_occupied(
    s: Seq<SymbolEntryV>,
    name: Seq<char>,
    value: SymbolValue,
    i: int,
)
    requires
        0 <= i < s.len(),
        s[i].name == name,
        forall|j: int| 0 <= j < i ==> (#[trigger] s[j]).name != name,
    ensures
        s[i].value.weak ==> spec_insert(s, name, value) == Ok::<_, ()>(
            s.update(i, SymbolEntryV { name, value }),
        ),
        !s[i].value.weak && !value.weak ==> spec_insert(s, name, value) == Err::<Seq<
            SymbolEntryV,
        >, _>(()),
        !s[i].value.weak && value.weak ==> spec_insert(s, name, value) == Ok::<_, ()>(s),
    decreases s.len(),
{
    if i == 0 {
        if s[0].value.weak {
            assert(seq![SymbolEntryV { name, value }] + s.drop_first() =~= s.update(
                0,
                SymbolEntryV { name, value },
            ));
        }
    } else {
        assert(s[0].name != name);
        lemma_insert_occupied(s.drop_first(), name, value, i - 1);
        if s[i].value.weak {
            assert(s.drop_first()[i - 1] == s[i]);
            assert(seq![s[0]] + s.drop_first().update(i - 1, SymbolEntryV { name, value })
                =~= s.update(i, SymbolEntryV { name, value }));
        } else if value.weak {
            assert(seq![s[0]] + s.drop_first() =~= s);
        }
    }
}

} // verus!
