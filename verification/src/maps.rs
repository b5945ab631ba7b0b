//! Hash maps of `hashbrown` that the compiler keeps its tables in.
//!
//! Each table holds a `hashbrown::HashMap`; what it holds is named by a spec
//! function, and each method states what `hashbrown`'s method of the same
//! name does to it and returns.
use vstd::prelude::*;
use crate::ast::{Type, TypeV, Stmt, StmtV, names_v, fields_v};

verus! {

/// Function names and their parameter names.
#[verifier::external_body]
pub struct ParamMap {
    m: hashbrown::HashMap<String, Vec<String>>,
}

/// What a [`ParamMap`] holds.
pub uninterp spec fn param_entries(m: ParamMap) -> Map<Seq<char>, Seq<Seq<char>>>;

impl ParamMap {
    /// `HashMap::new`: an empty map.
    #[verifier::external_body]
    pub(crate) fn new() -> (r: ParamMap)
        ensures
            param_entries(r).dom() == Set::<Seq<char>>::empty(),
    {
        ParamMap { m: hashbrown::HashMap::new() }
    }

    /// `HashMap::insert`: `k` now maps to `v`, replacing any earlier value.
    #[verifier::external_body]
    pub(crate) fn insert(&mut self, k: String, v: Vec<String>)
        ensures
            param_entries(*final(self)) == param_entries(*old(self)).insert(k@, names_v(v@)),
    {
        self.m.insert(k, v);
    }

    /// `HashMap::get`: the value `k` maps to, if any.
    #[verifier::external_body]
    pub(crate) fn get(&self, k: &str) -> (r: Option<&Vec<String>>)
        ensures
            match r {
                Some(v) => param_entries(*self).contains_key(k@) && names_v(v@) == param_entries(
                    *self,
                )[k@],
                None => !param_entries(*self).contains_key(k@),
            },
    {
        self.m.get(k)
    }

    /// `HashMap::contains_key`.
    #[verifier::external_body]
    pub(crate) fn contains_key(&self, k: &str) -> (r: bool)
        ensures
            r == param_entries(*self).contains_key(k@),
    {
        self.m.contains_key(k)
    }
}

/// Struct names and their fields.
#[verifier::external_body]
pub struct StructMap {
    m: hashbrown::HashMap<String, Vec<(String, Type)>>,
}

/// What a [`StructMap`] holds.
pub uninterp spec fn struct_entries(m: StructMap) -> Map<Seq<char>, Seq<(Seq<char>, TypeV)>>;

impl StructMap {
    /// `HashMap::new`: an empty map.
    #[verifier::external_body]
    pub(crate) fn new() -> (r: StructMap)
        ensures
            struct_entries(r).dom() == Set::<Seq<char>>::empty(),
    {
        StructMap { m: hashbrown::HashMap::new() }
    }

    /// `HashMap::insert`: `k` now maps to `v`, replacing any earlier value.
    #[verifier::external_body]
    pub(crate) fn insert(&mut self, k: String, v: Vec<(String, Type)>)
        ensures
            struct_entries(*final(self)) == struct_entries(*old(self)).insert(k@, fields_v(v@)),
    {
        self.m.insert(k, v);
    }

    /// `HashMap::get`: the value `k` maps to, if any.
    #[verifier::external_body]
    pub(crate) fn get(&self, k: &str) -> (r: Option<&Vec<(String, Type)>>)
        ensures
            match r {
                Some(v) => struct_entries(*self).contains_key(k@) && fields_v(v@) == struct_entries(
                    *self,
                )[k@],
                None => !struct_entries(*self).contains_key(k@),
            },
    {
        self.m.get(k)
    }
}

/// Names and their types.
#[verifier::external_body]
pub struct TypeMap {
    m: hashbrown::HashMap<String, Type>,
}

/// What a [`TypeMap`] holds.
pub uninterp spec fn type_entries(m: TypeMap) -> Map<Seq<char>, TypeV>;

impl TypeMap {
    /// `HashMap::new`: an empty map.
    #[verifier::external_body]
    pub(crate) fn new() -> (r: TypeMap)
        ensures
            type_entries(r).dom() == Set::<Seq<char>>::empty(),
    {
        TypeMap { m: hashbrown::HashMap::new() }
    }

    /// `HashMap::insert`: `k` now maps to `v`, replacing any earlier value.
    #[verifier::external_body]
    pub(crate) fn insert(&mut self, k: String, v: Type)
        ensures
            type_entries(*final(self)) == type_entries(*old(self)).insert(k@, v@),
    {
        self.m.insert(k, v);
    }

    /// `HashMap::get`: the value `k` maps to, if any.
    #[verifier::external_body]
    pub(crate) fn get(&self, k: &str) -> (r: Option<&Type>)
        ensures
            match r {
                Some(v) => type_entries(*self).contains_key(k@) && v@ == type_entries(*self)[k@],
                None => !type_entries(*self).contains_key(k@),
            },
    {
        self.m.get(k)
    }
}

/// Temporaries and the registers given to them.
#[verifier::external_body]
pub struct RegMap {
    m: hashbrown::HashMap<String, String>,
}

/// What a [`RegMap`] holds.
pub uninterp spec fn reg_entries(m: RegMap) -> Map<Seq<char>, Seq<char>>;

impl RegMap {
    /// `HashMap::new`: an empty map.
    #[verifier::external_body]
    pub(crate) fn new() -> (r: RegMap)
        ensures
            reg_entries(r).dom() == Set::<Seq<char>>::empty(),
    {
        RegMap { m: hashbrown::HashMap::new() }
    }

    /// `HashMap::insert`: `k` now maps to `v`, replacing any earlier value.
    #[verifier::external_body]
    pub(crate) fn insert(&mut self, k: String, v: String)
        ensures
            reg_entries(*final(self)) == reg_entries(*old(self)).insert(k@, v@),
    {
        self.m.insert(k, v);
    }

    /// `HashMap::get`: the value `k` maps to, if any.
    #[verifier::external_body]
    pub(crate) fn get(&self, k: &str) -> (r: Option<&String>)
        ensures
            match r {
                Some(v) => reg_entries(*self).contains_key(k@) && v@ == reg_entries(*self)[k@],
                None => !reg_entries(*self).contains_key(k@),
            },
    {
        self.m.get(k)
    }
}

/// Variable names and their values, for one scope.
#[verifier::external_body]
pub struct ScopeMap {
    m: hashbrown::HashMap<String, i64>,
}

/// What a [`ScopeMap`] holds.
pub uninterp spec fn scope_entries(m: ScopeMap) -> Map<Seq<char>, i64>;

impl ScopeMap {
    /// `HashMap::new`: an empty map.
    #[verifier::external_body]
    pub(crate) fn new() -> (r: ScopeMap)
        ensures
            scope_entries(r).dom() == Set::<Seq<char>>::empty(),
    {
        ScopeMap { m: hashbrown::HashMap::new() }
    }

    /// `HashMap::insert`: `k` now maps to `v`, replacing any earlier value.
    #[verifier::external_body]
    pub(crate) fn insert(&mut self, k: String, v: i64)
        ensures
            scope_entries(*final(self)) == scope_entries(*old(self)).insert(k@, v),
    {
        self.m.insert(k, v);
    }

    /// `HashMap::get`: the value `k` maps to, if any.
    #[verifier::external_body]
    pub(crate) fn get(&self, k: &str) -> (r: Option<&i64>)
        ensures
            match r {
                Some(v) => scope_entries(*self).contains_key(k@) && *v == scope_entries(*self)[k@],
                None => !scope_entries(*self).contains_key(k@),
            },
    {
        self.m.get(k)
    }

    /// `HashMap::contains_key`.
    #[verifier::external_body]
    pub(crate) fn contains_key(&self, k: &str) -> (r: bool)
        ensures
            r == scope_entries(*self).contains_key(k@),
    {
        self.m.contains_key(k)
    }
}

/// Memory: addresses and the words stored at them.
#[verifier::external_body]
pub struct MemMap {
    m: hashbrown::HashMap<i64, i64>,
}

/// What a [`MemMap`] holds.
pub uninterp spec fn mem_entries(m: MemMap) -> Map<i64, i64>;

impl MemMap {
    /// `HashMap::new`: an empty map.
    #[verifier::external_body]
    pub(crate) fn new() -> (r: MemMap)
        ensures
            mem_entries(r).dom() == Set::<i64>::empty(),
    {
        MemMap { m: hashbrown::HashMap::new() }
    }

    /// `HashMap::insert`: `k` now maps to `v`, replacing any earlier value.
    #[verifier::external_body]
    pub(crate) fn insert(&mut self, k: i64, v: i64)
        ensures
            mem_entries(*final(self)) == mem_entries(*old(self)).insert(k, v),
    {
        self.m.insert(k, v);
    }

    /// `HashMap::get`: the value `k` maps to, if any.
    #[verifier::external_body]
    pub(crate) fn get(&self, k: i64) -> (r: Option<&i64>)
        ensures
            match r {
                Some(v) => mem_entries(*self).contains_key(k) && *v == mem_entries(*self)[k],
                None => !mem_entries(*self).contains_key(k),
            },
    {
        self.m.get(&k)
    }

    /// `HashMap::len`: how many keys the map holds.
    #[verifier::external_body]
    pub(crate) fn len(&self) -> (r: usize)
        requires
            mem_entries(*self).dom().finite(),
        ensures
            r == mem_entries(*self).dom().len(),
    {
        self.m.len()
    }
}

/// Function names and their definitions.
#[verifier::external_body]
pub struct FnMap {
    m: hashbrown::HashMap<String, Stmt>,
}

/// What a [`FnMap`] holds.
pub uninterp spec fn fn_entries(m: FnMap) -> Map<Seq<char>, StmtV>;

impl FnMap {
    /// `HashMap::new`: an empty map.
    #[verifier::external_body]
    pub(crate) fn new() -> (r: FnMap)
        ensures
            fn_entries(r).dom() == Set::<Seq<char>>::empty(),
    {
        FnMap { m: hashbrown::HashMap::new() }
    }

    /// `HashMap::insert`: `k` now maps to `v`, replacing any earlier value.
    #[verifier::external_body]
    pub(crate) fn insert(&mut self, k: String, v: Stmt)
        ensures
            fn_entries(*final(self)) == fn_entries(*old(self)).insert(k@, v@),
    {
        self.m.insert(k, v);
    }

    /// `HashMap::get`: the value `k` maps to, if any.
    #[verifier::external_body]
    pub(crate) fn get(&self, k: &str) -> (r: Option<&Stmt>)
        ensures
            match r {
                Some(v) => fn_entries(*self).contains_key(k@) && v@ == fn_entries(*self)[k@],
                None => !fn_entries(*self).contains_key(k@),
            },
    {
        self.m.get(k)
    }
}

} // verus!
