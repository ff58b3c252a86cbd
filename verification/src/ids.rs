use vstd::prelude::*;

verus! {

/// What the numbers of variables and classes give.
pub broadcast group group_ids {
    VarId::lemma_index_injective,
    VarId::lemma_index,
    VarId::lemma_at,
    ClassId::lemma_index_injective,
    ClassId::lemma_index,
    ClassId::lemma_at,
}

/// The identity of a variable declared in some sub-scope.
#[derive(Copy, Clone, Debug, PartialEq, Eq, Hash, Structural)]
pub struct VarId(usize);

/// The identity of a class known to a scope.
#[derive(Copy, Clone, Debug, PartialEq, Eq, Hash, Structural)]
pub struct ClassId(usize);

impl VarId {
    /// The number that the scope's counter held when this variable was declared.
    pub closed spec fn index(self) -> nat {
        self.0 as nat
    }

    /// Two variables are the same exactly when their numbers are.
    pub broadcast proof fn lemma_index_injective(a: VarId, b: VarId)
        ensures
            #![trigger a.index(), b.index()]
            a.index() == b.index() <==> a == b,
    {
    }

    /// The variable with number `n`.
    pub closed spec fn at(n: nat) -> VarId {
        VarId(n as usize)
    }

    /// A variable's number fits a `usize`, and names the variable back.
    pub broadcast proof fn lemma_index(v: VarId)
        ensures
            #[trigger] v.index() <= usize::MAX,
            VarId::at(v.index()) == v,
    {
    }

    /// `at` gives the variable with the number asked for.
    pub broadcast proof fn lemma_at(n: nat)
        requires
            n <= usize::MAX,
        ensures
            #[trigger] VarId::at(n).index() == n,
    {
    }

    pub(crate) fn from_count(n: usize) -> (v: VarId)
        ensures
            v.index() == n,
            v == VarId::at(n as nat),
    {
        VarId(n)
    }
}

impl ClassId {
    /// The number that identifies this class.
    pub closed spec fn index(self) -> nat {
        self.0 as nat
    }

    /// Two classes are the same exactly when their numbers are.
    pub broadcast proof fn lemma_index_injective(a: ClassId, b: ClassId)
        ensures
            #![trigger a.index(), b.index()]
            a.index() == b.index() <==> a == b,
    {
    }

    /// The class with number `n`.
    pub closed spec fn at(n: nat) -> ClassId {
        ClassId(n as usize)
    }

    /// A class's number fits a `usize`, and names the class back.
    pub broadcast proof fn lemma_index(c: ClassId)
        ensures
            #[trigger] c.index() <= usize::MAX,
            ClassId::at(c.index()) == c,
    {
    }

    /// `at` gives the class with the number asked for.
    pub broadcast proof fn lemma_at(n: nat)
        requires
            n <= usize::MAX,
        ensures
            #[trigger] ClassId::at(n).index() == n,
    {
    }

    pub(crate) fn from_count(n: usize) -> (c: ClassId)
        ensures
            c.index() == n,
            c == ClassId::at(n as nat),
    {
        ClassId(n)
    }

    /// The reserved class of the enclosing object.
    pub fn this() -> (c: ClassId)
        ensures
            c.index() == 0,
            c == ClassId::at(0),
    {
        ClassId(0)
    }

    /// The reserved class of number literals.
    pub fn integer() -> (c: ClassId)
        ensures
            c.index() == 1,
            c == ClassId::at(1),
    {
        ClassId(1)
    }

    /// The reserved class of string literals.
    pub fn string() -> (c: ClassId)
        ensures
            c.index() == 2,
            c == ClassId::at(2),
    {
        ClassId(2)
    }
}

impl DeepView for VarId {
    type V = VarId;

    open spec fn deep_view(&self) -> VarId {
        *self
    }
}

} // verus!
