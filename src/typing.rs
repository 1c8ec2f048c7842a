use vstd::prelude::*;

verus! {

/// A type, named by its interned type id.
pub type Ty = u64;

/// The type that every value has.
pub const ANY: Ty = 0;

/// The type of a native value, with the operations it supports.
#[derive(Debug)]
pub struct TyStarlarkValue {
    pub id: u64,
    pub callable: bool,
    pub indexable: bool,
    /// The type of the items of an iteration, for an iterable value.
    pub iter_item: Option<Ty>,
    /// The types of its methods, by interned name.
    pub methods: Vec<(u64, Ty)>,
}

/// The type bound to `name` in `entries` (the first, should a name repeat).
pub open spec fn type_named(entries: Seq<(u64, Ty)>, name: u64) -> Option<Ty>
    decreases entries.len(),
{
    if entries.len() == 0 {
        None
    } else if entries[0].0 == name {
        Some(entries[0].1)
    } else {
        type_named(entries.drop_first(), name)
    }
}

fn find_type(entries: &Vec<(u64, Ty)>, name: u64) -> (r: Option<Ty>)
    ensures
        r == type_named(entries@, name),
{
    let mut i: usize = 0;
    proof {
        assert(entries@.skip(0) =~= entries@);
    }
    while i < entries.len()
        invariant
            i <= entries@.len(),
            type_named(entries@, name) == type_named(entries@.skip(i as int), name),
        decreases entries.len() - i,
    {
        proof {
            assert(entries@.skip(i as int).drop_first() =~= entries@.skip(i + 1));
        }
        if entries[i].0 == name {
            return Some(entries[i].1);
        }
        i = i + 1;
    }
    None
}

/// Two types may hold a common value: they are the same, or one of them is `ANY`.
pub open spec fn ty_intersects(a: Ty, b: Ty) -> bool {
    a == b || a == ANY || b == ANY
}

/// What indexing a native value gives: `ANY` where it is indexable, nothing else.
pub open spec fn base_index(indexable: bool) -> Option<Ty> {
    if indexable {
        Some(ANY)
    } else {
        None
    }
}

/// A basic type that a user type may be compared with.
#[derive(Clone, Copy, Debug, PartialEq, Eq, Structural)]
pub enum TyBasic {
    StarlarkValue(u64),
    Custom(u64),
}

/// Types of `[]` operator.
#[derive(Clone, Copy, Debug, PartialEq, Eq, Structural)]
pub struct TyUserIndex {
    /// Type of index argument.
    pub index: Ty,
    /// Type of result.
    pub result: Ty,
}

/// Fields of a user type: the known ones by interned name, and whether others may exist.
#[derive(Debug)]
pub struct TyUserFields {
    pub known: Vec<(u64, Ty)>,
    pub unknown: bool,
}

impl TyUserFields {
    /// No fields.
    pub fn no_fields() -> (r: TyUserFields)
        ensures
            r.known@.len() == 0,
            !r.unknown,
    {
        TyUserFields { known: Vec::new(), unknown: false }
    }

    /// All fields are not known.
    pub fn unknown() -> (r: TyUserFields)
        ensures
            r.known@.len() == 0,
            r.unknown,
    {
        TyUserFields { known: Vec::new(), unknown: true }
    }
}

#[derive(Debug, PartialEq, Eq)]
pub enum TyUserError {
    /// A custom callable signature was given, but the base type is not callable.
    CallableNotCallable(String),
    /// A custom index signature was given, but the base type is not indexable.
    IndexableNotIndexable(String),
    /// A custom iteration item was given, but the base type is not iterable.
    IterableNotIterable(String),
}

/// A type defined by a user on top of a native base type.
#[derive(Debug)]
pub struct TyUser {
    pub name: String,
    pub base: TyStarlarkValue,
    /// Super types for this type (`base` is included implicitly).
    pub supertypes: Vec<TyBasic>,
    pub id: u64,
    pub fields: TyUserFields,
    /// Set if a more precise callable signature is known than `base` provides.
    pub callable: Option<Ty>,
    /// Set if a more precise index signature is known than `base` provides.
    pub index: Option<TyUserIndex>,
    /// Set if a more precise iteration item is known than `base` provides.
    pub iter_item: Option<Ty>,
}

impl TyUser {
    /// A user type; refused where it refines an operation that its base lacks.
    pub fn new(
        name: String,
        base: TyStarlarkValue,
        supertypes: Vec<TyBasic>,
        id: u64,
        fields: TyUserFields,
        callable: Option<Ty>,
        index: Option<TyUserIndex>,
        iter_item: Option<Ty>,
    ) -> (r: Result<TyUser, TyUserError>)
        ensures
            callable is Some && !base.callable ==> r is Err && r->Err_0 is CallableNotCallable
                && r->Err_0->CallableNotCallable_0@ == name@,
            !(callable is Some && !base.callable) && index is Some && !base.indexable ==> r is Err
                && r->Err_0 is IndexableNotIndexable && r->Err_0->IndexableNotIndexable_0@ == name@,
            !(callable is Some && !base.callable) && !(index is Some && !base.indexable)
                && iter_item is Some && base.iter_item is None ==> r is Err
                && r->Err_0 is IterableNotIterable && r->Err_0->IterableNotIterable_0@ == name@,
            r is Ok <==> !(callable is Some && !base.callable) && !(index is Some && !base.indexable)
                && !(iter_item is Some && base.iter_item is None),
            r is Ok ==> r->Ok_0.name@ == name@ && r->Ok_0.supertypes@ == supertypes@
                && r->Ok_0.id == id && r->Ok_0.callable == callable && r->Ok_0.index == index
                && r->Ok_0.iter_item == iter_item,
            r is Ok ==> r->Ok_0.base.id == base.id && r->Ok_0.base.callable == base.callable
                && r->Ok_0.base.indexable == base.indexable && r->Ok_0.base.iter_item == base.iter_item
                && r->Ok_0.base.methods@ == base.methods@,
            r is Ok ==> r->Ok_0.fields.known@ == fields.known@ && r->Ok_0.fields.unknown == fields.unknown,
    {
        if callable.is_some() && !base.callable {
            return Err(TyUserError::CallableNotCallable(name));
        }
        if index.is_some() && !base.indexable {
            return Err(TyUserError::IndexableNotIndexable(name));
        }
        if iter_item.is_some() && base.iter_item.is_none() {
            return Err(TyUserError::IterableNotIterable(name));
        }
        Ok(TyUser { name, base, supertypes, id, fields, callable, index, iter_item })
    }

    /// The type of attribute `attr`: a method of the base, else a known field, else `ANY`
    /// where unknown fields may exist.
    pub fn attribute(&self, attr: u64) -> (r: Option<Ty>)
        ensures
            r == (match type_named(self.base.methods@, attr) {
                Some(t) => Some(t),
                None => match type_named(self.fields.known@, attr) {
                    Some(t) => Some(t),
                    None => if self.fields.unknown {
                        Some(ANY)
                    } else {
                        None
                    },
                },
            }),
    {
        match find_type(&self.base.methods, attr) {
            Some(t) => Some(t),
            None => match find_type(&self.fields.known, attr) {
                Some(t) => Some(t),
                None => if self.fields.unknown {
                    Some(ANY)
                } else {
                    None
                },
            },
        }
    }

    pub fn as_name(&self) -> (r: &String)
        ensures
            r@ == self.name@,
    {
        &self.name
    }

    pub fn is_callable(&self) -> (r: bool)
        ensures
            r == self.base.callable,
    {
        self.base.callable
    }

    /// The type of the items of an iteration: the refined one if given, else the base's.
    pub fn iter_item(&self) -> (r: Option<Ty>)
        ensures
            r == (if self.iter_item is Some { self.iter_item } else { self.base.iter_item }),
    {
        match self.iter_item {
            Some(t) => Some(t),
            None => self.base.iter_item,
        }
    }

    /// The result type of indexing with `item`: under the refined index signature where there
    /// is one (`None` where `item` does not intersect its index type), else as the base
    /// indexes.
    pub fn index(&self, item: Ty) -> (r: Option<Ty>)
        ensures
            r == (match self.index {
                Some(ix) => if ty_intersects(item, ix.index) {
                    Some(ix.result)
                } else {
                    None
                },
                None => base_index(self.base.indexable),
            }),
    {
        match self.index {
            Some(ix) => if item == ix.index || item == ANY || ix.index == ANY {
                Some(ix.result)
            } else {
                None
            },
            None => if self.base.indexable {
                Some(ANY)
            } else {
                None
            },
        }
    }

    /// Two user types intersect exactly when they are the same type.
    pub fn intersects(x: &TyUser, y: &TyUser) -> (r: bool)
        ensures
            r == (x.id == y.id),
    {
        x.id == y.id
    }

    /// A user type intersects its base native type and each of its super types.
    pub fn intersects_with(&self, other: TyBasic) -> (r: bool)
        ensures
            r == (other == TyBasic::StarlarkValue(self.base.id) || self.supertypes@.contains(other)),
    {
        if other == TyBasic::StarlarkValue(self.base.id) {
            return true;
        }
        let mut i: usize = 0;
        while i < self.supertypes.len()
            invariant
                i <= self.supertypes@.len(),
                forall|j: int| 0 <= j < i ==> self.supertypes@[j] != other,
            decreases self.supertypes.len() - i,
        {
            if self.supertypes[i] == other {
                assert(self.supertypes@[i as int] == other);
                return true;
            }
            i = i + 1;
        }
        false
    }
}

/// User types are equal when they are the same type.
impl PartialEq for TyUser {
    fn eq(&self, other: &TyUser) -> (r: bool) {
        self.id == other.id
    }
}

impl vstd::std_specs::cmp::PartialEqSpecImpl for TyUser {
    open spec fn obeys_eq_spec() -> bool {
        true
    }

    open spec fn eq_spec(&self, other: &TyUser) -> bool {
        self.id == other.id
    }
}

} // verus!
