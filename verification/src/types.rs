use vstd::prelude::*;
use vstd::string::*;

verus! {

/// The type of a field, of a function argument or of a value.
///
/// `Array` and `MapOf` carry the type of their elements.
#[derive(Debug)]
pub enum Type {
    /// A boolean.
    Bool,
    /// A 64-bit signed integer.
    Int,
    /// A sequence of bytes.
    Bytes,
    /// An IPv4 or IPv6 address.
    Ip,
    /// An array of values of the inner type.
    Array(Box<Type>),
    /// A map from byte strings to values of the inner type.
    MapOf(Box<Type>),
}

impl Type {
    /// Structural equality of two types, computed by walking both.
    pub fn same_as(&self, other: &Type) -> (r: bool)
        ensures
            r == (*self == *other),
        decreases self,
    {
        match (self, other) {
            (Type::Bool, Type::Bool) => true,
            (Type::Int, Type::Int) => true,
            (Type::Bytes, Type::Bytes) => true,
            (Type::Ip, Type::Ip) => true,
            (Type::Array(a), Type::Array(b)) => {
                let inner: &Type = a;
                inner.same_as(b)
            },
            (Type::MapOf(a), Type::MapOf(b)) => {
                let inner: &Type = a;
                inner.same_as(b)
            },
            _ => false,
        }
    }

    /// A copy of this type.
    pub fn duplicate(&self) -> (r: Type)
        ensures
            r == *self,
        decreases self,
    {
        match self {
            Type::Bool => Type::Bool,
            Type::Int => Type::Int,
            Type::Bytes => Type::Bytes,
            Type::Ip => Type::Ip,
            Type::Array(a) => {
                let inner: &Type = a;
                Type::Array(Box::new(inner.duplicate()))
            },
            Type::MapOf(a) => {
                let inner: &Type = a;
                Type::MapOf(Box::new(inner.duplicate()))
            },
        }
    }
}

impl Clone for Type {
    fn clone(&self) -> (r: Self)
        ensures
            r == *self,
    {
        self.duplicate()
    }
}

impl PartialEq for Type {
    fn eq(&self, other: &Self) -> (r: bool) {
        self.same_as(other)
    }
}

impl vstd::std_specs::cmp::PartialEqSpecImpl for Type {
    open spec fn obeys_eq_spec() -> bool {
        true
    }

    open spec fn eq_spec(&self, other: &Type) -> bool {
        *self == *other
    }
}

impl Eq for Type {}


/// A value of a field or of a function argument.
#[derive(Debug, PartialEq)]
pub enum LhsValue {
    /// A boolean.
    Bool(bool),
    /// A 64-bit signed integer.
    Int(i64),
    /// A sequence of bytes.
    Bytes(Vec<u8>),
    /// An array of values.
    Array(Array),
}

/// An array of values of one type.
#[derive(Debug, PartialEq)]
pub struct Array {
    val_type: Type,
    data: Vec<LhsValue>,
}

/// The mathematical content of a value.
pub enum LhsValueView {
    /// A boolean.
    Bool(bool),
    /// An integer.
    Int(i64),
    /// A sequence of bytes.
    Bytes(Seq<u8>),
    /// An array: the type of its elements and their contents.
    Array(Type, Seq<LhsValueView>),
}

/// The content of a value.
pub closed spec fn value_view(v: LhsValue) -> LhsValueView
    decreases v,
{
    match v {
        LhsValue::Bool(b) => LhsValueView::Bool(b),
        LhsValue::Int(i) => LhsValueView::Int(i),
        LhsValue::Bytes(b) => LhsValueView::Bytes(b@),
        LhsValue::Array(a) => LhsValueView::Array(a.val_type, values_view(a.data@)),
    }
}

/// The contents of a sequence of values.
pub closed spec fn values_view(s: Seq<LhsValue>) -> Seq<LhsValueView>
    decreases s,
{
    if s.len() == 0 {
        Seq::empty()
    } else {
        values_view(s.drop_last()).push(value_view(s.last()))
    }
}

/// The contents of a sequence of values, one by one.
pub proof fn lemma_values_view(s: Seq<LhsValue>)
    ensures
        values_view(s).len() == s.len(),
        forall|i: int| 0 <= i < s.len() ==> #[trigger] values_view(s)[i] == value_view(s[i]),
    decreases s.len(),
{
    if s.len() > 0 {
        lemma_values_view(s.drop_last());
        assert forall|i: int| 0 <= i < s.len() implies #[trigger] values_view(s)[i] == value_view(s[i]) by {
            if i < s.len() - 1 {
                assert(s.drop_last()[i] == s[i]);
            }
        }
    }
}

/// The content of a value, case by case.
pub proof fn lemma_value_view(v: LhsValue)
    ensures
        value_view(v) == match v {
            LhsValue::Bool(b) => LhsValueView::Bool(b),
            LhsValue::Int(i) => LhsValueView::Int(i),
            LhsValue::Bytes(b) => LhsValueView::Bytes(b@),
            LhsValue::Array(a) => LhsValueView::Array(a.spec_value_type(), values_view(a.spec_data())),
        },
{
}

/// The type of a value.
pub open spec fn type_of(v: LhsValue) -> Type {
    match v {
        LhsValue::Bool(_) => Type::Bool,
        LhsValue::Int(_) => Type::Int,
        LhsValue::Bytes(_) => Type::Bytes,
        LhsValue::Array(a) => Type::Array(Box::new(a.spec_value_type())),
    }
}

/// An error that occurs when a value does not have the type expected of it.
#[derive(Debug, PartialEq, Eq)]
pub struct TypeMismatchError {
    /// The expected type.
    pub expected: Type,
    /// The type of the value.
    pub actual: Type,
}

impl LhsValue {
    /// A byte-string value holding the UTF-8 bytes of `s`.
    pub fn bytes_of(s: &str) -> (r: LhsValue)
        ensures
            value_view(r) == LhsValueView::Bytes(s.spec_bytes()),
    {
        LhsValue::Bytes(vstd::slice::slice_to_vec(s.as_bytes()))
    }

    /// The type of this value.
    pub fn get_type(&self) -> (r: Type)
        ensures
            r == type_of(*self),
    {
        match self {
            LhsValue::Bool(_) => Type::Bool,
            LhsValue::Int(_) => Type::Int,
            LhsValue::Bytes(_) => Type::Bytes,
            LhsValue::Array(a) => Type::Array(Box::new(a.val_type.duplicate())),
        }
    }

    /// A copy of this value.
    pub fn duplicate(&self) -> (r: LhsValue)
        ensures
            value_view(r) == value_view(*self),
            type_of(r) == type_of(*self),
        decreases self,
    {
        match self {
            LhsValue::Bool(b) => LhsValue::Bool(*b),
            LhsValue::Int(i) => LhsValue::Int(*i),
            LhsValue::Bytes(b) => LhsValue::Bytes(vstd::slice::slice_to_vec(b.as_slice())),
            LhsValue::Array(a) => {
                proof {
                    use_type_invariant(a);
                }
                let mut data: Vec<LhsValue> = Vec::new();
                let mut i: usize = 0;
                while i < a.data.len()
                    invariant
                        i <= a.data@.len(),
                        *self == LhsValue::Array(*a),
                        forall|j: int| 0 <= j < a.data@.len() ==> type_of(#[trigger] a.data@[j]) == a.val_type,
                        data@.len() == i,
                        forall|j: int| 0 <= j < i ==> type_of(#[trigger] data@[j]) == a.val_type,
                        values_view(data@) == values_view(a.data@.subrange(0, i as int)),
                    decreases a.data@.len() - i,
                {
                    proof {
                        assert(decreases_to!(*self => (*self)->Array_0));
                        assert(decreases_to!(*a => a.data));
                        assert(decreases_to!(a.data => a.data@));
                        assert(decreases_to!(a.data@ => a.data@[i as int]));
                        assert(decreases_to!(self => a.data@[i as int]));
                    }
                    let item = a.data[i].duplicate();
                    let ghost prev = data@;
                    data.push(item);
                    proof {
                        assert(data@.drop_last() =~= prev);
                        assert(a.data@.subrange(0, i + 1).drop_last() =~= a.data@.subrange(0, i as int));
                    }
                    i = i + 1;
                }
                proof {
                    assert(a.data@.subrange(0, a.data@.len() as int) =~= a.data@);
                }
                LhsValue::Array(Array { val_type: a.val_type.duplicate(), data })
            },
        }
    }

    /// Whether two values have the same content.
    pub fn same_value(&self, other: &LhsValue) -> (r: bool)
        ensures
            r == (value_view(*self) == value_view(*other)),
        decreases self,
    {
        proof {
            lemma_value_view(*self);
            lemma_value_view(*other);
        }
        match (self, other) {
            (LhsValue::Bool(a), LhsValue::Bool(b)) => *a == *b,
            (LhsValue::Int(a), LhsValue::Int(b)) => *a == *b,
            (LhsValue::Bytes(a), LhsValue::Bytes(b)) => {
                if a.len() != b.len() {
                    return false;
                }
                let mut i: usize = 0;
                while i < a.len()
                    invariant
                        i <= a@.len(),
                        value_view(*self) == LhsValueView::Bytes(a@),
                        value_view(*other) == LhsValueView::Bytes(b@),
                        a@.len() == b@.len(),
                        a@.subrange(0, i as int) == b@.subrange(0, i as int),
                    decreases a@.len() - i,
                {
                    if a[i] != b[i] {
                        proof {
                            assert(a@[i as int] != b@[i as int]);
                        }
                        return false;
                    }
                    proof {
                        assert(a@.subrange(0, i + 1) =~= a@.subrange(0, i as int).push(a@[i as int]));
                        assert(b@.subrange(0, i + 1) =~= b@.subrange(0, i as int).push(b@[i as int]));
                    }
                    i = i + 1;
                }
                proof {
                    assert(a@.subrange(0, a@.len() as int) =~= a@);
                    assert(b@.subrange(0, b@.len() as int) =~= b@);
                }
                true
            },
            (LhsValue::Array(a), LhsValue::Array(b)) => {
                if !a.val_type.same_as(&b.val_type) || a.data.len() != b.data.len() {
                    proof {
                        lemma_values_view(a.data@);
                        lemma_values_view(b.data@);
                    }
                    return false;
                }
                let mut i: usize = 0;
                while i < a.data.len()
                    invariant
                        i <= a.data@.len(),
                        *self == LhsValue::Array(*a),
                        value_view(*self) == LhsValueView::Array(a.val_type, values_view(a.data@)),
                        value_view(*other) == LhsValueView::Array(b.val_type, values_view(b.data@)),
                        a.data@.len() == b.data@.len(),
                        values_view(a.data@.subrange(0, i as int)) == values_view(b.data@.subrange(0, i as int)),
                    decreases a.data@.len() - i,
                {
                    proof {
                        assert(decreases_to!(*self => (*self)->Array_0));
                        assert(decreases_to!(*a => a.data));
                        assert(decreases_to!(a.data => a.data@));
                        assert(decreases_to!(a.data@ => a.data@[i as int]));
                        assert(decreases_to!(self => a.data@[i as int]));
                    }
                    if !a.data[i].same_value(&b.data[i]) {
                        proof {
                            lemma_values_view(a.data@);
                            lemma_values_view(b.data@);
                            assert(values_view(a.data@)[i as int] != values_view(b.data@)[i as int]);
                        }
                        return false;
                    }
                    proof {
                        assert(a.data@.subrange(0, i + 1).drop_last() =~= a.data@.subrange(0, i as int));
                        assert(b.data@.subrange(0, i + 1).drop_last() =~= b.data@.subrange(0, i as int));
                    }
                    i = i + 1;
                }
                proof {
                    assert(a.data@.subrange(0, a.data@.len() as int) =~= a.data@);
                    assert(b.data@.subrange(0, b.data@.len() as int) =~= b.data@);
                }
                true
            },
            _ => false,
        }
    }
}

impl Array {
    /// The type of the elements.
    pub closed spec fn spec_value_type(&self) -> Type {
        self.val_type
    }

    /// The elements.
    pub closed spec fn spec_data(&self) -> Seq<LhsValue> {
        self.data@
    }

    /// Whether every element has the element type.
    pub open spec fn well_typed(&self) -> bool {
        forall|i: int| 0 <= i < self.spec_data().len() ==> type_of(#[trigger] self.spec_data()[i]) == self.spec_value_type()
    }

    #[verifier::type_invariant]
    spec fn inv(&self) -> bool {
        forall|i: int| 0 <= i < self.data@.len() ==> type_of(#[trigger] self.data@[i]) == self.val_type
    }

    /// Creates an empty array of values of type `val_type`.
    pub fn new(val_type: Type) -> (r: Array)
        ensures
            r.spec_value_type() == val_type,
            r.spec_data().len() == 0,
    {
        Array { val_type, data: Vec::new() }
    }

    /// Creates an array of values of type `val_type` holding `data`, if
    /// every value has that type.
    pub fn try_from_vec(val_type: Type, data: Vec<LhsValue>) -> (r: Result<Array, TypeMismatchError>)
        ensures
            (forall|i: int| 0 <= i < data@.len() ==> type_of(#[trigger] data@[i]) == val_type) ==> (r matches Ok(a)
                && a.spec_value_type() == val_type && a.spec_data() == data@),
            !(forall|i: int| 0 <= i < data@.len() ==> type_of(#[trigger] data@[i]) == val_type) ==> (r matches Err(e)
                && e.expected == val_type && exists|i: int|
                0 <= i < data@.len() && type_of(#[trigger] data@[i]) == e.actual && e.actual != val_type
                && forall|j: int| 0 <= j < i ==> type_of(#[trigger] data@[j]) == val_type),
    {
        let mut i: usize = 0;
        while i < data.len()
            invariant
                i <= data@.len(),
                forall|j: int| 0 <= j < i ==> type_of(#[trigger] data@[j]) == val_type,
            decreases data@.len() - i,
        {
            let t = data[i].get_type();
            if !t.same_as(&val_type) {
                return Err(TypeMismatchError { expected: val_type, actual: t });
            }
            i = i + 1;
        }
        Ok(Array { val_type, data })
    }

    /// Returns the type of the elements.
    pub fn value_type(&self) -> (r: Type)
        ensures
            r == self.spec_value_type(),
            self.well_typed(),
    {
        proof {
            use_type_invariant(self);
        }
        self.val_type.duplicate()
    }

    /// Returns the number of elements.
    pub fn len(&self) -> (r: usize)
        ensures
            r == self.spec_data().len(),
            self.well_typed(),
    {
        proof {
            use_type_invariant(self);
        }
        self.data.len()
    }

    /// Returns the element at `index`, if there is one.
    pub fn get(&self, index: usize) -> (r: Option<&LhsValue>)
        ensures
            index < self.spec_data().len() ==> r == Some(&self.spec_data()[index as int]),
            index >= self.spec_data().len() ==> r is None,
    {
        if index < self.data.len() {
            Some(&self.data[index])
        } else {
            None
        }
    }

    /// Returns the elements.
    pub fn into_vec(self) -> (r: Vec<LhsValue>)
        ensures
            r@ == self.spec_data(),
    {
        self.data
    }
}

} // verus!
