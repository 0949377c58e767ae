use vstd::prelude::*;

use std::sync::Arc;

use vstd::rwlock::RwLock;

use crate::ast::parse::{FilterParser, ParserSettings};
use crate::functions::FunctionDefinition;
use crate::lex::{
    chars_of, lex_dotted_name, lex_int, lex_quoted_bytes, spec_dotted_name, spec_lex_int, spec_quoted,
    string_from_utf8, string_of, LexErrorKind, LexResult,
};
use crate::list_matcher::ListDefinition;
use crate::types::Type;

verus! {

/// An error that occurs if two underlying schemes don't match.
#[derive(Debug, PartialEq, Eq)]
pub struct SchemeMismatchError;

/// An error that occurs if an unregistered field name was queried from a
/// scheme.
#[derive(Debug, PartialEq, Eq)]
pub struct UnknownFieldError;

/// An error that occurs if an unregistered function name was queried from a
/// scheme.
#[derive(Debug, PartialEq, Eq)]
pub struct UnknownFunctionError;

/// An error that occurs when a previously defined field gets redefined.
#[derive(Debug, PartialEq, Eq)]
pub struct FieldRedefinitionError(String);

impl FieldRedefinitionError {
    /// The error for the field `name` defined twice.
    pub fn new(name: String) -> (r: Self)
        ensures
            r.spec_name() == name@,
    {
        FieldRedefinitionError(name)
    }

    /// The name of the field that was defined twice.
    pub fn name(&self) -> (r: &str)
        ensures
            r@ == self.spec_name(),
    {
        self.0.as_str()
    }

    /// The name of the field that was defined twice.
    pub closed spec fn spec_name(&self) -> Seq<char> {
        self.0@
    }
}

/// An error that occurs when a field is defined with a different type than
/// an existing field with the same name.
#[derive(Debug, PartialEq, Eq)]
pub struct FieldTypeMismatchError {
    name: String,
    expected: Type,
    got: Type,
}

impl FieldTypeMismatchError {
    /// The error for the field `name` of type `expected` asked for with
    /// type `got`.
    pub fn new(name: String, expected: Type, got: Type) -> (r: Self)
        ensures
            r.spec_name() == name@,
            r.spec_expected() == expected,
            r.spec_got() == got,
    {
        FieldTypeMismatchError { name, expected, got }
    }

    /// The name of the field.
    pub fn name(&self) -> (r: &str)
        ensures
            r@ == self.spec_name(),
    {
        self.name.as_str()
    }

    /// The type that the field already has.
    pub fn expected(&self) -> (r: &Type)
        ensures
            *r == self.spec_expected(),
    {
        &self.expected
    }

    /// The type that the new definition asked for.
    pub fn got(&self) -> (r: &Type)
        ensures
            *r == self.spec_got(),
    {
        &self.got
    }

    /// The name of the field.
    pub closed spec fn spec_name(&self) -> Seq<char> {
        self.name@
    }

    /// The type that the field already has.
    pub closed spec fn spec_expected(&self) -> Type {
        self.expected
    }

    /// The type that the new definition asked for.
    pub closed spec fn spec_got(&self) -> Type {
        self.got
    }
}

/// An error that occurs when a previously defined function gets redefined.
#[derive(Debug, PartialEq, Eq)]
pub struct FunctionRedefinitionError(String);

impl FunctionRedefinitionError {
    /// The error for the function `name` defined twice.
    pub fn new(name: String) -> (r: Self)
        ensures
            r.spec_name() == name@,
    {
        FunctionRedefinitionError(name)
    }

    /// The name of the function that was defined twice.
    pub fn name(&self) -> (r: &str)
        ensures
            r@ == self.spec_name(),
    {
        self.0.as_str()
    }

    /// The name of the function that was defined twice.
    pub closed spec fn spec_name(&self) -> Seq<char> {
        self.0@
    }
}

/// An error that occurs when trying to redefine a field or function.
#[derive(Debug, PartialEq, Eq)]
pub enum IdentifierRedefinitionError {
    /// A previously defined field gets redefined.
    Field(FieldRedefinitionError),
    /// A field is defined with a different type.
    FieldTypeMismatch(FieldTypeMismatchError),
    /// A previously defined function gets redefined.
    Function(FunctionRedefinitionError),
}

/// An error that occurs when a list for a type gets redefined.
#[derive(Debug, PartialEq, Eq)]
pub struct ListRedefinitionError(Type);

impl ListRedefinitionError {
    /// The error for a second list for the type `ty`.
    pub fn new(ty: Type) -> (r: Self)
        ensures
            r.spec_ty() == ty,
    {
        ListRedefinitionError(ty)
    }

    /// The type for which a list was defined twice.
    pub fn ty(&self) -> (r: &Type)
        ensures
            *r == self.spec_ty(),
    {
        &self.0
    }

    /// The type for which a list was defined twice.
    pub closed spec fn spec_ty(&self) -> Type {
        self.0
    }
}

/// What a name in a scheme stands for: a field or a function, by its index
/// in the scheme store.
#[derive(Clone, Copy, Debug, PartialEq, Eq, Structural)]
pub enum SchemeItem {
    /// A field, by its index among the store's fields.
    Field(usize),
    /// A function, by its index among the store's functions.
    Function(usize),
}

/// The definition of a field: its name, its type and whether its value may
/// be missing.
#[derive(Debug)]
pub struct FieldDefinition {
    name: String,
    ty: Type,
    optional: bool,
    scheme_id: u64,
}

impl FieldDefinition {
    /// Returns the name of the field.
    pub fn name(&self) -> (r: &str)
        ensures
            r@ == self.spec_name(),
    {
        self.name.as_str()
    }

    /// Returns the type of the field.
    pub fn ty(&self) -> (r: Type)
        ensures
            r == self.spec_ty(),
    {
        self.ty.duplicate()
    }

    /// Returns whether the field is optional.
    pub fn optional(&self) -> (r: bool)
        ensures
            r == self.spec_optional(),
    {
        self.optional
    }

    /// The name of the field.
    pub closed spec fn spec_name(&self) -> Seq<char> {
        self.name@
    }

    /// The type of the field.
    pub closed spec fn spec_ty(&self) -> Type {
        self.ty
    }

    /// Whether the field is optional.
    pub closed spec fn spec_optional(&self) -> bool {
        self.optional
    }

    /// The identifier of the scheme builder that defined the field.
    pub closed spec fn spec_scheme_id(&self) -> u64 {
        self.scheme_id
    }

    /// Whether two definitions have the same name, type, optionality and
    /// scheme identifier.
    pub open spec fn same_as(&self, other: FieldDefinition) -> bool {
        &&& self.spec_name() == other.spec_name()
        &&& self.spec_ty() == other.spec_ty()
        &&& self.spec_optional() == other.spec_optional()
        &&& self.spec_scheme_id() == other.spec_scheme_id()
    }

    /// A copy of this definition.
    pub fn duplicate(&self) -> (r: FieldDefinition)
        ensures
            r.spec_name() == self.spec_name(),
            r.spec_ty() == self.spec_ty(),
            r.spec_optional() == self.spec_optional(),
            r.spec_scheme_id() == self.spec_scheme_id(),
    {
        FieldDefinition {
            name: self.name.clone(),
            ty: self.ty.duplicate(),
            optional: self.optional,
            scheme_id: self.scheme_id,
        }
    }
}

/// Whether no two entries of a sequence are equal.
pub open spec fn all_distinct<T>(s: Seq<T>) -> bool {
    forall|i: int, j: int| 0 <= i < j < s.len() ==> s[i] != s[j]
}

/// In a sequence without repetitions, an entry is found where it stands.
pub proof fn lemma_distinct_index_of<T>(s: Seq<T>, i: int)
    requires
        all_distinct(s),
        0 <= i < s.len(),
    ensures
        s.index_of(s[i]) == i,
{
    assert(s.contains(s[i]));
    let j = s.index_of(s[i]);
    assert(0 <= j < s.len() && s[j] == s[i]);
    if j < i {
        assert(s[j] != s[i]);
    } else if i < j {
        assert(s[i] != s[j]);
    }
}

/// A prefix of a sequence without repetitions has none either.
proof fn lemma_distinct_prefix<T>(s: Seq<T>, n: int)
    requires
        all_distinct(s),
        0 <= n <= s.len(),
    ensures
        all_distinct(s.subrange(0, n)),
{
    let t = s.subrange(0, n);
    assert forall|i: int, j: int| 0 <= i < j < t.len() implies t[i] != t[j] by {
        assert(t[i] == s[i] && t[j] == s[j]);
    }
}

/// Pushing a new entry onto a sequence without repetitions keeps it so.
pub proof fn lemma_distinct_push<T>(s: Seq<T>, x: T)
    requires
        all_distinct(s),
        !s.contains(x),
    ensures
        all_distinct(s.push(x)),
{
    let t = s.push(x);
    assert forall|i: int, j: int| 0 <= i < j < t.len() implies t[i] != t[j] by {
        if j == s.len() {
            assert(t[i] == s[i]);
        } else {
            assert(t[i] == s[i] && t[j] == s[j]);
        }
    }
}

/// The contents of a scheme store: field, function and list definitions
/// that schemes refer to by index.
///
/// Definitions are only ever appended: an index, once handed out, keeps
/// naming the same definition.
pub struct StoreData {
    fields: Vec<FieldDefinition>,
    functions: Vec<(String, Arc<Box<dyn FunctionDefinition>>)>,
    lists: Vec<(Type, Arc<Box<dyn ListDefinition>>)>,
    next_scheme_id: u64,
    nil_not_equal_is_false: bool,
}

impl StoreData {
    /// The field definitions, in index order.
    pub closed spec fn spec_fields(&self) -> Seq<FieldDefinition> {
        self.fields@
    }

    /// The function entries, in index order.
    pub closed spec fn spec_functions(&self) -> Seq<(String, Arc<Box<dyn FunctionDefinition>>)> {
        self.functions@
    }

    /// The list entries, in index order.
    pub closed spec fn spec_lists(&self) -> Seq<(Type, Arc<Box<dyn ListDefinition>>)> {
        self.lists@
    }

    /// The names of the fields, in index order.
    pub closed spec fn field_names(&self) -> Seq<Seq<char>> {
        self.fields@.map_values(|f: FieldDefinition| f.name@)
    }

    /// The definition of the field at `i`.
    pub closed spec fn field_at(&self, i: int) -> FieldDefinition {
        self.fields@[i]
    }

    /// The number of fields.
    pub closed spec fn spec_field_count(&self) -> nat {
        self.fields@.len()
    }

    /// The names of the functions, in index order.
    pub closed spec fn function_names(&self) -> Seq<Seq<char>> {
        self.functions@.map_values(|f: (String, Arc<Box<dyn FunctionDefinition>>)| f.0@)
    }

    /// The types of the lists, in index order.
    pub closed spec fn list_types(&self) -> Seq<Type> {
        self.lists@.map_values(|l: (Type, Arc<Box<dyn ListDefinition>>)| l.0)
    }

    /// The identifier that the next scheme builder sharing this store gets.
    pub closed spec fn spec_next_scheme_id(&self) -> u64 {
        self.next_scheme_id
    }

    /// Whether `nil != value` is false rather than true.
    pub closed spec fn spec_nil_not_equal_is_false(&self) -> bool {
        self.nil_not_equal_is_false
    }

    /// Well-formedness: no name or list type is defined twice.
    pub closed spec fn wf(&self) -> bool {
        &&& all_distinct(self.field_names())
        &&& all_distinct(self.function_names())
        &&& all_distinct(self.list_types())
    }

    /// Creates empty store contents.
    ///
    /// When `nil_not_equal_is_false` is `true`, comparisons with `nil` values
    /// always return `false` instead of `nil`.
    pub(crate) fn new(nil_not_equal_is_false: bool) -> (r: StoreData)
        ensures
            r.wf(),
            r.field_names() == Seq::<Seq<char>>::empty(),
            r.function_names() == Seq::<Seq<char>>::empty(),
            r.list_types() == Seq::<Type>::empty(),
            r.spec_next_scheme_id() == 0,
            r.spec_nil_not_equal_is_false() == nil_not_equal_is_false,
    {
        let r = StoreData {
            fields: Vec::new(),
            functions: Vec::new(),
            lists: Vec::new(),
            next_scheme_id: 0,
            nil_not_equal_is_false,
        };
        assert(r.field_names() =~= Seq::<Seq<char>>::empty());
        assert(r.function_names() =~= Seq::<Seq<char>>::empty());
        assert(r.list_types() =~= Seq::<Type>::empty());
        r
    }

    /// Returns the number of fields.
    pub(crate) fn field_count(&self) -> (r: usize)
        ensures
            r == self.field_names().len(),
    {
        self.fields.len()
    }

    /// Returns the number of functions.
    pub(crate) fn function_count(&self) -> (r: usize)
        ensures
            r == self.function_names().len(),
    {
        self.functions.len()
    }

    /// Returns the number of lists.
    pub(crate) fn list_count(&self) -> (r: usize)
        ensures
            r == self.list_types().len(),
    {
        self.lists.len()
    }

    /// Returns the field definition at the given index, if there is one.
    pub(crate) fn get(&self, index: usize) -> (r: Option<&FieldDefinition>)
        ensures
            index < self.field_names().len() ==> r == Some(&self.field_at(index as int)),
            index >= self.field_names().len() ==> r is None,
    {
        if index < self.fields.len() {
            Some(&self.fields[index])
        } else {
            None
        }
    }

    /// Returns the field definition at the given index.
    pub(crate) fn index(&self, index: usize) -> (r: &FieldDefinition)
        requires
            index < self.field_names().len(),
        ensures
            *r == self.field_at(index as int),
    {
        &self.fields[index]
    }

    /// Returns the index of the field with the given name, if there is one.
    pub(crate) fn get_field_index(&self, name: &str) -> (r: Option<usize>)
        ensures
            match r {
                Some(i) => i < self.field_names().len() && self.field_names()[i as int] == name@,
                None => !self.field_names().contains(name@),
            },
    {
        let key = name.to_owned();
        self.find_field(&key)
    }

    /// The index of the field named `name`, if there is one.
    fn find_field(&self, name: &String) -> (r: Option<usize>)
        ensures
            match r {
                Some(i) => i < self.field_names().len() && self.field_names()[i as int] == name@,
                None => !self.field_names().contains(name@),
            },
    {
        let mut i: usize = 0;
        while i < self.fields.len()
            invariant
                i <= self.fields@.len(),
                forall|j: int| 0 <= j < i ==> self.fields@[j].name@ != name@,
            decreases self.fields@.len() - i,
        {
            if self.fields[i].name == *name {
                return Some(i);
            }
            i = i + 1;
        }
        proof {
            if self.field_names().contains(name@) {
                let k = choose|k: int| 0 <= k < self.field_names().len() && self.field_names()[k] == name@;
                assert(self.fields@[k].name@ == name@);
            }
        }
        None
    }

    /// The index of the function named `name`, if there is one.
    fn find_function(&self, name: &String) -> (r: Option<usize>)
        ensures
            match r {
                Some(i) => i < self.function_names().len() && self.function_names()[i as int] == name@,
                None => !self.function_names().contains(name@),
            },
    {
        let mut i: usize = 0;
        while i < self.functions.len()
            invariant
                i <= self.functions@.len(),
                forall|j: int| 0 <= j < i ==> self.functions@[j].0@ != name@,
            decreases self.functions@.len() - i,
        {
            if self.functions[i].0 == *name {
                return Some(i);
            }
            i = i + 1;
        }
        proof {
            if self.function_names().contains(name@) {
                let k = choose|k: int| 0 <= k < self.function_names().len() && self.function_names()[k] == name@;
                assert(self.functions@[k].0@ == name@);
            }
        }
        None
    }

    /// The index of the list for type `ty`, if there is one.
    pub(crate) fn list_at_index(&self, ty: &Type) -> (r: Option<usize>)
        ensures
            match r {
                Some(i) => i < self.list_types().len() && self.list_types()[i as int] == *ty,
                None => !self.list_types().contains(*ty),
            },
    {
        let mut i: usize = 0;
        while i < self.lists.len()
            invariant
                i <= self.lists@.len(),
                forall|j: int| 0 <= j < i ==> self.lists@[j].0 != *ty,
            decreases self.lists@.len() - i,
        {
            if self.lists[i].0.same_as(ty) {
                return Some(i);
            }
            i = i + 1;
        }
        proof {
            if self.list_types().contains(*ty) {
                let k = choose|k: int| 0 <= k < self.list_types().len() && self.list_types()[k] == *ty;
                assert(self.lists@[k].0 == *ty);
            }
        }
        None
    }

    /// Whether `self` and `other` hold the same functions, lists, next scheme
    /// identifier and `nil` comparison setting.
    pub closed spec fn same_besides_fields(&self, other: &StoreData) -> bool {
        &&& self.functions@ == other.functions@
        &&& self.lists@ == other.lists@
        &&& self.next_scheme_id == other.next_scheme_id
        &&& self.nil_not_equal_is_false == other.nil_not_equal_is_false
    }

    /// Whether `self` holds every definition of `other` at the same index,
    /// possibly followed by more, and has handed out at least the scheme
    /// identifiers that `other` has.
    pub closed spec fn extends(&self, other: &StoreData) -> bool {
        &&& other.fields@.len() <= self.fields@.len()
        &&& self.fields@.subrange(0, other.fields@.len() as int) == other.fields@
        &&& other.functions@.len() <= self.functions@.len()
        &&& self.functions@.subrange(0, other.functions@.len() as int) == other.functions@
        &&& other.lists@.len() <= self.lists@.len()
        &&& self.lists@.subrange(0, other.lists@.len() as int) == other.lists@
        &&& other.next_scheme_id <= self.next_scheme_id
    }

    /// Returns the index of the field named `name` if it exists with type
    /// `ty`, and defines it otherwise.
    ///
    /// A field of that name with another type is a mismatch.
    pub(crate) fn get_or_add_field(
        &mut self,
        name: String,
        ty: Type,
        optional: bool,
        scheme_id: u64,
    ) -> (r: Result<usize, IdentifierRedefinitionError>)
        requires
            old(self).wf(),
        ensures
            final(self).wf(),
            old(self).field_names().contains(name@) ==> {
                let i = old(self).field_names().index_of(name@);
                &&& *final(self) == *old(self)
                &&& if old(self).field_at(i).spec_ty() == ty {
                    r matches Ok(k) && k == i
                } else {
                    &&& r matches Err(IdentifierRedefinitionError::FieldTypeMismatch(e))
                    &&& e.spec_name() == name@
                    &&& e.spec_expected() == old(self).field_at(i).spec_ty()
                    &&& e.spec_got() == ty
                }
            },
            !old(self).field_names().contains(name@) ==> {
                &&& r matches Ok(k) && k == old(self).field_names().len()
                &&& final(self).added_field(old(self), name@, ty, optional, scheme_id)
            },
    {
        match self.find_field(&name) {
            Some(index) => {
                proof {
                    self.lemma_index_of_field(index as int);
                }
                let existing_ty = self.fields[index].ty.duplicate();
                if !existing_ty.same_as(&ty) {
                    return Err(
                        IdentifierRedefinitionError::FieldTypeMismatch(
                            FieldTypeMismatchError { name, expected: existing_ty, got: ty },
                        ),
                    );
                }
                Ok(index)
            },
            None => self.add_field_internal(name, ty, optional, scheme_id),
        }
    }

    /// Whether `self` is `old` with one more field, with the given
    /// properties, after all of the old ones.
    pub closed spec fn added_field(
        &self,
        old: &StoreData,
        name: Seq<char>,
        ty: Type,
        optional: bool,
        scheme_id: u64,
    ) -> bool {
        &&& self.fields@.len() == old.fields@.len() + 1
        &&& self.fields@.subrange(0, old.fields@.len() as int) == old.fields@
        &&& self.fields@.last().name@ == name
        &&& self.fields@.last().ty == ty
        &&& self.fields@.last().optional == optional
        &&& self.fields@.last().scheme_id == scheme_id
        &&& self.same_besides_fields(old)
    }

    /// With distinct names, the index of a name is where it stands.
    proof fn lemma_index_of_field(&self, i: int)
        requires
            self.wf(),
            0 <= i < self.field_names().len(),
        ensures
            self.field_names().index_of(self.field_names()[i]) == i,
    {
        let names = self.field_names();
        names.index_of_first_ensures(names[i]);
        let j = names.index_of(names[i]);
        assert(names[j] == names[i]);
        if j != i {
            if j < i {
                assert(names[j] != names[i]);
            } else {
                assert(names[i] != names[j]);
            }
        }
    }

    /// Defines a new field named `name`, unless one of that name exists.
    pub(crate) fn add_field_internal(
        &mut self,
        name: String,
        ty: Type,
        optional: bool,
        scheme_id: u64,
    ) -> (r: Result<usize, IdentifierRedefinitionError>)
        requires
            old(self).wf(),
        ensures
            final(self).wf(),
            old(self).field_names().contains(name@) ==> {
                &&& *final(self) == *old(self)
                &&& r matches Err(IdentifierRedefinitionError::Field(e))
                &&& e.spec_name() == name@
            },
            !old(self).field_names().contains(name@) ==> {
                &&& r matches Ok(k) && k == old(self).field_names().len()
                &&& final(self).added_field(old(self), name@, ty, optional, scheme_id)
            },
    {
        match self.find_field(&name) {
            Some(_) => Err(IdentifierRedefinitionError::Field(FieldRedefinitionError(name))),
            None => {
                let index = self.fields.len();
                let ghost old_names = self.field_names();
                self.fields.push(FieldDefinition { name, ty, optional, scheme_id });
                proof {
                    assert(self.field_names() =~= old_names.push(self.fields@.last().name@));
                    assert(self.fields@.subrange(0, index as int) =~= old(self).spec_fields());
                }
                Ok(index)
            },
        }
    }

    /// Hands out the next scheme identifier.
    ///
    /// The counter stops at the largest identifier instead of wrapping.
    pub(crate) fn allocate_scheme_id(&mut self) -> (r: u64)
        ensures
            r == old(self).spec_next_scheme_id(),
            final(self).spec_next_scheme_id() == if old(self).spec_next_scheme_id() < u64::MAX {
                old(self).spec_next_scheme_id() + 1
            } else {
                old(self).spec_next_scheme_id() as int
            },
            final(self).spec_fields() == old(self).spec_fields(),
            final(self).spec_functions() == old(self).spec_functions(),
            final(self).spec_lists() == old(self).spec_lists(),
            final(self).spec_nil_not_equal_is_false() == old(self).spec_nil_not_equal_is_false(),
    {
        let id = self.next_scheme_id;
        if id < u64::MAX {
            self.next_scheme_id = id + 1;
        }
        id
    }

    /// Returns the index of the function named `name`, defining it with
    /// `function` if there is none yet.
    pub(crate) fn get_or_add_function(
        &mut self,
        name: String,
        function: Arc<Box<dyn FunctionDefinition>>,
    ) -> (r: Result<usize, IdentifierRedefinitionError>)
        requires
            old(self).wf(),
        ensures
            final(self).wf(),
            old(self).function_names().contains(name@) ==> {
                &&& *final(self) == *old(self)
                &&& r matches Ok(k) && k == old(self).function_names().index_of(name@)
            },
            !old(self).function_names().contains(name@) ==> {
                &&& r matches Ok(k) && k == old(self).function_names().len()
                &&& final(self).spec_fields() == old(self).spec_fields()
                &&& final(self).spec_functions().len() == old(self).spec_functions().len() + 1
                &&& final(self).spec_functions().subrange(0, old(self).spec_functions().len() as int) == old(self).spec_functions()
                &&& final(self).spec_functions().last().0 == name
                &&& final(self).spec_functions().last().1 == function
                &&& final(self).spec_lists() == old(self).spec_lists()
                &&& final(self).spec_next_scheme_id() == old(self).spec_next_scheme_id()
                &&& final(self).spec_nil_not_equal_is_false() == old(self).spec_nil_not_equal_is_false()
            },
    {
        match self.find_function(&name) {
            Some(index) => {
                proof {
                    let names = self.function_names();
                    names.index_of_first_ensures(name@);
                    let j = names.index_of(name@);
                    if j != index {
                        if j < index {
                            assert(names[j] != names[index as int]);
                        } else {
                            assert(names[index as int] != names[j]);
                        }
                    }
                }
                Ok(index)
            },
            None => {
                let index = self.functions.len();
                let ghost old_names = self.function_names();
                let ghost n = name;
                let pair = (name, function);
                self.functions.push(pair);
                proof {
                    assert(self.function_names() =~= old_names.push(n@));
                    assert(self.functions@.subrange(0, index as int) =~= old(self).spec_functions());
                }
                Ok(index)
            },
        }
    }

    /// Returns the index of the list for type `ty`, defining it with
    /// `definition` if there is none yet.
    pub(crate) fn get_or_add_list(
        &mut self,
        ty: Type,
        definition: Arc<Box<dyn ListDefinition>>,
    ) -> (r: Result<usize, ListRedefinitionError>)
        requires
            old(self).wf(),
        ensures
            final(self).wf(),
            old(self).list_types().contains(ty) ==> {
                &&& *final(self) == *old(self)
                &&& r matches Ok(k) && k == old(self).list_types().index_of(ty)
            },
            !old(self).list_types().contains(ty) ==> {
                &&& r matches Ok(k) && k == old(self).list_types().len()
                &&& final(self).spec_fields() == old(self).spec_fields()
                &&& final(self).spec_functions() == old(self).spec_functions()
                &&& final(self).spec_lists().len() == old(self).spec_lists().len() + 1
                &&& final(self).spec_lists().subrange(0, old(self).spec_lists().len() as int) == old(self).spec_lists()
                &&& final(self).spec_lists().last().0 == ty
                &&& final(self).spec_lists().last().1 == definition
                &&& final(self).spec_next_scheme_id() == old(self).spec_next_scheme_id()
                &&& final(self).spec_nil_not_equal_is_false() == old(self).spec_nil_not_equal_is_false()
            },
    {
        match self.list_at_index(&ty) {
            Some(index) => {
                proof {
                    let types = self.list_types();
                    types.index_of_first_ensures(ty);
                    let j = types.index_of(ty);
                    if j != index {
                        if j < index {
                            assert(types[j] != types[index as int]);
                        } else {
                            assert(types[index as int] != types[j]);
                        }
                    }
                }
                Ok(index)
            },
            None => {
                let index = self.lists.len();
                let ghost old_types = self.list_types();
                let ghost t = ty;
                let pair = (ty, definition);
                self.lists.push(pair);
                proof {
                    assert(self.list_types() =~= old_types.push(t));
                    assert(self.lists@.subrange(0, index as int) =~= old(self).spec_lists());
                }
                Ok(index)
            },
        }
    }

    /// Whether `nil != value` evaluates to true.
    pub(crate) fn nil_not_equal_behavior(&self) -> (r: bool)
        ensures
            r == !self.spec_nil_not_equal_is_false(),
    {
        !self.nil_not_equal_is_false
    }

    /// The name and the definition of the function at `index`.
    pub(crate) fn function_at(&self, index: usize) -> (r: &(String, Arc<Box<dyn FunctionDefinition>>))
        requires
            index < self.spec_functions().len(),
        ensures
            *r == self.spec_functions()[index as int],
    {
        &self.functions[index]
    }

    /// The type and the definition of the list at `index`.
    pub(crate) fn list_at(&self, index: usize) -> (r: &(Type, Arc<Box<dyn ListDefinition>>))
        requires
            index < self.spec_lists().len(),
        ensures
            *r == self.spec_lists()[index as int],
    {
        &self.lists[index]
    }
}


impl StoreData {
    /// Every store contents extend themselves.
    pub proof fn lemma_extends_refl(&self)
        ensures
            self.extends(self),
    {
        assert(self.fields@.subrange(0, self.fields@.len() as int) =~= self.fields@);
        assert(self.functions@.subrange(0, self.functions@.len() as int) =~= self.functions@);
        assert(self.lists@.subrange(0, self.lists@.len() as int) =~= self.lists@);
    }

    /// Extending is transitive.
    pub proof fn lemma_extends_trans(&self, mid: &StoreData, base: &StoreData)
        requires
            self.extends(mid),
            mid.extends(base),
        ensures
            self.extends(base),
    {
        assert(self.fields@.subrange(0, base.fields@.len() as int) =~= base.fields@) by {
            assert forall|i: int| 0 <= i < base.fields@.len() implies self.fields@[i] == base.fields@[i] by {
                assert(self.fields@.subrange(0, mid.fields@.len() as int)[i] == self.fields@[i]);
                assert(mid.fields@.subrange(0, base.fields@.len() as int)[i] == mid.fields@[i]);
            }
        }
        assert(self.functions@.subrange(0, base.functions@.len() as int) =~= base.functions@) by {
            assert forall|i: int| 0 <= i < base.functions@.len() implies self.functions@[i] == base.functions@[i] by {
                assert(self.functions@.subrange(0, mid.functions@.len() as int)[i] == self.functions@[i]);
                assert(mid.functions@.subrange(0, base.functions@.len() as int)[i] == mid.functions@[i]);
            }
        }
        assert(self.lists@.subrange(0, base.lists@.len() as int) =~= base.lists@) by {
            assert forall|i: int| 0 <= i < base.lists@.len() implies self.lists@[i] == base.lists@[i] by {
                assert(self.lists@.subrange(0, mid.lists@.len() as int)[i] == self.lists@[i]);
                assert(mid.lists@.subrange(0, base.lists@.len() as int)[i] == mid.lists@[i]);
            }
        }
    }

    /// What well-formed contents that extend `base` hold of the names and
    /// types that `base` holds: the same definitions at the same indices.
    proof fn lemma_extends_known(&self, base: &StoreData)
        requires
            self.wf(),
            self.extends(base),
        ensures
            base.wf(),
            forall|i: int| 0 <= i < base.fields@.len() ==> #[trigger] self.fields@[i] == base.fields@[i],
            forall|i: int| 0 <= i < base.functions@.len() ==> #[trigger] self.functions@[i] == base.functions@[i],
            forall|i: int| 0 <= i < base.lists@.len() ==> #[trigger] self.lists@[i] == base.lists@[i],
            base.field_names().len() <= self.field_names().len(),
            base.function_names().len() <= self.function_names().len(),
            base.list_types().len() <= self.list_types().len(),
            forall|n: Seq<char>| #[trigger] base.field_names().contains(n) ==> self.field_names().contains(n)
                && self.field_names().index_of(n) == base.field_names().index_of(n),
            forall|n: Seq<char>| #[trigger] base.function_names().contains(n) ==> self.function_names().contains(n)
                && self.function_names().index_of(n) == base.function_names().index_of(n),
            forall|t: Type| #[trigger] base.list_types().contains(t) ==> self.list_types().contains(t)
                && self.list_types().index_of(t) == base.list_types().index_of(t),
    {
        assert forall|i: int| 0 <= i < base.fields@.len() implies #[trigger] self.fields@[i] == base.fields@[i] by {
            assert(self.fields@.subrange(0, base.fields@.len() as int)[i] == self.fields@[i]);
        }
        assert forall|i: int| 0 <= i < base.functions@.len() implies #[trigger] self.functions@[i] == base.functions@[i] by {
            assert(self.functions@.subrange(0, base.functions@.len() as int)[i] == self.functions@[i]);
        }
        assert forall|i: int| 0 <= i < base.lists@.len() implies #[trigger] self.lists@[i] == base.lists@[i] by {
            assert(self.lists@.subrange(0, base.lists@.len() as int)[i] == self.lists@[i]);
        }
        let sf = self.field_names();
        let bf = base.field_names();
        assert(bf =~= sf.subrange(0, bf.len() as int));
        let sg = self.function_names();
        let bg = base.function_names();
        assert(bg =~= sg.subrange(0, bg.len() as int));
        let sl = self.list_types();
        let bl = base.list_types();
        assert(bl =~= sl.subrange(0, bl.len() as int));
        lemma_distinct_prefix(sf, bf.len() as int);
        lemma_distinct_prefix(sg, bg.len() as int);
        lemma_distinct_prefix(sl, bl.len() as int);
        assert forall|n: Seq<char>| #[trigger] bf.contains(n) implies sf.contains(n) && sf.index_of(n) == bf.index_of(n) by {
            let j = bf.index_of(n);
            bf.index_of_first_ensures(n);
            assert(sf[j] == n);
            lemma_distinct_index_of(sf, j);
        }
        assert forall|n: Seq<char>| #[trigger] bg.contains(n) implies sg.contains(n) && sg.index_of(n) == bg.index_of(n) by {
            let j = bg.index_of(n);
            bg.index_of_first_ensures(n);
            assert(sg[j] == n);
            lemma_distinct_index_of(sg, j);
        }
        assert forall|t: Type| #[trigger] bl.contains(t) implies sl.contains(t) && sl.index_of(t) == bl.index_of(t) by {
            let j = bl.index_of(t);
            bl.index_of_first_ensures(t);
            assert(sl[j] == t);
            lemma_distinct_index_of(sl, j);
        }
    }
}

impl vstd::rwlock::RwLockPredicate<StoreData> for StoreData {
    /// What every contents of a store keep: they are well formed, hold the
    /// definitions that the store was made with at the same indices, and
    /// keep its `nil` comparison setting.
    open spec fn inv(self, v: StoreData) -> bool {
        &&& v.wf()
        &&& v.extends(&self)
        &&& v.spec_nil_not_equal_is_false() == self.spec_nil_not_equal_is_false()
    }
}

/// A shared, growing collection of field, function and list definitions
/// that schemes refer to by index.
///
/// Builders made on the same store add to it, and every scheme built by
/// them holds it. Definitions are only ever appended.
pub struct SchemeStore {
    inner: RwLock<StoreData, StoreData>,
    nil_not_equal_is_false: bool,
}

impl SchemeStore {
    /// The store's lock keeps the contents well formed, and its setting is
    /// that of the contents.
    #[verifier::type_invariant]
    closed spec fn inv(&self) -> bool {
        &&& self.inner.pred().wf()
        &&& self.inner.pred().spec_nil_not_equal_is_false() == self.nil_not_equal_is_false
    }

    /// The definitions that the store holds for good: those it was made
    /// with. Whatever else builders add later is not known here; the
    /// contents only ever grow from these.
    pub closed spec fn known(&self) -> StoreData {
        self.inner.pred()
    }

    /// A store made with the given contents.
    pub(crate) fn from_data(data: StoreData) -> (r: SchemeStore)
        requires
            data.wf(),
        ensures
            r.known() == data,
    {
        let ghost g = data;
        proof {
            g.lemma_extends_refl();
        }
        let nil_not_equal_is_false = data.nil_not_equal_is_false;
        SchemeStore { inner: RwLock::new(data, Ghost(g)), nil_not_equal_is_false }
    }

    /// Creates a new empty `SchemeStore`.
    ///
    /// When `nil_not_equal_is_false` is `true`, comparisons with `nil` values
    /// always return `false` instead of `nil`.
    pub fn new(nil_not_equal_is_false: bool) -> (r: SchemeStore)
        ensures
            r.known().wf(),
            r.known().field_names() == Seq::<Seq<char>>::empty(),
            r.known().function_names() == Seq::<Seq<char>>::empty(),
            r.known().list_types() == Seq::<Type>::empty(),
            r.known().spec_nil_not_equal_is_false() == nil_not_equal_is_false,
    {
        SchemeStore::from_data(StoreData::new(nil_not_equal_is_false))
    }

    /// Returns the number of fields: at least those the store is known to
    /// hold.
    pub fn field_count(&self) -> (r: usize)
        ensures
            r >= self.known().field_names().len(),
    {
        proof {
            use_type_invariant(self);
        }
        let handle = self.inner.acquire_read();
        let data = handle.borrow();
        proof {
            data.lemma_extends_known(&self.known());
        }
        let r = data.field_count();
        handle.release_read();
        r
    }

    /// Returns the number of functions: at least those the store is known
    /// to hold.
    pub fn function_count(&self) -> (r: usize)
        ensures
            r >= self.known().function_names().len(),
    {
        proof {
            use_type_invariant(self);
        }
        let handle = self.inner.acquire_read();
        let data = handle.borrow();
        proof {
            data.lemma_extends_known(&self.known());
        }
        let r = data.function_count();
        handle.release_read();
        r
    }

    /// Returns the number of lists: at least those the store is known to
    /// hold.
    pub fn list_count(&self) -> (r: usize)
        ensures
            r >= self.known().list_types().len(),
    {
        proof {
            use_type_invariant(self);
        }
        let handle = self.inner.acquire_read();
        let data = handle.borrow();
        proof {
            data.lemma_extends_known(&self.known());
        }
        let r = data.list_count();
        handle.release_read();
        r
    }

    /// Returns a copy of the field definition at the given index, if there
    /// is one.
    pub fn get(&self, index: usize) -> (r: Option<FieldDefinition>)
        ensures
            index < self.known().field_names().len() ==> (r matches Some(d) && d.same_as(
                self.known().field_at(index as int),
            )),
    {
        proof {
            use_type_invariant(self);
        }
        let handle = self.inner.acquire_read();
        let data = handle.borrow();
        proof {
            data.lemma_extends_known(&self.known());
        }
        let r = match data.get(index) {
            Some(d) => Some(d.duplicate()),
            None => None,
        };
        handle.release_read();
        r
    }

    /// Returns a copy of the field definition at the given index, which
    /// the store is known to hold.
    pub fn index(&self, index: usize) -> (r: FieldDefinition)
        requires
            index < self.known().field_names().len(),
        ensures
            r.same_as(self.known().field_at(index as int)),
    {
        proof {
            use_type_invariant(self);
        }
        let handle = self.inner.acquire_read();
        let data = handle.borrow();
        proof {
            data.lemma_extends_known(&self.known());
        }
        let r = data.index(index).duplicate();
        handle.release_read();
        r
    }

    /// Returns the index of the field with the given name, if there is one.
    pub fn get_field_index(&self, name: &str) -> (r: Option<usize>)
        ensures
            self.known().field_names().contains(name@) ==> (r matches Some(i) && i
                == self.known().field_names().index_of(name@)),
            r matches Some(i) ==> (i < self.known().field_names().len() ==> self.known().field_names()[i as int]
                == name@),
    {
        proof {
            use_type_invariant(self);
        }
        let handle = self.inner.acquire_read();
        let data = handle.borrow();
        proof {
            data.lemma_extends_known(&self.known());
            self.known().field_names().index_of_first_ensures(name@);
        }
        let r = data.get_field_index(name);
        handle.release_read();
        r
    }

    /// Whether `nil != value` evaluates to true.
    pub(crate) fn nil_not_equal_behavior(&self) -> (r: bool)
        ensures
            r == !self.known().spec_nil_not_equal_is_false(),
    {
        proof {
            use_type_invariant(self);
        }
        !self.nil_not_equal_is_false
    }

    /// Whether `d` may be the contents of the store at some time: well
    /// formed, holding the definitions that the store was made with at the
    /// same indices, and with its `nil` comparison setting. The store's lock
    /// lets its contents be nothing else.
    pub open spec fn admits(&self, d: StoreData) -> bool {
        &&& d.wf()
        &&& d.extends(&self.known())
        &&& d.spec_nil_not_equal_is_false() == self.known().spec_nil_not_equal_is_false()
    }

    /// Whether contents that the store admits hold, at index `k`, a field
    /// named `name` of type `ty`.
    pub open spec fn holds_field(&self, k: int, name: Seq<char>, ty: Type) -> bool {
        exists|d: StoreData|
            #[trigger] self.admits(d) && 0 <= k < d.field_names().len() && d.field_names()[k] == name
                && d.field_at(k).spec_ty() == ty
    }

    /// Whether contents that the store admits hold, at index `k`, a field
    /// named `name` of type `ty` and of the given optionality.
    pub open spec fn holds_field_as(&self, k: int, name: Seq<char>, ty: Type, optional: bool) -> bool {
        exists|d: StoreData|
            #[trigger] self.admits(d) && 0 <= k < d.field_names().len() && d.field_names()[k] == name
                && d.field_at(k).spec_ty() == ty && d.field_at(k).spec_optional() == optional
    }

    /// Whether contents that the store admits hold, at index `k`, a
    /// function named `name`.
    pub open spec fn holds_function(&self, k: int, name: Seq<char>) -> bool {
        exists|d: StoreData|
            #[trigger] self.admits(d) && 0 <= k < d.function_names().len() && d.function_names()[k] == name
    }

    /// Whether contents that the store admits hold, at index `k`, the list
    /// for type `ty`.
    pub open spec fn holds_list(&self, k: int, ty: Type) -> bool {
        exists|d: StoreData| #[trigger] self.admits(d) && 0 <= k < d.list_types().len() && d.list_types()[k] == ty
    }

    /// Below the definitions that the store was made with, a field that
    /// admitted contents hold is the known one.
    pub proof fn lemma_holds_field_known(&self, k: int, name: Seq<char>, ty: Type)
        requires
            self.holds_field(k, name, ty),
            k < self.known().field_names().len(),
        ensures
            self.known().field_names()[k] == name,
            self.known().field_at(k).spec_ty() == ty,
    {
        let d = choose|d: StoreData|
            #[trigger] self.admits(d) && 0 <= k < d.field_names().len() && d.field_names()[k] == name
                && d.field_at(k).spec_ty() == ty;
        d.lemma_extends_known(&self.known());
        assert(d.fields@[k] == self.known().fields@[k]);
    }

    /// Below the definitions that the store was made with, a function that
    /// admitted contents hold is the known one.
    pub proof fn lemma_holds_function_known(&self, k: int, name: Seq<char>)
        requires
            self.holds_function(k, name),
            k < self.known().function_names().len(),
        ensures
            self.known().function_names()[k] == name,
    {
        let d = choose|d: StoreData|
            #[trigger] self.admits(d) && 0 <= k < d.function_names().len() && d.function_names()[k] == name;
        d.lemma_extends_known(&self.known());
        assert(d.functions@[k] == self.known().functions@[k]);
    }

    /// Below the definitions that the store was made with, a list that
    /// admitted contents hold is the known one.
    pub proof fn lemma_holds_list_known(&self, k: int, ty: Type)
        requires
            self.holds_list(k, ty),
            k < self.known().list_types().len(),
        ensures
            self.known().list_types()[k] == ty,
    {
        let d = choose|d: StoreData| #[trigger] self.admits(d) && 0 <= k < d.list_types().len() && d.list_types()[k] == ty;
        d.lemma_extends_known(&self.known());
        assert(d.lists@[k] == self.known().lists@[k]);
    }

    /// Hands out the next scheme identifier: one at least as large as the
    /// store's counter was when the store was made.
    pub(crate) fn allocate_scheme_id(&self) -> (r: u64)
        ensures
            r >= self.known().spec_next_scheme_id(),
    {
        proof {
            use_type_invariant(self);
        }
        let (mut data, handle) = self.inner.acquire_write();
        let ghost before = data;
        let id = data.allocate_scheme_id();
        proof {
            assert(data.field_names() == before.field_names());
            assert(data.function_names() == before.function_names());
            assert(data.list_types() == before.list_types());
            assert(data.extends(&before)) by {
                before.lemma_extends_refl();
            }
            data.lemma_extends_trans(&before, &self.known());
        }
        handle.release_write(data);
        id
    }

    /// Returns the index of the field named `name` if the store holds it
    /// with type `ty`, and defines it otherwise; a field of that name with
    /// another type is a mismatch.
    ///
    /// The name is looked up under the read lock, and defined under the
    /// write lock; if another builder defined it in between, that is a
    /// redefinition. Of a field that the store is known to hold, the
    /// outcome is fixed; of any other, what is stated holds whatever
    /// builders added.
    ///
    /// Also tells whether this call defined the field (in ghost code):
    /// then the store holds it with the requested optionality.
    pub(crate) fn define_field(
        &self,
        name: String,
        ty: Type,
        optional: bool,
        scheme_id: u64,
    ) -> (res: (Result<usize, IdentifierRedefinitionError>, Ghost<bool>))
        ensures
            self.known().field_names().contains(name@) ==> {
                let i = self.known().field_names().index_of(name@);
                if self.known().field_at(i).spec_ty() == ty {
                    res.0 matches Ok(k) && k == i
                } else {
                    &&& res.0 matches Err(IdentifierRedefinitionError::FieldTypeMismatch(e))
                    &&& e.spec_name() == name@
                    &&& e.spec_expected() == self.known().field_at(i).spec_ty()
                    &&& e.spec_got() == ty
                }
            },
            res.0 matches Ok(k) ==> self.holds_field(k as int, name@, ty),
            res.0 matches Err(err) ==> match err {
                IdentifierRedefinitionError::FieldTypeMismatch(e) => {
                    &&& e.spec_name() == name@
                    &&& e.spec_got() == ty
                    &&& e.spec_expected() != ty
                    &&& exists|i: int| self.holds_field(i, name@, e.spec_expected())
                },
                IdentifierRedefinitionError::Field(e) => e.spec_name() == name@
                    && !self.known().field_names().contains(name@),
                IdentifierRedefinitionError::Function(_) => false,
            },
            res.1@ ==> (res.0 matches Ok(k) && self.holds_field_as(k as int, name@, ty, optional)),
            res.1@ ==> !self.known().field_names().contains(name@),
    {
        proof {
            use_type_invariant(self);
        }
        let handle = self.inner.acquire_read();
        let data = handle.borrow();
        let ghost d = *data;
        proof {
            data.lemma_extends_known(&self.known());
        }
        let existing: Option<(usize, Type)> = match data.find_field(&name) {
            Some(i) => Some((i, data.fields[i].ty.duplicate())),
            None => None,
        };
        handle.release_read();
        match existing {
            Some((index, existing_ty)) => {
                proof {
                    assert(self.admits(d));
                    assert(d.field_at(index as int) == d.fields@[index as int]);
                    assert(self.holds_field(index as int, name@, existing_ty));
                    d.lemma_index_of_field(index as int);
                    if self.known().field_names().contains(name@) {
                        let i = self.known().field_names().index_of(name@);
                        self.known().field_names().index_of_first_ensures(name@);
                        assert(d.fields@[i] == self.known().fields@[i]);
                    }
                }
                if existing_ty.same_as(&ty) {
                    (Ok(index), Ghost(false))
                } else {
                    (
                        Err(
                            IdentifierRedefinitionError::FieldTypeMismatch(
                                FieldTypeMismatchError { name, expected: existing_ty, got: ty },
                            ),
                        ),
                        Ghost(false),
                    )
                }
            },
            None => {
                proof {
                    if self.known().field_names().contains(name@) {
                        let i = self.known().field_names().index_of(name@);
                        self.known().field_names().index_of_first_ensures(name@);
                        assert(d.field_names()[i] == name@);
                    }
                }
                let (mut data, handle) = self.inner.acquire_write();
                let ghost before = data;
                proof {
                    data.lemma_extends_known(&self.known());
                    before.lemma_extends_refl();
                }
                let ghost n = name@;
                let r = data.add_field_internal(name, ty, optional, scheme_id);
                proof {
                    if data != before {
                        assert(data.extends(&before)) by {
                            assert(data.fields@.subrange(0, before.fields@.len() as int) == before.fields@);
                            assert(data.functions@.subrange(0, before.functions@.len() as int) =~= before.functions@);
                            assert(data.lists@.subrange(0, before.lists@.len() as int) =~= before.lists@);
                        }
                    }
                    data.lemma_extends_trans(&before, &self.known());
                    if r is Ok {
                        let k = before.field_names().len() as int;
                        assert(data.field_names()[k] == data.fields@[k].name@);
                        assert(data.field_at(k) == data.fields@[k]);
                        assert(self.admits(data));
                        assert(self.holds_field(k, n, ty));
                        assert(data.fields@[k].optional == optional);
                        assert(self.holds_field_as(k, n, ty, optional));
                    }
                }
                handle.release_write(data);
                let added = Ghost(r is Ok);
                (r, added)
            },
        }
    }

    /// Returns the index of the field named `name` if the store holds it
    /// with type `ty`, and defines it otherwise; a field of that name with
    /// another type is a mismatch.
    ///
    /// The name is looked up under the read lock, and defined under the
    /// write lock; if another builder defined it in between, that is a
    /// redefinition. Of a field that the store is known to hold, the
    /// outcome is fixed; of any other, what is stated holds whatever
    /// builders added.
    pub(crate) fn get_or_add_field(
        &self,
        name: String,
        ty: Type,
        optional: bool,
        scheme_id: u64,
    ) -> (r: Result<usize, IdentifierRedefinitionError>)
        ensures
            self.known().field_names().contains(name@) ==> {
                let i = self.known().field_names().index_of(name@);
                if self.known().field_at(i).spec_ty() == ty {
                    r matches Ok(k) && k == i
                } else {
                    &&& r matches Err(IdentifierRedefinitionError::FieldTypeMismatch(e))
                    &&& e.spec_name() == name@
                    &&& e.spec_expected() == self.known().field_at(i).spec_ty()
                    &&& e.spec_got() == ty
                }
            },
            r matches Ok(k) ==> self.holds_field(k as int, name@, ty),
            r matches Err(err) ==> match err {
                IdentifierRedefinitionError::FieldTypeMismatch(e) => {
                    &&& e.spec_name() == name@
                    &&& e.spec_got() == ty
                    &&& e.spec_expected() != ty
                    &&& exists|i: int| self.holds_field(i, name@, e.spec_expected())
                },
                IdentifierRedefinitionError::Field(e) => e.spec_name() == name@
                    && !self.known().field_names().contains(name@),
                IdentifierRedefinitionError::Function(_) => false,
            },
    {
        self.define_field(name, ty, optional, scheme_id).0
    }

    /// Returns the index of the function named `name`, defining it with
    /// `function` if the store holds none of that name yet.
    ///
    /// The name is looked up under the read lock, and defined under the
    /// write lock; if another builder defined it in between, that is a
    /// redefinition.
    pub(crate) fn get_or_add_function(
        &self,
        name: String,
        function: Arc<Box<dyn FunctionDefinition>>,
    ) -> (r: Result<usize, IdentifierRedefinitionError>)
        ensures
            self.known().function_names().contains(name@) ==> (r matches Ok(k) && k
                == self.known().function_names().index_of(name@)),
            r matches Ok(k) ==> self.holds_function(k as int, name@),
            r matches Err(err) ==> {
                &&& !self.known().function_names().contains(name@)
                &&& err matches IdentifierRedefinitionError::Function(e)
                &&& e.spec_name() == name@
            },
    {
        proof {
            use_type_invariant(self);
        }
        let handle = self.inner.acquire_read();
        let data = handle.borrow();
        let ghost d = *data;
        proof {
            data.lemma_extends_known(&self.known());
        }
        let found = data.find_function(&name);
        handle.release_read();
        if let Some(index) = found {
            proof {
                assert(self.admits(d));
                assert(self.holds_function(index as int, name@));
                if self.known().function_names().contains(name@) {
                    lemma_distinct_index_of(d.function_names(), index as int);
                }
            }
            return Ok(index);
        }
        proof {
            if self.known().function_names().contains(name@) {
                let i = self.known().function_names().index_of(name@);
                self.known().function_names().index_of_first_ensures(name@);
                assert(d.function_names()[i] == name@);
            }
        }
        let (mut data, handle) = self.inner.acquire_write();
        let ghost before = data;
        proof {
            data.lemma_extends_known(&self.known());
            before.lemma_extends_refl();
        }
        let ghost n = name@;
        let r = match data.find_function(&name) {
            Some(_) => Err(IdentifierRedefinitionError::Function(FunctionRedefinitionError(name))),
            None => data.get_or_add_function(name, function),
        };
        proof {
            if data != before {
                assert(data.extends(&before)) by {
                    assert(data.fields@.subrange(0, before.fields@.len() as int) =~= before.fields@);
                    assert(data.lists@.subrange(0, before.lists@.len() as int) =~= before.lists@);
                }
            }
            data.lemma_extends_trans(&before, &self.known());
            if r is Ok {
                let k = before.function_names().len() as int;
                assert(data.function_names()[k] == data.spec_functions()[k].0@);
                assert(self.admits(data));
                assert(self.holds_function(k, n));
            }
        }
        handle.release_write(data);
        r
    }

    /// Returns the index of the list for type `ty`, defining it with
    /// `definition` if the store holds none for that type yet.
    ///
    /// The type is looked up under the read lock, and the list defined
    /// under the write lock; if another builder defined one in between,
    /// that is a redefinition.
    pub(crate) fn get_or_add_list(
        &self,
        ty: Type,
        definition: Arc<Box<dyn ListDefinition>>,
    ) -> (r: Result<usize, ListRedefinitionError>)
        ensures
            self.known().list_types().contains(ty) ==> (r matches Ok(k) && k == self.known().list_types().index_of(ty)),
            r matches Ok(k) ==> self.holds_list(k as int, ty),
            r matches Err(e) ==> !self.known().list_types().contains(ty) && e.spec_ty() == ty,
    {
        proof {
            use_type_invariant(self);
        }
        let handle = self.inner.acquire_read();
        let data = handle.borrow();
        let ghost d = *data;
        proof {
            data.lemma_extends_known(&self.known());
        }
        let found = data.list_at_index(&ty);
        handle.release_read();
        if let Some(index) = found {
            proof {
                assert(self.admits(d));
                assert(self.holds_list(index as int, ty));
                if self.known().list_types().contains(ty) {
                    lemma_distinct_index_of(d.list_types(), index as int);
                }
            }
            return Ok(index);
        }
        proof {
            if self.known().list_types().contains(ty) {
                let i = self.known().list_types().index_of(ty);
                self.known().list_types().index_of_first_ensures(ty);
                assert(d.list_types()[i] == ty);
            }
        }
        let (mut data, handle) = self.inner.acquire_write();
        let ghost before = data;
        proof {
            data.lemma_extends_known(&self.known());
            before.lemma_extends_refl();
        }
        let ghost t = ty;
        let r = match data.list_at_index(&ty) {
            Some(_) => Err(ListRedefinitionError(ty)),
            None => data.get_or_add_list(ty, definition),
        };
        proof {
            if data != before {
                assert(data.extends(&before)) by {
                    assert(data.fields@.subrange(0, before.fields@.len() as int) =~= before.fields@);
                    assert(data.functions@.subrange(0, before.functions@.len() as int) =~= before.functions@);
                }
            }
            data.lemma_extends_trans(&before, &self.known());
            if r is Ok {
                let k = before.list_types().len() as int;
                assert(data.list_types()[k] == data.spec_lists()[k].0);
                assert(self.admits(data));
                assert(self.holds_list(k, t));
            }
        }
        handle.release_write(data);
        r
    }

    /// A copy of the field definition at `index`, if there is one.
    pub(crate) fn field_at(&self, index: usize) -> (r: Option<FieldDefinition>)
        ensures
            index < self.known().field_names().len() ==> (r matches Some(d) && d.same_as(
                self.known().field_at(index as int),
            )),
    {
        self.get(index)
    }

    /// The name and the definition of the function at `index`, if there is
    /// one.
    pub(crate) fn function_at(&self, index: usize) -> (r: Option<(String, Arc<Box<dyn FunctionDefinition>>)>)
        ensures
            index < self.known().spec_functions().len() ==> (r matches Some(e) && e.0@
                == self.known().function_names()[index as int] && e.1 == self.known().spec_functions()[index as int].1),
    {
        proof {
            use_type_invariant(self);
        }
        let handle = self.inner.acquire_read();
        let data = handle.borrow();
        proof {
            data.lemma_extends_known(&self.known());
        }
        let r = if index < data.functions.len() {
            let entry = &data.functions[index];
            Some((entry.0.clone(), entry.1.clone()))
        } else {
            None
        };
        handle.release_read();
        r
    }

    /// The type and the definition of the list at `index`, if there is one.
    pub(crate) fn list_at(&self, index: usize) -> (r: Option<(Type, Arc<Box<dyn ListDefinition>>)>)
        ensures
            index < self.known().spec_lists().len() ==> (r matches Some(e) && e.0
                == self.known().list_types()[index as int] && e.1 == self.known().spec_lists()[index as int].1),
    {
        proof {
            use_type_invariant(self);
        }
        let handle = self.inner.acquire_read();
        let data = handle.borrow();
        proof {
            data.lemma_extends_known(&self.known());
        }
        let r = if index < data.lists.len() {
            let entry = &data.lists[index];
            Some((entry.0.duplicate(), entry.1.clone()))
        } else {
            None
        };
        handle.release_read();
        r
    }

    /// The index of the list for type `ty`, if there is one.
    pub(crate) fn list_at_index(&self, ty: &Type) -> (r: Option<usize>)
        ensures
            self.known().list_types().contains(*ty) ==> (r matches Some(i) && i == self.known().list_types().index_of(*ty)),
            r matches Some(i) ==> (i < self.known().list_types().len() ==> self.known().list_types()[i as int]
                == *ty),
    {
        proof {
            use_type_invariant(self);
        }
        let handle = self.inner.acquire_read();
        let data = handle.borrow();
        proof {
            data.lemma_extends_known(&self.known());
            self.known().list_types().index_of_first_ensures(*ty);
        }
        let r = data.list_at_index(ty);
        handle.release_read();
        r
    }
}

/// A builder for a [`Scheme`].
pub struct SchemeBuilder {
    shared_scheme_store: Option<Arc<SchemeStore>>,
    scheme_id: Option<u64>,
    fields: Vec<FieldDefinition>,
    functions: Vec<(String, Arc<Box<dyn FunctionDefinition>>)>,
    items: Vec<(String, SchemeItem)>,
    list_types: Vec<(Type, usize)>,
    lists: Vec<(Type, Arc<Box<dyn ListDefinition>>)>,
    nil_not_equal_is_false: bool,
    /// The names of the fields that this builder itself defined in its
    /// shared store, rather than found there.
    defined: Ghost<Set<Seq<char>>>,
}

/// The names of a sequence of named items.
pub open spec fn names_of(items: Seq<(String, SchemeItem)>) -> Seq<Seq<char>> {
    items.map_values(|p: (String, SchemeItem)| p.0@)
}

/// What `name` stands for among `items`, if anything.
pub open spec fn lookup_in(items: Seq<(String, SchemeItem)>, name: Seq<char>) -> Option<SchemeItem> {
    if names_of(items).contains(name) {
        Some(items[names_of(items).index_of(name)].1)
    } else {
        None
    }
}

/// The field indices of `items`, in order.
pub open spec fn field_indices(items: Seq<(String, SchemeItem)>) -> Seq<usize>
    decreases items.len(),
{
    if items.len() == 0 {
        Seq::empty()
    } else {
        let rest = field_indices(items.drop_last());
        match items.last().1 {
            SchemeItem::Field(i) => rest.push(i),
            SchemeItem::Function(_) => rest,
        }
    }
}

/// The function indices of `items`, in order.
pub open spec fn function_indices(items: Seq<(String, SchemeItem)>) -> Seq<usize>
    decreases items.len(),
{
    if items.len() == 0 {
        Seq::empty()
    } else {
        let rest = function_indices(items.drop_last());
        match items.last().1 {
            SchemeItem::Function(i) => rest.push(i),
            SchemeItem::Field(_) => rest,
        }
    }
}

/// Whether each named item refers, by a valid index, to a definition of the
/// same name.
pub open spec fn items_resolve(
    items: Seq<(String, SchemeItem)>,
    field_names: Seq<Seq<char>>,
    function_names: Seq<Seq<char>>,
) -> bool {
    forall|i: int|
        0 <= i < items.len() ==> match #[trigger] items[i].1 {
            SchemeItem::Field(k) => k < field_names.len() && field_names[k as int] == items[i].0@,
            SchemeItem::Function(k) => k < function_names.len() && function_names[k as int]
                == items[i].0@,
        }
}

/// Whether each named item that refers to a definition among the given
/// names refers to one of the same name.
pub open spec fn items_resolve_known(
    items: Seq<(String, SchemeItem)>,
    field_names: Seq<Seq<char>>,
    function_names: Seq<Seq<char>>,
) -> bool {
    forall|i: int|
        0 <= i < items.len() ==> match #[trigger] items[i].1 {
            SchemeItem::Field(k) => k < field_names.len() ==> field_names[k as int] == items[i].0@,
            SchemeItem::Function(k) => k < function_names.len() ==> function_names[k as int] == items[i].0@,
        }
}

/// With distinct names, the item found for a name is the one that bears it.
pub proof fn lemma_lookup_at(items: Seq<(String, SchemeItem)>, i: int)
    requires
        all_distinct(names_of(items)),
        0 <= i < items.len(),
    ensures
        lookup_in(items, items[i].0@) == Some(items[i].1),
{
    assert(names_of(items)[i] == items[i].0@);
    lemma_distinct_index_of(names_of(items), i);
}

/// Pushing an item with a fresh name finds it under that name and leaves
/// every other name as it was.
pub proof fn lemma_lookup_push(items: Seq<(String, SchemeItem)>, entry: (String, SchemeItem))
    requires
        all_distinct(names_of(items)),
        !names_of(items).contains(entry.0@),
    ensures
        all_distinct(names_of(items.push(entry))),
        lookup_in(items.push(entry), entry.0@) == Some(entry.1),
        forall|n: Seq<char>| n != entry.0@ ==> lookup_in(items.push(entry), n) == lookup_in(items, n),
{
    let new_items = items.push(entry);
    assert(names_of(new_items) =~= names_of(items).push(entry.0@));
    lemma_distinct_push(names_of(items), entry.0@);
    lemma_lookup_at(new_items, items.len() as int);
    assert forall|n: Seq<char>| n != entry.0@ implies lookup_in(new_items, n) == lookup_in(items, n) by {
        if names_of(items).contains(n) {
            let j = names_of(items).index_of(n);
            assert(names_of(new_items)[j] == n);
            lemma_lookup_at(items, j);
            lemma_lookup_at(new_items, j);
            assert(new_items[j] == items[j]);
        } else {
            assert forall|j: int| 0 <= j < names_of(new_items).len() implies names_of(new_items)[j] != n by {
                if j < items.len() {
                    assert(names_of(new_items)[j] == names_of(items)[j]);
                }
            }
        }
    }
}

impl SchemeBuilder {
    /// The registered names, in registration order.
    pub closed spec fn item_names(&self) -> Seq<Seq<char>> {
        names_of(self.items@)
    }

    /// The registered items, in registration order.
    pub closed spec fn spec_items(&self) -> Seq<(String, SchemeItem)> {
        self.items@
    }

    /// What `name` stands for in this builder, if anything.
    pub closed spec fn lookup(&self, name: Seq<char>) -> Option<SchemeItem> {
        lookup_in(self.items@, name)
    }

    /// Whether the builder adds to a store that it was created with.
    pub closed spec fn is_shared(&self) -> bool {
        self.shared_scheme_store is Some
    }

    /// What a name stands for is found among the registered items, and a
    /// builder is shared exactly when it has a store.
    pub proof fn lemma_lookup_and_store(&self)
        ensures
            forall|n: Seq<char>| #[trigger] self.lookup(n) == lookup_in(self.spec_items(), n),
            self.is_shared() <==> self.spec_shared_store() is Some,
    {
    }

    /// Whether this builder itself defined the field `name` in its shared
    /// store, rather than finding it there.
    pub closed spec fn defined_by_self(&self, name: Seq<char>) -> bool {
        self.defined@.contains(name)
    }

    /// The field definitions that field items refer to.
    pub closed spec fn field_defs(&self) -> Seq<FieldDefinition> {
        match self.shared_scheme_store {
            Some(s) => s.known().spec_fields(),
            None => self.fields@,
        }
    }

    /// The names of the field definitions.
    pub closed spec fn field_names(&self) -> Seq<Seq<char>> {
        self.field_defs().map_values(|f: FieldDefinition| f.spec_name())
    }

    /// The names of the function definitions that function items refer to.
    pub closed spec fn function_names(&self) -> Seq<Seq<char>> {
        match self.shared_scheme_store {
            Some(s) => s.known().function_names(),
            None => self.functions@.map_values(
                |f: (String, Arc<Box<dyn FunctionDefinition>>)| f.0@,
            ),
        }
    }

    /// The types for which this builder registered a list, in order.
    pub closed spec fn registered_list_types(&self) -> Seq<Type> {
        self.list_types@.map_values(|p: (Type, usize)| p.0)
    }

    /// The index, among the lists of the store, of the list registered for
    /// the `i`-th registered type.
    pub closed spec fn registered_list_index(&self, i: int) -> usize {
        self.list_types@[i].1
    }

    /// The types of the lists that the built scheme's store holds.
    pub closed spec fn store_list_types(&self) -> Seq<Type> {
        match self.shared_scheme_store {
            Some(s) => s.known().list_types(),
            None => self.lists@.map_values(|l: (Type, Arc<Box<dyn ListDefinition>>)| l.0),
        }
    }

    /// Whether `nil != value` will be false rather than true.
    pub closed spec fn spec_nil_not_equal_is_false(&self) -> bool {
        self.nil_not_equal_is_false
    }

    /// The store that the builder adds to, if it was created with one.
    pub closed spec fn spec_shared_store(&self) -> Option<Arc<SchemeStore>> {
        self.shared_scheme_store
    }

    /// Whether `name` stands for a field of that name with the given type
    /// and optionality.
    pub open spec fn registers_field(&self, name: Seq<char>, ty: Type, optional: bool) -> bool {
        &&& self.lookup(name) matches Some(SchemeItem::Field(k))
        &&& self.lookup(name)->Some_0->Field_0 < self.field_defs().len()
        &&& self.field_defs()[self.lookup(name)->Some_0->Field_0 as int].spec_name() == name
        &&& self.field_defs()[self.lookup(name)->Some_0->Field_0 as int].spec_ty() == ty
        &&& self.field_defs()[self.lookup(name)->Some_0->Field_0 as int].spec_optional() == optional
    }

    /// Whether some field named `name` has a type other than `ty`.
    pub open spec fn conflicting_field(&self, name: Seq<char>, ty: Type) -> bool {
        exists|i: int|
            0 <= i < self.field_defs().len() && #[trigger] self.field_defs()[i].spec_name() == name
                && self.field_defs()[i].spec_ty() != ty
    }

    /// Well-formedness: names are registered once, refer to definitions of
    /// the same name, and the definitions that the scheme will hold have
    /// distinct names.
    pub closed spec fn wf(&self) -> bool {
        &&& all_distinct(self.item_names())
        &&& all_distinct(self.registered_list_types())
        &&& (self.shared_scheme_store is Some <==> self.scheme_id is Some)
        &&& match self.shared_scheme_store {
            Some(s) => {
                &&& s.known().wf()
                &&& self.fields@.len() == 0
                &&& self.functions@.len() == 0
                &&& self.lists@.len() == 0
            },
            None => {
                &&& all_distinct(self.field_names())
                &&& all_distinct(self.function_names())
                &&& all_distinct(self.store_list_types())
                &&& forall|k: int|
                    0 <= k < self.fields@.len() ==> self.item_names().contains(
                        #[trigger] self.fields@[k].name@,
                    )
                &&& forall|k: int|
                    0 <= k < self.functions@.len() ==> self.item_names().contains(
                        #[trigger] self.functions@[k].0@,
                    )
                &&& forall|k: int|
                    0 <= k < self.lists@.len() ==> self.registered_list_types().contains(
                        #[trigger] self.lists@[k].0,
                    )
            },
        }
        &&& items_resolve_known(self.items@, self.field_names(), self.function_names())
        &&& !self.is_shared() ==> items_resolve(self.items@, self.field_names(), self.function_names())
        &&& forall|i: int|
            0 <= i < self.list_types@.len() ==> {
                &&& !self.is_shared() ==> (#[trigger] self.list_types@[i]).1 < self.store_list_types().len()
                &&& self.list_types@[i].1 < self.store_list_types().len() ==> self.store_list_types()[self.list_types@[
                    i
                ].1 as int] == self.list_types@[i].0
            }
    }

    /// Creates a new scheme builder.
    pub fn new() -> (r: SchemeBuilder)
        ensures
            r.wf(),
            !r.is_shared(),
            r.spec_items().len() == 0,
            r.field_defs().len() == 0,
            r.function_names().len() == 0,
            r.registered_list_types().len() == 0,
            r.store_list_types().len() == 0,
            !r.spec_nil_not_equal_is_false(),
            forall|n: Seq<char>| #[trigger] r.lookup(n) is None,
    {
        let r = SchemeBuilder {
            shared_scheme_store: None,
            scheme_id: None,
            fields: Vec::new(),
            functions: Vec::new(),
            items: Vec::new(),
            list_types: Vec::new(),
            lists: Vec::new(),
            nil_not_equal_is_false: false,
            defined: Ghost(Set::empty()),
        };
        assert(r.item_names() =~= Seq::<Seq<char>>::empty());
        assert(r.field_names() =~= Seq::<Seq<char>>::empty());
        assert(r.function_names() =~= Seq::<Seq<char>>::empty());
        assert(r.registered_list_types() =~= Seq::<Type>::empty());
        assert(r.store_list_types() =~= Seq::<Type>::empty());
        r
    }

    /// Creates a new scheme builder that shares the given store.
    ///
    /// The builder adds its definitions to that very store, where every
    /// other builder made on it sees them, and the scheme it builds holds
    /// it.
    pub fn new_with_scheme_store(scheme_store: Arc<SchemeStore>) -> (r: SchemeBuilder)
        ensures
            r.wf(),
            r.is_shared(),
            r.spec_shared_store() == Some(scheme_store),
            r.spec_items().len() == 0,
            forall|n: Seq<char>| #[trigger] r.lookup(n) is None,
            r.registered_list_types().len() == 0,
            r.spec_nil_not_equal_is_false() == scheme_store.known().spec_nil_not_equal_is_false(),
    {
        proof {
            use_type_invariant(&*scheme_store);
        }
        let scheme_id = scheme_store.allocate_scheme_id();
        let nil_not_equal_is_false = !scheme_store.nil_not_equal_behavior();
        let r = SchemeBuilder {
            shared_scheme_store: Some(scheme_store),
            scheme_id: Some(scheme_id),
            fields: Vec::new(),
            functions: Vec::new(),
            items: Vec::new(),
            list_types: Vec::new(),
            lists: Vec::new(),
            nil_not_equal_is_false,
            defined: Ghost(Set::empty()),
        };
        assert(r.item_names() =~= Seq::<Seq<char>>::empty());
        assert(r.registered_list_types() =~= Seq::<Type>::empty());
        r
    }

    /// The position of the item named `name`, if there is one.
    fn find_item(&self, name: &String) -> (r: Option<usize>)
        ensures
            match r {
                Some(i) => i < self.items@.len() && self.items@[i as int].0@ == name@,
                None => !self.item_names().contains(name@),
            },
    {
        let mut i: usize = 0;
        while i < self.items.len()
            invariant
                i <= self.items@.len(),
                forall|j: int| 0 <= j < i ==> self.items@[j].0@ != name@,
            decreases self.items@.len() - i,
        {
            if self.items[i].0 == *name {
                return Some(i);
            }
            i = i + 1;
        }
        proof {
            if self.item_names().contains(name@) {
                let k = choose|k: int| 0 <= k < self.item_names().len() && self.item_names()[k] == name@;
                assert(self.items@[k].0@ == name@);
            }
        }
        None
    }

    /// The error for registering `name` again, given what it stands for.
    fn redefinition_error(item: SchemeItem, name: String) -> (r: IdentifierRedefinitionError)
        ensures
            match item {
                SchemeItem::Field(_) => r matches IdentifierRedefinitionError::Field(e) && e.spec_name() == name@,
                SchemeItem::Function(_) => r matches IdentifierRedefinitionError::Function(e) && e.spec_name() == name@,
            },
    {
        match item {
            SchemeItem::Field(_) => IdentifierRedefinitionError::Field(FieldRedefinitionError(name)),
            SchemeItem::Function(_) => IdentifierRedefinitionError::Function(FunctionRedefinitionError(name)),
        }
    }

    /// Registers a field, optional or not, and its type.
    fn add_field_full(&mut self, name: String, ty: Type, optional: bool) -> (r: Result<(), IdentifierRedefinitionError>)
        requires
            old(self).wf(),
        ensures
            field_added(old(self), final(self), name@, ty, optional, r),
    {
        match self.find_item(&name) {
            Some(i) => {
                proof {
                    lemma_lookup_at(self.items@, i as int);
                }
                Err(Self::redefinition_error(self.items[i].1, name))
            },
            None => {
                let ghost old_self = *self;
                proof {
                    assert(lookup_in(self.items@, name@) is None);
                    self.lemma_field_name_registered(name@);
                }
                if self.shared_scheme_store.is_some() {
                    let scheme_id = match self.scheme_id {
                        Some(id) => id,
                        None => 0,
                    };
                    proof {
                        lemma_conflict_in_store(self.shared_scheme_store->0.known(), name@, ty);
                        assert(self.field_names() =~= self.shared_scheme_store->0.known().field_names());
                        assert(self.field_defs().subrange(0, self.field_defs().len() as int) =~= self.field_defs());
                    }
                    let (res, added) = match &self.shared_scheme_store {
                        Some(store) => store.define_field(name.clone(), ty, optional, scheme_id),
                        None => (Ok(0), Ghost(false)),
                    };
                    let index = match res {
                        Ok(k) => k,
                        Err(e) => {
                            assert(*self == old_self);
                            return Err(e);
                        },
                    };
                    let ghost n = name@;
                    let entry = (name, SchemeItem::Field(index));
                    let ghost e = entry;
                    self.items.push(entry);
                    proof {
                        let known = self.shared_scheme_store->0.known();
                        assert(self.field_defs() == known.spec_fields());
                        assert(self.field_names() =~= known.field_names());
                        assert(self.items@.last().1 == SchemeItem::Field(index));
                        if known.field_names().contains(n) {
                            assert(index as int == known.field_names().index_of(n));
                            assert(known.field_names()[index as int] == n);
                            assert(known.field_at(index as int).spec_ty() == ty);
                        } else if index < known.field_names().len() {
                            let st = self.shared_scheme_store->0;
                            st.lemma_holds_field_known(index as int, n, ty);
                            assert(known.field_names().contains(n));
                        }
                        lemma_lookup_push(old_self.items@, e);
                        assert(self.items@.drop_last() =~= old_self.items@);
                        self.lemma_after_shared_push(old_self, n);
                    }
                    self.defined = Ghost(if added@ { self.defined@.insert(n) } else { self.defined@.remove(n) });
                    return Ok(());
                }
                let index: usize;
                {
                    index = self.fields.len();
                    let ghost old_fields = self.fields@;
                    self.fields.push(FieldDefinition { name: name.clone(), ty, optional, scheme_id: 0 });
                    proof {
                        assert(self.field_defs()[index as int].spec_name() == name@);
                        assert(self.field_names() =~= old_self.field_names().push(name@));
                        lemma_distinct_push(old_self.field_names(), name@);
                        assert(self.fields@.subrange(0, old_fields.len() as int) =~= old_fields);
                    }
                }
                let ghost n = name@;
                let entry = (name, SchemeItem::Field(index));
                let ghost e = entry;
                self.items.push(entry);
                proof {
                    assert(index < self.field_defs().len());
                    assert(self.field_defs()[index as int].spec_name() == n);
                    lemma_lookup_push(old_self.items@, e);
                    self.lemma_after_field_push(old_self, n, index);
                }
                Ok(())
            },
        }
    }

    /// Registers a field and its corresponding type.
    pub fn add_field(&mut self, name: &str, ty: Type) -> (r: Result<(), IdentifierRedefinitionError>)
        requires
            old(self).wf(),
        ensures
            field_added(old(self), final(self), name@, ty, false, r),
    {
        self.add_field_full(name.to_owned(), ty, false)
    }

    /// Registers an optional field and its corresponding type.
    pub fn add_optional_field(&mut self, name: &str, ty: Type) -> (r: Result<(), IdentifierRedefinitionError>)
        requires
            old(self).wf(),
        ensures
            field_added(old(self), final(self), name@, ty, true, r),
    {
        self.add_field_full(name.to_owned(), ty, true)
    }

    /// Registers a function under `name`.
    pub fn add_function<F: FunctionDefinition + 'static>(&mut self, name: &str, function: F) -> (r: Result<(), IdentifierRedefinitionError>)
        requires
            old(self).wf(),
        ensures
            function_added(old(self), final(self), name@, r),
    {
        let name = name.to_owned();
        match self.find_item(&name) {
            Some(i) => {
                proof {
                    lemma_lookup_at(self.items@, i as int);
                }
                Err(Self::redefinition_error(self.items[i].1, name))
            },
            None => {
                let ghost old_self = *self;
                proof {
                    self.lemma_field_name_registered(name@);
                }
                let boxed: Box<dyn FunctionDefinition> = Box::new(function);
                let definition = Arc::new(boxed);
                if self.shared_scheme_store.is_some() {
                    let res = match &self.shared_scheme_store {
                        Some(store) => store.get_or_add_function(name.clone(), definition),
                        None => Ok(0),
                    };
                    let index = match res {
                        Ok(k) => k,
                        Err(e) => {
                            return Err(e);
                        },
                    };
                    let ghost n = name@;
                    let entry = (name, SchemeItem::Function(index));
                    let ghost e = entry;
                    self.items.push(entry);
                    proof {
                        let known = self.shared_scheme_store->0.known();
                        assert(self.function_names() == known.function_names());
                        assert(self.items@.last().1 == SchemeItem::Function(index));
                        if known.function_names().contains(n) {
                            assert(index as int == known.function_names().index_of(n));
                            assert(known.function_names()[index as int] == n);
                        } else if index < known.function_names().len() {
                            let st = self.shared_scheme_store->0;
                            st.lemma_holds_function_known(index as int, n);
                            assert(known.function_names().contains(n));
                        }
                        assert(self.function_names().subrange(0, self.function_names().len() as int)
                            =~= self.function_names());
                        lemma_lookup_push(old_self.items@, e);
                        assert(self.items@.drop_last() =~= old_self.items@);
                        self.lemma_after_shared_push(old_self, n);
                    }
                    return Ok(());
                }
                let index: usize;
                {
                    index = self.functions.len();
                    let ghost old_functions = self.functions@;
                    let pair = (name.clone(), definition);
                    self.functions.push(pair);
                    proof {
                        assert(self.function_names() =~= old_self.function_names().push(name@));
                        lemma_distinct_push(old_self.function_names(), name@);
                        assert(self.function_names().subrange(0, old_self.function_names().len() as int)
                            =~= old_self.function_names());
                        assert(self.functions@.subrange(0, old_functions.len() as int) =~= old_functions);
                    }
                }
                let ghost n = name@;
                let entry = (name, SchemeItem::Function(index));
                let ghost e = entry;
                self.items.push(entry);
                proof {
                    lemma_lookup_push(old_self.items@, e);
                    self.lemma_after_function_push(old_self, n, index);
                }
                Ok(())
            },
        }
    }

    /// Registers a new list for a given type.
    pub fn add_list<L: ListDefinition + 'static>(&mut self, ty: Type, definition: L) -> (r: Result<(), ListRedefinitionError>)
        requires
            old(self).wf(),
        ensures
            final(self).wf(),
            old(self).registered_list_types().contains(ty) ==> {
                &&& *final(self) == *old(self)
                &&& r matches Err(e)
                &&& e.spec_ty() == ty
            },
            !old(self).registered_list_types().contains(ty) ==> {
                &&& (!old(self).is_shared() || old(self).store_list_types().contains(ty)) ==> r is Ok
                &&& r matches Err(e) ==> {
                    &&& *final(self) == *old(self)
                    &&& old(self).is_shared()
                    &&& !old(self).store_list_types().contains(ty)
                    &&& e.spec_ty() == ty
                }
            },
            !old(self).registered_list_types().contains(ty) && r is Ok ==> {
                &&& final(self).spec_shared_store() == old(self).spec_shared_store()
                &&& final(self).registered_list_types() == old(self).registered_list_types().push(ty)
                &&& list_registered(old(self), final(self), ty)
                &&& final(self).spec_items() == old(self).spec_items()
                &&& final(self).field_defs() == old(self).field_defs()
                &&& final(self).function_names() == old(self).function_names()
                &&& old(self).store_list_types().len() <= final(self).store_list_types().len()
                &&& final(self).store_list_types().subrange(0, old(self).store_list_types().len() as int)
                    == old(self).store_list_types()
                &&& final(self).is_shared() == old(self).is_shared()
                &&& final(self).spec_nil_not_equal_is_false() == old(self).spec_nil_not_equal_is_false()
            },
    {
        let mut i: usize = 0;
        while i < self.list_types.len()
            invariant
                i <= self.list_types@.len(),
                forall|j: int| 0 <= j < i ==> self.list_types@[j].0 != ty,
                *self == *old(self),
                old(self).wf(),
            decreases self.list_types@.len() - i,
        {
            if self.list_types[i].0.same_as(&ty) {
                proof {
                    assert(self.registered_list_types()[i as int] == ty);
                }
                return Err(ListRedefinitionError(ty));
            }
            i = i + 1;
        }
        let ghost old_self = *self;
        proof {
            if self.registered_list_types().contains(ty) {
                let k = choose|k: int| 0 <= k < self.registered_list_types().len() && self.registered_list_types()[k] == ty;
                assert(self.list_types@[k].0 == ty);
            }
        }
        let boxed: Box<dyn ListDefinition> = Box::new(definition);
        let shared_definition = Arc::new(boxed);
        if self.shared_scheme_store.is_some() {
            let res = match &self.shared_scheme_store {
                Some(store) => store.get_or_add_list(ty.duplicate(), shared_definition),
                None => Ok(0),
            };
            let index = match res {
                Ok(k) => k,
                Err(e) => {
                    return Err(e);
                },
            };
            let ghost t = ty;
            self.list_types.push((ty, index));
            proof {
                let known = self.shared_scheme_store->0.known();
                assert(self.store_list_types() == known.list_types());
                if known.list_types().contains(t) {
                    assert(index as int == known.list_types().index_of(t));
                    assert(known.list_types()[index as int] == t);
                } else if index < known.list_types().len() {
                    let st = self.shared_scheme_store->0;
                    st.lemma_holds_list_known(index as int, t);
                    assert(known.list_types().contains(t));
                }
                assert(self.registered_list_types() =~= old_self.registered_list_types().push(t));
                lemma_distinct_push(old_self.registered_list_types(), t);
                assert(self.item_names() == old_self.item_names());
                assert forall|i: int| 0 <= i < self.list_types@.len() implies {
                    &&& !self.is_shared() ==> (#[trigger] self.list_types@[i]).1 < self.store_list_types().len()
                    &&& self.list_types@[i].1 < self.store_list_types().len() ==> self.store_list_types()[self.list_types@[
                        i
                    ].1 as int] == self.list_types@[i].0
                } by {
                    if i < old_self.list_types@.len() {
                        assert(self.list_types@[i] == old_self.list_types@[i]);
                    } else {
                        assert(self.list_types@[i] == (t, index));
                    }
                }
                assert(self.store_list_types().subrange(0, old_self.store_list_types().len() as int)
                    =~= old_self.store_list_types());
            }
            return Ok(());
        }
        let index: usize;
        {
            index = self.lists.len();
            proof {
                if self.store_list_types().contains(ty) {
                    let k = choose|k: int| 0 <= k < self.store_list_types().len() && self.store_list_types()[k] == ty;
                    assert(self.lists@[k].0 == ty);
                    assert(self.registered_list_types().contains(self.lists@[k].0));
                }
            }
            let pair = (ty.duplicate(), shared_definition);
            self.lists.push(pair);
            proof {
                assert(self.store_list_types() =~= old_self.store_list_types().push(ty));
                lemma_distinct_push(old_self.store_list_types(), ty);
                assert(self.store_list_types().subrange(0, old_self.store_list_types().len() as int)
                    =~= old_self.store_list_types());
                assert(self.lists@.subrange(0, old_self.lists@.len() as int) =~= old_self.lists@);
                assert(self.function_names() =~= old_self.function_names());
            }
        }
        let ghost t = ty;
        self.list_types.push((ty, index));
        proof {
            assert(self.registered_list_types() =~= old_self.registered_list_types().push(t));
            lemma_distinct_push(old_self.registered_list_types(), t);
            self.lemma_after_list_push(old_self, t, index);
        }
        Ok(())
    }

    /// Configures the behavior of not equal comparison against a nil value.
    ///
    /// Default behavior is to return `true` for `nil != <value>`.
    /// By calling this method with `false`, this behavior can be
    /// changed so that `nil != <value>` returns `false` instead.
    pub fn set_nil_not_equal_behavior(&mut self, behavior: bool)
        requires
            old(self).wf(),
        ensures
            final(self).wf(),
            final(self).spec_nil_not_equal_is_false() == !behavior,
            final(self).spec_items() == old(self).spec_items(),
            final(self).spec_shared_store() == old(self).spec_shared_store(),
            final(self).field_defs() == old(self).field_defs(),
            final(self).function_names() == old(self).function_names(),
            final(self).registered_list_types() == old(self).registered_list_types(),
            final(self).store_list_types() == old(self).store_list_types(),
    {
        self.nil_not_equal_is_false = !behavior;
        proof {
            assert(self.item_names() == old(self).item_names());
            assert(self.field_names() == old(self).field_names());
        }
    }

    /// After pushing a function item for a fresh name, the builder is still
    /// well-formed.
    proof fn lemma_after_function_push(&self, old: SchemeBuilder, name: Seq<char>, index: usize)
        requires
            old.wf(),
            !old.item_names().contains(name),
            self.items@ == old.items@.push((self.items@.last().0, SchemeItem::Function(index))),
            self.items@.last().0@ == name,
            self.list_types@ == old.list_types@,
            self.scheme_id == old.scheme_id,
            self.nil_not_equal_is_false == old.nil_not_equal_is_false,
            (self.shared_scheme_store is Some) == (old.shared_scheme_store is Some),
            self.fields@ == old.fields@,
            self.lists@ == old.lists@,
            self.field_defs() == old.field_defs(),
            self.store_list_types() == old.store_list_types(),
            old.function_names().len() <= self.function_names().len(),
            self.function_names().subrange(0, old.function_names().len() as int) == old.function_names(),
            index < self.function_names().len(),
            self.function_names()[index as int] == name,
            all_distinct(self.function_names()),
            all_distinct(self.item_names()),
            self.shared_scheme_store is None,
            self.shared_scheme_store is None ==> self.functions@.len() == old.functions@.len() + 1
                && self.functions@.last().0@ == name
                && self.functions@.subrange(0, old.functions@.len() as int) == old.functions@,
        ensures
            self.wf(),
    {
        assert(self.item_names() =~= old.item_names().push(name));
        assert(self.registered_list_types() == old.registered_list_types());
        assert(self.field_names() == old.field_names());
        let gnames = self.function_names();
        let old_gnames = old.function_names();
        assert forall|k: int| 0 <= k < old_gnames.len() implies gnames[k] == old_gnames[k] by {
            assert(gnames[k] == gnames.subrange(0, old_gnames.len() as int)[k]);
        }
        assert forall|i: int| 0 <= i < self.items@.len() implies match #[trigger] self.items@[i].1 {
            SchemeItem::Field(k) => k < self.field_names().len() && self.field_names()[k as int] == self.items@[i].0@,
            SchemeItem::Function(k) => k < gnames.len() && gnames[k as int] == self.items@[i].0@,
        } by {
            if i < old.items@.len() {
                assert(self.items@[i] == old.items@[i]);
                assert(old.items@[i].1 == old.items@[i].1);
            }
        }
        if self.shared_scheme_store is None {
            assert forall|k: int| 0 <= k < self.functions@.len() implies self.item_names().contains(
                #[trigger] self.functions@[k].0@,
            ) by {
                if k < old.functions@.len() {
                    assert(self.functions@[k] == old.functions@[k]);
                    assert(old.item_names().contains(old.functions@[k].0@));
                    let j = choose|j: int| 0 <= j < old.item_names().len() && old.item_names()[j] == old.functions@[k].0@;
                    assert(self.item_names()[j] == old.item_names()[j]);
                } else {
                    assert(self.item_names()[old.items@.len() as int] == name);
                }
            }
            assert forall|k: int| 0 <= k < self.fields@.len() implies self.item_names().contains(
                #[trigger] self.fields@[k].name@,
            ) by {
                assert(old.item_names().contains(old.fields@[k].name@));
                let j = choose|j: int| 0 <= j < old.item_names().len() && old.item_names()[j] == old.fields@[k].name@;
                assert(self.item_names()[j] == old.item_names()[j]);
            }
        }
    }

    /// After pushing an item for a fresh name onto a builder that shares a
    /// store, the builder is still well-formed, provided the item refers to
    /// a definition of that name wherever the store is known to hold one.
    proof fn lemma_after_shared_push(&self, old: SchemeBuilder, name: Seq<char>)
        requires
            old.wf(),
            old.is_shared(),
            !old.item_names().contains(name),
            self.items@.len() == old.items@.len() + 1,
            self.items@.drop_last() == old.items@,
            self.items@.last().0@ == name,
            match self.items@.last().1 {
                SchemeItem::Field(k) => k < self.field_names().len() ==> self.field_names()[k as int] == name,
                SchemeItem::Function(k) => k < self.function_names().len() ==> self.function_names()[k as int] == name,
            },
            self.list_types@ == old.list_types@,
            self.scheme_id == old.scheme_id,
            self.nil_not_equal_is_false == old.nil_not_equal_is_false,
            self.shared_scheme_store == old.shared_scheme_store,
            self.fields@ == old.fields@,
            self.functions@ == old.functions@,
            self.lists@ == old.lists@,
        ensures
            self.wf(),
            self.field_defs() == old.field_defs(),
            self.function_names() == old.function_names(),
            self.store_list_types() == old.store_list_types(),
            self.registered_list_types() == old.registered_list_types(),
    {
        assert(self.items@ =~= old.items@.push(self.items@.last()));
        assert(self.item_names() =~= old.item_names().push(name));
        lemma_distinct_push(old.item_names(), name);
        assert(self.registered_list_types() == old.registered_list_types());
        assert forall|i: int| 0 <= i < self.items@.len() implies match #[trigger] self.items@[i].1 {
            SchemeItem::Field(k) => k < self.field_names().len() ==> self.field_names()[k as int] == self.items@[i].0@,
            SchemeItem::Function(k) => k < self.function_names().len() ==> self.function_names()[k as int]
                == self.items@[i].0@,
        } by {
            if i < old.items@.len() {
                assert(self.items@[i] == old.items@[i]);
                assert(old.items@[i].1 == old.items@[i].1);
            }
        }
    }

    /// After registering a list for a fresh type, the builder is still
    /// well-formed.
    proof fn lemma_after_list_push(&self, old: SchemeBuilder, ty: Type, index: usize)
        requires
            old.wf(),
            !old.registered_list_types().contains(ty),
            self.list_types@ == old.list_types@.push((ty, index)),
            self.items@ == old.items@,
            self.scheme_id == old.scheme_id,
            (self.shared_scheme_store is Some) == (old.shared_scheme_store is Some),
            self.fields@ == old.fields@,
            self.functions@ == old.functions@,
            self.field_defs() == old.field_defs(),
            self.function_names() == old.function_names(),
            old.store_list_types().len() <= self.store_list_types().len(),
            self.store_list_types().subrange(0, old.store_list_types().len() as int) == old.store_list_types(),
            index < self.store_list_types().len(),
            self.store_list_types()[index as int] == ty,
            all_distinct(self.store_list_types()),
            all_distinct(self.registered_list_types()),
            self.shared_scheme_store is None,
            self.shared_scheme_store is None ==> self.lists@.len() == old.lists@.len() + 1
                && self.lists@.last().0 == ty
                && self.lists@.subrange(0, old.lists@.len() as int) == old.lists@,
        ensures
            self.wf(),
    {
        assert(self.item_names() == old.item_names());
        assert(self.field_names() == old.field_names());
        assert(self.registered_list_types() =~= old.registered_list_types().push(ty));
        let lt = self.store_list_types();
        let old_lt = old.store_list_types();
        assert forall|k: int| 0 <= k < old_lt.len() implies lt[k] == old_lt[k] by {
            assert(lt[k] == lt.subrange(0, old_lt.len() as int)[k]);
        }
        assert forall|i: int| 0 <= i < self.list_types@.len() implies {
            &&& (#[trigger] self.list_types@[i]).1 < lt.len()
            &&& lt[self.list_types@[i].1 as int] == self.list_types@[i].0
        } by {
            if i < old.list_types@.len() {
                assert(self.list_types@[i] == old.list_types@[i]);
            }
        }
        if self.shared_scheme_store is None {
            assert forall|k: int| 0 <= k < self.lists@.len() implies self.registered_list_types().contains(
                #[trigger] self.lists@[k].0,
            ) by {
                if k < old.lists@.len() {
                    assert(self.lists@[k] == old.lists@[k]);
                    assert(old.registered_list_types().contains(old.lists@[k].0));
                    let j = choose|j: int| 0 <= j < old.registered_list_types().len() && old.registered_list_types()[j] == old.lists@[k].0;
                    assert(self.registered_list_types()[j] == old.registered_list_types()[j]);
                } else {
                    assert(self.registered_list_types()[old.list_types@.len() as int] == ty);
                }
            }
        }
    }

    /// Builds a new [`Scheme`] from this builder.
    ///
    /// The scheme holds the builder's names and a store with the builder's
    /// definitions.
    pub fn build(self) -> (r: Scheme)
        requires
            self.wf(),
        ensures
            r.spec_items() == self.spec_items(),
            r.store().spec_fields() == self.field_defs(),
            r.store().function_names() == self.function_names(),
            r.store().list_types() == self.store_list_types(),
            r.store().spec_nil_not_equal_is_false() == match self.spec_shared_store() {
                Some(s) => s.known().spec_nil_not_equal_is_false(),
                None => self.spec_nil_not_equal_is_false(),
            },
            self.spec_shared_store() matches Some(s) ==> r.spec_scheme_store() == s,
    {
        let ghost old_self = self;
        let SchemeBuilder {
            shared_scheme_store,
            scheme_id: _,
            fields,
            functions,
            items,
            list_types: _,
            lists,
            nil_not_equal_is_false,
            defined: _,
        } = self;
        let scheme_store = match shared_scheme_store {
            Some(s) => s,
            None => {
                let data = StoreData { fields, functions, lists, next_scheme_id: 1, nil_not_equal_is_false };
                proof {
                    assert(data.field_names() =~= old_self.field_names());
                    assert(data.function_names() =~= old_self.function_names());
                    assert(data.list_types() =~= old_self.store_list_types());
                }
                Arc::new(SchemeStore::from_data(data))
            },
        };
        Scheme { scheme_store, items }
    }

    /// Creates a builder with the given fields registered in order, none of
    /// them optional.
    ///
    /// The names must be distinct.
    pub fn from_fields(fields: Vec<(&str, Type)>) -> (r: SchemeBuilder)
        requires
            all_distinct(fields@.map_values(|p: (&str, Type)| p.0@)),
        ensures
            r.wf(),
            !r.is_shared(),
            forall|j: int|
                0 <= j < fields@.len() ==> #[trigger] r.registers_field(fields@[j].0@, fields@[j].1, false),
            forall|n: Seq<char>|
                #[trigger] r.lookup(n) is Some ==> fields@.map_values(|p: (&str, Type)| p.0@).contains(n),
    {
        let ghost names = fields@.map_values(|p: (&str, Type)| p.0@);
        let mut builder = SchemeBuilder::new();
        let mut i: usize = 0;
        while i < fields.len()
            invariant
                i <= fields@.len(),
                names == fields@.map_values(|p: (&str, Type)| p.0@),
                all_distinct(names),
                builder.wf(),
                !builder.is_shared(),
                forall|j: int|
                    0 <= j < i ==> #[trigger] builder.registers_field(fields@[j].0@, fields@[j].1, false),
                forall|n: Seq<char>| #[trigger] builder.lookup(n) is Some ==> names.subrange(0, i as int).contains(n),
            decreases fields@.len() - i,
        {
            let name = fields[i].0;
            let ty = fields[i].1.duplicate();
            let ghost old_builder = builder;
            proof {
                assert(names[i as int] == name@);
                if builder.lookup(name@) is Some {
                    let j = choose|j: int| 0 <= j < i && names.subrange(0, i as int)[j] == name@;
                    assert(names[j] == names[i as int]);
                }
                if builder.item_names().contains(name@) {
                    let j = builder.item_names().index_of(name@);
                    assert(builder.item_names()[j] == name@);
                }
                builder.lemma_field_name_registered(name@);
                if builder.conflicting_field(name@, ty) {
                    let k = choose|k: int|
                        0 <= k < builder.field_defs().len() && #[trigger] builder.field_defs()[k].spec_name() == name@
                            && builder.field_defs()[k].spec_ty() != ty;
                    assert(builder.field_names()[k] == name@);
                }
            }
            let res = builder.add_field(name, ty);
            proof {
                assert(res is Ok);
                assert forall|j: int|
                    0 <= j < i + 1 implies #[trigger] builder.registers_field(fields@[j].0@, fields@[j].1, false) by {
                    if j < i {
                        assert(old_builder.registers_field(fields@[j].0@, fields@[j].1, false));
                        assert(names[j] != names[i as int]);
                        assert(fields@[j].0@ != name@);
                        assert(builder.lookup(fields@[j].0@) == old_builder.lookup(fields@[j].0@));
                        let k = old_builder.lookup(fields@[j].0@)->Some_0->Field_0;
                        assert(builder.field_defs()[k as int] == builder.field_defs().subrange(0, old_builder.field_defs().len() as int)[k as int]);
                    } else {
                        assert(!old_builder.field_names().contains(name@));
                        let k = builder.lookup(name@)->Some_0->Field_0;
                        if k < old_builder.field_defs().len() {
                            assert(builder.field_defs()[k as int] == old_builder.field_defs()[k as int]);
                            assert(old_builder.field_names()[k as int] == name@);
                        }
                    }
                }
                assert forall|n: Seq<char>| #[trigger] builder.lookup(n) is Some implies names.subrange(0, i + 1).contains(n) by {
                    if n == name@ {
                        assert(names.subrange(0, i + 1)[i as int] == n);
                    } else {
                        assert(builder.lookup(n) == old_builder.lookup(n));
                        let j = choose|j: int| 0 <= j < i && names.subrange(0, i as int)[j] == n;
                        assert(names.subrange(0, i + 1)[j] == n);
                    }
                }
            }
            i = i + 1;
        }
        proof {
            assert(names.subrange(0, fields@.len() as int) =~= names);
        }
        builder
    }

    /// A name that is not registered is not the name of a field definition
    /// of an unshared builder.
    proof fn lemma_field_name_registered(&self, name: Seq<char>)
        requires
            self.wf(),
            !self.item_names().contains(name),
        ensures
            !self.is_shared() ==> !self.field_names().contains(name),
            !self.is_shared() ==> !self.function_names().contains(name),
    {
        if !self.is_shared() {
            if self.field_names().contains(name) {
                let k = choose|k: int| 0 <= k < self.field_names().len() && self.field_names()[k] == name;
                assert(self.fields@[k].name@ == name);
                assert(self.item_names().contains(self.fields@[k].name@));
            }
            if self.function_names().contains(name) {
                let k = choose|k: int| 0 <= k < self.function_names().len() && self.function_names()[k] == name;
                assert(self.functions@[k].0@ == name);
                assert(self.item_names().contains(self.functions@[k].0@));
            }
        }
    }

    /// After pushing a field item for a fresh name, the builder is still
    /// well-formed.
    proof fn lemma_after_field_push(&self, old: SchemeBuilder, name: Seq<char>, index: usize)
        requires
            old.wf(),
            !old.item_names().contains(name),
            self.items@ == old.items@.push((self.items@.last().0, SchemeItem::Field(index))),
            self.items@.last().0@ == name,
            self.list_types@ == old.list_types@,
            self.scheme_id == old.scheme_id,
            self.nil_not_equal_is_false == old.nil_not_equal_is_false,
            (self.shared_scheme_store is Some) == (old.shared_scheme_store is Some),
            self.functions@ == old.functions@,
            self.lists@ == old.lists@,
            self.function_names() == old.function_names(),
            self.store_list_types() == old.store_list_types(),
            old.field_defs().len() <= self.field_defs().len(),
            self.field_defs().subrange(0, old.field_defs().len() as int) == old.field_defs(),
            index < self.field_defs().len(),
            self.field_defs()[index as int].spec_name() == name,
            all_distinct(self.field_names()),
            all_distinct(self.item_names()),
            self.shared_scheme_store is None,
            self.shared_scheme_store is None ==> self.fields@.len() == old.fields@.len() + 1 && self.fields@.last().name@ == name
                && self.fields@.subrange(0, old.fields@.len() as int) == old.fields@,
        ensures
            self.wf(),
    {
        assert(self.item_names() =~= old.item_names().push(name));
        assert(self.registered_list_types() == old.registered_list_types());
        let fnames = self.field_names();
        let old_fnames = old.field_names();
        assert forall|k: int| 0 <= k < old_fnames.len() implies fnames[k] == old_fnames[k] by {
            assert(self.field_defs()[k] == self.field_defs().subrange(0, old.field_defs().len() as int)[k]);
        }
        assert forall|i: int| 0 <= i < self.items@.len() implies match #[trigger] self.items@[i].1 {
            SchemeItem::Field(k) => k < fnames.len() && fnames[k as int] == self.items@[i].0@,
            SchemeItem::Function(k) => k < self.function_names().len() && self.function_names()[k as int]
                == self.items@[i].0@,
        } by {
            if i < old.items@.len() {
                assert(self.items@[i] == old.items@[i]);
                assert(old.items@[i].1 == old.items@[i].1);
            }
        }
        if self.shared_scheme_store is None {
            assert forall|k: int| 0 <= k < self.fields@.len() implies self.item_names().contains(
                #[trigger] self.fields@[k].name@,
            ) by {
                if k < old.fields@.len() {
                    assert(self.fields@[k] == old.fields@[k]);
                    assert(old.item_names().contains(old.fields@[k].name@));
                    let j = choose|j: int| 0 <= j < old.item_names().len() && old.item_names()[j] == old.fields@[k].name@;
                    assert(self.item_names()[j] == old.item_names()[j]);
                } else {
                    assert(self.item_names()[old.items@.len() as int] == name);
                }
            }
            assert forall|k: int| 0 <= k < self.functions@.len() implies self.item_names().contains(
                #[trigger] self.functions@[k].0@,
            ) by {
                assert(old.item_names().contains(old.functions@[k].0@));
                let j = choose|j: int| 0 <= j < old.item_names().len() && old.item_names()[j] == old.functions@[k].0@;
                assert(self.item_names()[j] == old.item_names()[j]);
            }
        }
    }
}

/// In a well-formed store, a field named `name` with a type other than
/// `ty` exists exactly when the field found under that name has another
/// type.
proof fn lemma_conflict_in_store(store: StoreData, name: Seq<char>, ty: Type)
    requires
        store.wf(),
    ensures
        (exists|i: int|
            0 <= i < store.spec_fields().len() && #[trigger] store.spec_fields()[i].spec_name() == name
                && store.spec_fields()[i].spec_ty() != ty) <==> (store.field_names().contains(name)
            && store.field_at(store.field_names().index_of(name)).spec_ty() != ty),
{
    if exists|i: int|
        0 <= i < store.spec_fields().len() && #[trigger] store.spec_fields()[i].spec_name() == name
            && store.spec_fields()[i].spec_ty() != ty {
        let i = choose|i: int|
            0 <= i < store.spec_fields().len() && #[trigger] store.spec_fields()[i].spec_name() == name
                && store.spec_fields()[i].spec_ty() != ty;
        assert(store.field_names()[i] == name);
        lemma_distinct_index_of(store.field_names(), i);
    }
    if store.field_names().contains(name) {
        let j = store.field_names().index_of(name);
        assert(store.spec_fields()[j].spec_name() == name);
    }
}

/// Whether the list that `new` registered last, for `ty`, is found at its
/// index among the store's lists wherever that index is known: always for
/// a builder without a shared store, and where the shared store was known
/// to hold a list for `ty`.
pub open spec fn list_registered(old: &SchemeBuilder, new: &SchemeBuilder, ty: Type) -> bool {
    let k = new.registered_list_index(old.registered_list_types().len() as int);
    &&& (!old.is_shared() || old.store_list_types().contains(ty)) ==> k < new.store_list_types().len()
    &&& k < new.store_list_types().len() ==> new.store_list_types()[k as int] == ty
    &&& old.spec_shared_store() matches Some(s) ==> s.holds_list(k as int, ty)
}

/// The outcome of registering a function named `name`: the error for a
/// name already taken; otherwise the name stands for a function of that
/// name, every other name is unchanged and every definition keeps its index.
pub open spec fn function_added(
    old: &SchemeBuilder,
    new: &SchemeBuilder,
    name: Seq<char>,
    r: Result<(), IdentifierRedefinitionError>,
) -> bool {
    &&& new.wf()
    &&& match old.lookup(name) {
        Some(SchemeItem::Field(_)) => {
            &&& *new == *old
            &&& r matches Err(IdentifierRedefinitionError::Field(e))
            &&& e.spec_name() == name
        },
        Some(SchemeItem::Function(_)) => {
            &&& *new == *old
            &&& r matches Err(IdentifierRedefinitionError::Function(e))
            &&& e.spec_name() == name
        },
        None => {
            &&& (!old.is_shared() || old.function_names().contains(name)) ==> r is Ok
            &&& r matches Err(err) ==> {
                &&& *new == *old
                &&& old.is_shared()
                &&& !old.function_names().contains(name)
                &&& err matches IdentifierRedefinitionError::Function(e)
                &&& e.spec_name() == name
            }
            &&& r is Ok ==> {
                &&& new.lookup(name) matches Some(SchemeItem::Function(k)) && {
                    &&& (!old.is_shared() || old.function_names().contains(name)) ==> k < new.function_names().len()
                    &&& k < new.function_names().len() ==> new.function_names()[k as int] == name
                }
                &&& old.spec_shared_store() matches Some(s) ==> (new.lookup(name) matches Some(
                    SchemeItem::Function(k),
                ) && s.holds_function(k as int, name))
                &&& new.spec_shared_store() == old.spec_shared_store()
                &&& forall|n: Seq<char>| n != name ==> new.lookup(n) == old.lookup(n)
                &&& new.field_defs() == old.field_defs()
                &&& old.function_names().len() <= new.function_names().len()
                &&& new.function_names().subrange(0, old.function_names().len() as int) == old.function_names()
                &&& new.registered_list_types() == old.registered_list_types()
                &&& new.store_list_types() == old.store_list_types()
                &&& new.is_shared() == old.is_shared()
                &&& new.spec_nil_not_equal_is_false() == old.spec_nil_not_equal_is_false()
            }
        },
    }
}

/// The outcome of registering a field named `name` of type `ty`: the
/// error for a name already taken or a field of that name with another
/// type; otherwise the name stands for a field of that name and type, every
/// other name is unchanged and every definition keeps its index.
pub open spec fn field_added(
    old: &SchemeBuilder,
    new: &SchemeBuilder,
    name: Seq<char>,
    ty: Type,
    optional: bool,
    r: Result<(), IdentifierRedefinitionError>,
) -> bool {
    &&& new.wf()
    &&& match old.lookup(name) {
        Some(SchemeItem::Field(_)) => {
            &&& *new == *old
            &&& r matches Err(IdentifierRedefinitionError::Field(e))
            &&& e.spec_name() == name
        },
        Some(SchemeItem::Function(_)) => {
            &&& *new == *old
            &&& r matches Err(IdentifierRedefinitionError::Function(e))
            &&& e.spec_name() == name
        },
        None => {
            &&& old.conflicting_field(name, ty) ==> r is Err
            &&& (!old.is_shared() || old.field_names().contains(name)) && !old.conflicting_field(name, ty)
                ==> r is Ok
            &&& r matches Err(err) ==> {
                &&& *new == *old
                &&& old.is_shared()
                &&& match err {
                    IdentifierRedefinitionError::FieldTypeMismatch(e) => {
                        &&& e.spec_name() == name
                        &&& e.spec_got() == ty
                        &&& e.spec_expected() != ty
                        &&& old.spec_shared_store() matches Some(s) && exists|i: int| s.holds_field(i, name, e.spec_expected())
                    },
                    IdentifierRedefinitionError::Field(e) => e.spec_name() == name && !old.field_names().contains(name),
                    IdentifierRedefinitionError::Function(_) => false,
                }
            }
            &&& r is Ok ==> {
                &&& old.spec_shared_store() matches Some(s) ==> (new.lookup(name) matches Some(SchemeItem::Field(k))
                    && s.holds_field(k as int, name, ty) && (new.defined_by_self(name) ==> s.holds_field_as(
                    k as int,
                    name,
                    ty,
                    optional,
                )))
                &&& new.spec_shared_store() == old.spec_shared_store()
                &&& new.lookup(name) matches Some(SchemeItem::Field(k)) && {
                    &&& (!old.is_shared() || old.field_names().contains(name)) ==> k < new.field_defs().len()
                    &&& k < new.field_defs().len() ==> {
                        &&& new.field_defs()[k as int].spec_name() == name
                        &&& new.field_defs()[k as int].spec_ty() == ty
                        &&& k >= old.field_defs().len() ==> new.field_defs()[k as int].spec_optional() == optional
                    }
                }
                &&& forall|n: Seq<char>| n != name ==> new.lookup(n) == old.lookup(n)
                &&& old.field_defs().len() <= new.field_defs().len()
                &&& new.field_defs().subrange(0, old.field_defs().len() as int) == old.field_defs()
                &&& new.function_names() == old.function_names()
                &&& new.registered_list_types() == old.registered_list_types()
                &&& new.store_list_types() == old.store_list_types()
                &&& new.is_shared() == old.is_shared()
                &&& new.spec_nil_not_equal_is_false() == old.spec_nil_not_equal_is_false()
            }
        },
    }
}


/// A field that `add_field` or `add_optional_field` has registered is
/// found under its name with the requested type; where the builder held no
/// field of that name before, it also has the requested optionality.
pub proof fn law_added_field_is_registered(
    old: SchemeBuilder,
    new: SchemeBuilder,
    name: Seq<char>,
    ty: Type,
    optional: bool,
)
    requires
        !old.is_shared(),
        old.wf(),
        field_added(&old, &new, name, ty, optional, Ok(())),
    ensures
        new.lookup(name) matches Some(SchemeItem::Field(k)) && k < new.field_defs().len()
            && new.field_defs()[k as int].spec_name() == name && new.field_defs()[k as int].spec_ty() == ty,
        !old.field_names().contains(name) ==> new.registers_field(name, ty, optional),
{
    if !old.field_names().contains(name) {
        let k = new.lookup(name)->Some_0->Field_0;
        if k < old.field_defs().len() {
            assert(new.field_defs()[k as int] == new.field_defs().subrange(0, old.field_defs().len() as int)[k as int]);
            assert(old.field_names()[k as int] == name);
        }
    }
}

/// A field that `add_field` or `add_optional_field` registered, where the
/// builder's store did not hold it before (a builder without a shared
/// store, or one that defined the field in its shared store itself), has
/// the requested type and optionality.
pub proof fn law_added_field_has_its_optionality(
    old: SchemeBuilder,
    new: SchemeBuilder,
    name: Seq<char>,
    ty: Type,
    optional: bool,
)
    requires
        old.wf(),
        field_added(&old, &new, name, ty, optional, Ok(())),
        old.is_shared() ==> new.defined_by_self(name),
    ensures
        !old.is_shared() ==> new.registers_field(name, ty, optional),
        old.spec_shared_store() matches Some(s) ==> (new.lookup(name) matches Some(SchemeItem::Field(k))
            && s.holds_field_as(k as int, name, ty, optional)),
{
    if !old.is_shared() {
        assert(old.lookup(name) is None);
        assert(!old.item_names().contains(name)) by {
            if old.item_names().contains(name) {
                let j = old.item_names().index_of(name);
                old.item_names().index_of_first_ensures(name);
                lemma_lookup_at(old.spec_items(), j);
                assert(old.spec_items()[j].0@ == name);
            }
        }
        old.lemma_field_name_registered(name);
        law_added_field_is_registered(old, new, name, ty, optional);
    }
}

/// A name is registered once: once `add_field` has registered `name`,
/// registering it again as a field, with any type, fails with the error
/// for that field name and leaves the builder as it was.
pub proof fn law_field_registered_once(
    b0: SchemeBuilder,
    b1: SchemeBuilder,
    b2: SchemeBuilder,
    name: Seq<char>,
    ty1: Type,
    optional1: bool,
    ty2: Type,
    optional2: bool,
    r2: Result<(), IdentifierRedefinitionError>,
)
    requires
        b0.wf(),
        field_added(&b0, &b1, name, ty1, optional1, Ok(())),
        field_added(&b1, &b2, name, ty2, optional2, r2),
    ensures
        b2 == b1,
        r2 matches Err(IdentifierRedefinitionError::Field(e)) && e.spec_name() == name,
{
}

/// A name is registered once: once `add_function` has registered `name`,
/// registering it as a field fails with the error for that function name,
/// and registering it as a function again fails in the same way; either
/// leaves the builder as it was.
pub proof fn law_function_registered_once(
    b0: SchemeBuilder,
    b1: SchemeBuilder,
    b2: SchemeBuilder,
    b3: SchemeBuilder,
    name: Seq<char>,
    ty: Type,
    optional: bool,
    r2: Result<(), IdentifierRedefinitionError>,
    r3: Result<(), IdentifierRedefinitionError>,
)
    requires
        b0.wf(),
        function_added(&b0, &b1, name, Ok(())),
        field_added(&b1, &b2, name, ty, optional, r2),
        function_added(&b1, &b3, name, r3),
    ensures
        b2 == b1,
        r2 matches Err(IdentifierRedefinitionError::Function(e)) && e.spec_name() == name,
        b3 == b1,
        r3 matches Err(IdentifierRedefinitionError::Function(e)) && e.spec_name() == name,
{
}

/// Registering one name leaves what every other name stands for, and every
/// field definition already in the builder, as they were: two successive
/// registrations of distinct fields are both found afterwards.
pub proof fn law_registrations_accumulate(
    b0: SchemeBuilder,
    b1: SchemeBuilder,
    b2: SchemeBuilder,
    name1: Seq<char>,
    ty1: Type,
    optional1: bool,
    name2: Seq<char>,
    ty2: Type,
    optional2: bool,
)
    requires
        !b0.is_shared(),
        b0.wf(),
        name1 != name2,
        field_added(&b0, &b1, name1, ty1, optional1, Ok(())),
        field_added(&b1, &b2, name2, ty2, optional2, Ok(())),
    ensures
        b2.lookup(name1) == b1.lookup(name1),
        b2.lookup(name1) matches Some(SchemeItem::Field(k)) && k < b2.field_defs().len()
            && b2.field_defs()[k as int].spec_name() == name1 && b2.field_defs()[k as int].spec_ty() == ty1,
        b2.lookup(name2) matches Some(SchemeItem::Field(k)) && k < b2.field_defs().len()
            && b2.field_defs()[k as int].spec_name() == name2 && b2.field_defs()[k as int].spec_ty() == ty2,
        forall|n: Seq<char>| n != name1 && n != name2 ==> b2.lookup(n) == b0.lookup(n),
        b2.field_defs().subrange(0, b0.field_defs().len() as int) == b0.field_defs(),
{
    law_added_field_is_registered(b0, b1, name1, ty1, optional1);
    law_added_field_is_registered(b1, b2, name2, ty2, optional2);
    let k = b1.lookup(name1)->Some_0->Field_0;
    assert(b2.field_defs()[k as int] == b2.field_defs().subrange(0, b1.field_defs().len() as int)[k as int]);
    let n0 = b0.field_defs().len() as int;
    let n1 = b1.field_defs().len() as int;
    assert forall|i: int| 0 <= i < n0 implies b2.field_defs()[i] == b0.field_defs()[i] by {
        assert(b2.field_defs()[i] == b2.field_defs().subrange(0, n1)[i]);
        assert(b1.field_defs()[i] == b1.field_defs().subrange(0, n0)[i]);
    }
    assert(b2.field_defs().subrange(0, n0) =~= b0.field_defs());
}

/// A built scheme resolves every name as its builder did: a field that the
/// builder registered is found in the scheme with its name, type and
/// optionality, and a name that the builder did not register is unknown.
pub proof fn law_scheme_resolves_as_builder(b: SchemeBuilder, s: Scheme, name: Seq<char>, ty: Type, optional: bool)
    requires
        b.wf(),
        s.spec_items() == b.spec_items(),
        s.store().spec_fields() == b.field_defs(),
        s.store().function_names() == b.function_names(),
    ensures
        s.lookup(name) == b.lookup(name),
        b.registers_field(name, ty, optional) ==> (s.lookup(name) matches Some(SchemeItem::Field(k)) && k
            < s.store().spec_fields().len() && s.store().field_at(k as int).spec_name() == name
            && s.store().field_at(k as int).spec_ty() == ty && s.store().field_at(k as int).spec_optional()
            == optional),
        b.lookup(name) is None ==> s.lookup(name) is None,
{
}

/// A scheme built after a whole sequence of field registrations finds each
/// registered field under its name, with its type and optionality, in the
/// store it holds.
pub proof fn law_build_after_additions(b: SchemeBuilder, s: Scheme, fields: Seq<(Seq<char>, Type, bool)>)
    requires
        b.wf(),
        forall|j: int| 0 <= j < fields.len() ==> #[trigger] b.registers_field(fields[j].0, fields[j].1, fields[j].2),
        s.spec_items() == b.spec_items(),
        s.store().spec_fields() == b.field_defs(),
        s.store().function_names() == b.function_names(),
    ensures
        forall|j: int|
            0 <= j < fields.len() ==> (#[trigger] s.lookup(fields[j].0) matches Some(SchemeItem::Field(k)) && k
                < s.store().spec_fields().len() && s.store().field_at(k as int).spec_name() == fields[j].0
                && s.store().field_at(k as int).spec_ty() == fields[j].1 && s.store().field_at(k as int).spec_optional()
                == fields[j].2),
{
    assert forall|j: int| 0 <= j < fields.len() implies (#[trigger] s.lookup(fields[j].0) matches Some(
        SchemeItem::Field(k),
    ) && k < s.store().spec_fields().len() && s.store().field_at(k as int).spec_name() == fields[j].0
        && s.store().field_at(k as int).spec_ty() == fields[j].1 && s.store().field_at(k as int).spec_optional()
        == fields[j].2) by {
        law_scheme_resolves_as_builder(b, s, fields[j].0, fields[j].1, fields[j].2);
    }
}

/// Whether each builder of `builders` comes from the one before it by the
/// successful registration at the same position of `additions`: of a field
/// with the given type and optionality, or, for `None`, of a function.
pub open spec fn registrations_succeed(
    builders: Seq<SchemeBuilder>,
    additions: Seq<(Seq<char>, Option<(Type, bool)>)>,
) -> bool {
    &&& builders.len() == additions.len() + 1
    &&& forall|j: int|
        0 <= j < additions.len() ==> match #[trigger] additions[j].1 {
            Some((ty, optional)) => field_added(&builders[j], &builders[j + 1], additions[j].0, ty, optional, Ok(())),
            None => function_added(&builders[j], &builders[j + 1], additions[j].0, Ok(())),
        }
}

/// Whether builder `b` stands for exactly the names of `additions`, each
/// as registered there.
pub open spec fn registers_exactly(b: SchemeBuilder, additions: Seq<(Seq<char>, Option<(Type, bool)>)>) -> bool {
    &&& forall|n: Seq<char>|
        #[trigger] b.lookup(n) is Some <==> exists|j: int| 0 <= j < additions.len() && additions[j].0 == n
    &&& forall|j: int|
        0 <= j < additions.len() ==> match #[trigger] additions[j].1 {
            Some((ty, optional)) => b.registers_field(additions[j].0, ty, optional),
            None => b.lookup(additions[j].0) matches Some(SchemeItem::Function(k)) && k < b.function_names().len()
                && b.function_names()[k as int] == additions[j].0,
        }
}

/// After the first `i` registrations of a sequence on a new builder
/// without a shared store, the builder stands for exactly their names.
proof fn lemma_registrations_prefix(
    builders: Seq<SchemeBuilder>,
    additions: Seq<(Seq<char>, Option<(Type, bool)>)>,
    i: int,
)
    requires
        registrations_succeed(builders, additions),
        builders[0].wf(),
        !builders[0].is_shared(),
        forall|n: Seq<char>| #[trigger] builders[0].lookup(n) is None,
        0 <= i <= additions.len(),
    ensures
        builders[i].wf(),
        !builders[i].is_shared(),
        registers_exactly(builders[i], additions.subrange(0, i)),
    decreases i,
{
    if i == 0 {
        assert(registers_exactly(builders[0], additions.subrange(0, 0)));
    } else {
        lemma_registrations_prefix(builders, additions, i - 1);
        let old = builders[i - 1];
        let new = builders[i];
        let prev = additions.subrange(0, i - 1);
        let cur = additions.subrange(0, i);
        let name = additions[i - 1].0;
        let step = additions[i - 1].1;
        assert(old.lookup(name) is None) by {
            match step {
                Some((ty, optional)) => {},
                None => {},
            }
        }
        assert(!exists|j: int| 0 <= j < prev.len() && prev[j].0 == name);
        match step {
            Some((ty, optional)) => {
                assert(field_added(&old, &new, name, ty, optional, Ok(())));
                law_added_field_is_registered(old, new, name, ty, optional);
                old.lemma_field_name_registered(name);
                assert(!old.item_names().contains(name)) by {
                    if old.item_names().contains(name) {
                        let j = old.item_names().index_of(name);
                        old.item_names().index_of_first_ensures(name);
                        lemma_lookup_at(old.spec_items(), j);
                        assert(old.spec_items()[j].0@ == name);
                    }
                }
            },
            None => {
                assert(function_added(&old, &new, name, Ok(())));
            },
        }
        assert forall|n: Seq<char>|
            #[trigger] new.lookup(n) is Some <==> exists|j: int| 0 <= j < cur.len() && cur[j].0 == n by {
            if n == name {
                assert(cur[i - 1].0 == n);
            } else {
                assert(new.lookup(n) == old.lookup(n));
                if exists|j: int| 0 <= j < cur.len() && cur[j].0 == n {
                    let j = choose|j: int| 0 <= j < cur.len() && cur[j].0 == n;
                    assert(prev[j].0 == n);
                }
                if exists|j: int| 0 <= j < prev.len() && prev[j].0 == n {
                    let j = choose|j: int| 0 <= j < prev.len() && prev[j].0 == n;
                    assert(cur[j].0 == n);
                }
            }
        }
        assert forall|j: int| 0 <= j < cur.len() implies match #[trigger] cur[j].1 {
            Some((ty, optional)) => new.registers_field(cur[j].0, ty, optional),
            None => new.lookup(cur[j].0) matches Some(SchemeItem::Function(k)) && k < new.function_names().len()
                && new.function_names()[k as int] == cur[j].0,
        } by {
            if j < i - 1 {
                assert(cur[j] == prev[j]);
                assert(cur[j].0 != name);
                assert(new.lookup(cur[j].0) == old.lookup(cur[j].0));
                match prev[j].1 {
                    Some((ty, optional)) => {
                        assert(old.registers_field(prev[j].0, ty, optional));
                        let k = old.lookup(prev[j].0)->Some_0->Field_0;
                        assert(new.field_defs()[k as int] == new.field_defs().subrange(0, old.field_defs().len() as int)[k as int]);
                    },
                    None => {
                        let k = old.lookup(prev[j].0)->Some_0->Function_0;
                        assert(new.function_names()[k as int] == new.function_names().subrange(0, old.function_names().len() as int)[k as int]);
                    },
                }
            } else {
                assert(cur[j] == additions[i - 1]);
            }
        }
    }
}

/// A scheme built from a new builder without a shared store, after a whole
/// sequence of successful registrations, finds exactly the registered
/// names: each field with its type and optionality, each function under
/// its name, and no other name.
pub proof fn law_build_after_registrations(
    builders: Seq<SchemeBuilder>,
    additions: Seq<(Seq<char>, Option<(Type, bool)>)>,
    s: Scheme,
)
    requires
        registrations_succeed(builders, additions),
        builders[0].wf(),
        !builders[0].is_shared(),
        forall|n: Seq<char>| #[trigger] builders[0].lookup(n) is None,
        s.spec_items() == builders.last().spec_items(),
        s.store().spec_fields() == builders.last().field_defs(),
        s.store().function_names() == builders.last().function_names(),
    ensures
        forall|n: Seq<char>|
            #[trigger] s.lookup(n) is Some <==> exists|j: int| 0 <= j < additions.len() && additions[j].0 == n,
        forall|j: int|
            0 <= j < additions.len() ==> match #[trigger] additions[j].1 {
                Some((ty, optional)) => s.lookup(additions[j].0) matches Some(SchemeItem::Field(k)) && k
                    < s.store().spec_fields().len() && s.store().field_at(k as int).spec_name() == additions[j].0
                    && s.store().field_at(k as int).spec_ty() == ty && s.store().field_at(k as int).spec_optional()
                    == optional,
                None => s.lookup(additions[j].0) matches Some(SchemeItem::Function(k)) && k
                    < s.store().function_names().len() && s.store().function_names()[k as int] == additions[j].0,
            },
{
    let n = additions.len() as int;
    lemma_registrations_prefix(builders, additions, n);
    assert(additions.subrange(0, n) =~= additions);
    let b = builders[n];
    assert(b == builders.last());
    assert forall|name: Seq<char>| #[trigger] s.lookup(name) is Some <==> exists|j: int|
        0 <= j < additions.len() && additions[j].0 == name by {
        law_scheme_resolves_as_builder(b, s, name, Type::Bool, false);
    }
    assert forall|j: int| 0 <= j < additions.len() implies match #[trigger] additions[j].1 {
        Some((ty, optional)) => s.lookup(additions[j].0) matches Some(SchemeItem::Field(k)) && k
            < s.store().spec_fields().len() && s.store().field_at(k as int).spec_name() == additions[j].0
            && s.store().field_at(k as int).spec_ty() == ty && s.store().field_at(k as int).spec_optional()
            == optional,
        None => s.lookup(additions[j].0) matches Some(SchemeItem::Function(k)) && k
            < s.store().function_names().len() && s.store().function_names()[k as int] == additions[j].0,
    } by {
        match additions[j].1 {
            Some((ty, optional)) => {
                law_scheme_resolves_as_builder(b, s, additions[j].0, ty, optional);
            },
            None => {
                law_scheme_resolves_as_builder(b, s, additions[j].0, Type::Bool, false);
            },
        }
    }
}

/// The behavior that the last step `Some(b)` of `steps` set, or `initial`
/// when there is none.
pub open spec fn last_nil_setting(steps: Seq<Option<bool>>, initial: bool) -> bool
    decreases steps.len(),
{
    if steps.len() == 0 {
        initial
    } else {
        match steps.last() {
            Some(b) => b,
            None => last_nil_setting(steps.drop_last(), initial),
        }
    }
}

/// Whether each builder of `builders` comes from the one before it by the
/// step at the same position: `Some(b)` sets the `nil` comparison behavior
/// to `b`, `None` keeps it.
pub open spec fn nil_steps(builders: Seq<SchemeBuilder>, steps: Seq<Option<bool>>) -> bool {
    &&& builders.len() == steps.len() + 1
    &&& forall|j: int|
        0 <= j < steps.len() ==> match #[trigger] steps[j] {
            Some(b) => builders[j + 1].spec_nil_not_equal_is_false() == !b,
            None => builders[j + 1].spec_nil_not_equal_is_false() == builders[j].spec_nil_not_equal_is_false(),
        }
}

/// After the first `i` steps, the behavior is the one the last setting
/// among them gave.
proof fn lemma_nil_steps_prefix(builders: Seq<SchemeBuilder>, steps: Seq<Option<bool>>, initial: bool, i: int)
    requires
        nil_steps(builders, steps),
        !builders[0].spec_nil_not_equal_is_false() == initial,
        0 <= i <= steps.len(),
    ensures
        !builders[i].spec_nil_not_equal_is_false() == last_nil_setting(steps.subrange(0, i), initial),
    decreases i,
{
    if i > 0 {
        lemma_nil_steps_prefix(builders, steps, initial, i - 1);
        assert(steps.subrange(0, i).drop_last() =~= steps.subrange(0, i - 1));
        assert(steps.subrange(0, i).last() == steps[i - 1]);
    }
}

/// Over any sequence of calls on a builder without a shared store, where
/// each `set_nil_not_equal_behavior(b)` (a step `Some(b)`) sets the `nil`
/// comparison behavior and every other call (a step `None`) keeps it, the
/// scheme built at the end reports the behavior of the last such call, or
/// that of a new builder, `true`, when there was none.
pub proof fn law_nil_behavior_is_last_setting(builders: Seq<SchemeBuilder>, steps: Seq<Option<bool>>, s: Scheme)
    requires
        nil_steps(builders, steps),
        !builders[0].spec_nil_not_equal_is_false(),
        s.store().spec_nil_not_equal_is_false() == builders.last().spec_nil_not_equal_is_false(),
    ensures
        !s.store().spec_nil_not_equal_is_false() == last_nil_setting(steps, true),
{
    lemma_nil_steps_prefix(builders, steps, true, steps.len() as int);
    assert(steps.subrange(0, steps.len() as int) =~= steps);
}

/// The `nil` comparison setting that `set_nil_not_equal_behavior` gives a
/// builder without a shared store is what the scheme built from it
/// reports.
pub proof fn law_nil_behavior_survives_build(b0: SchemeBuilder, b1: SchemeBuilder, s: Scheme, behavior: bool)
    requires
        !b0.is_shared(),
        b1.spec_nil_not_equal_is_false() == !behavior,
        b1.spec_shared_store() == b0.spec_shared_store(),
        s.store().spec_nil_not_equal_is_false() == match b1.spec_shared_store() {
            Some(st) => st.known().spec_nil_not_equal_is_false(),
            None => b1.spec_nil_not_equal_is_false(),
        },
    ensures
        !s.store().spec_nil_not_equal_is_false() == behavior,
{
}

/// Defining the same function twice in store contents gives the index of
/// the first definition both times: once a function of that name is at
/// index `k`, a second definition finds it there and changes nothing.
pub proof fn law_function_defined_once(d: StoreData, name: Seq<char>, k: int)
    requires
        d.wf(),
        0 <= k < d.function_names().len(),
        d.function_names()[k] == name,
    ensures
        d.function_names().contains(name),
        d.function_names().index_of(name) == k,
{
    lemma_distinct_index_of(d.function_names(), k);
}

/// Scheme identifiers handed out one after the other by store contents
/// increase strictly, until the counter reaches its largest value.
pub proof fn law_scheme_ids_increase(d0: StoreData, d1: StoreData, r0: u64, r1: u64)
    requires
        r0 == d0.spec_next_scheme_id(),
        d1.spec_next_scheme_id() == if d0.spec_next_scheme_id() < u64::MAX {
            d0.spec_next_scheme_id() + 1
        } else {
            d0.spec_next_scheme_id() as int
        },
        r1 == d1.spec_next_scheme_id(),
        d0.spec_next_scheme_id() < u64::MAX,
    ensures
        r0 < r1,
{
}

/// Converting a field reference to an owned field and back names the same
/// field of the same store.
pub proof fn law_field_round_trip(f: FieldRef, o: Field, g: FieldRef)
    requires
        o.spec_index() == f.spec_index(),
        o.spec_scheme_store() == f.spec_scheme_store(),
        g.spec_index() == o.spec_index(),
        g.spec_scheme_store() == o.spec_scheme_store(),
    ensures
        g.spec_index() == f.spec_index(),
        g.spec_scheme_store() == f.spec_scheme_store(),
        g.is_known() == f.is_known(),
        g.definition() == f.definition(),
{
}

/// Converting a function reference to an owned function and back names the
/// same function of the same store.
pub proof fn law_function_round_trip(f: FunctionRef, o: Function, g: FunctionRef)
    requires
        o.spec_index() == f.spec_index(),
        o.spec_scheme_store() == f.spec_scheme_store(),
        g.spec_index() == o.spec_index(),
        g.spec_scheme_store() == o.spec_scheme_store(),
    ensures
        g.spec_index() == f.spec_index(),
        g.spec_scheme_store() == f.spec_scheme_store(),
        g.is_known() == f.is_known(),
{
}

/// What `added_field` says of two store contents, for callers that cannot
/// see its definition: one more field, with the given properties, after
/// all the old ones, and nothing else changed.
pub proof fn lemma_added_field(new: StoreData, old: StoreData, name: Seq<char>, ty: Type, optional: bool, scheme_id: u64)
    requires
        new.added_field(&old, name, ty, optional, scheme_id),
    ensures
        new.spec_fields().len() == old.spec_fields().len() + 1,
        new.spec_fields().subrange(0, old.spec_fields().len() as int) == old.spec_fields(),
        new.field_at(old.spec_fields().len() as int).spec_name() == name,
        new.field_at(old.spec_fields().len() as int).spec_ty() == ty,
        new.field_at(old.spec_fields().len() as int).spec_optional() == optional,
        new.field_at(old.spec_fields().len() as int).spec_scheme_id() == scheme_id,
        new.spec_functions() == old.spec_functions(),
        new.spec_lists() == old.spec_lists(),
        new.spec_next_scheme_id() == old.spec_next_scheme_id(),
        new.spec_nil_not_equal_is_false() == old.spec_nil_not_equal_is_false(),
{
}


/// The main registry for fields and their associated types.
///
/// This is necessary to provide typechecking for runtime values and to aid
/// the parser in ambiguous contexts.
pub struct Scheme {
    scheme_store: Arc<SchemeStore>,
    items: Vec<(String, SchemeItem)>,
}

/// An entry of a scheme: a field or a function.
pub enum Identifier<'s> {
    /// The identifier is a field.
    Field(FieldRef<'s>),
    /// The identifier is a function.
    Function(FunctionRef<'s>),
}

impl Scheme {
    /// Well-formedness, kept by every scheme: names are registered once and
    /// refer to definitions of the same name in a well-formed store.
    #[verifier::type_invariant]
    closed spec fn inv(&self) -> bool {
        &&& self.scheme_store.known().wf()
        &&& all_distinct(names_of(self.items@))
        &&& items_resolve_known(
            self.items@,
            self.scheme_store.known().field_names(),
            self.scheme_store.known().function_names(),
        )
    }

    /// The registered names and what they stand for, in registration order.
    pub closed spec fn spec_items(&self) -> Seq<(String, SchemeItem)> {
        self.items@
    }

    /// What `name` stands for in this scheme, if anything.
    pub open spec fn lookup(&self, name: Seq<char>) -> Option<SchemeItem> {
        lookup_in(self.spec_items(), name)
    }

    /// The definitions that the scheme's store is known to hold.
    pub closed spec fn store(&self) -> StoreData {
        self.scheme_store.known()
    }

    /// The store that this scheme holds.
    pub closed spec fn spec_scheme_store(&self) -> Arc<SchemeStore> {
        self.scheme_store
    }

    /// The position of the item named `name`, if there is one.
    fn find_item(&self, name: &String) -> (r: Option<usize>)
        ensures
            match r {
                Some(i) => i < self.items@.len() && self.items@[i as int].0@ == name@,
                None => !names_of(self.items@).contains(name@),
            },
    {
        let mut i: usize = 0;
        while i < self.items.len()
            invariant
                i <= self.items@.len(),
                forall|j: int| 0 <= j < i ==> self.items@[j].0@ != name@,
            decreases self.items@.len() - i,
        {
            if self.items[i].0 == *name {
                return Some(i);
            }
            i = i + 1;
        }
        proof {
            if names_of(self.items@).contains(name@) {
                let k = choose|k: int| 0 <= k < names_of(self.items@).len() && names_of(self.items@)[k] == name@;
                assert(self.items@[k].0@ == name@);
            }
        }
        None
    }

    /// Returns the identifier with the specified `name`.
    pub(crate) fn get(&self, name: &str) -> (r: Option<Identifier<'_>>)
        ensures
            match self.lookup(name@) {
                None => r is None,
                Some(SchemeItem::Field(k)) => r matches Some(Identifier::Field(f)) && f.spec_index() == k
                    && f.spec_store() == self.store(),
                Some(SchemeItem::Function(k)) => r matches Some(Identifier::Function(f)) && f.spec_index() == k
                    && f.spec_store() == self.store(),
            },
    {
        proof {
            use_type_invariant(self);
        }
        let key = name.to_owned();
        match self.find_item(&key) {
            None => None,
            Some(i) => {
                proof {
                    lemma_lookup_at(self.items@, i as int);
                    assert(self.items@[i as int].1 == self.items@[i as int].1);
                }
                match self.items[i].1 {
                    SchemeItem::Field(index) => Some(Identifier::Field(FieldRef { scheme_store: &self.scheme_store, index })),
                    SchemeItem::Function(index) => Some(
                        Identifier::Function(FunctionRef { scheme_store: &self.scheme_store, index }),
                    ),
                }
            },
        }
    }

    /// Returns the field with the specified `name`.
    pub fn get_field(&self, name: &str) -> (r: Result<FieldRef<'_>, UnknownFieldError>)
        ensures
            match self.lookup(name@) {
                Some(SchemeItem::Field(k)) => r matches Ok(f) && f.spec_index() == k && f.spec_store() == self.store(),
                _ => r is Err,
            },
    {
        match self.get(name) {
            Some(Identifier::Field(f)) => Ok(f),
            _ => Err(UnknownFieldError),
        }
    }

    /// Returns the function with the specified `name`.
    pub fn get_function(&self, name: &str) -> (r: Result<FunctionRef<'_>, UnknownFunctionError>)
        ensures
            match self.lookup(name@) {
                Some(SchemeItem::Function(k)) => r matches Ok(f) && f.spec_index() == k && f.spec_store()
                    == self.store(),
                _ => r is Err,
            },
    {
        match self.get(name) {
            Some(Identifier::Function(f)) => Ok(f),
            _ => Err(UnknownFunctionError),
        }
    }

    /// Returns the fields registered in this scheme, in registration order.
    pub fn fields(&self) -> (r: Vec<FieldRef<'_>>)
        ensures
            r@.len() == field_indices(self.spec_items()).len(),
            forall|j: int|
                0 <= j < r@.len() ==> (#[trigger] r@[j]).spec_index() == field_indices(self.spec_items())[j]
                    && r@[j].spec_store() == self.store(),
    {
        proof {
            use_type_invariant(self);
        }
        let mut r: Vec<FieldRef<'_>> = Vec::new();
        let mut i: usize = 0;
        while i < self.items.len()
            invariant
                i <= self.items@.len(),
                self.scheme_store.known().wf(),
                r@.len() == field_indices(self.items@.subrange(0, i as int)).len(),
                forall|j: int|
                    0 <= j < r@.len() ==> (#[trigger] r@[j]).spec_index() == field_indices(
                        self.items@.subrange(0, i as int),
                    )[j] && r@[j].spec_scheme_store() == self.scheme_store,
            decreases self.items@.len() - i,
        {
            let ghost prefix = self.items@.subrange(0, i as int);
            let ghost next = self.items@.subrange(0, i + 1);
            assert(next.drop_last() =~= prefix);
            assert(next.last() == self.items@[i as int]);
            match self.items[i].1 {
                SchemeItem::Field(index) => {
                    r.push(FieldRef { scheme_store: &self.scheme_store, index });
                },
                SchemeItem::Function(_) => {},
            }
            i = i + 1;
        }
        assert(self.items@.subrange(0, self.items@.len() as int) =~= self.items@);
        r
    }

    /// Returns the number of fields registered in this scheme.
    pub fn field_count(&self) -> (r: usize)
        ensures
            r == field_indices(self.spec_items()).len(),
    {
        let fields = self.fields();
        fields.len()
    }

    /// Returns the functions registered in this scheme, in registration
    /// order.
    pub fn functions(&self) -> (r: Vec<FunctionRef<'_>>)
        ensures
            r@.len() == function_indices(self.spec_items()).len(),
            forall|j: int|
                0 <= j < r@.len() ==> (#[trigger] r@[j]).spec_index() == function_indices(self.spec_items())[j]
                    && r@[j].spec_store() == self.store(),
    {
        proof {
            use_type_invariant(self);
        }
        let mut r: Vec<FunctionRef<'_>> = Vec::new();
        let mut i: usize = 0;
        while i < self.items.len()
            invariant
                i <= self.items@.len(),
                self.scheme_store.known().wf(),
                r@.len() == function_indices(self.items@.subrange(0, i as int)).len(),
                forall|j: int|
                    0 <= j < r@.len() ==> (#[trigger] r@[j]).spec_index() == function_indices(
                        self.items@.subrange(0, i as int),
                    )[j] && r@[j].spec_scheme_store() == self.scheme_store,
            decreases self.items@.len() - i,
        {
            let ghost prefix = self.items@.subrange(0, i as int);
            let ghost next = self.items@.subrange(0, i + 1);
            assert(next.drop_last() =~= prefix);
            assert(next.last() == self.items@[i as int]);
            match self.items[i].1 {
                SchemeItem::Function(index) => {
                    r.push(FunctionRef { scheme_store: &self.scheme_store, index });
                },
                SchemeItem::Field(_) => {},
            }
            i = i + 1;
        }
        assert(self.items@.subrange(0, self.items@.len() as int) =~= self.items@);
        r
    }

    /// Returns the number of functions registered in this scheme.
    pub fn function_count(&self) -> (r: usize)
        ensures
            r == function_indices(self.spec_items()).len(),
    {
        let functions = self.functions();
        functions.len()
    }

    /// Returns the store of definitions shared by this scheme.
    pub fn scheme_store(&self) -> (r: &Arc<SchemeStore>)
        ensures
            *r == self.spec_scheme_store(),
            r.known() == self.store(),
            r.known().wf(),
    {
        proof {
            use_type_invariant(self);
        }
        &self.scheme_store
    }

    /// Returns the number of lists in the scheme's store.
    pub fn list_count(&self) -> (r: usize)
        ensures
            r >= self.store().list_types().len(),
    {
        self.scheme_store.list_count()
    }

    /// Returns the list registered for a given type.
    pub fn get_list(&self, ty: &Type) -> (r: Option<ListRef<'_>>)
        ensures
            self.store().list_types().contains(*ty) ==> (r matches Some(l) && l.spec_scheme_store()
                == self.spec_scheme_store() && l.spec_index() == self.store().list_types().index_of(*ty)),
            !self.store().list_types().contains(*ty) ==> (r matches Some(l) ==> l.spec_scheme_store()
                == self.spec_scheme_store() && l.spec_index() >= self.store().list_types().len()),
    {
        proof {
            use_type_invariant(self);
        }
        match self.scheme_store.list_at_index(ty) {
            Some(index) => Some(ListRef { scheme_store: &self.scheme_store, index }),
            None => None,
        }
    }

    /// Returns all the lists of the scheme's store, in index order.
    pub fn lists(&self) -> (r: Vec<ListRef<'_>>)
        ensures
            r@.len() >= self.store().list_types().len(),
            forall|j: int|
                0 <= j < r@.len() ==> (#[trigger] r@[j]).spec_index() == j && r@[j].spec_scheme_store()
                    == self.spec_scheme_store(),
    {
        let count = self.scheme_store.list_count();
        let mut r: Vec<ListRef<'_>> = Vec::new();
        let mut i: usize = 0;
        while i < count
            invariant
                i <= count,
                r@.len() == i,
                forall|j: int| 0 <= j < i ==> (#[trigger] r@[j]).spec_index() == j && r@[j].spec_scheme_store()
                    == self.scheme_store,
            decreases count - i,
        {
            r.push(ListRef { scheme_store: &self.scheme_store, index: i });
            i = i + 1;
        }
        r
    }

    /// Whether `nil != value` evaluates to true.
    pub fn nil_not_equal_behavior(&self) -> (r: bool)
        ensures
            r == !self.store().spec_nil_not_equal_is_false(),
    {
        self.scheme_store.nil_not_equal_behavior()
    }

    /// Creates a parser over this scheme with default settings.
    pub fn parser(&self) -> (r: FilterParser<'_>)
        ensures
            r.spec_scheme() == self,
            r.spec_star_limit() == usize::MAX,
    {
        FilterParser::new(self)
    }

    /// Creates a parser over this scheme with the given settings.
    pub fn parser_with_settings(&self, settings: ParserSettings) -> (r: FilterParser<'_>)
        ensures
            r.spec_scheme() == self,
            r.spec_star_limit() == settings.spec_star_limit(),
    {
        FilterParser::with_settings(self, settings)
    }
}

impl Clone for Scheme {
    /// A scheme with the same names, sharing the same store.
    fn clone(&self) -> (r: Self)
        ensures
            r.spec_items() == self.spec_items(),
            r.store() == self.store(),
    {
        proof {
            use_type_invariant(self);
        }
        let mut items: Vec<(String, SchemeItem)> = Vec::new();
        let mut i: usize = 0;
        while i < self.items.len()
            invariant
                i <= self.items@.len(),
                items@ == self.items@.subrange(0, i as int),
            decreases self.items@.len() - i,
        {
            let entry = &self.items[i];
            items.push((entry.0.clone(), entry.1));
            i = i + 1;
            assert(items@ =~= self.items@.subrange(0, i as int));
        }
        assert(items@ =~= self.items@);
        Scheme { scheme_store: self.scheme_store.clone(), items }
    }
}

/// A field inside a scheme, borrowed from the scheme's store.
///
/// Every field reference that a scheme hands out names a field that its
/// store holds; where the store is known to hold it, what the reference
/// reads is stated.
#[derive(Clone, Copy)]
pub struct FieldRef<'s> {
    scheme_store: &'s Arc<SchemeStore>,
    index: usize,
}

impl<'s> FieldRef<'s> {
    /// The index of the field in its store.
    pub closed spec fn spec_index(&self) -> usize {
        self.index
    }

    /// The store that the field belongs to.
    pub closed spec fn spec_scheme_store(&self) -> Arc<SchemeStore> {
        *self.scheme_store
    }

    /// The definitions that the field's store is known to hold.
    pub open spec fn spec_store(&self) -> StoreData {
        self.spec_scheme_store().known()
    }

    /// Whether the field's store is known to hold the field.
    pub open spec fn is_known(&self) -> bool {
        self.spec_index() < self.spec_store().field_names().len()
    }

    /// The definition of the field, where the store is known to hold it.
    pub open spec fn definition(&self) -> FieldDefinition {
        self.spec_store().field_at(self.spec_index() as int)
    }

    /// Returns the field's name as recorded in the scheme.
    ///
    /// An index past the end of the store, which no reference from a scheme
    /// holds, gives an empty name.
    pub fn name(&self) -> (r: String)
        ensures
            self.is_known() ==> r@ == self.definition().spec_name(),
    {
        match self.scheme_store.field_at(self.index) {
            Some(d) => d.name,
            None => String::new(),
        }
    }

    /// Gets the field's index in the scheme store.
    pub fn index(&self) -> (r: usize)
        ensures
            r == self.spec_index(),
    {
        self.index
    }

    /// Returns whether the field value is optional.
    ///
    /// An index past the end of the store gives `false`.
    pub fn optional(&self) -> (r: bool)
        ensures
            self.is_known() ==> r == self.definition().spec_optional(),
    {
        match self.scheme_store.field_at(self.index) {
            Some(d) => d.optional,
            None => false,
        }
    }

    /// Returns the type of the field.
    ///
    /// An index past the end of the store gives `Bytes`.
    pub fn get_type(&self) -> (r: Type)
        ensures
            self.is_known() ==> r == self.definition().spec_ty(),
    {
        match self.scheme_store.field_at(self.index) {
            Some(d) => d.ty,
            None => Type::Bytes,
        }
    }

    /// Returns the store to which this field belongs.
    pub fn scheme_store(&self) -> (r: &'s Arc<SchemeStore>)
        ensures
            *r == self.spec_scheme_store(),
    {
        self.scheme_store
    }

    /// Converts to an owned [`Field`].
    pub fn to_owned(&self) -> (r: Field)
        ensures
            r.spec_index() == self.spec_index(),
            r.spec_scheme_store() == self.spec_scheme_store(),
    {
        Field { scheme_store: self.scheme_store.clone(), index: self.index }
    }

    /// Reborrows the field relatively to the specified store reference.
    ///
    /// The store must be the one that the field belongs to.
    pub fn reborrow(self, scheme_store: &Arc<SchemeStore>) -> (r: FieldRef<'_>)
        requires
            *scheme_store == self.spec_scheme_store(),
        ensures
            r.spec_index() == self.spec_index(),
            r.spec_scheme_store() == self.spec_scheme_store(),
    {
        FieldRef { scheme_store, index: self.index }
    }
}

/// A field inside a scheme, holding a share of the scheme's store.
pub struct Field {
    scheme_store: Arc<SchemeStore>,
    index: usize,
}

impl Clone for Field {
    fn clone(&self) -> (r: Self)
        ensures
            r.spec_index() == self.spec_index(),
            r.spec_scheme_store() == self.spec_scheme_store(),
    {
        Field { scheme_store: self.scheme_store.clone(), index: self.index }
    }
}

impl Field {
    /// The index of the field in its store.
    pub closed spec fn spec_index(&self) -> usize {
        self.index
    }

    /// The store that the field belongs to.
    pub closed spec fn spec_scheme_store(&self) -> Arc<SchemeStore> {
        self.scheme_store
    }

    /// The definitions that the field's store is known to hold.
    pub open spec fn spec_store(&self) -> StoreData {
        self.spec_scheme_store().known()
    }

    /// Whether the field's store is known to hold the field.
    pub open spec fn is_known(&self) -> bool {
        self.spec_index() < self.spec_store().field_names().len()
    }

    /// The definition of the field, where the store is known to hold it.
    pub open spec fn definition(&self) -> FieldDefinition {
        self.spec_store().field_at(self.spec_index() as int)
    }

    /// Returns the field's name as recorded in the scheme; empty for an
    /// index past the end of the store.
    pub fn name(&self) -> (r: String)
        ensures
            self.is_known() ==> r@ == self.definition().spec_name(),
    {
        self.as_ref().name()
    }

    /// Gets the field's index in the scheme store.
    pub fn index(&self) -> (r: usize)
        ensures
            r == self.spec_index(),
    {
        self.index
    }

    /// Returns whether the field value is optional; `false` for an index
    /// past the end of the store.
    pub fn optional(&self) -> (r: bool)
        ensures
            self.is_known() ==> r == self.definition().spec_optional(),
    {
        self.as_ref().optional()
    }

    /// Returns the type of the field; `Bytes` for an index past the end of
    /// the store.
    pub fn get_type(&self) -> (r: Type)
        ensures
            self.is_known() ==> r == self.definition().spec_ty(),
    {
        self.as_ref().get_type()
    }

    /// Returns the store to which this field belongs.
    pub fn scheme_store(&self) -> (r: &Arc<SchemeStore>)
        ensures
            *r == self.spec_scheme_store(),
    {
        &self.scheme_store
    }

    /// Converts to a borrowed [`FieldRef`].
    pub fn as_ref(&self) -> (r: FieldRef<'_>)
        ensures
            r.spec_index() == self.spec_index(),
            r.spec_scheme_store() == self.spec_scheme_store(),
    {
        FieldRef { scheme_store: &self.scheme_store, index: self.index }
    }
}

/// A function inside a scheme, borrowed from the scheme's store.
#[derive(Clone, Copy)]
pub struct FunctionRef<'s> {
    scheme_store: &'s Arc<SchemeStore>,
    index: usize,
}

impl<'s> FunctionRef<'s> {
    /// The index of the function in its store.
    pub closed spec fn spec_index(&self) -> usize {
        self.index
    }

    /// The store that the function belongs to.
    pub closed spec fn spec_scheme_store(&self) -> Arc<SchemeStore> {
        *self.scheme_store
    }

    /// The definitions that the function's store is known to hold.
    pub open spec fn spec_store(&self) -> StoreData {
        self.spec_scheme_store().known()
    }

    /// Whether the function's store is known to hold the function.
    pub open spec fn is_known(&self) -> bool {
        self.spec_index() < self.spec_store().function_names().len()
    }

    /// Returns the function's name as recorded in the scheme; empty for an
    /// index past the end of the store.
    pub fn name(&self) -> (r: String)
        ensures
            self.is_known() ==> r@ == self.spec_store().function_names()[self.spec_index() as int],
    {
        match self.scheme_store.function_at(self.index) {
            Some(entry) => entry.0,
            None => String::new(),
        }
    }

    /// Gets the function's index in the scheme store.
    pub fn index(&self) -> (r: usize)
        ensures
            r == self.spec_index(),
    {
        self.index
    }

    /// Returns the store to which this function belongs.
    pub fn scheme_store(&self) -> (r: &'s Arc<SchemeStore>)
        ensures
            *r == self.spec_scheme_store(),
    {
        self.scheme_store
    }

    /// The definition of the function, if the store holds it.
    pub(crate) fn as_definition(&self) -> (r: Option<Arc<Box<dyn FunctionDefinition>>>)
        ensures
            self.is_known() ==> r == Some(self.spec_store().spec_functions()[self.spec_index() as int].1),
    {
        match self.scheme_store.function_at(self.index) {
            Some(entry) => Some(entry.1),
            None => None,
        }
    }

    /// Converts to an owned [`Function`].
    pub fn to_owned(&self) -> (r: Function)
        ensures
            r.spec_index() == self.spec_index(),
            r.spec_scheme_store() == self.spec_scheme_store(),
    {
        Function { scheme_store: self.scheme_store.clone(), index: self.index }
    }

    /// Reborrows the function relatively to the specified store reference.
    ///
    /// The store must be the one that the function belongs to.
    pub fn reborrow(self, scheme_store: &Arc<SchemeStore>) -> (r: FunctionRef<'_>)
        requires
            *scheme_store == self.spec_scheme_store(),
        ensures
            r.spec_index() == self.spec_index(),
            r.spec_scheme_store() == self.spec_scheme_store(),
    {
        FunctionRef { scheme_store, index: self.index }
    }
}

/// A function inside a scheme, holding a share of the scheme's store.
pub struct Function {
    scheme_store: Arc<SchemeStore>,
    index: usize,
}

impl Clone for Function {
    fn clone(&self) -> (r: Self)
        ensures
            r.spec_index() == self.spec_index(),
            r.spec_scheme_store() == self.spec_scheme_store(),
    {
        Function { scheme_store: self.scheme_store.clone(), index: self.index }
    }
}

impl Function {
    /// The index of the function in its store.
    pub closed spec fn spec_index(&self) -> usize {
        self.index
    }

    /// The store that the function belongs to.
    pub closed spec fn spec_scheme_store(&self) -> Arc<SchemeStore> {
        self.scheme_store
    }

    /// The definitions that the function's store is known to hold.
    pub open spec fn spec_store(&self) -> StoreData {
        self.spec_scheme_store().known()
    }

    /// Whether the function's store is known to hold the function.
    pub open spec fn is_known(&self) -> bool {
        self.spec_index() < self.spec_store().function_names().len()
    }

    /// Returns the function's name as recorded in the scheme; empty for an
    /// index past the end of the store.
    pub fn name(&self) -> (r: String)
        ensures
            self.is_known() ==> r@ == self.spec_store().function_names()[self.spec_index() as int],
    {
        self.as_ref().name()
    }

    /// Gets the function's index in the scheme store.
    pub fn index(&self) -> (r: usize)
        ensures
            r == self.spec_index(),
    {
        self.index
    }

    /// Returns the store to which this function belongs.
    pub fn scheme_store(&self) -> (r: &Arc<SchemeStore>)
        ensures
            *r == self.spec_scheme_store(),
    {
        &self.scheme_store
    }

    /// The definition of the function, if the store holds it.
    pub(crate) fn as_definition(&self) -> (r: Option<Arc<Box<dyn FunctionDefinition>>>)
        ensures
            self.is_known() ==> r == Some(self.spec_store().spec_functions()[self.spec_index() as int].1),
    {
        self.as_ref().as_definition()
    }

    /// Converts to a borrowed [`FunctionRef`].
    pub fn as_ref(&self) -> (r: FunctionRef<'_>)
        ensures
            r.spec_index() == self.spec_index(),
            r.spec_scheme_store() == self.spec_scheme_store(),
    {
        FunctionRef { scheme_store: &self.scheme_store, index: self.index }
    }
}

/// A list inside a scheme, borrowed from the scheme's store.
#[derive(Clone, Copy)]
pub struct ListRef<'s> {
    scheme_store: &'s Arc<SchemeStore>,
    index: usize,
}

impl<'s> ListRef<'s> {
    /// The index of the list in its store.
    pub closed spec fn spec_index(&self) -> usize {
        self.index
    }

    /// The store that the list belongs to.
    pub closed spec fn spec_scheme_store(&self) -> Arc<SchemeStore> {
        *self.scheme_store
    }

    /// The definitions that the list's store is known to hold.
    pub open spec fn spec_store(&self) -> StoreData {
        self.spec_scheme_store().known()
    }

    /// Whether the list's store is known to hold the list.
    pub open spec fn is_known(&self) -> bool {
        self.spec_index() < self.spec_store().list_types().len()
    }

    /// The index of the list in its store.
    pub(crate) fn index(&self) -> (r: usize)
        ensures
            r == self.spec_index(),
    {
        self.index
    }

    /// The store to which this list belongs.
    pub(crate) fn scheme_store(&self) -> (r: &'s Arc<SchemeStore>)
        ensures
            *r == self.spec_scheme_store(),
    {
        self.scheme_store
    }

    /// The definition of the list, if the store holds it.
    pub(crate) fn definition(&self) -> (r: Option<Arc<Box<dyn ListDefinition>>>)
        ensures
            self.is_known() ==> r == Some(self.spec_store().spec_lists()[self.spec_index() as int].1),
    {
        match self.scheme_store.list_at(self.index) {
            Some(entry) => Some(entry.1),
            None => None,
        }
    }

    /// Returns the type of the values of the list; `Bytes` for an index
    /// past the end of the store.
    pub fn get_type(&self) -> (r: Type)
        ensures
            self.is_known() ==> r == self.spec_store().list_types()[self.spec_index() as int],
    {
        match self.scheme_store.list_at(self.index) {
            Some(entry) => entry.0,
            None => Type::Bytes,
        }
    }

    /// Converts to an owned [`List`].
    pub fn to_owned(&self) -> (r: List)
        ensures
            r.spec_index() == self.spec_index(),
            r.spec_scheme_store() == self.spec_scheme_store(),
    {
        List { scheme_store: self.scheme_store.clone(), index: self.index }
    }

    /// Reborrows the list relatively to the specified store reference.
    ///
    /// The store must be the one that the list belongs to.
    pub fn reborrow(self, scheme_store: &Arc<SchemeStore>) -> (r: ListRef<'_>)
        requires
            *scheme_store == self.spec_scheme_store(),
        ensures
            r.spec_index() == self.spec_index(),
            r.spec_scheme_store() == self.spec_scheme_store(),
    {
        ListRef { scheme_store, index: self.index }
    }
}

/// A list inside a scheme, holding a share of the scheme's store.
pub struct List {
    scheme_store: Arc<SchemeStore>,
    index: usize,
}

impl Clone for List {
    fn clone(&self) -> (r: Self)
        ensures
            r.spec_index() == self.spec_index(),
            r.spec_scheme_store() == self.spec_scheme_store(),
    {
        List { scheme_store: self.scheme_store.clone(), index: self.index }
    }
}

impl List {
    /// The index of the list in its store.
    pub closed spec fn spec_index(&self) -> usize {
        self.index
    }

    /// The store that the list belongs to.
    pub closed spec fn spec_scheme_store(&self) -> Arc<SchemeStore> {
        self.scheme_store
    }

    /// The definitions that the list's store is known to hold.
    pub open spec fn spec_store(&self) -> StoreData {
        self.spec_scheme_store().known()
    }

    /// Whether the list's store is known to hold the list.
    pub open spec fn is_known(&self) -> bool {
        self.spec_index() < self.spec_store().list_types().len()
    }

    /// The index of the list in its store.
    pub(crate) fn index(&self) -> (r: usize)
        ensures
            r == self.spec_index(),
    {
        self.index
    }

    /// The store to which this list belongs.
    pub(crate) fn scheme_store(&self) -> (r: &Arc<SchemeStore>)
        ensures
            *r == self.spec_scheme_store(),
    {
        &self.scheme_store
    }

    /// Returns the type of the values of the list; `Bytes` for an index
    /// past the end of the store.
    pub fn get_type(&self) -> (r: Type)
        ensures
            self.is_known() ==> r == self.spec_store().list_types()[self.spec_index() as int],
    {
        self.as_ref().get_type()
    }

    /// Converts to a borrowed [`ListRef`].
    pub fn as_ref(&self) -> (r: ListRef<'_>)
        ensures
            r.spec_index() == self.spec_index(),
            r.spec_scheme_store() == self.spec_scheme_store(),
    {
        ListRef { scheme_store: &self.scheme_store, index: self.index }
    }
}

/// An index into a field's value: an array index, a map key, or every
/// element.
#[derive(Debug, PartialEq, Eq, Clone, Hash)]
pub enum FieldIndex {
    /// Index into an Array.
    ArrayIndex(u32),
    /// Key into a Map.
    MapKey(String),
    /// Map each element by applying a function or a comparison.
    MapEach,
}

/// An error when an index is invalid for a type.
#[derive(Debug, PartialEq, Eq)]
pub struct IndexAccessError {
    /// Index that could not be accessed.
    pub index: FieldIndex,
    /// Provided value type.
    pub actual: Type,
}

/// Whether an exec error is the given spec error.
pub open spec fn same_error(e: (LexErrorKind, usize, usize), spec: (LexErrorKind, int, int)) -> bool {
    e.0 == spec.0 && e.1 == spec.1 && e.2 == spec.2
}

impl FieldIndex {
    /// Lexes an index from the start of `input`: `*` for every element, a
    /// quoted UTF-8 string for a map key, or an integer that fits in 32
    /// unsigned bits for an array index. Positions count characters of
    /// `input`.
    pub fn lex(input: &str) -> (r: LexResult<FieldIndex>)
        ensures
            input@.len() > 0 && input@[0] == '*' ==> r == Ok::<(FieldIndex, usize), (LexErrorKind, usize, usize)>(
                (FieldIndex::MapEach, 1usize),
            ),
            input@.len() > 0 && input@[0] == '"' ==> match spec_quoted(input@, 1, 1, Seq::empty()) {
                Err(e) => r matches Err(err) && same_error(err, e),
                Ok((bytes, end)) => if vstd::utf8::valid_utf8(bytes) {
                    r matches Ok((FieldIndex::MapKey(key), p)) && key@ == vstd::utf8::decode_utf8(bytes)
                        && p == end
                } else {
                    r matches Err(err) && same_error(
                        err,
                        (LexErrorKind::ExpectedLiteral("expected utf8 string"), 0, input@.len() as int),
                    )
                },
            },
            !(input@.len() > 0 && (input@[0] == '*' || input@[0] == '"')) ==> match spec_lex_int(input@, 0) {
                Err(_) => r matches Err(err) && same_error(
                    err,
                    (
                        LexErrorKind::ExpectedLiteral("expected quoted utf8 string or positive integer"),
                        0,
                        input@.len() as int,
                    ),
                ),
                Ok((v, end)) => if 0 <= v <= u32::MAX {
                    r matches Ok((FieldIndex::ArrayIndex(i), p)) && i == v && p == end
                } else {
                    r matches Err(err) && same_error(
                        err,
                        (LexErrorKind::ExpectedLiteral("expected positive integer as index"), 0, input@.len() as int),
                    )
                },
            },
    {
        let chars = chars_of(input);
        let len = chars.len();
        if len > 0 && chars[0] == '*' {
            return Ok((FieldIndex::MapEach, 1));
        }
        if len > 0 && chars[0] == '"' {
            match lex_quoted_bytes(&chars, 1) {
                Err(e) => Err(e),
                Ok((bytes, end)) => match string_from_utf8(bytes) {
                    Some(key) => Ok((FieldIndex::MapKey(key), end)),
                    None => Err((LexErrorKind::ExpectedLiteral("expected utf8 string"), 0, len)),
                },
            }
        } else {
            match lex_int(&chars, 0) {
                Err(_) => Err(
                    (LexErrorKind::ExpectedLiteral("expected quoted utf8 string or positive integer"), 0, len),
                ),
                Ok((v, end)) => if 0 <= v && v <= 4294967295i64 {
                    Ok((FieldIndex::ArrayIndex(v as u32), end))
                } else {
                    Err((LexErrorKind::ExpectedLiteral("expected positive integer as index"), 0, len))
                },
            }
        }
    }
}

impl Scheme {
    /// Lexes a dotted name from `pos` and finds what it stands for.
    pub(crate) fn lex_identifier(&self, input: &Vec<char>, pos: usize) -> (r: Result<
        (Identifier<'_>, usize),
        (LexErrorKind, usize, usize),
    >)
        requires
            pos <= input@.len(),
        ensures
            match spec_dotted_name(input@, pos as int) {
                Err(p) => r matches Err(err) && same_error(
                    err,
                    (LexErrorKind::ExpectedName("identifier character"), p, input@.len() - p),
                ),
                Ok(e) => match self.lookup(input@.subrange(pos as int, e)) {
                    None => r matches Err(err) && same_error(err, (LexErrorKind::UnknownIdentifier, pos as int, e - pos)),
                    Some(SchemeItem::Field(k)) => r matches Ok((Identifier::Field(f), p)) && f.spec_index() == k
                        && f.spec_store() == self.store() && p == e,
                    Some(SchemeItem::Function(k)) => r matches Ok((Identifier::Function(f), p)) && f.spec_index()
                        == k && f.spec_store() == self.store() && p == e,
                },
            },
    {
        let len = input.len();
        proof {
            crate::lex::lemma_dotted_name_bounds(input@, pos as int);
        }
        match lex_dotted_name(input, pos) {
            Err(e) => Err(e),
            Ok(end) => {
                let name = string_of(input, pos, end);
                match self.get(name.as_str()) {
                    Some(identifier) => Ok((identifier, end)),
                    None => Err((LexErrorKind::UnknownIdentifier, pos, end - pos)),
                }
            },
        }
    }
}

impl<'s> FieldRef<'s> {
    /// Lexes the name of a field of `scheme` from the start of `input`.
    /// Positions count characters of `input`.
    pub fn lex_with(input: &str, scheme: &'s Scheme) -> (r: LexResult<FieldRef<'s>>)
        ensures
            match spec_dotted_name(input@, 0) {
                Err(p) => r matches Err(err) && same_error(
                    err,
                    (LexErrorKind::ExpectedName("identifier character"), p, input@.len() - p),
                ),
                Ok(e) => match scheme.lookup(input@.subrange(0, e)) {
                    Some(SchemeItem::Field(k)) => r matches Ok((f, p)) && f.spec_index() == k && f.spec_store()
                        == scheme.store() && p == e,
                    _ => r matches Err(err) && same_error(
                        err,
                        (LexErrorKind::UnknownField(UnknownFieldError), 0, e),
                    ),
                },
            },
    {
        let chars = chars_of(input);
        match scheme.lex_identifier(&chars, 0) {
            Ok((Identifier::Field(f), rest)) => Ok((f, rest)),
            Ok((Identifier::Function(_), rest)) => Err((LexErrorKind::UnknownField(UnknownFieldError), 0, rest)),
            Err((LexErrorKind::UnknownIdentifier, start, len)) => Err(
                (LexErrorKind::UnknownField(UnknownFieldError), start, len),
            ),
            Err(err) => Err(err),
        }
    }
}

impl<'s> FunctionRef<'s> {
    /// Lexes the name of a function of `scheme` from the start of `input`.
    /// Positions count characters of `input`.
    pub fn lex_with(input: &str, scheme: &'s Scheme) -> (r: LexResult<FunctionRef<'s>>)
        ensures
            match spec_dotted_name(input@, 0) {
                Err(p) => r matches Err(err) && same_error(
                    err,
                    (LexErrorKind::ExpectedName("identifier character"), p, input@.len() - p),
                ),
                Ok(e) => match scheme.lookup(input@.subrange(0, e)) {
                    Some(SchemeItem::Function(k)) => r matches Ok((f, p)) && f.spec_index() == k && f.spec_store()
                        == scheme.store() && p == e,
                    _ => r matches Err(err) && same_error(
                        err,
                        (LexErrorKind::UnknownFunction(UnknownFunctionError), 0, e),
                    ),
                },
            },
    {
        let chars = chars_of(input);
        match scheme.lex_identifier(&chars, 0) {
            Ok((Identifier::Function(f), rest)) => Ok((f, rest)),
            Ok((Identifier::Field(_), rest)) => Err((LexErrorKind::UnknownFunction(UnknownFunctionError), 0, rest)),
            Err((LexErrorKind::UnknownIdentifier, start, len)) => Err(
                (LexErrorKind::UnknownFunction(UnknownFunctionError), start, len),
            ),
            Err(err) => Err(err),
        }
    }
}

} // verus!
