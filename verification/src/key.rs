//! Service and event keys.

use std::any::TypeId;
use std::marker::PhantomData;

use crate::text::{decimal, decimal_text, str_eq};
use vstd::prelude::*;

verus! {

#[verifier::external_type_specification]
#[verifier::external_body]
pub struct ExTypeId(TypeId);

/// `TypeId::of`, of which nothing is claimed here but that it can be called.
pub assume_specification<T: ?Sized + 'static>[ TypeId::of::<T> ]() -> (id: TypeId);

/// The identity of the type `T`: the one that `TypeId::of` gives for it.
pub open spec fn type_identity<T: ?Sized + 'static>() -> TypeId {
    choose|id: TypeId| call_ensures(TypeId::of::<T>, (), id)
}

/// `TypeId::of`: the identity of the type `T`, the same one at every call. That
/// different types have different identities is not claimed.
#[verifier::external_body]
pub(crate) fn type_id_of<T: ?Sized + 'static>() -> (id: TypeId)
    ensures
        id == type_identity::<T>(),
{
    TypeId::of::<T>()
}

/// `TypeId`'s equality: true exactly on one and the same identity.
#[verifier::external_body]
pub(crate) fn same_type(a: &TypeId, b: &TypeId) -> (same: bool)
    ensures
        same == (*a == *b),
{
    a == b
}

/// `TypeId`'s hashing. Nothing is claimed of what reaches the hasher.
pub assume_specification<H: std::hash::Hasher>[ <TypeId as std::hash::Hash>::hash ](
    id: &TypeId,
    state: &mut H,
);

/// `str`'s hashing. Nothing is claimed of what reaches the hasher.
pub assume_specification<H: std::hash::Hasher>[ <str as std::hash::Hash>::hash ](
    text: &str,
    state: &mut H,
);

/// `Option`'s hashing. Nothing is claimed of what reaches the hasher.
pub assume_specification<T: std::hash::Hash, H: std::hash::Hasher>[ <Option<
    T,
> as std::hash::Hash>::hash ](value: &Option<T>, state: &mut H);

/// A fiber identity. Identities are never reused, including after shutdown.
#[derive(Clone, Copy, Debug, PartialEq, Eq, Hash, Structural)]
pub struct InstanceId {
    value: u64,
}

impl InstanceId {
    /// The number behind the identity.
    pub closed spec fn number(&self) -> u64 {
        self.value
    }

    /// Draws a fresh identity: the next number of `ids`, which moves on by one. It
    /// is never zero.
    pub fn allocate(ids: &mut InstanceIds) -> (id: InstanceId)
        requires
            old(ids).upcoming() < u64::MAX,
        ensures
            id.number() == old(ids).upcoming(),
            id.number() >= 1,
            final(ids).upcoming() == old(ids).upcoming() + 1,
    {
        proof {
            use_type_invariant(&*ids);
        }
        let value: u64 = ids.next;
        ids.next = value + 1;
        InstanceId { value }
    }

    /// The identity in decimal.
    pub fn to_text(&self) -> (out: String)
        ensures
            out@ == decimal(self.number() as nat),
    {
        decimal_text(self.value)
    }
}

/// The source of fiber identities. Numbering starts at one.
pub struct InstanceIds {
    next: u64,
}

impl InstanceIds {
    #[verifier::type_invariant]
    spec fn starts_at_one(self) -> bool {
        self.next >= 1
    }

    /// The number that the next identity gets.
    pub closed spec fn upcoming(&self) -> u64 {
        self.next
    }

    pub fn new() -> (ids: Self)
        ensures
            ids.upcoming() == 1,
    {
        InstanceIds { next: 1 }
    }

    /// Whether no further identity can be drawn.
    pub fn exhausted(&self) -> (none_left: bool)
        ensures
            none_left == (self.upcoming() == u64::MAX),
    {
        self.next == u64::MAX
    }
}

/// Of two identities drawn one after the other, with any number of draws between
/// them, the later one has the larger number, so that no identity is drawn twice.
pub proof fn instance_ids_are_not_reused(
    first: InstanceId,
    second: InstanceId,
    after_first: u64,
    before_second: u64,
)
    requires
        after_first == first.number() + 1,
        after_first <= before_second,
        second.number() == before_second,
    ensures
        first.number() < second.number(),
        first != second,
{
}

/// The qualifier of a key: a fixed name, or one made at run time. Both kinds
/// mean the same name when their text is the same.
#[derive(Clone, Debug)]
pub enum Qualifier {
    Static(&'static str),
    Dynamic(String),
}

impl Qualifier {
    /// The name itself.
    pub open spec fn text(&self) -> Seq<char> {
        match self {
            Qualifier::Static(s) => s@,
            Qualifier::Dynamic(s) => s@,
        }
    }

    pub fn as_str(&self) -> (name: &str)
        ensures
            name@ == self.text(),
    {
        match self {
            Qualifier::Static(s) => s,
            Qualifier::Dynamic(s) => s.as_str(),
        }
    }

    fn duplicate(&self) -> (copy: Qualifier)
        ensures
            copy == *self,
    {
        match self {
            Qualifier::Static(s) => Qualifier::Static(s),
            Qualifier::Dynamic(s) => Qualifier::Dynamic(s.clone()),
        }
    }
}

impl PartialEq for Qualifier {
    fn eq(&self, other: &Self) -> (same: bool) {
        str_eq(self.as_str(), other.as_str())
    }
}

impl vstd::std_specs::cmp::PartialEqSpecImpl for Qualifier {
    open spec fn obeys_eq_spec() -> bool {
        true
    }

    open spec fn eq_spec(&self, other: &Self) -> bool {
        self.text() == other.text()
    }
}

impl Eq for Qualifier {
}

impl std::hash::Hash for Qualifier {
    fn hash<H: std::hash::Hasher>(&self, state: &mut H) {
        self.as_str().hash(state);
    }
}

/// What a key stands for, and all that its equality looks at.
pub struct KeyIdentity {
    pub type_id: TypeId,
    pub qualifier: Option<Seq<char>>,
    pub instance: Option<InstanceId>,
}

/// A service or event key: a type, an optional qualifier and an optional owning
/// instance. The label describes the type in diagnostics and takes no part in
/// equality.
#[derive(Debug)]
pub struct TypeKey {
    type_id: TypeId,
    label: &'static str,
    qualifier: Option<Qualifier>,
    instance: Option<InstanceId>,
}

/// The key type of services.
pub type ServiceKey = TypeKey;

/// Name of an isolation scope. Equal text means the same scope.
pub type ScopeId = String;

impl TypeKey {
    pub closed spec fn identity(&self) -> KeyIdentity {
        KeyIdentity {
            type_id: self.type_id,
            qualifier: match self.qualifier {
                Some(q) => Some(q.text()),
                None => None,
            },
            instance: self.instance,
        }
    }

    /// The diagnostic name of the key's type.
    pub closed spec fn type_label(&self) -> Seq<char> {
        self.label@
    }

    /// The text that `describe` gives: label, `#` and qualifier, `@` and
    /// instance, each of the latter two where the key has it.
    pub open spec fn description(&self) -> Seq<char> {
        let base = match self.identity().qualifier {
            Some(q) => self.type_label().push('#') + q,
            None => self.type_label(),
        };
        match self.identity().instance {
            Some(id) => base.push('@') + decimal(id.number() as nat),
            None => base,
        }
    }

    /// The key made of the given parts.
    pub fn from_parts(
        type_id: TypeId,
        label: &'static str,
        qualifier: Option<Qualifier>,
        instance: Option<InstanceId>,
    ) -> (key: TypeKey)
        ensures
            key.identity().type_id == type_id,
            key.identity().qualifier == (match qualifier {
                Some(q) => Some(q.text()),
                None => None,
            }),
            key.identity().instance == instance,
            key.type_label() == label@,
    {
        TypeKey { type_id, label, qualifier, instance }
    }

    /// Whether the key is for values of the type behind `wanted`.
    pub fn has_type(&self, wanted: &TypeId) -> (same: bool)
        ensures
            same == (self.identity().type_id == *wanted),
    {
        same_type(&self.type_id, wanted)
    }

    /// The diagnostic name of the key's type.
    pub fn label(&self) -> (name: &'static str)
        ensures
            name@ == self.type_label(),
    {
        self.label
    }

    /// The primary key of type `T`, described as `label`.
    pub fn of<T: ?Sized + 'static>(label: &'static str) -> (key: Self)
        ensures
            key.identity().type_id == type_identity::<T>(),
            key.identity().qualifier is None,
            key.identity().instance is None,
            key.type_label() == label@,
    {
        TypeKey::from_parts(type_id_of::<T>(), label, None, None)
    }

    /// A key of type `T` under a fixed name.
    pub fn keyed<T: ?Sized + 'static>(label: &'static str, qualifier: &'static str) -> (key: Self)
        ensures
            key.identity().type_id == type_identity::<T>(),
            key.identity().qualifier == Some(qualifier@),
            key.identity().instance is None,
            key.type_label() == label@,
    {
        TypeKey::from_parts(type_id_of::<T>(), label, Some(Qualifier::Static(qualifier)), None)
    }

    /// A key of type `T` under a name made at run time.
    pub fn keyed_dynamic<T: ?Sized + 'static>(label: &'static str, name: String) -> (key: Self)
        ensures
            key.identity().type_id == type_identity::<T>(),
            key.identity().qualifier == Some(name@),
            key.identity().instance is None,
            key.type_label() == label@,
    {
        TypeKey::from_parts(type_id_of::<T>(), label, Some(Qualifier::Dynamic(name)), None)
    }

    /// The key of type `T` that is owned by one fiber instance.
    pub fn instance<T: ?Sized + 'static>(label: &'static str, id: InstanceId) -> (key: Self)
        ensures
            key.identity().type_id == type_identity::<T>(),
            key.identity().qualifier is None,
            key.identity().instance == Some(id),
            key.type_label() == label@,
    {
        TypeKey::of::<T>(label).with_instance(id)
    }

    /// The same key, owned by the fiber instance `id`.
    pub fn with_instance(self, id: InstanceId) -> (key: Self)
        ensures
            key.identity() == (KeyIdentity { instance: Some(id), ..self.identity() }),
            key.type_label() == self.type_label(),
    {
        TypeKey {
            type_id: self.type_id,
            label: self.label,
            qualifier: self.qualifier,
            instance: Some(id),
        }
    }

    /// The fiber instance that owns the key, if one does.
    pub fn instance_id(&self) -> (id: Option<InstanceId>)
        ensures
            id == self.identity().instance,
    {
        self.instance
    }

    /// Readable form of the key.
    pub fn describe(&self) -> (out: String)
        ensures
            out@ == self.description(),
    {
        let mut out = self.label.to_owned();
        if let Some(q) = &self.qualifier {
            out.push('#');
            out.push_str(q.as_str());
        }
        if let Some(id) = self.instance {
            out.push('@');
            out.push_str(id.to_text().as_str());
        }
        out
    }
}

impl Clone for TypeKey {
    fn clone(&self) -> (copy: Self)
        ensures
            copy == *self,
    {
        TypeKey {
            type_id: self.type_id,
            label: self.label,
            qualifier: match &self.qualifier {
                Some(q) => Some(q.duplicate()),
                None => None,
            },
            instance: self.instance,
        }
    }
}

impl PartialEq for TypeKey {
    fn eq(&self, other: &Self) -> (same: bool) {
        let same_qualifier = match (&self.qualifier, &other.qualifier) {
            (Some(a), Some(b)) => str_eq(a.as_str(), b.as_str()),
            (None, None) => true,
            _ => false,
        };
        let same_instance = match (self.instance, other.instance) {
            (Some(a), Some(b)) => a == b,
            (None, None) => true,
            _ => false,
        };
        same_type(&self.type_id, &other.type_id) && same_qualifier && same_instance
    }
}

impl vstd::std_specs::cmp::PartialEqSpecImpl for TypeKey {
    open spec fn obeys_eq_spec() -> bool {
        true
    }

    open spec fn eq_spec(&self, other: &Self) -> bool {
        self.identity() == other.identity()
    }
}

impl Eq for TypeKey {
}

impl std::hash::Hash for TypeKey {
    fn hash<H: std::hash::Hasher>(&self, state: &mut H) {
        self.type_id.hash(state);
        self.qualifier.hash(state);
        self.instance.hash(state);
    }
}

/// A typed constant name for a qualified key of `T`.
pub struct Key<T: ?Sized + 'static> {
    name: &'static str,
    label: &'static str,
    marker: PhantomData<T>,
}

impl<T: ?Sized + 'static> Key<T> {
    /// The qualifier of the key.
    pub closed spec fn qualifier(&self) -> Seq<char> {
        self.name@
    }

    pub closed spec fn type_label(&self) -> Seq<char> {
        self.label@
    }

    pub fn new(label: &'static str, name: &'static str) -> (key: Self)
        ensures
            key.qualifier() == name@,
            key.type_label() == label@,
    {
        Key { name, label, marker: PhantomData }
    }

    /// The key of `T` under this name.
    pub closed spec fn key(self) -> TypeKey {
        TypeKey {
            type_id: type_identity::<T>(),
            label: self.label,
            qualifier: Some(Qualifier::Static(self.name)),
            instance: None,
        }
    }

    /// The key of `T` under this name.
    pub fn into_key(self) -> (key: TypeKey)
        ensures
            key == self.key(),
            key.identity().type_id == type_identity::<T>(),
            key.identity().qualifier == Some(self.qualifier()),
            key.identity().instance is None,
            key.type_label() == self.type_label(),
    {
        TypeKey {
            type_id: type_id_of::<T>(),
            label: self.label,
            qualifier: Some(Qualifier::Static(self.name)),
            instance: None,
        }
    }
}

impl<T: ?Sized + 'static> From<Key<T>> for TypeKey {
    fn from(key: Key<T>) -> (out: Self)
        ensures
            out.identity() == (KeyIdentity {
                type_id: type_identity::<T>(),
                qualifier: Some(key.qualifier()),
                instance: None,
            }),
            out.type_label() == key.type_label(),
    {
        key.into_key()
    }
}

impl<T: ?Sized + 'static> vstd::std_specs::convert::FromSpecImpl<Key<T>> for TypeKey {
    open spec fn obeys_from_spec() -> bool {
        true
    }

    open spec fn from_spec(key: Key<T>) -> Self {
        key.key()
    }
}

/// A typed name makes the key of its type under its qualifier: the one that
/// `TypeKey::keyed` makes.
pub proof fn typed_names_make_qualified_keys<T: ?Sized + 'static>(key: Key<T>)
    ensures
        key.key().identity() == (KeyIdentity {
            type_id: type_identity::<T>(),
            qualifier: Some(key.qualifier()),
            instance: None,
        }),
        key.key().type_label() == key.type_label(),
{
}

/// Whether two scopes are the same: both absent, or both with the same text.
pub open spec fn same_scope(a: Option<ScopeId>, b: Option<ScopeId>) -> bool {
    match (a, b) {
        (Some(x), Some(y)) => x@ == y@,
        (None, None) => true,
        _ => false,
    }
}

pub fn scope_eq(a: &Option<ScopeId>, b: &Option<ScopeId>) -> (same: bool)
    ensures
        same == same_scope(*a, *b),
{
    match (a, b) {
        (Some(x), Some(y)) => str_eq(x.as_str(), y.as_str()),
        (None, None) => true,
        _ => false,
    }
}

pub fn clone_scope(scope: &Option<ScopeId>) -> (copy: Option<ScopeId>)
    ensures
        copy == *scope,
{
    match scope {
        Some(s) => Some(s.clone()),
        None => None,
    }
}

/// What `==` means for keys.
pub open spec fn same_key(a: TypeKey, b: TypeKey) -> bool {
    a.identity() == b.identity()
}

/// Key equality is an equivalence, and the label has no say in it.
pub proof fn key_equality_is_an_equivalence(a: TypeKey, b: TypeKey, c: TypeKey)
    ensures
        same_key(a, a),
        same_key(a, b) ==> same_key(b, a),
        same_key(a, b) && same_key(b, c) ==> same_key(a, c),
{
}

/// A fixed name and a run-time name mean the same qualifier when their text is
/// the same.
pub proof fn static_and_dynamic_names_agree(fixed: &'static str, made: String)
    ensures
        Qualifier::Static(fixed).text() == Qualifier::Dynamic(made).text() <==> fixed@ == made@,
{
}

/// The key of a type that an instance owns is the type's primary key, given that
/// owner, and another key than the primary one.
pub proof fn instance_keys_are_not_primary<T: ?Sized + 'static>(
    primary: TypeKey,
    owned: TypeKey,
    id: InstanceId,
)
    requires
        primary.identity() == (KeyIdentity {
            type_id: type_identity::<T>(),
            qualifier: None,
            instance: None,
        }),
        owned.identity() == (KeyIdentity {
            type_id: type_identity::<T>(),
            qualifier: None,
            instance: Some(id),
        }),
    ensures
        owned.identity() == (KeyIdentity { instance: Some(id), ..primary.identity() }),
        !same_key(primary, owned),
{
}

/// Keys owned by different instances are different keys.
pub proof fn instances_separate_keys(a: TypeKey, b: TypeKey, one: InstanceId, two: InstanceId)
    requires
        a.identity().instance == Some(one),
        b.identity().instance == Some(two),
        one != two,
    ensures
        !same_key(a, b),
{
}

} // verus!
