use crate::keys::Key;
use std::marker::PhantomData;
use vstd::prelude::*;

verus! {

/// What the store of the simulation carries: a value, tagged with its type.
#[derive(Debug)]
pub enum Value {
    Bool(bool),
    Unsigned(u64),
    Signed(i64),
    Key(Key),
    MaybeKey(Option<Key>),
}

/// A type of values that a store which carries `C` can keep.
///
/// Each such type is carried by some of the values of `C`: with a `C` that
/// is an enum, by those of one variant. A value of the type is packed when it
/// enters the store, and recovered, after a check, each time it is asked for.
/// A model that keeps values of its own types brings its own `C`, and says
/// with this trait which type goes with which of its variants.
pub trait Stored<C>: Sized {
    /// Whether `carried` carries a value of this type.
    spec fn held_in(carried: C) -> bool;

    /// `self` as the store keeps it.
    spec fn packed(self) -> C;

    /// The value of this type that `carried` carries, where it carries one.
    spec fn unpacked(carried: C) -> Self;

    /// What was packed is recovered as it was.
    proof fn lemma_unpack_packed(self)
        ensures
            Self::held_in(self.packed()),
            Self::unpacked(self.packed()) == self,
    ;

    /// What carries a value of this type is that value, packed.
    proof fn lemma_pack_unpacked(carried: C)
        requires
            Self::held_in(carried),
        ensures
            Self::unpacked(carried).packed() == carried,
    ;

    /// Packs `self` for the store.
    fn pack(self) -> (carried: C)
        ensures
            carried == self.packed(),
    ;

    /// Recovers the value that `carried` carries, if it is of this type.
    fn unpack(carried: C) -> (recovered: Option<Self>)
        ensures
            recovered == (if Self::held_in(carried) {
                Some(Self::unpacked(carried))
            } else {
                None
            }),
    ;

    /// Borrows the value that `carried` carries, if it is of this type.
    fn peek(carried: &C) -> (recovered: Option<&Self>)
        ensures
            recovered == (if Self::held_in(*carried) {
                Some(&Self::unpacked(*carried))
            } else {
                None
            }),
    ;

    /// Borrows the value that `carried` carries, to be changed in place, if
    /// it is of this type.
    fn peek_mut(carried: &mut C) -> (recovered: Option<&mut Self>)
        ensures
            match recovered {
                Some(inner) => {
                    &&& Self::held_in(*old(carried))
                    &&& *inner == Self::unpacked(*old(carried))
                    &&& *final(carried) == (*final(inner)).packed()
                },
                None => !Self::held_in(*old(carried)) && *final(carried) == *old(carried),
            },
    ;
}

/// Every type can be kept by the store that carries it: there a value is
/// kept as it is, and every slot holds a value of the type.
impl<C> Stored<C> for C {
    open spec fn held_in(carried: C) -> bool {
        true
    }

    open spec fn packed(self) -> C {
        self
    }

    open spec fn unpacked(carried: C) -> C {
        carried
    }

    proof fn lemma_unpack_packed(self) {
    }

    proof fn lemma_pack_unpacked(carried: C) {
    }

    fn pack(self) -> (carried: C) {
        self
    }

    fn unpack(carried: C) -> (recovered: Option<C>) {
        Some(carried)
    }

    fn peek(carried: &C) -> (recovered: Option<&C>) {
        Some(carried)
    }

    fn peek_mut(carried: &mut C) -> (recovered: Option<&mut C>) {
        Some(carried)
    }
}

impl Stored<Value> for bool {
    open spec fn held_in(value: Value) -> bool {
        value is Bool
    }

    open spec fn packed(self) -> Value {
        Value::Bool(self)
    }

    open spec fn unpacked(value: Value) -> bool {
        value->Bool_0
    }

    proof fn lemma_unpack_packed(self) {
    }

    proof fn lemma_pack_unpacked(value: Value) {
    }

    fn pack(self) -> (value: Value) {
        Value::Bool(self)
    }

    fn unpack(value: Value) -> (recovered: Option<bool>) {
        match value {
            Value::Bool(inner) => Some(inner),
            _ => None,
        }
    }

    fn peek(value: &Value) -> (recovered: Option<&bool>) {
        match value {
            Value::Bool(inner) => Some(inner),
            _ => None,
        }
    }

    fn peek_mut(value: &mut Value) -> (recovered: Option<&mut bool>) {
        match value {
            Value::Bool(inner) => Some(inner),
            _ => None,
        }
    }
}

impl Stored<Value> for u64 {
    open spec fn held_in(value: Value) -> bool {
        value is Unsigned
    }

    open spec fn packed(self) -> Value {
        Value::Unsigned(self)
    }

    open spec fn unpacked(value: Value) -> u64 {
        value->Unsigned_0
    }

    proof fn lemma_unpack_packed(self) {
    }

    proof fn lemma_pack_unpacked(value: Value) {
    }

    fn pack(self) -> (value: Value) {
        Value::Unsigned(self)
    }

    fn unpack(value: Value) -> (recovered: Option<u64>) {
        match value {
            Value::Unsigned(inner) => Some(inner),
            _ => None,
        }
    }

    fn peek(value: &Value) -> (recovered: Option<&u64>) {
        match value {
            Value::Unsigned(inner) => Some(inner),
            _ => None,
        }
    }

    fn peek_mut(value: &mut Value) -> (recovered: Option<&mut u64>) {
        match value {
            Value::Unsigned(inner) => Some(inner),
            _ => None,
        }
    }
}

impl Stored<Value> for i64 {
    open spec fn held_in(value: Value) -> bool {
        value is Signed
    }

    open spec fn packed(self) -> Value {
        Value::Signed(self)
    }

    open spec fn unpacked(value: Value) -> i64 {
        value->Signed_0
    }

    proof fn lemma_unpack_packed(self) {
    }

    proof fn lemma_pack_unpacked(value: Value) {
    }

    fn pack(self) -> (value: Value) {
        Value::Signed(self)
    }

    fn unpack(value: Value) -> (recovered: Option<i64>) {
        match value {
            Value::Signed(inner) => Some(inner),
            _ => None,
        }
    }

    fn peek(value: &Value) -> (recovered: Option<&i64>) {
        match value {
            Value::Signed(inner) => Some(inner),
            _ => None,
        }
    }

    fn peek_mut(value: &mut Value) -> (recovered: Option<&mut i64>) {
        match value {
            Value::Signed(inner) => Some(inner),
            _ => None,
        }
    }
}

impl Stored<Value> for Key {
    open spec fn held_in(value: Value) -> bool {
        value is Key
    }

    open spec fn packed(self) -> Value {
        Value::Key(self)
    }

    open spec fn unpacked(value: Value) -> Key {
        value->Key_0
    }

    proof fn lemma_unpack_packed(self) {
    }

    proof fn lemma_pack_unpacked(value: Value) {
    }

    fn pack(self) -> (value: Value) {
        Value::Key(self)
    }

    fn unpack(value: Value) -> (recovered: Option<Key>) {
        match value {
            Value::Key(inner) => Some(inner),
            _ => None,
        }
    }

    fn peek(value: &Value) -> (recovered: Option<&Key>) {
        match value {
            Value::Key(inner) => Some(inner),
            _ => None,
        }
    }

    fn peek_mut(value: &mut Value) -> (recovered: Option<&mut Key>) {
        match value {
            Value::Key(inner) => Some(inner),
            _ => None,
        }
    }
}

impl Stored<Value> for Option<Key> {
    open spec fn held_in(value: Value) -> bool {
        value is MaybeKey
    }

    open spec fn packed(self) -> Value {
        Value::MaybeKey(self)
    }

    open spec fn unpacked(value: Value) -> Option<Key> {
        value->MaybeKey_0
    }

    proof fn lemma_unpack_packed(self) {
    }

    proof fn lemma_pack_unpacked(value: Value) {
    }

    fn pack(self) -> (value: Value) {
        Value::MaybeKey(self)
    }

    fn unpack(value: Value) -> (recovered: Option<Option<Key>>) {
        match value {
            Value::MaybeKey(inner) => Some(inner),
            _ => None,
        }
    }

    fn peek(value: &Value) -> (recovered: Option<&Option<Key>>) {
        match value {
            Value::MaybeKey(inner) => Some(inner),
            _ => None,
        }
    }

    fn peek_mut(value: &mut Value) -> (recovered: Option<&mut Option<Key>>) {
        match value {
            Value::MaybeKey(inner) => Some(inner),
            _ => None,
        }
    }
}

/// Handle of one slot of a [`State`], tagged with the type of the value that
/// was put there. Only [`State::insert`] makes one.
#[derive(Debug)]
pub struct StateKey<V> {
    id: usize,
    value: PhantomData<V>,
}

impl<V> Clone for StateKey<V> {
    fn clone(&self) -> (copy: StateKey<V>)
        ensures
            copy == *self,
    {
        StateKey { id: self.id, value: PhantomData }
    }
}

impl<V> Copy for StateKey<V> {

}

impl<V> StateKey<V> {
    /// The index of the slot this handle names.
    pub closed spec fn index(self) -> nat {
        self.id as nat
    }

    #[must_use]
    fn new(id: usize) -> (key: StateKey<V>)
        ensures
            key.index() == id,
    {
        StateKey { id, value: PhantomData }
    }

    /// The index of the slot this handle names.
    #[must_use]
    pub fn id(self) -> (id: usize)
        ensures
            id == self.index(),
    {
        self.id
    }
}

/// What slot `i` of `store` holds, or `None` where it is empty or there is no
/// such slot.
pub open spec fn slot_at<C>(store: Seq<Option<C>>, i: nat) -> Option<C> {
    if i < store.len() {
        store[i as int]
    } else {
        None
    }
}

/// What slot `i` of `store` holds is, if anything, a value of type `V`.
pub open spec fn fits<V: Stored<C>, C>(store: Seq<Option<C>>, i: nat) -> bool {
    slot_at(store, i) is Some ==> V::held_in(slot_at(store, i)->0)
}

/// The value of type `V` in slot `i` of `store`, or `None` where the slot is
/// empty or there is no such slot.
pub open spec fn stored<V: Stored<C>, C>(store: Seq<Option<C>>, i: nat) -> Option<V> {
    match slot_at(store, i) {
        Some(value) => Some(V::unpacked(value)),
        None => None,
    }
}

/// `store` with slot `i`, if there is one, set to `slot`.
pub open spec fn with_slot<C>(store: Seq<Option<C>>, i: nat, slot: Option<C>) -> Seq<Option<C>> {
    if i < store.len() {
        store.update(i as int, slot)
    } else {
        store
    }
}

/// A value that is put into a fresh slot is found there, as it was, until it
/// is removed; once removed, the slot is empty, for a look and for a second
/// removal alike.
pub proof fn lemma_store_round_trip<V: Stored<C>, C>(store: Seq<Option<C>>, value: V)
    ensures
        fits::<V, C>(store.push(Some(value.packed())), store.len()),
        stored::<V, C>(store.push(Some(value.packed())), store.len()) == Some(value),
        stored::<V, C>(with_slot(store.push(Some(value.packed())), store.len(), None), store.len())
            == None::<V>,
        fits::<V, C>(with_slot(store.push(Some(value.packed())), store.len(), None), store.len()),
{
    value.lemma_unpack_packed();
}

/// A slot that is given back the value it holds is as it was: to look at a
/// value through [`State::get_mut`] without changing it changes nothing.
pub proof fn lemma_store_same_value<V: Stored<C>, C>(store: Seq<Option<C>>, i: nat)
    requires
        fits::<V, C>(store, i),
        stored::<V, C>(store, i) is Some,
    ensures
        with_slot(store, i, Some(stored::<V, C>(store, i)->0.packed())) == store,
{
    V::lemma_pack_unpacked(slot_at(store, i)->0);
    assert(with_slot(store, i, Some(stored::<V, C>(store, i)->0.packed())) =~= store);
}

/// The shared store: values of different types, each in a slot of its own,
/// reached through the typed handle that [`State::insert`] returned for it.
/// Slots are filled in order and never reused.
///
/// The store carries values of `C`, and keeps the types that are [`Stored`]
/// in `C`. Where nothing else is said it carries [`Value`]; a model that
/// keeps values of its own types says what its store carries.
#[derive(Debug)]
pub struct State<C = Value> {
    store: Vec<Option<C>>,
}

impl<C> View for State<C> {
    type V = Seq<Option<C>>;

    closed spec fn view(&self) -> Seq<Option<C>> {
        self.store@
    }
}

impl<C> Default for State<C> {
    fn default() -> (state: State<C>)
        ensures
            state@ == Seq::<Option<C>>::empty(),
    {
        State { store: Vec::new() }
    }
}

impl<C> State<C> {
    /// Puts `value` into a fresh slot and returns the handle of that slot.
    pub fn insert<V: Stored<C>>(&mut self, value: V) -> (key: StateKey<V>)
        ensures
            key.index() == old(self)@.len(),
            final(self)@ == old(self)@.push(Some(value.packed())),
    {
        let id = self.store.len();
        self.store.push(Some(value.pack()));
        StateKey::new(id)
    }

    /// Whether the slot that `key` names can be reached through `key`: it is
    /// empty, or not there, or holds a value of type `V`. That is so for
    /// every handle that this store has handed out.
    pub fn fits<V: Stored<C>>(&self, key: StateKey<V>) -> (r: bool)
        ensures
            r == fits::<V, C>(self@, key.index()),
    {
        if key.id < self.store.len() {
            match &self.store[key.id] {
                Some(value) => V::peek(value).is_some(),
                None => true,
            }
        } else {
            true
        }
    }

    /// Takes the value out of the slot that `key` names, which stays empty
    /// from then on. `None` where the slot is empty already, or where there
    /// is no such slot.
    ///
    /// The slot must not hold a value of another type than `V`, as it cannot
    /// where `key` comes from this store.
    pub fn remove<V: Stored<C>>(&mut self, key: StateKey<V>) -> (removed: Option<V>)
        requires
            fits::<V, C>(old(self)@, key.index()),
        ensures
            removed == stored::<V, C>(old(self)@, key.index()),
            final(self)@ == with_slot(old(self)@, key.index(), None),
    {
        if key.id < self.store.len() {
            match self.store[key.id].take() {
                Some(value) => match V::unpack(value) {
                    Some(removed) => Some(removed),
                    None => vstd::pervasive::unreached(),
                },
                None => {
                    assert(self@ =~= old(self)@);
                    None
                },
            }
        } else {
            None
        }
    }

    /// The value in the slot that `key` names. `None` where the slot is
    /// empty, or where there is no such slot.
    ///
    /// The slot must not hold a value of another type than `V`, as it cannot
    /// where `key` comes from this store.
    pub fn get<V: Stored<C>>(&self, key: StateKey<V>) -> (found: Option<&V>)
        requires
            fits::<V, C>(self@, key.index()),
        ensures
            match found {
                Some(value) => stored::<V, C>(self@, key.index()) == Some(*value),
                None => stored::<V, C>(self@, key.index()) is None,
            },
    {
        if key.id < self.store.len() {
            match &self.store[key.id] {
                Some(value) => match V::peek(value) {
                    Some(found) => Some(found),
                    None => vstd::pervasive::unreached(),
                },
                None => None,
            }
        } else {
            None
        }
    }

    /// The value in the slot that `key` names, to be changed in place. `None`
    /// where the slot is empty, or where there is no such slot.
    ///
    /// The slot must not hold a value of another type than `V`, as it cannot
    /// where `key` comes from this store.
    pub fn get_mut<V: Stored<C>>(&mut self, key: StateKey<V>) -> (found: Option<&mut V>)
        requires
            fits::<V, C>(old(self)@, key.index()),
        ensures
            match found {
                Some(value) => {
                    &&& stored::<V, C>(old(self)@, key.index()) == Some(*value)
                    &&& final(self)@ == with_slot(
                        old(self)@,
                        key.index(),
                        Some((*final(value)).packed()),
                    )
                },
                None => stored::<V, C>(old(self)@, key.index()) is None && final(self)@ == old(self)@,
            },
    {
        if key.id < self.store.len() {
            match &mut self.store[key.id] {
                Some(value) => match V::peek_mut(value) {
                    Some(found) => Some(found),
                    None => vstd::pervasive::unreached(),
                },
                None => None,
            }
        } else {
            None
        }
    }

    /// The number of slots, empty ones included.
    pub fn len(&self) -> (n: usize)
        ensures
            n == self@.len(),
    {
        self.store.len()
    }

    /// Whether nothing was ever put into the store.
    pub fn is_empty(&self) -> (r: bool)
        ensures
            r == (self@.len() == 0),
    {
        self.store.len() == 0
    }
}

} // verus!
