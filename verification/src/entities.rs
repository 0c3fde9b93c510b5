//! The entity store: a read-only collection of entities, each with its
//! attributes and its ancestors.
use vstd::prelude::*;
use crate::err::{EvaluationError, EvaluationErrorKindV, EvaluationErrorV, plain_error};
use crate::value::{
    EntityUid, EntityUidV, Value, ValueV, attr_of, fields_view, find_attr, distinct_names,
    repeated_name,
};

verus! {

/// An entity: its identifier, its attributes and its ancestors.
#[derive(Debug, PartialEq, Eq, Clone)]
pub struct Entity {
    uid: EntityUid,
    attrs: Vec<(String, Value)>,
    ancestors: Vec<EntityUid>,
}

/// Mathematical model of an [`Entity`].
pub struct EntityV {
    pub uid: EntityUidV,
    pub attrs: Seq<(Seq<char>, ValueV)>,
    pub ancestors: Seq<EntityUidV>,
}

/// The models of a vector of entity identifiers, in order.
pub open spec fn uids_view(us: Seq<EntityUid>) -> Seq<EntityUidV> {
    Seq::new(us.len(), |i: int| us[i]@)
}

impl View for Entity {
    type V = EntityV;

    closed spec fn view(&self) -> EntityV {
        EntityV {
            uid: self.uid@,
            attrs: fields_view(self.attrs@),
            ancestors: uids_view(self.ancestors@),
        }
    }
}

/// Why an entity could not be made.
#[derive(Debug, PartialEq, Eq, Clone)]
pub enum EntityError {
    /// Two attributes of the entity have this name.
    DuplicateAttribute(String),
}

/// Whether `u` is among `us`.
pub fn uid_among(us: &Vec<EntityUid>, u: &EntityUid) -> (r: bool)
    ensures
        r == uids_view(us@).contains(u@),
{
    let ghost uv = uids_view(us@);
    let mut i: usize = 0;
    while i < us.len()
        invariant
            i <= us.len(),
            uv == uids_view(us@),
            forall|k: int| 0 <= k < i ==> uv[k] != u@,
        decreases us.len() - i,
    {
        if us[i].same_as(u) {
            assert(uv[i as int] == u@);
            return true;
        }
        i += 1;
    }
    false
}

impl Entity {
    /// The entity `uid` with the given attributes and ancestors. Fails when
    /// two attributes have the same name.
    pub fn new(uid: EntityUid, attrs: Vec<(String, Value)>, ancestors: Vec<EntityUid>) -> (r:
        Result<Entity, EntityError>)
        ensures
            r is Ok <==> distinct_names(fields_view(attrs@)),
            r is Ok ==> r->Ok_0@ == (EntityV {
                uid: uid@,
                attrs: fields_view(attrs@),
                ancestors: uids_view(ancestors@),
            }),
            r matches Err(EntityError::DuplicateAttribute(n)) ==> Some(n@)
                == crate::value::first_repeated_name(fields_view(attrs@)),
    {
        match repeated_name(&attrs) {
            Some(name) => Err(EntityError::DuplicateAttribute(name)),
            None => Ok(Entity { uid, attrs, ancestors }),
        }
    }

    /// The identifier of this entity.
    pub fn uid(&self) -> (r: &EntityUid)
        ensures
            r@ == self@.uid,
    {
        &self.uid
    }

    /// The value of the attribute `name`, if the entity has it.
    pub fn get(&self, name: &String) -> (r: Option<&Value>)
        ensures
            r is Some <==> attr_of(self@.attrs, name@) is Some,
            r is Some ==> r->0@ == attr_of(self@.attrs, name@)->0,
    {
        find_attr(&self.attrs, name)
    }

    /// Whether `other` is an ancestor of this entity.
    pub fn is_descendant_of(&self, other: &EntityUid) -> (r: bool)
        ensures
            r == self@.ancestors.contains(other@),
    {
        uid_among(&self.ancestors, other)
    }
}

/// What the store says of an entity that it does not hold.
#[derive(Clone, Copy, Debug, PartialEq, Eq, Structural)]
pub enum Mode {
    /// The store is complete: an entity that it does not hold does not exist.
    Concrete,
    /// The store is partial: an entity that it does not hold is unknown.
    Partial,
}

/// A read-only collection of entities.
#[derive(Debug, PartialEq, Eq, Clone)]
pub struct Entities {
    entities: Vec<Entity>,
    mode: Mode,
}

/// Mathematical model of [`Entities`].
pub struct EntitiesV {
    pub entities: Seq<EntityV>,
    pub mode: Mode,
}

/// The models of a vector of entities, in order.
pub open spec fn entities_view(es: Seq<Entity>) -> Seq<EntityV> {
    Seq::new(es.len(), |i: int| es[i]@)
}

impl View for Entities {
    type V = EntitiesV;

    closed spec fn view(&self) -> EntitiesV {
        EntitiesV { entities: entities_view(self.entities@), mode: self.mode }
    }
}

/// Why a store could not be made.
#[derive(Debug, PartialEq, Eq, Clone)]
pub enum EntitiesError {
    /// Two entities of the input have this identifier.
    Duplicate(EntityUid),
}

/// Whether no two entities have the same identifier.
pub open spec fn distinct_uids(es: Seq<EntityV>) -> bool {
    forall|i: int, j: int| #![trigger es[i], es[j]] 0 <= i < j < es.len() ==> es[i].uid != es[j].uid
}

/// The first entity with identifier `uid` at or after position `i`.
pub open spec fn entity_from(es: Seq<EntityV>, uid: EntityUidV, i: int) -> Option<EntityV>
    decreases es.len() - i,
{
    if i < 0 || i >= es.len() {
        None
    } else if es[i].uid == uid {
        Some(es[i])
    } else {
        entity_from(es, uid, i + 1)
    }
}

impl EntitiesV {
    /// The entity with identifier `uid`, if the store holds it.
    pub open spec fn get(self, uid: EntityUidV) -> Option<EntityV> {
        entity_from(self.entities, uid, 0)
    }

    /// Whether `uid` names an entity of which a partial store knows nothing.
    pub open spec fn is_residual(self, uid: EntityUidV) -> bool {
        self.mode == Mode::Partial && self.get(uid) is None
    }

    /// Whether the entity `uid` has the attribute `name`. A missing entity has
    /// none, unless the lookup is strict and the store is complete.
    pub open spec fn has_attr(self, uid: EntityUidV, name: Seq<char>, strict: bool) -> Result<
        bool,
        EvaluationErrorV,
    > {
        match self.get(uid) {
            Some(e) => Ok(attr_of(e.attrs, name) is Some),
            None => if strict && self.mode == Mode::Concrete {
                Err(plain_error(EvaluationErrorKindV::EntityDoesNotExist(uid)))
            } else {
                Ok(false)
            },
        }
    }

    /// The value of the attribute `name` of the entity `uid`.
    pub open spec fn attr(self, uid: EntityUidV, name: Seq<char>) -> Result<
        ValueV,
        EvaluationErrorV,
    > {
        if uid.ty is Unspecified {
            Err(plain_error(EvaluationErrorKindV::UnspecifiedEntityAccess(name)))
        } else {
            match self.get(uid) {
                None => Err(plain_error(EvaluationErrorKindV::EntityDoesNotExist(uid))),
                Some(e) => match attr_of(e.attrs, name) {
                    Some(v) => Ok(v),
                    None => Err(
                        plain_error(
                            EvaluationErrorKindV::EntityAttrDoesNotExist { entity: uid, attr: name },
                        ),
                    ),
                },
            }
        }
    }

    /// Whether `ancestor` is among the ancestors of `descendant`. Of an
    /// entity that the store does not hold, nothing is an ancestor.
    pub open spec fn is_ancestor_of(self, ancestor: EntityUidV, descendant: EntityUidV) -> bool {
        match self.get(descendant) {
            Some(e) => e.ancestors.contains(ancestor),
            None => false,
        }
    }
}

impl Entities {
    /// Whether no two entities of the store have the same identifier.
    pub open spec fn wf(&self) -> bool {
        distinct_uids(self@.entities)
    }

    /// A complete store without entities.
    pub fn empty() -> (r: Entities)
        ensures
            r@ == (EntitiesV { entities: Seq::empty(), mode: Mode::Concrete }),
            r.wf(),
    {
        let r = Entities { entities: Vec::new(), mode: Mode::Concrete };
        assert(r@.entities =~= Seq::empty());
        r
    }

    /// The store of the given entities. Fails when two of them have the same
    /// identifier, with the first identifier that repeats an earlier one.
    pub fn from_entities(entities: Vec<Entity>, mode: Mode) -> (r: Result<Entities, EntitiesError>)
        ensures
            r is Ok <==> distinct_uids(entities_view(entities@)),
            r is Ok ==> r->Ok_0@ == (EntitiesV { entities: entities_view(entities@), mode })
                && r->Ok_0.wf(),
            r matches Err(EntitiesError::Duplicate(u)) ==> exists|i: int, j: int|
                0 <= i < j < entities.len() && entities[i]@.uid == entities[j]@.uid && u@
                    == entities[j]@.uid && distinct_uids(entities_view(entities@).take(j)),
    {
        let ghost ev = entities_view(entities@);
        let mut j: usize = 0;
        while j < entities.len()
            invariant
                j <= entities.len(),
                ev == entities_view(entities@),
                forall|a: int, b: int|
                    #![trigger ev[a], ev[b]]
                    0 <= a < b < j ==> ev[a].uid != ev[b].uid,
            decreases entities.len() - j,
        {
            let mut i: usize = 0;
            while i < j
                invariant
                    i <= j,
                    j < entities.len(),
                    ev == entities_view(entities@),
                    forall|a: int, b: int|
                        #![trigger ev[a], ev[b]]
                        0 <= a < b < j ==> ev[a].uid != ev[b].uid,
                    forall|a: int| #![trigger ev[a]] 0 <= a < i ==> ev[a].uid != ev[j as int].uid,
                decreases j - i,
            {
                if entities[i].uid.same_as(&entities[j].uid) {
                    assert(ev[i as int].uid == ev[j as int].uid);
                    assert(distinct_uids(ev.take(j as int)));
                    return Err(EntitiesError::Duplicate(entities[j].uid.clone()));
                }
                i += 1;
            }
            j += 1;
        }
        Ok(Entities { entities, mode })
    }

    /// What the store says of entities that it does not hold.
    pub fn mode(&self) -> (r: Mode)
        ensures
            r == self@.mode,
    {
        self.mode
    }

    /// The entity with identifier `uid`, if the store holds it.
    pub fn get(&self, uid: &EntityUid) -> (r: Option<&Entity>)
        ensures
            r is Some <==> self@.get(uid@) is Some,
            r is Some ==> r->0@ == self@.get(uid@)->0,
    {
        let ghost ev = entities_view(self.entities@);
        let mut i: usize = 0;
        while i < self.entities.len()
            invariant
                i <= self.entities.len(),
                ev == entities_view(self.entities@),
                ev == self@.entities,
                self@.get(uid@) == entity_from(ev, uid@, i as int),
            decreases self.entities.len() - i,
        {
            assert(ev[i as int] == self.entities[i as int]@);
            if self.entities[i].uid.same_as(uid) {
                return Some(&self.entities[i]);
            }
            i += 1;
        }
        None
    }

    /// Whether `uid` names an entity of which a partial store knows nothing.
    pub fn is_residual(&self, uid: &EntityUid) -> (r: bool)
        ensures
            r == self@.is_residual(uid@),
    {
        match self.mode {
            Mode::Partial => self.get(uid).is_none(),
            Mode::Concrete => false,
        }
    }

    /// Whether the entity `uid` has the attribute `name`. A missing entity has
    /// none, unless the lookup is strict and the store is complete.
    pub fn has_attr(&self, uid: &EntityUid, name: &String, strict: bool) -> (r: Result<
        bool,
        EvaluationError,
    >)
        ensures
            r is Ok <==> self@.has_attr(uid@, name@, strict) is Ok,
            r is Ok ==> r->Ok_0 == self@.has_attr(uid@, name@, strict)->Ok_0,
            r is Err ==> r->Err_0@ == self@.has_attr(uid@, name@, strict)->Err_0,
    {
        match self.get(uid) {
            Some(e) => Ok(e.get(name).is_some()),
            None => {
                if strict && self.mode == Mode::Concrete {
                    Err(EvaluationError::entity_does_not_exist(uid.clone()))
                } else {
                    Ok(false)
                }
            },
        }
    }

    /// The value of the attribute `name` of the entity `uid`.
    pub fn attr(&self, uid: &EntityUid, name: &String) -> (r: Result<&Value, EvaluationError>)
        ensures
            r is Ok <==> self@.attr(uid@, name@) is Ok,
            r is Ok ==> r->Ok_0@ == self@.attr(uid@, name@)->Ok_0,
            r is Err ==> r->Err_0@ == self@.attr(uid@, name@)->Err_0,
    {
        if uid.is_unspecified() {
            return Err(EvaluationError::unspecified_entity_access(name.clone()));
        }
        match self.get(uid) {
            None => Err(EvaluationError::entity_does_not_exist(uid.clone())),
            Some(e) => match e.get(name) {
                Some(v) => Ok(v),
                None => Err(EvaluationError::entity_attr_does_not_exist(uid.clone(), name.clone())),
            },
        }
    }

    /// Whether `ancestor` is among the ancestors of `descendant`. Of an
    /// entity that the store does not hold, nothing is an ancestor.
    pub fn is_ancestor_of(&self, ancestor: &EntityUid, descendant: &EntityUid) -> (r: bool)
        ensures
            r == self@.is_ancestor_of(ancestor@, descendant@),
    {
        match self.get(descendant) {
            Some(e) => e.is_descendant_of(ancestor),
            None => false,
        }
    }
}

/// The entity that a store finds under an identifier is one of its
/// entities, and has the identifier.
pub proof fn lemma_entity_from(es: Seq<EntityV>, u: EntityUidV, i: int)
    requires
        0 <= i <= es.len(),
        entity_from(es, u, i) is Some,
    ensures
        exists|k: int|
            i <= k < es.len() && (#[trigger] es[k]).uid == u && entity_from(es, u, i) == Some(es[k]),
    decreases es.len() - i,
{
    if es[i].uid != u {
        lemma_entity_from(es, u, i + 1);
    }
}

} // verus!
