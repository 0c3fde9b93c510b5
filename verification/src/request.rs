//! Authorization requests: who asks to do what on which resource, and in
//! which context.
use vstd::prelude::*;
use crate::value::{
    EntityUid, EntityUidV, Value, ValueV, clone_fields, distinct_names, fields_view,
    lemma_record_view, repeated_name,
};

verus! {

/// The context of a request: a record whose attribute names are unique.
#[derive(Debug, PartialEq, Eq, Clone)]
pub struct Context {
    attrs: Vec<(String, Value)>,
}

/// Why a context could not be made.
#[derive(Debug, PartialEq, Eq, Clone)]
pub enum ContextError {
    /// Two attributes of the context have this name.
    DuplicateKey(String),
}

impl View for Context {
    type V = Seq<(Seq<char>, ValueV)>;

    closed spec fn view(&self) -> Seq<(Seq<char>, ValueV)> {
        fields_view(self.attrs@)
    }
}

impl Context {
    /// The context without attributes.
    pub fn empty() -> (r: Context)
        ensures
            r@ == Seq::<(Seq<char>, ValueV)>::empty(),
    {
        let r = Context { attrs: Vec::new() };
        assert(r@ =~= Seq::empty());
        r
    }

    /// The context with the given attributes, in their order. Fails when two
    /// of them have the same name, with the first name that repeats an
    /// earlier one.
    pub fn from_pairs(pairs: Vec<(String, Value)>) -> (r: Result<Context, ContextError>)
        ensures
            r is Ok <==> distinct_names(fields_view(pairs@)),
            r is Ok ==> r->Ok_0@ == fields_view(pairs@),
            r matches Err(ContextError::DuplicateKey(k)) ==> exists|i: int, j: int|
                0 <= i < j < pairs.len() && pairs[i].0@ == pairs[j].0@ && k@ == pairs[j].0@,
    {
        match repeated_name(&pairs) {
            Some(name) => Err(ContextError::DuplicateKey(name)),
            None => Ok(Context { attrs: pairs }),
        }
    }

    /// The attributes of the context, in order.
    pub fn attrs(&self) -> (r: &Vec<(String, Value)>)
        ensures
            fields_view(r@) == self@,
    {
        &self.attrs
    }

    /// The context as a record value.
    pub fn to_value(&self) -> (r: Value)
        ensures
            r@ == ValueV::Record(self@),
    {
        let copy = clone_fields(&self.attrs);
        proof {
            lemma_record_view(copy);
        }
        Value::Record(copy)
    }
}

/// An authorization request. An absent principal, action or resource stands
/// for an unspecified entity, or for an unknown when evaluating partially.
#[derive(Debug, PartialEq, Eq, Clone)]
pub struct Request {
    principal: Option<EntityUid>,
    action: Option<EntityUid>,
    resource: Option<EntityUid>,
    context: Context,
}

/// Mathematical model of a [`Request`].
pub struct RequestV {
    pub principal: Option<EntityUidV>,
    pub action: Option<EntityUidV>,
    pub resource: Option<EntityUidV>,
    pub context: Seq<(Seq<char>, ValueV)>,
}

/// The model of an optional entity identifier.
pub open spec fn opt_uid_view(u: Option<EntityUid>) -> Option<EntityUidV> {
    match u {
        Some(u) => Some(u@),
        None => None,
    }
}

impl View for Request {
    type V = RequestV;

    closed spec fn view(&self) -> RequestV {
        RequestV {
            principal: opt_uid_view(self.principal),
            action: opt_uid_view(self.action),
            resource: opt_uid_view(self.resource),
            context: self.context@,
        }
    }
}

impl Request {
    /// The request with the given components.
    pub fn new(
        principal: Option<EntityUid>,
        action: Option<EntityUid>,
        resource: Option<EntityUid>,
        context: Context,
    ) -> (r: Request)
        ensures
            r@ == (RequestV {
                principal: opt_uid_view(principal),
                action: opt_uid_view(action),
                resource: opt_uid_view(resource),
                context: context@,
            }),
    {
        Request { principal, action, resource, context }
    }

    /// The principal of the request, if it names one.
    pub fn principal(&self) -> (r: &Option<EntityUid>)
        ensures
            opt_uid_view(*r) == self@.principal,
    {
        &self.principal
    }

    /// The action of the request, if it names one.
    pub fn action(&self) -> (r: &Option<EntityUid>)
        ensures
            opt_uid_view(*r) == self@.action,
    {
        &self.action
    }

    /// The resource of the request, if it names one.
    pub fn resource(&self) -> (r: &Option<EntityUid>)
        ensures
            opt_uid_view(*r) == self@.resource,
    {
        &self.resource
    }

    /// The context of the request.
    pub fn context(&self) -> (r: &Context)
        ensures
            r@ == self@.context,
    {
        &self.context
    }
}

} // verus!
