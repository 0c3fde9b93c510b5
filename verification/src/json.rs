//! Requests, contexts and entities that are given as JSON values.
use vstd::prelude::*;
use crate::ast::{Expr, ExprV, LiteralV, expr_fields_view, exprs_view, lemma_record_expr_view};
use crate::display::{cat3, show_uid};
use crate::entities::{Entities, Mode, uids_view};
use crate::hierarchy::{HierarchyError, HierarchyErrorV, RawEntity, RawEntityV, closure_of,
    hierarchy_error, raws_view};
use crate::extensions::{ExtOp, Extensions};
use crate::messages::kind_message;
use crate::names::{is_valid_name, valid_name};
use crate::request::Context;
use crate::restricted::{RestrictedEvaluator, restricted_interpret};
use crate::text::{same_text, text_is};
use crate::value::{EntityType, EntityTypeV, EntityUid, EntityUidV, Value, ValueV, distinct_names,
    fields_view};

verus! {

/// A JSON value.
#[derive(Debug, PartialEq, Eq)]
pub enum JsonValue {
    Null,
    Bool(bool),
    /// A number that is a 64-bit integer.
    Number(i64),
    /// Any other number, as it is written.
    OtherNumber(String),
    String(String),
    Array(Vec<JsonValue>),
    /// An object: its members in their order.
    Object(Vec<(String, JsonValue)>),
}

/// Mathematical model of a [`JsonValue`].
pub enum JsonV {
    Null,
    Bool(bool),
    Number(i64),
    OtherNumber(Seq<char>),
    String(Seq<char>),
    Array(Seq<JsonV>),
    Object(Seq<(Seq<char>, JsonV)>),
}

/// The model of a JSON value.
pub open spec fn json_view(v: JsonValue) -> JsonV
    decreases v,
{
    match v {
        JsonValue::Null => JsonV::Null,
        JsonValue::Bool(b) => JsonV::Bool(b),
        JsonValue::Number(i) => JsonV::Number(i),
        JsonValue::OtherNumber(t) => JsonV::OtherNumber(t@),
        JsonValue::String(s) => JsonV::String(s@),
        JsonValue::Array(vs) => JsonV::Array(
            Seq::new(
                vs.len() as nat,
                |i: int|
                    if 0 <= i < vs.len() {
                        json_view(vs[i])
                    } else {
                        JsonV::Null
                    },
            ),
        ),
        JsonValue::Object(fs) => JsonV::Object(
            Seq::new(
                fs.len() as nat,
                |i: int|
                    if 0 <= i < fs.len() {
                        (fs[i].0@, json_view(fs[i].1))
                    } else {
                        (Seq::empty(), JsonV::Null)
                    },
            ),
        ),
    }
}

impl View for JsonValue {
    type V = JsonV;

    open spec fn view(&self) -> JsonV {
        json_view(*self)
    }
}

/// The models of a vector of JSON values, in order.
pub open spec fn jsons_view(vs: Seq<JsonValue>) -> Seq<JsonV> {
    Seq::new(vs.len(), |i: int| vs[i]@)
}

/// The models of the members of an object, in order.
pub open spec fn members_view(fs: Seq<(String, JsonValue)>) -> Seq<(Seq<char>, JsonV)> {
    Seq::new(fs.len(), |i: int| (fs[i].0@, fs[i].1@))
}

/// The model of an array is made of the models of its elements.
pub proof fn lemma_array_view(vs: Vec<JsonValue>)
    ensures
        JsonValue::Array(vs)@ == JsonV::Array(jsons_view(vs@)),
{
    assert(JsonValue::Array(vs)@->Array_0 =~= jsons_view(vs@));
}

/// The model of an object is made of the models of its members.
pub proof fn lemma_object_view(fs: Vec<(String, JsonValue)>)
    ensures
        JsonValue::Object(fs)@ == JsonV::Object(members_view(fs@)),
{
    assert(JsonValue::Object(fs)@->Object_0 =~= members_view(fs@));
}

/// The message for a value that is no reference to an entity.
pub open spec fn bad_entity_message() -> Seq<char> {
    "expected an entity: an object with the string fields `type` and `id`, alone or under `__entity`"@
}

/// The message for a type that is no name of an entity type.
pub open spec fn bad_type_message(ty: Seq<char>) -> Seq<char> {
    "invalid entity type name: `"@ + ty + "`"@
}

/// The entity that an object with the two string fields `type` and `id`
/// names.
pub open spec fn type_and_id(v: JsonV) -> Result<EntityUidV, Seq<char>> {
    match v {
        JsonV::Object(fs) => if fs.len() == 2 && fs[0].0 == "type"@ && fs[1].0 == "id"@ && fs[0].1
            is String && fs[1].1 is String {
            if valid_name(fs[0].1->String_0) {
                Ok(
                    EntityUidV {
                        ty: EntityTypeV::Specified(fs[0].1->String_0),
                        eid: fs[1].1->String_0,
                    },
                )
            } else {
                Err(bad_type_message(fs[0].1->String_0))
            }
        } else if fs.len() == 2 && fs[0].0 == "id"@ && fs[1].0 == "type"@ && fs[0].1 is String
            && fs[1].1 is String {
            if valid_name(fs[1].1->String_0) {
                Ok(
                    EntityUidV {
                        ty: EntityTypeV::Specified(fs[1].1->String_0),
                        eid: fs[0].1->String_0,
                    },
                )
            } else {
                Err(bad_type_message(fs[1].1->String_0))
            }
        } else {
            Err(bad_entity_message())
        },
        _ => Err(bad_entity_message()),
    }
}

/// Whether `v` is an object with the one member `key`.
pub open spec fn is_escape(v: JsonV, key: Seq<char>) -> bool {
    v matches JsonV::Object(fs) && fs.len() == 1 && fs[0].0 == key
}

/// The entity that a JSON value names: an object with the fields `type`
/// and `id`, alone or as the one member `__entity` of an object.
pub open spec fn uid_of_json(v: JsonV) -> Result<EntityUidV, Seq<char>> {
    if is_escape(v, "__entity"@) {
        type_and_id(v->Object_0[0].1)
    } else {
        type_and_id(v)
    }
}

fn read_type_and_id(v: &JsonValue) -> (r: Result<EntityUid, String>)
    ensures
        r is Ok <==> type_and_id(v@) is Ok,
        r is Ok ==> r->Ok_0@ == type_and_id(v@)->Ok_0,
        r is Err ==> r->Err_0@ == type_and_id(v@)->Err_0,
{
    match v {
        JsonValue::Object(fs) => {
            proof {
                lemma_object_view(*fs);
            }
            if fs.len() == 2 {
                assert(members_view(fs@)[0] == (fs[0].0@, fs[0].1@));
                assert(members_view(fs@)[1] == (fs[1].0@, fs[1].1@));
                let (ty, id) = if text_is(&fs[0].0, "type") && text_is(&fs[1].0, "id") {
                    (&fs[0].1, &fs[1].1)
                } else if text_is(&fs[0].0, "id") && text_is(&fs[1].0, "type") {
                    proof {
                        reveal_strlit("type");
                        reveal_strlit("id");
                    }
                    (&fs[1].1, &fs[0].1)
                } else {
                    return Err(bad_entity());
                };
                match (ty, id) {
                    (JsonValue::String(t), JsonValue::String(i)) => {
                        if is_valid_name(t.as_str()) {
                            Ok(EntityUid { ty: EntityType::Specified(t.clone()), eid: i.clone() })
                        } else {
                            Err(cat3("invalid entity type name: `", t.as_str(), "`"))
                        }
                    },
                    _ => Err(bad_entity()),
                }
            } else {
                Err(bad_entity())
            }
        },
        _ => Err(bad_entity()),
    }
}

fn bad_entity() -> (r: String)
    ensures
        r@ == bad_entity_message(),
{
    String::from_str(
        "expected an entity: an object with the string fields `type` and `id`, alone or under `__entity`",
    )
}

fn escaped<'a>(v: &'a JsonValue, key: &str) -> (r: Option<&'a JsonValue>)
    ensures
        r is Some <==> is_escape(v@, key@),
        r is Some ==> r->0@ == v@->Object_0[0].1,
{
    match v {
        JsonValue::Object(fs) => {
            proof {
                lemma_object_view(*fs);
            }
            if fs.len() == 1 {
                assert(members_view(fs@)[0] == (fs[0].0@, fs[0].1@));
                if text_is(&fs[0].0, key) {
                    Some(&fs[0].1)
                } else {
                    None
                }
            } else {
                None
            }
        },
        _ => None,
    }
}

impl EntityUid {
    /// The entity that a JSON value names.
    pub fn from_json(v: &JsonValue) -> (r: Result<EntityUid, String>)
        ensures
            r is Ok <==> uid_of_json(v@) is Ok,
            r is Ok ==> r->Ok_0@ == uid_of_json(v@)->Ok_0,
            r is Err ==> r->Err_0@ == uid_of_json(v@)->Err_0,
    {
        match escaped(v, "__entity") {
            Some(inner) => read_type_and_id(inner),
            None => read_type_and_id(v),
        }
    }
}

/// The name and the argument of the extension function that the content
/// of an `__extn` member gives: an object with a string `fn` and an `arg`.
pub open spec fn extension_call(v: JsonV) -> Option<(Seq<char>, JsonV)> {
    match v {
        JsonV::Object(fs) => if fs.len() == 2 && fs[0].0 == "fn"@ && fs[1].0 == "arg"@ && fs[0].1
            is String {
            Some((fs[0].1->String_0, fs[1].1))
        } else {
            None
        },
        _ => None,
    }
}

/// Whether a member named `k` is among `fs`.
pub open spec fn has_member(fs: Seq<(Seq<char>, ExprV)>, k: Seq<char>) -> bool {
    exists|i: int| 0 <= i < fs.len() && (#[trigger] fs[i]).0 == k
}

/// The restricted expression that a JSON value stands for: truth values,
/// integers and strings are literals, arrays are sets, and objects are
/// records, except an object with the one member `__entity`, which is an
/// entity, and one with the one member `__extn`, which is a call of an
/// extension function with one argument.
pub open spec fn expr_of_json(v: JsonV) -> Result<ExprV, Seq<char>>
    decreases v, 0nat,
{
    match v {
        JsonV::Null => Err("null is not supported"@),
        JsonV::Bool(b) => Ok(ExprV::Lit(LiteralV::Bool(b))),
        JsonV::Number(i) => Ok(ExprV::Lit(LiteralV::Long(i))),
        JsonV::OtherNumber(t) => Err("number is not a 64-bit integer: "@ + t),
        JsonV::String(s) => Ok(ExprV::Lit(LiteralV::String(s))),
        JsonV::Array(vs) => match exprs_of_json(vs) {
            Ok(es) => Ok(ExprV::SetOf(es)),
            Err(e) => Err(e),
        },
        JsonV::Object(fs) => if fs.len() == 1 && fs[0].0 == "__entity"@ {
            match type_and_id(fs[0].1) {
                Ok(u) => Ok(ExprV::Lit(LiteralV::EntityUid(u))),
                Err(e) => Err(e),
            }
        } else if fs.len() == 1 && fs[0].0 == "__extn"@ {
            match extension_call(fs[0].1) {
                Some((name, arg)) => match expr_of_json(arg) {
                    Ok(a) => Ok(ExprV::Call(name, seq![a])),
                    Err(e) => Err(e),
                },
                None => Err(
                    "expected an object with the string field `fn` and the field `arg` under `__extn`"@,
                ),
            }
        } else {
            match fields_of_json(fs) {
                Ok(es) => Ok(ExprV::Record(es)),
                Err(e) => Err(e),
            }
        },
    }
}

/// The expressions that JSON values stand for, in order, or the first error.
pub open spec fn exprs_of_json(vs: Seq<JsonV>) -> Result<Seq<ExprV>, Seq<char>>
    decreases vs, 1nat,
{
    if vs.len() == 0 {
        Ok(Seq::empty())
    } else {
        match exprs_of_json(vs.drop_last()) {
            Err(e) => Err(e),
            Ok(es) => match expr_of_json(vs.last()) {
                Err(e) => Err(e),
                Ok(x) => Ok(es.push(x)),
            },
        }
    }
}

/// The fields that the members of an object stand for, in order, or the
/// first error. Two members of one name are an error.
pub open spec fn fields_of_json(fs: Seq<(Seq<char>, JsonV)>) -> Result<
    Seq<(Seq<char>, ExprV)>,
    Seq<char>,
>
    decreases fs, 1nat,
{
    if fs.len() == 0 {
        Ok(Seq::empty())
    } else {
        match fields_of_json(fs.drop_last()) {
            Err(e) => Err(e),
            Ok(es) => if has_member(es, fs.last().0) {
                Err("duplicate key `"@ + fs.last().0 + "`"@)
            } else {
                match expr_of_json(fs.last().1) {
                    Err(e) => Err(e),
                    Ok(x) => Ok(es.push((fs.last().0, x))),
                }
            },
        }
    }
}

/// Once a prefix of the values has failed, the whole has failed alike.
pub proof fn lemma_exprs_of_json_prefix(vs: Seq<JsonV>, n: int)
    requires
        0 <= n <= vs.len(),
        exprs_of_json(vs.take(n)) is Err,
    ensures
        exprs_of_json(vs) == exprs_of_json(vs.take(n)),
    decreases vs.len() - n,
{
    if n < vs.len() {
        assert(vs.take(n + 1).drop_last() =~= vs.take(n));
        lemma_exprs_of_json_prefix(vs, n + 1);
    } else {
        assert(vs.take(n) =~= vs);
    }
}

/// Once a prefix of the members has failed, the whole has failed alike.
pub proof fn lemma_fields_of_json_prefix(fs: Seq<(Seq<char>, JsonV)>, n: int)
    requires
        0 <= n <= fs.len(),
        fields_of_json(fs.take(n)) is Err,
    ensures
        fields_of_json(fs) == fields_of_json(fs.take(n)),
    decreases fs.len() - n,
{
    if n < fs.len() {
        assert(fs.take(n + 1).drop_last() =~= fs.take(n));
        lemma_fields_of_json_prefix(fs, n + 1);
    } else {
        assert(fs.take(n) =~= fs);
    }
}

fn read_extension_call(v: &JsonValue) -> (r: Option<(&String, &JsonValue)>)
    ensures
        r is Some <==> extension_call(v@) is Some,
        r matches Some((name, arg)) ==> extension_call(v@) == Some((name@, arg@)),
        r matches Some((name, arg)) ==> decreases_to!(v => arg),
{
    match v {
        JsonValue::Object(fs) => {
            proof {
                lemma_object_view(*fs);
            }
            if fs.len() == 2 {
                assert(members_view(fs@)[0] == (fs[0].0@, fs[0].1@));
                assert(members_view(fs@)[1] == (fs[1].0@, fs[1].1@));
                if text_is(&fs[0].0, "fn") && text_is(&fs[1].0, "arg") {
                    match &fs[0].1 {
                        JsonValue::String(name) => Some((name, &fs[1].1)),
                        _ => None,
                    }
                } else {
                    None
                }
            } else {
                None
            }
        },
        _ => None,
    }
}

fn member_in(fs: &Vec<(String, Expr)>, k: &String) -> (r: bool)
    ensures
        r == has_member(expr_fields_view(fs@), k@),
{
    let ghost fv = expr_fields_view(fs@);
    let mut i: usize = 0;
    while i < fs.len()
        invariant
            i <= fs.len(),
            fv == expr_fields_view(fs@),
            forall|n: int| 0 <= n < i ==> (#[trigger] fv[n]).0 != k@,
        decreases fs.len() - i,
    {
        if same_text(&fs[i].0, k) {
            assert(fv[i as int].0 == k@);
            return true;
        }
        i += 1;
    }
    false
}

/// The restricted expression that a JSON value stands for.
pub fn json_to_expr(v: &JsonValue) -> (r: Result<Expr, String>)
    ensures
        r is Ok <==> expr_of_json(v@) is Ok,
        r is Ok ==> r->Ok_0@ == expr_of_json(v@)->Ok_0,
        r is Err ==> r->Err_0@ == expr_of_json(v@)->Err_0,
    decreases v, 0nat,
{
    match v {
        JsonValue::Null => Err(String::from_str("null is not supported")),
        JsonValue::Bool(b) => Ok(Expr::bool(*b)),
        JsonValue::Number(i) => Ok(Expr::long(*i)),
        JsonValue::OtherNumber(t) => {
            let mut m = String::from_str("number is not a 64-bit integer: ");
            m.append(t.as_str());
            Err(m)
        },
        JsonValue::String(s) => Ok(Expr::string(s.as_str())),
        JsonValue::Array(vs) => {
            proof {
                lemma_array_view(*vs);
            }
            match jsons_to_exprs(vs) {
                Ok(es) => Ok(Expr::set(es)),
                Err(e) => Err(e),
            }
        },
        JsonValue::Object(fs) => {
            proof {
                lemma_object_view(*fs);
            }
            if fs.len() == 1 {
                assert(members_view(fs@)[0] == (fs[0].0@, fs[0].1@));
                if text_is(&fs[0].0, "__entity") {
                    return match read_type_and_id(&fs[0].1) {
                        Ok(u) => Ok(Expr::uid(u)),
                        Err(e) => Err(e),
                    };
                }
                if text_is(&fs[0].0, "__extn") {
                    return match read_extension_call(&fs[0].1) {
                        Some((name, arg)) => match json_to_expr(arg) {
                            Ok(a) => {
                                let mut args: Vec<Expr> = Vec::new();
                                let ghost av = a@;
                                args.push(a);
                                assert(exprs_view(args@) =~= seq![av]);
                                Ok(Expr::call(name.as_str(), args))
                            },
                            Err(e) => Err(e),
                        },
                        None => Err(
                            String::from_str(
                                "expected an object with the string field `fn` and the field `arg` under `__extn`",
                            ),
                        ),
                    };
                }
            }
            match members_to_fields(fs) {
                Ok(es) => {
                    proof {
                        lemma_record_expr_view(es);
                    }
                    Ok(Expr::Record(es))
                },
                Err(e) => Err(e),
            }
        },
    }
}

fn jsons_to_exprs(vs: &Vec<JsonValue>) -> (r: Result<Vec<Expr>, String>)
    ensures
        r is Ok <==> exprs_of_json(jsons_view(vs@)) is Ok,
        r is Ok ==> exprs_view(r->Ok_0@) == exprs_of_json(jsons_view(vs@))->Ok_0,
        r is Err ==> r->Err_0@ == exprs_of_json(jsons_view(vs@))->Err_0,
    decreases vs, 1nat,
{
    let ghost jv = jsons_view(vs@);
    let mut out: Vec<Expr> = Vec::new();
    let mut i: usize = 0;
    assert(exprs_view(out@) =~= Seq::empty());
    while i < vs.len()
        invariant
            i <= vs.len(),
            jv == jsons_view(vs@),
            exprs_of_json(jv.take(i as int)) == Ok::<Seq<ExprV>, Seq<char>>(exprs_view(out@)),
        decreases vs.len() - i,
    {
        proof {
            assert(jv.take(i + 1).drop_last() =~= jv.take(i as int));
            assert(jv.take(i + 1).last() == vs[i as int]@);
        }
        match json_to_expr(&vs[i]) {
            Err(e) => {
                proof {
                    lemma_exprs_of_json_prefix(jv, i + 1);
                }
                return Err(e);
            },
            Ok(x) => {
                let ghost before = exprs_view(out@);
                out.push(x);
                assert(exprs_view(out@) =~= before.push(x@));
            },
        }
        i += 1;
    }
    assert(jv.take(i as int) =~= jv);
    Ok(out)
}

fn members_to_fields(fs: &Vec<(String, JsonValue)>) -> (r: Result<Vec<(String, Expr)>, String>)
    ensures
        r is Ok <==> fields_of_json(members_view(fs@)) is Ok,
        r is Ok ==> expr_fields_view(r->Ok_0@) == fields_of_json(members_view(fs@))->Ok_0,
        r is Err ==> r->Err_0@ == fields_of_json(members_view(fs@))->Err_0,
    decreases fs, 1nat,
{
    let ghost mv = members_view(fs@);
    let mut out: Vec<(String, Expr)> = Vec::new();
    let mut i: usize = 0;
    assert(expr_fields_view(out@) =~= Seq::empty());
    while i < fs.len()
        invariant
            i <= fs.len(),
            mv == members_view(fs@),
            fields_of_json(mv.take(i as int)) == Ok::<Seq<(Seq<char>, ExprV)>, Seq<char>>(
                expr_fields_view(out@),
            ),
        decreases fs.len() - i,
    {
        proof {
            assert(mv.take(i + 1).drop_last() =~= mv.take(i as int));
            assert(mv.take(i + 1).last() == (fs[i as int].0@, fs[i as int].1@));
        }
        if member_in(&out, &fs[i].0) {
            proof {
                lemma_fields_of_json_prefix(mv, i + 1);
            }
            return Err(cat3("duplicate key `", fs[i].0.as_str(), "`"));
        }
        match json_to_expr(&fs[i].1) {
            Err(e) => {
                proof {
                    lemma_fields_of_json_prefix(mv, i + 1);
                }
                return Err(e);
            },
            Ok(x) => {
                let ghost before = expr_fields_view(out@);
                out.push((fs[i].0.clone(), x));
                assert(expr_fields_view(out@) =~= before.push((fs[i as int].0@, x@)));
            },
        }
        i += 1;
    }
    assert(mv.take(i as int) =~= mv);
    Ok(out)
}

/// The value that a JSON value stands for: that of the restricted
/// expression that it stands for, or the message of the first error.
pub open spec fn value_of_json(v: JsonV, extensions: Seq<ExtOp>) -> Result<ValueV, Seq<char>> {
    match expr_of_json(v) {
        Err(e) => Err(e),
        Ok(x) => match restricted_interpret(x, extensions) {
            Ok(value) => Ok(value),
            Err(e) => Err(kind_message(e.kind)),
        },
    }
}

/// The value that a JSON value stands for.
pub fn json_to_value(v: &JsonValue, extensions: &Extensions) -> (r: Result<Value, String>)
    ensures
        r is Ok <==> value_of_json(v@, extensions@) is Ok,
        r is Ok ==> r->Ok_0@ == value_of_json(v@, extensions@)->Ok_0,
        r is Err ==> r->Err_0@ == value_of_json(v@, extensions@)->Err_0,
{
    match json_to_expr(v) {
        Err(e) => Err(e),
        Ok(x) => match RestrictedEvaluator::new(extensions).interpret(&x) {
            Ok(value) => Ok(value),
            Err(e) => Err(e.message()),
        },
    }
}

/// The attributes that the members of an object stand for, in order, or
/// the message of the first error.
pub open spec fn attrs_of_json(fs: Seq<(Seq<char>, JsonV)>, extensions: Seq<ExtOp>) -> Result<
    Seq<(Seq<char>, ValueV)>,
    Seq<char>,
>
    decreases fs.len(),
{
    if fs.len() == 0 {
        Ok(Seq::empty())
    } else {
        match attrs_of_json(fs.drop_last(), extensions) {
            Err(e) => Err(e),
            Ok(vs) => match value_of_json(fs.last().1, extensions) {
                Err(e) => Err(e),
                Ok(x) => Ok(vs.push((fs.last().0, x))),
            },
        }
    }
}

/// Once a prefix of the members has failed, the whole has failed alike.
pub proof fn lemma_attrs_of_json_prefix(
    fs: Seq<(Seq<char>, JsonV)>,
    n: int,
    extensions: Seq<ExtOp>,
)
    requires
        0 <= n <= fs.len(),
        attrs_of_json(fs.take(n), extensions) is Err,
    ensures
        attrs_of_json(fs, extensions) == attrs_of_json(fs.take(n), extensions),
    decreases fs.len() - n,
{
    if n < fs.len() {
        assert(fs.take(n + 1).drop_last() =~= fs.take(n));
        lemma_attrs_of_json_prefix(fs, n + 1, extensions);
    } else {
        assert(fs.take(n) =~= fs);
    }
}

/// The attributes that the members of an object stand for.
pub fn json_to_attrs(fs: &Vec<(String, JsonValue)>, extensions: &Extensions) -> (r: Result<
    Vec<(String, Value)>,
    String,
>)
    ensures
        r is Ok <==> attrs_of_json(members_view(fs@), extensions@) is Ok,
        r is Ok ==> fields_view(r->Ok_0@) == attrs_of_json(members_view(fs@), extensions@)->Ok_0,
        r is Err ==> r->Err_0@ == attrs_of_json(members_view(fs@), extensions@)->Err_0,
{
    let ghost mv = members_view(fs@);
    let mut out: Vec<(String, Value)> = Vec::new();
    let mut i: usize = 0;
    assert(fields_view(out@) =~= Seq::empty());
    while i < fs.len()
        invariant
            i <= fs.len(),
            mv == members_view(fs@),
            attrs_of_json(mv.take(i as int), extensions@) == Ok::<
                Seq<(Seq<char>, ValueV)>,
                Seq<char>,
            >(fields_view(out@)),
        decreases fs.len() - i,
    {
        proof {
            assert(mv.take(i + 1).drop_last() =~= mv.take(i as int));
            assert(mv.take(i + 1).last() == (fs[i as int].0@, fs[i as int].1@));
        }
        match json_to_value(&fs[i].1, extensions) {
            Err(e) => {
                proof {
                    lemma_attrs_of_json_prefix(mv, i + 1, extensions@);
                }
                return Err(e);
            },
            Ok(x) => {
                let ghost before = fields_view(out@);
                out.push((fs[i].0.clone(), x));
                assert(fields_view(out@) =~= before.push((fs[i as int].0@, x@)));
            },
        }
        i += 1;
    }
    assert(mv.take(i as int) =~= mv);
    Ok(out)
}

/// The context that the members of an object stand for, or the message of
/// the first error. Two members of one name are an error.
pub open spec fn context_of_json(fs: Seq<(Seq<char>, JsonV)>, extensions: Seq<ExtOp>) -> Result<
    Seq<(Seq<char>, ValueV)>,
    Seq<char>,
> {
    match attrs_of_json(fs, extensions) {
        Err(e) => Err(e),
        Ok(vs) => if distinct_names(vs) {
            Ok(vs)
        } else {
            Err("duplicate key in context"@)
        },
    }
}

impl Context {
    /// The context that the members of a JSON object stand for.
    pub fn from_json(fs: &Vec<(String, JsonValue)>, extensions: &Extensions) -> (r: Result<
        Context,
        String,
    >)
        ensures
            r is Ok <==> context_of_json(members_view(fs@), extensions@) is Ok,
            r is Ok ==> r->Ok_0@ == context_of_json(members_view(fs@), extensions@)->Ok_0,
            r is Err ==> r->Err_0@ == context_of_json(members_view(fs@), extensions@)->Err_0,
    {
        match json_to_attrs(fs, extensions) {
            Err(e) => Err(e),
            Ok(pairs) => match Context::from_pairs(pairs) {
                Ok(c) => Ok(c),
                Err(_) => Err(String::from_str("duplicate key in context")),
            },
        }
    }
}

/// The value of the first member named `k` at or after position `i`.
pub open spec fn member_from(fs: Seq<(Seq<char>, JsonV)>, k: Seq<char>, i: int) -> Option<JsonV>
    decreases fs.len() - i,
{
    if i < 0 || i >= fs.len() {
        None
    } else if fs[i].0 == k {
        Some(fs[i].1)
    } else {
        member_from(fs, k, i + 1)
    }
}

/// The value of the member named `k`, if the object has one.
pub open spec fn member(fs: Seq<(Seq<char>, JsonV)>, k: Seq<char>) -> Option<JsonV> {
    member_from(fs, k, 0)
}

/// The value of the member named `k`, if the object has one.
pub fn find_member<'a>(fs: &'a Vec<(String, JsonValue)>, k: &str) -> (r: Option<&'a JsonValue>)
    ensures
        r is Some <==> member(members_view(fs@), k@) is Some,
        r is Some ==> r->0@ == member(members_view(fs@), k@)->0,
{
    let ghost mv = members_view(fs@);
    let mut i: usize = 0;
    while i < fs.len()
        invariant
            i <= fs.len(),
            mv == members_view(fs@),
            member(mv, k@) == member_from(mv, k@, i as int),
        decreases fs.len() - i,
    {
        assert(mv[i as int] == (fs[i as int].0@, fs[i as int].1@));
        if text_is(&fs[i].0, k) {
            return Some(&fs[i].1);
        }
        i += 1;
    }
    None
}

/// The entities that JSON values name, in order, or the first error.
pub open spec fn uids_of_json(vs: Seq<JsonV>) -> Result<Seq<EntityUidV>, Seq<char>>
    decreases vs.len(),
{
    if vs.len() == 0 {
        Ok(Seq::empty())
    } else {
        match uids_of_json(vs.drop_last()) {
            Err(e) => Err(e),
            Ok(us) => match uid_of_json(vs.last()) {
                Err(e) => Err(e),
                Ok(u) => Ok(us.push(u)),
            },
        }
    }
}

/// Once a prefix of the values has failed, the whole has failed alike.
pub proof fn lemma_uids_of_json_prefix(vs: Seq<JsonV>, n: int)
    requires
        0 <= n <= vs.len(),
        uids_of_json(vs.take(n)) is Err,
    ensures
        uids_of_json(vs) == uids_of_json(vs.take(n)),
    decreases vs.len() - n,
{
    if n < vs.len() {
        assert(vs.take(n + 1).drop_last() =~= vs.take(n));
        lemma_uids_of_json_prefix(vs, n + 1);
    } else {
        assert(vs.take(n) =~= vs);
    }
}

/// The entities that JSON values name.
pub fn json_to_uids(vs: &Vec<JsonValue>) -> (r: Result<Vec<EntityUid>, String>)
    ensures
        r is Ok <==> uids_of_json(jsons_view(vs@)) is Ok,
        r is Ok ==> uids_view(r->Ok_0@) == uids_of_json(jsons_view(vs@))->Ok_0,
        r is Err ==> r->Err_0@ == uids_of_json(jsons_view(vs@))->Err_0,
{
    let ghost jv = jsons_view(vs@);
    let mut out: Vec<EntityUid> = Vec::new();
    let mut i: usize = 0;
    assert(uids_view(out@) =~= Seq::empty());
    while i < vs.len()
        invariant
            i <= vs.len(),
            jv == jsons_view(vs@),
            uids_of_json(jv.take(i as int)) == Ok::<Seq<EntityUidV>, Seq<char>>(uids_view(out@)),
        decreases vs.len() - i,
    {
        proof {
            assert(jv.take(i + 1).drop_last() =~= jv.take(i as int));
            assert(jv.take(i + 1).last() == vs[i as int]@);
        }
        match EntityUid::from_json(&vs[i]) {
            Err(e) => {
                proof {
                    lemma_uids_of_json_prefix(jv, i + 1);
                }
                return Err(e);
            },
            Ok(u) => {
                let ghost before = uids_view(out@);
                out.push(u);
                assert(uids_view(out@) =~= before.push(u@));
            },
        }
        i += 1;
    }
    assert(jv.take(i as int) =~= jv);
    Ok(out)
}

/// The message for a value that is no entity with attributes and parents.
pub open spec fn bad_entry_message() -> Seq<char> {
    "expected an entity: an object with the fields `uid`, `attrs` (an object) and `parents` (an array)"@
}

/// The entity that a JSON value stands for: an object with the entity
/// under `uid`, the attributes under `attrs` and the parents under `parents`.
#[verifier::opaque]
pub open spec fn raw_of_json(v: JsonV, extensions: Seq<ExtOp>) -> Result<RawEntityV, Seq<char>> {
    match v {
        JsonV::Object(fs) => match (member(fs, "uid"@), member(fs, "attrs"@), member(fs, "parents"@)) {
            (Some(u), Some(JsonV::Object(attrs)), Some(JsonV::Array(parents))) => match uid_of_json(
                u,
            ) {
                Err(e) => Err(e),
                Ok(uid) => match attrs_of_json(attrs, extensions) {
                    Err(e) => Err(e),
                    Ok(attrs) => match uids_of_json(parents) {
                        Err(e) => Err(e),
                        Ok(parents) => Ok(RawEntityV { uid, attrs, parents }),
                    },
                },
            },
            _ => Err(bad_entry_message()),
        },
        _ => Err(bad_entry_message()),
    }
}

/// The entity that a JSON value stands for.
pub fn json_to_raw(v: &JsonValue, extensions: &Extensions) -> (r: Result<RawEntity, String>)
    ensures
        r is Ok <==> raw_of_json(v@, extensions@) is Ok,
        r is Ok ==> r->Ok_0@ == raw_of_json(v@, extensions@)->Ok_0,
        r is Err ==> r->Err_0@ == raw_of_json(v@, extensions@)->Err_0,
{
    proof {
        reveal(raw_of_json);
    }
    match v {
        JsonValue::Object(fs) => {
            proof {
                lemma_object_view(*fs);
            }
            match (find_member(fs, "uid"), find_member(fs, "attrs"), find_member(fs, "parents")) {
                (Some(u), Some(JsonValue::Object(attrs)), Some(JsonValue::Array(parents))) => {
                    proof {
                        lemma_object_view(*attrs);
                        lemma_array_view(*parents);
                    }
                    match EntityUid::from_json(u) {
                        Err(e) => Err(e),
                        Ok(uid) => match json_to_attrs(attrs, extensions) {
                            Err(e) => Err(e),
                            Ok(attrs) => match json_to_uids(parents) {
                                Err(e) => Err(e),
                                Ok(parents) => Ok(RawEntity { uid, attrs, parents }),
                            },
                        },
                    }
                },
                _ => Err(bad_entry()),
            }
        },
        _ => Err(bad_entry()),
    }
}

fn bad_entry() -> (r: String)
    ensures
        r@ == bad_entry_message(),
{
    String::from_str(
        "expected an entity: an object with the fields `uid`, `attrs` (an object) and `parents` (an array)",
    )
}

/// The entities that JSON values stand for, in order, or the first error.
pub open spec fn raws_of_json(vs: Seq<JsonV>, extensions: Seq<ExtOp>) -> Result<
    Seq<RawEntityV>,
    Seq<char>,
>
    decreases vs.len(),
{
    if vs.len() == 0 {
        Ok(Seq::empty())
    } else {
        match raws_of_json(vs.drop_last(), extensions) {
            Err(e) => Err(e),
            Ok(es) => match raw_of_json(vs.last(), extensions) {
                Err(e) => Err(e),
                Ok(x) => Ok(es.push(x)),
            },
        }
    }
}

/// Once a prefix of the values has failed, the whole has failed alike.
pub proof fn lemma_raws_of_json_prefix(vs: Seq<JsonV>, n: int, extensions: Seq<ExtOp>)
    requires
        0 <= n <= vs.len(),
        raws_of_json(vs.take(n), extensions) is Err,
    ensures
        raws_of_json(vs, extensions) == raws_of_json(vs.take(n), extensions),
    decreases vs.len() - n,
{
    if n < vs.len() {
        assert(vs.take(n + 1).drop_last() =~= vs.take(n));
        lemma_raws_of_json_prefix(vs, n + 1, extensions);
    } else {
        assert(vs.take(n) =~= vs);
    }
}

/// The message for entities that make no store.
pub open spec fn hierarchy_error_message(e: HierarchyErrorV) -> Seq<char> {
    match e {
        HierarchyErrorV::DuplicateEntity(u) => "duplicate entity entry `"@ + show_uid(u) + "`"@,
        HierarchyErrorV::DuplicateAttribute { entity, attr } => "duplicate attribute `"@ + attr
            + "` of entity `"@ + show_uid(entity) + "`"@,
    }
}

impl HierarchyError {
    /// The message of this error.
    pub fn message(&self) -> (r: String)
        ensures
            r@ == hierarchy_error_message(self@),
    {
        match self {
            HierarchyError::DuplicateEntity(u) => {
                let t = u.to_text();
                cat3("duplicate entity entry `", t.as_str(), "`")
            },
            HierarchyError::DuplicateAttribute { entity, attr } => {
                let t = entity.to_text();
                crate::display::cat5(
                    "duplicate attribute `",
                    attr.as_str(),
                    "` of entity `",
                    t.as_str(),
                    "`",
                )
            },
        }
    }
}

/// The entities that a JSON value stands for, as they are given: an
/// array of entities that make a store. Else the message of the first error.
pub open spec fn entities_of_json(v: JsonV, extensions: Seq<ExtOp>) -> Result<
    Seq<RawEntityV>,
    Seq<char>,
> {
    match v {
        JsonV::Array(vs) => match raws_of_json(vs, extensions) {
            Err(e) => Err(e),
            Ok(raw) => match hierarchy_error(raw) {
                Some(e) => Err(hierarchy_error_message(e)),
                None => Ok(raw),
            },
        },
        _ => Err("expected an array of entities"@),
    }
}

impl Entities {
    /// The complete store of the entities that a JSON value stands for:
    /// an array of entities, each with its attributes and its parents.
    /// The ancestors of each entity are all that is above it.
    pub fn from_json(v: &JsonValue, extensions: &Extensions) -> (r: Result<Entities, String>)
        ensures
            r is Ok <==> entities_of_json(v@, extensions@) is Ok,
            r is Ok ==> closure_of(entities_of_json(v@, extensions@)->Ok_0, r->Ok_0@.entities)
                && r->Ok_0@.mode == Mode::Concrete && r->Ok_0.wf(),
            r is Err ==> r->Err_0@ == entities_of_json(v@, extensions@)->Err_0,
    {
        match v {
            JsonValue::Array(vs) => {
                proof {
                    lemma_array_view(*vs);
                }
                let ghost jv = jsons_view(vs@);
                let mut raw: Vec<RawEntity> = Vec::new();
                let mut i: usize = 0;
                assert(raws_view(raw@) =~= Seq::empty());
                while i < vs.len()
                    invariant
                        i <= vs.len(),
                        jv == jsons_view(vs@),
                        v@ == JsonV::Array(jv),
                        raws_of_json(jv.take(i as int), extensions@) == Ok::<
                            Seq<RawEntityV>,
                            Seq<char>,
                        >(raws_view(raw@)),
                    decreases vs.len() - i,
                {
                    proof {
                        assert(jv.take(i + 1).drop_last() =~= jv.take(i as int));
                        assert(jv.take(i + 1).last() == vs[i as int]@);
                    }
                    match json_to_raw(&vs[i], extensions) {
                        Err(e) => {
                            proof {
                                lemma_raws_of_json_prefix(jv, i + 1, extensions@);
                            }
                            return Err(e);
                        },
                        Ok(x) => {
                            let ghost before = raws_view(raw@);
                            raw.push(x);
                            assert(raws_view(raw@) =~= before.push(x@));
                        },
                    }
                    i += 1;
                }
                assert(jv.take(i as int) =~= jv);
                match Entities::from_raw(raw, Mode::Concrete) {
                    Ok(store) => Ok(store),
                    Err(e) => Err(e.message()),
                }
            },
            _ => Err(String::from_str("expected an array of entities")),
        }
    }
}

} // verus!
