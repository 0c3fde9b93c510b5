//! Well-formed values: a set holds no two equal elements and a record
//! no two attributes of one name. Evaluation keeps values well-formed.
use vstd::prelude::*;
use crate::ast::{Expr, ExprV, expr_fields_view, lemma_record_expr_view};
use crate::entities::{EntityV, lemma_entity_from};
use crate::evaluator::{dedup_values, lemma_all_field_values, lemma_all_values};
use crate::extensions::ExtOp;
use crate::grammar::{
    Before, Nonterminal, Read, advance, attr_at, has_key, items, method_call, one, p_name,
    parse, product, rank, relop_at, sym_at, unescaped, word_at,
};
use crate::hierarchy::closure_of;
use crate::lexer::{Sym, TokenV};
use crate::parser::expr_of_text;
use crate::json::{
    JsonV, attrs_of_json, context_of_json, entities_of_json, expr_of_json, exprs_of_json,
    extension_call, fields_of_json, raw_of_json, raws_of_json, value_of_json,
};
use crate::restricted::{empty_request, no_entities};
use crate::semantics::{
    EnvV, MAX_DEPTH, PartialValueV, all_field_values_from, all_values_from, dedup, eval, eval_all,
    eval_fields, interpret, values_of,
};
use crate::text::same_text;
use crate::value::{
    Value, ValueV, attr_from, distinct_names, fields_view, lemma_seq_has_at, lemma_seq_has_extend,
    lemma_value_eq_reflexive, repeated_name, seq_has, value_eq, values_view,
};

verus! {

/// Whether no element of `vs` equals an earlier one.
pub open spec fn no_equal_elements(vs: Seq<ValueV>) -> bool {
    forall|i: int, j: int| #![trigger vs[i], vs[j]] 0 <= i < j < vs.len() ==> !value_eq(vs[i], vs[j])
}

/// What is left when the elements that equal an earlier one are taken
/// out: no element equals an earlier one, every element is one of the
/// sequence, and every element of the sequence has an equal among them.
pub proof fn law_dedup(vs: Seq<ValueV>)
    ensures
        no_equal_elements(dedup(vs)),
        forall|k: int| 0 <= k < dedup(vs).len() ==> vs.contains(#[trigger] dedup(vs)[k]),
        forall|i: int| 0 <= i < vs.len() ==> seq_has(dedup(vs), #[trigger] vs[i]),
    decreases vs.len(),
{
    if vs.len() > 0 {
        let before = vs.drop_last();
        let earlier = dedup(before);
        let last = vs.last();
        let d = dedup(vs);
        law_dedup(before);
        assert forall|k: int| 0 <= k < d.len() implies vs.contains(#[trigger] d[k]) by {
            if k < earlier.len() {
                assert(before.contains(earlier[k]));
                let m = choose|m: int| 0 <= m < before.len() && before[m] == earlier[k];
                assert(vs[m] == earlier[k]);
            } else {
                assert(vs[vs.len() - 1] == last);
            }
        }
        assert forall|i: int| 0 <= i < vs.len() implies seq_has(d, #[trigger] vs[i]) by {
            if i < before.len() {
                assert(before[i] == vs[i]);
                assert(seq_has(earlier, vs[i]));
                if d.len() > earlier.len() {
                    lemma_seq_has_extend(earlier, d, vs[i]);
                }
            } else if !seq_has(earlier, last) {
                lemma_value_eq_reflexive(last);
                lemma_seq_has_at(d, last, d.len() - 1);
            }
        }
        if !seq_has(earlier, last) {
            assert forall|i: int, j: int|
                #![trigger d[i], d[j]]
                0 <= i < j < d.len() implies !value_eq(d[i], d[j]) by {
                if j < earlier.len() {
                    assert(!value_eq(earlier[i], earlier[j]));
                } else if value_eq(d[i], last) {
                    lemma_seq_has_at(earlier, last, i);
                }
            }
        }
    }
}

/// Whether a value is well-formed: in it, no set holds two equal elements
/// and no record two attributes of one name.
pub open spec fn well_formed(v: ValueV) -> bool
    decreases v, 0nat,
{
    match v {
        ValueV::SetOf(xs) => no_equal_elements(xs) && all_well_formed(xs),
        ValueV::Record(fs) => distinct_names(fs) && fields_well_formed(fs),
        _ => true,
    }
}

/// Whether each of the values is well-formed.
pub open spec fn all_well_formed(xs: Seq<ValueV>) -> bool
    decreases xs, 1nat,
{
    if xs.len() == 0 {
        true
    } else {
        well_formed(xs.last()) && all_well_formed(xs.drop_last())
    }
}

/// Whether the value of each attribute is well-formed.
pub open spec fn fields_well_formed(fs: Seq<(Seq<char>, ValueV)>) -> bool
    decreases fs, 1nat,
{
    if fs.len() == 0 {
        true
    } else {
        well_formed(fs.last().1) && fields_well_formed(fs.drop_last())
    }
}

/// Values are all well-formed if and only if each is.
pub proof fn lemma_all_well_formed(xs: Seq<ValueV>)
    ensures
        all_well_formed(xs) <==> forall|i: int| 0 <= i < xs.len() ==> well_formed(#[trigger] xs[i]),
    decreases xs.len(),
{
    if xs.len() > 0 {
        let before = xs.drop_last();
        lemma_all_well_formed(before);
        if all_well_formed(xs) {
            assert forall|i: int| 0 <= i < xs.len() implies well_formed(#[trigger] xs[i]) by {
                if i < before.len() {
                    assert(before[i] == xs[i]);
                }
            }
        }
        if forall|i: int| 0 <= i < xs.len() ==> well_formed(#[trigger] xs[i]) {
            assert forall|i: int| 0 <= i < before.len() implies well_formed(
                #[trigger] before[i],
            ) by {
                assert(before[i] == xs[i]);
            }
            assert(well_formed(xs[xs.len() - 1]));
        }
    }
}

/// The values of attributes are all well-formed if and only if each is.
pub proof fn lemma_fields_well_formed(fs: Seq<(Seq<char>, ValueV)>)
    ensures
        fields_well_formed(fs) <==> forall|i: int|
            0 <= i < fs.len() ==> well_formed((#[trigger] fs[i]).1),
    decreases fs.len(),
{
    if fs.len() > 0 {
        let before = fs.drop_last();
        lemma_fields_well_formed(before);
        if fields_well_formed(fs) {
            assert forall|i: int| 0 <= i < fs.len() implies well_formed((#[trigger] fs[i]).1) by {
                if i < before.len() {
                    assert(before[i] == fs[i]);
                }
            }
        }
        if forall|i: int| 0 <= i < fs.len() ==> well_formed((#[trigger] fs[i]).1) {
            assert forall|i: int| 0 <= i < before.len() implies well_formed(
                (#[trigger] before[i]).1,
            ) by {
                assert(before[i] == fs[i]);
            }
            assert(well_formed(fs[fs.len() - 1].1));
        }
    }
}

/// The set of well-formed values, without those that equal an earlier
/// one, is well-formed.
pub proof fn lemma_set_well_formed(vs: Seq<ValueV>)
    requires
        all_well_formed(vs),
    ensures
        well_formed(ValueV::SetOf(dedup(vs))),
{
    law_dedup(vs);
    lemma_all_well_formed(vs);
    lemma_all_well_formed(dedup(vs));
    assert forall|k: int| 0 <= k < dedup(vs).len() implies well_formed(
        #[trigger] dedup(vs)[k],
    ) by {
        assert(vs.contains(dedup(vs)[k]));
        let m = choose|m: int| 0 <= m < vs.len() && vs[m] == dedup(vs)[k];
        assert(well_formed(vs[m]));
    }
}

/// An attribute that is found among well-formed ones is well-formed.
pub proof fn lemma_attr_well_formed(fs: Seq<(Seq<char>, ValueV)>, k: Seq<char>, i: int)
    requires
        fields_well_formed(fs),
        attr_from(fs, k, i) is Some,
    ensures
        well_formed(attr_from(fs, k, i)->0),
    decreases fs.len() - i,
{
    lemma_fields_well_formed(fs);
    if fs[i].0 != k {
        lemma_attr_well_formed(fs, k, i + 1);
    }
}

impl Value {
    /// The set of the values `vs`, without those that equal an earlier one.
    pub fn set(vs: Vec<Value>) -> (r: Value)
        ensures
            r@ == ValueV::SetOf(dedup(values_view(vs@))),
            all_well_formed(values_view(vs@)) ==> well_formed(r@),
    {
        let out = dedup_values(&vs);
        proof {
            crate::value::lemma_set_view(out);
            if all_well_formed(values_view(vs@)) {
                lemma_set_well_formed(values_view(vs@));
            }
        }
        Value::SetOf(out)
    }

    /// The record of the attributes `fs`, unless two of them have one
    /// name: then the first name that repeats an earlier one.
    pub fn record(fs: Vec<(String, Value)>) -> (r: Result<Value, String>)
        ensures
            r is Ok <==> distinct_names(fields_view(fs@)),
            r is Ok ==> r->Ok_0@ == ValueV::Record(fields_view(fs@)),
            r is Ok && fields_well_formed(fields_view(fs@)) ==> well_formed(r->Ok_0@),
            r is Err ==> Some(r->Err_0@) == crate::value::first_repeated_name(fields_view(fs@)),
    {
        match repeated_name(&fs) {
            Some(name) => Err(name),
            None => {
                proof {
                    crate::value::lemma_record_view(fs);
                }
                Ok(Value::Record(fs))
            },
        }
    }
}

/// Whether no two fields of a record literal have one name.
pub open spec fn distinct_keys(fs: Seq<(Seq<char>, ExprV)>) -> bool {
    forall|i: int, j: int| #![trigger fs[i], fs[j]] 0 <= i < j < fs.len() ==> fs[i].0 != fs[j].0
}

/// Whether `k` is the first name among the fields that repeats the name
/// of an earlier field.
pub open spec fn repeats_first(fs: Seq<(Seq<char>, ExprV)>, k: Seq<char>) -> bool {
    exists|i: int, j: int|
        #![trigger fs[i], fs[j]]
        0 <= i < j < fs.len() && fs[i].0 == k && fs[j].0 == k && distinct_keys(fs.take(j))
}

impl Expr {
    /// The record literal with the fields `fs`, unless two of them have
    /// one name: then the first name that repeats an earlier one.
    pub fn record(fs: Vec<(String, Expr)>) -> (r: Result<Expr, String>)
        ensures
            r is Ok <==> distinct_keys(expr_fields_view(fs@)),
            r is Ok ==> r->Ok_0@ == ExprV::Record(expr_fields_view(fs@)),
            r is Err ==> repeats_first(expr_fields_view(fs@), r->Err_0@),
    {
        let ghost fv = expr_fields_view(fs@);
        let mut j: usize = 0;
        assert(distinct_keys(fv.take(0)));
        while j < fs.len()
            invariant
                j <= fs.len(),
                fv == expr_fields_view(fs@),
                distinct_keys(fv.take(j as int)),
            decreases fs.len() - j,
        {
            let mut i: usize = 0;
            while i < j
                invariant
                    i <= j,
                    j < fs.len(),
                    fv == expr_fields_view(fs@),
                    distinct_keys(fv.take(j as int)),
                    forall|a: int| 0 <= a < i ==> (#[trigger] fv[a]).0 != fv[j as int].0,
                decreases j - i,
            {
                if same_text(&fs[i].0, &fs[j].0) {
                    let name = fs[j].0.clone();
                    proof {
                        assert(fv[i as int].0 == fs[i as int].0@);
                        assert(fv[j as int].0 == fs[j as int].0@);
                        assert(fv[i as int].0 == name@ && fv[j as int].0 == name@);
                    }
                    return Err(name);
                }
                proof {
                    assert(fv[i as int].0 == fs[i as int].0@);
                    assert(fv[j as int].0 == fs[j as int].0@);
                }
                i += 1;
            }
            proof {
                let next = fv.take(j + 1);
                assert forall|a: int, b: int|
                    #![trigger next[a], next[b]]
                    0 <= a < b < next.len() implies next[a].0 != next[b].0 by {
                    if b < j {
                        assert(fv.take(j as int)[a].0 != fv.take(j as int)[b].0);
                    } else {
                        assert(fv[a].0 != fv[j as int].0);
                    }
                }
            }
            j += 1;
        }
        proof {
            assert(fv.take(j as int) =~= fv);
            lemma_record_expr_view(fs);
        }
        Ok(Expr::Record(fs))
    }
}

/// Whether an expression is well-formed: the values in it are, and no
/// record literal in it has two fields of one name.
pub open spec fn expr_well_formed(e: ExprV) -> bool
    decreases e, 0nat,
{
    match e {
        ExprV::Lit(_) | ExprV::Var(_) | ExprV::Slot(_) | ExprV::Unknown(_) => true,
        ExprV::Val(v) => well_formed(v),
        ExprV::If(c, t, f) => expr_well_formed(*c) && expr_well_formed(*t) && expr_well_formed(*f),
        ExprV::And(a, b) => expr_well_formed(*a) && expr_well_formed(*b),
        ExprV::Or(a, b) => expr_well_formed(*a) && expr_well_formed(*b),
        ExprV::Binary(_, a, b) => expr_well_formed(*a) && expr_well_formed(*b),
        ExprV::Unary(_, a) => expr_well_formed(*a),
        ExprV::MulByConst(a, _) => expr_well_formed(*a),
        ExprV::GetAttr(a, _) => expr_well_formed(*a),
        ExprV::HasAttr(a, _) => expr_well_formed(*a),
        ExprV::Like(a, _) => expr_well_formed(*a),
        ExprV::Is(a, _) => expr_well_formed(*a),
        ExprV::Call(_, args) => exprs_well_formed(args),
        ExprV::SetOf(es) => exprs_well_formed(es),
        ExprV::Record(fs) => distinct_keys(fs) && expr_fields_well_formed(fs),
    }
}

/// Whether each of the expressions is well-formed.
pub open spec fn exprs_well_formed(es: Seq<ExprV>) -> bool
    decreases es, 1nat,
{
    if es.len() == 0 {
        true
    } else {
        exprs_well_formed(es.drop_last()) && expr_well_formed(es.last())
    }
}

/// Whether each field of a record literal is well-formed.
pub open spec fn expr_fields_well_formed(fs: Seq<(Seq<char>, ExprV)>) -> bool
    decreases fs, 1nat,
{
    if fs.len() == 0 {
        true
    } else {
        expr_fields_well_formed(fs.drop_last()) && expr_well_formed(fs.last().1)
    }
}

/// Whether the attributes of each entity have well-formed values.
pub open spec fn entities_well_formed(es: Seq<EntityV>) -> bool {
    forall|i: int| 0 <= i < es.len() ==> fields_well_formed((#[trigger] es[i]).attrs)
}

/// Whether what an expression is evaluated against is well-formed: the
/// context of the request and the attributes of the entities.
pub open spec fn env_well_formed(env: EnvV) -> bool {
    well_formed(ValueV::Record(env.request.context)) && entities_well_formed(
        env.entities.entities,
    )
}

/// Evaluation keeps values well-formed: a well-formed expression, against
/// a well-formed request and well-formed entities, has a well-formed value.
pub proof fn law_evaluation_keeps_well_formed(e: ExprV, env: EnvV, partial: bool, level: nat)
    requires
        expr_well_formed(e),
        env_well_formed(env),
    ensures
        eval(e, env, partial, level) matches Ok(PartialValueV::Value(v)) ==> well_formed(v),
    decreases e, 0nat,
{
    if level <= MAX_DEPTH {
        match e {
            ExprV::If(c, t, f) => {
                law_evaluation_keeps_well_formed(*t, env, partial, level + 1);
                law_evaluation_keeps_well_formed(*f, env, partial, level + 1);
            },
            ExprV::GetAttr(a, attr) => {
                law_evaluation_keeps_well_formed(*a, env, partial, level + 1);
                match eval(*a, env, partial, level + 1) {
                    Ok(PartialValueV::Value(ValueV::Record(fs))) => {
                        if attr_from(fs, attr, 0) is Some {
                            lemma_attr_well_formed(fs, attr, 0);
                        }
                    },
                    Ok(PartialValueV::Value(ValueV::EntityUid(u))) => {
                        if env.entities.attr(u, attr) is Ok {
                            lemma_entity_from(env.entities.entities, u, 0);
                            let x = env.entities.get(u)->0;
                            lemma_attr_well_formed(x.attrs, attr, 0);
                        }
                    },
                    _ => {},
                }
            },
            ExprV::SetOf(es) => {
                lemma_eval_all_well_formed(es, env, partial, level + 1);
                match eval_all(es, env, partial, level + 1) {
                    Ok(pvs) => {
                        if all_values_from(pvs, 0) {
                            let vs = values_of(pvs);
                            assert forall|i: int| 0 <= i < vs.len() implies well_formed(
                                #[trigger] vs[i],
                            ) by {
                                lemma_all_values(pvs, 0, i);
                            }
                            lemma_all_well_formed(vs);
                            lemma_set_well_formed(vs);
                        }
                    },
                    _ => {},
                }
            },
            ExprV::Record(fs) => {
                lemma_eval_fields_well_formed(fs, env, partial, level + 1);
                match eval_fields(fs, env, partial, level + 1) {
                    Ok(pfs) => {
                        if all_field_values_from(pfs, 0) {
                            let vs = Seq::new(pfs.len(), |i: int| (pfs[i].0, pfs[i].1->Value_0));
                            assert forall|i: int| 0 <= i < vs.len() implies well_formed(
                                (#[trigger] vs[i]).1,
                            ) by {
                                lemma_all_field_values(pfs, 0, i);
                            }
                            lemma_fields_well_formed(vs);
                            assert forall|i: int, j: int|
                                #![trigger vs[i], vs[j]]
                                0 <= i < j < vs.len() implies vs[i].0 != vs[j].0 by {
                                assert(fs[i].0 != fs[j].0);
                            }
                        }
                    },
                    _ => {},
                }
            },
            _ => {},
        }
    }
}

/// The values of well-formed expressions are well-formed.
pub proof fn lemma_eval_all_well_formed(es: Seq<ExprV>, env: EnvV, partial: bool, level: nat)
    requires
        exprs_well_formed(es),
        env_well_formed(env),
    ensures
        eval_all(es, env, partial, level) matches Ok(pvs) ==> pvs.len() == es.len() && forall|
            i: int,
        |
            0 <= i < pvs.len() ==> ((#[trigger] pvs[i]) matches PartialValueV::Value(v)
                ==> well_formed(v)),
    decreases es, 1nat,
{
    if es.len() > 0 {
        lemma_eval_all_well_formed(es.drop_last(), env, partial, level);
        law_evaluation_keeps_well_formed(es.last(), env, partial, level);
    }
}

/// The values of the well-formed fields of a record literal are
/// well-formed, and stand under the names of the fields.
pub proof fn lemma_eval_fields_well_formed(
    fs: Seq<(Seq<char>, ExprV)>,
    env: EnvV,
    partial: bool,
    level: nat,
)
    requires
        expr_fields_well_formed(fs),
        env_well_formed(env),
    ensures
        eval_fields(fs, env, partial, level) matches Ok(pfs) ==> pfs.len() == fs.len() && forall|
            i: int,
        |
            0 <= i < pfs.len() ==> (#[trigger] pfs[i]).0 == fs[i].0 && (pfs[i].1 matches PartialValueV::Value(
                v,
            ) ==> well_formed(v)),
    decreases fs, 1nat,
{
    if fs.len() > 0 {
        lemma_eval_fields_well_formed(fs.drop_last(), env, partial, level);
        law_evaluation_keeps_well_formed(fs.last().1, env, partial, level);
    }
}

/// A well-formed expression, against a well-formed request and
/// well-formed entities, is interpreted as a well-formed value.
pub proof fn law_interpret_keeps_well_formed(e: ExprV, env: EnvV)
    requires
        expr_well_formed(e),
        env_well_formed(env),
    ensures
        interpret(e, env) matches Ok(v) ==> well_formed(v),
{
    law_evaluation_keeps_well_formed(e, env, false, 1);
}

/// The expression that a JSON value stands for is well-formed.
pub proof fn law_json_expression_well_formed(v: JsonV)
    ensures
        expr_of_json(v) matches Ok(e) ==> expr_well_formed(e),
    decreases v, 0nat,
{
    match v {
        JsonV::Array(vs) => {
            lemma_json_expressions_well_formed(vs);
        },
        JsonV::Object(fs) => {
            if fs.len() == 1 && fs[0].0 == "__entity"@ {
            } else if fs.len() == 1 && fs[0].0 == "__extn"@ {
                match extension_call(fs[0].1) {
                    Some((name, arg)) => {
                        law_json_expression_well_formed(arg);
                        match expr_of_json(arg) {
                            Ok(a) => {
                                let args = seq![a];
                                assert(args.drop_last() =~= Seq::<ExprV>::empty());
                                assert(exprs_well_formed(args.drop_last()));
                                assert(args.last() == a);
                                assert(exprs_well_formed(args));
                            },
                            _ => {},
                        }
                    },
                    None => {},
                }
            } else {
                lemma_json_fields_well_formed(fs);
            }
        },
        _ => {},
    }
}

/// The expressions that JSON values stand for are well-formed.
pub proof fn lemma_json_expressions_well_formed(vs: Seq<JsonV>)
    ensures
        exprs_of_json(vs) matches Ok(es) ==> exprs_well_formed(es),
    decreases vs, 1nat,
{
    if vs.len() > 0 {
        lemma_json_expressions_well_formed(vs.drop_last());
        law_json_expression_well_formed(vs.last());
        match (exprs_of_json(vs.drop_last()), expr_of_json(vs.last())) {
            (Ok(es), Ok(x)) => {
                assert(es.push(x).drop_last() =~= es);
            },
            _ => {},
        }
    }
}

/// The fields that the members of a JSON object stand for are well-formed,
/// and no two of them have one name.
pub proof fn lemma_json_fields_well_formed(fs: Seq<(Seq<char>, JsonV)>)
    ensures
        fields_of_json(fs) matches Ok(es) ==> expr_fields_well_formed(es) && distinct_keys(es),
    decreases fs, 1nat,
{
    if fs.len() > 0 {
        lemma_json_fields_well_formed(fs.drop_last());
        law_json_expression_well_formed(fs.last().1);
        match (fields_of_json(fs.drop_last()), expr_of_json(fs.last().1)) {
            (Ok(es), Ok(x)) => {
                let all = es.push((fs.last().0, x));
                assert(all.drop_last() =~= es);
                if fields_of_json(fs) is Ok {
                    assert forall|i: int, j: int|
                        #![trigger all[i], all[j]]
                        0 <= i < j < all.len() implies all[i].0 != all[j].0 by {
                        if j < es.len() {
                            assert(es[i].0 != es[j].0);
                        } else {
                            assert(es[i] == all[i]);
                        }
                    }
                }
            },
            _ => {},
        }
    }
}

/// The value that a JSON value stands for is well-formed.
pub proof fn law_json_value_well_formed(v: JsonV, extensions: Seq<ExtOp>)
    ensures
        value_of_json(v, extensions) matches Ok(x) ==> well_formed(x),
{
    law_json_expression_well_formed(v);
    match expr_of_json(v) {
        Ok(e) => {
            let env = EnvV { request: empty_request(), entities: no_entities(), extensions };
            assert(fields_well_formed(env.request.context));
            law_interpret_keeps_well_formed(e, env);
        },
        _ => {},
    }
}

/// The attributes that the members of a JSON object stand for have
/// well-formed values.
pub proof fn law_json_attributes_well_formed(fs: Seq<(Seq<char>, JsonV)>, extensions: Seq<ExtOp>)
    ensures
        attrs_of_json(fs, extensions) matches Ok(vs) ==> fields_well_formed(vs),
        context_of_json(fs, extensions) matches Ok(vs) ==> well_formed(ValueV::Record(vs)),
    decreases fs.len(),
{
    if fs.len() > 0 {
        law_json_attributes_well_formed(fs.drop_last(), extensions);
        law_json_value_well_formed(fs.last().1, extensions);
        match (attrs_of_json(fs.drop_last(), extensions), value_of_json(fs.last().1, extensions)) {
            (Ok(vs), Ok(x)) => {
                assert(vs.push((fs.last().0, x)).drop_last() =~= vs);
            },
            _ => {},
        }
    }
}

/// The entities that JSON values stand for have attributes with
/// well-formed values.
pub proof fn lemma_json_entities_well_formed(vs: Seq<JsonV>, extensions: Seq<ExtOp>)
    ensures
        raws_of_json(vs, extensions) matches Ok(raw) ==> forall|i: int|
            0 <= i < raw.len() ==> fields_well_formed((#[trigger] raw[i]).attrs),
    decreases vs.len(),
{
    reveal(raw_of_json);
    if vs.len() > 0 {
        lemma_json_entities_well_formed(vs.drop_last(), extensions);
        match vs.last() {
            JsonV::Object(fs) => match crate::json::member(fs, "attrs"@) {
                Some(JsonV::Object(attrs)) => {
                    law_json_attributes_well_formed(attrs, extensions);
                },
                _ => {},
            },
            _ => {},
        }
    }
}

/// A store of the entities that a JSON value stands for, each with its
/// ancestors, is well-formed.
pub proof fn law_json_store_well_formed(v: JsonV, extensions: Seq<ExtOp>, es: Seq<EntityV>)
    requires
        entities_of_json(v, extensions) is Ok,
        closure_of(entities_of_json(v, extensions)->Ok_0, es),
    ensures
        entities_well_formed(es),
{
    match v {
        JsonV::Array(vs) => {
            lemma_json_entities_well_formed(vs, extensions);
            let raw = entities_of_json(v, extensions)->Ok_0;
            assert forall|i: int| 0 <= i < es.len() implies fields_well_formed(
                (#[trigger] es[i]).attrs,
            ) by {
                assert(crate::hierarchy::entity_closes(raw, i, es[i]));
            }
        },
        _ => {},
    }
}

/// Expressions are all well-formed if and only if each is.
pub proof fn lemma_exprs_well_formed(es: Seq<ExprV>)
    ensures
        exprs_well_formed(es) <==> forall|i: int|
            0 <= i < es.len() ==> expr_well_formed(#[trigger] es[i]),
    decreases es.len(),
{
    if es.len() > 0 {
        let before = es.drop_last();
        lemma_exprs_well_formed(before);
        if exprs_well_formed(es) {
            assert forall|i: int| 0 <= i < es.len() implies expr_well_formed(#[trigger] es[i]) by {
                if i < before.len() {
                    assert(before[i] == es[i]);
                }
            }
        }
        if forall|i: int| 0 <= i < es.len() ==> expr_well_formed(#[trigger] es[i]) {
            assert forall|i: int| 0 <= i < before.len() implies expr_well_formed(
                #[trigger] before[i],
            ) by {
                assert(before[i] == es[i]);
            }
            assert(expr_well_formed(es[es.len() - 1]));
        }
    }
}

/// Whether what was read before is well-formed, and is what the
/// nonterminal `n` goes on from.
pub open spec fn fits(n: Nonterminal, before: Before) -> bool {
    match n {
        Nonterminal::OrTail
        | Nonterminal::AndTail
        | Nonterminal::RelRest
        | Nonterminal::AddTail
        | Nonterminal::MulTail
        | Nonterminal::MemberTail => before is Operand && expr_well_formed(before->Operand_0),
        Nonterminal::List(_) => before is Items && exprs_well_formed(before->Items_0),
        Nonterminal::Fields => before is Entries && distinct_keys(before->Entries_0)
            && expr_fields_well_formed(before->Entries_0),
        _ => true,
    }
}

/// Whether what was read is well-formed.
pub open spec fn read_well_formed(r: Read) -> bool {
    match r {
        Read::One(e) => expr_well_formed(e),
        Read::Items(es) => exprs_well_formed(es),
        Read::Entries(fs) => distinct_keys(fs) && expr_fields_well_formed(fs),
    }
}

/// What is read after something well-formed is well-formed.
pub proof fn lemma_parse_well_formed(n: Nonterminal, ts: Seq<TokenV>, pos: int, before: Before)
    requires
        fits(n, before),
    ensures
        parse(n, ts, pos, before) matches Ok((r, _)) ==> read_well_formed(r),
    decreases ts.len() - pos, rank(n), 1nat,
{
    match n {
        Nonterminal::Expr => {
            lemma_parse_expr(ts, pos, before);
        },
        Nonterminal::Or => {
            lemma_parse_or(ts, pos, before);
        },
        Nonterminal::OrTail => {
            lemma_parse_or_tail(ts, pos, before);
        },
        Nonterminal::And => {
            lemma_parse_and(ts, pos, before);
        },
        Nonterminal::AndTail => {
            lemma_parse_and_tail(ts, pos, before);
        },
        Nonterminal::Rel => {
            lemma_parse_rel(ts, pos, before);
        },
        Nonterminal::RelRest => {
            lemma_parse_rel_rest(ts, pos, before);
        },
        Nonterminal::Add => {
            lemma_parse_add(ts, pos, before);
        },
        Nonterminal::AddTail => {
            lemma_parse_add_tail(ts, pos, before);
        },
        Nonterminal::Mul => {
            lemma_parse_mul(ts, pos, before);
        },
        Nonterminal::MulTail => {
            lemma_parse_mul_tail(ts, pos, before);
        },
        Nonterminal::Unary => {
            lemma_parse_unary(ts, pos, before);
        },
        Nonterminal::Member => {
            lemma_parse_member(ts, pos, before);
        },
        Nonterminal::MemberTail => {
            lemma_parse_member_tail(ts, pos, before);
        },
        Nonterminal::Primary => {
            lemma_parse_primary(ts, pos, before);
        },
        Nonterminal::List(close) => {
            lemma_parse_list(close, ts, pos, before);
        },
        Nonterminal::Fields => {
            lemma_parse_fields(ts, pos, before);
        },
    }
}

proof fn lemma_parse_expr(ts: Seq<TokenV>, pos: int, before: Before)
    requires
        fits(Nonterminal::Expr, before),
    ensures
        parse(Nonterminal::Expr, ts, pos, before) matches Ok((r, _)) ==> read_well_formed(r),
    decreases ts.len() - pos, rank(Nonterminal::Expr), 0nat,
{
    let len = ts.len();
    let nothing = Before::Nothing;
    if 0 <= pos < len {
        if word_at(ts, pos, "if"@) {
            lemma_parse_well_formed(Nonterminal::Expr, ts, pos + 1, nothing);
            match advance(one(parse(Nonterminal::Expr, ts, pos + 1, nothing)), pos + 1, len) {
                Ok((c, p1)) => if word_at(ts, p1, "then"@) {
                    lemma_parse_well_formed(Nonterminal::Expr, ts, p1 + 1, nothing);
                    match advance(
                        one(parse(Nonterminal::Expr, ts, p1 + 1, nothing)),
                        p1 + 1,
                        len,
                    ) {
                        Ok((t, p2)) => if word_at(ts, p2, "else"@) {
                            lemma_parse_well_formed(Nonterminal::Expr, ts, p2 + 1, nothing);
                        },
                        _ => {},
                    }
                },
                _ => {},
            }
        } else {
            lemma_parse_well_formed(Nonterminal::Or, ts, pos, nothing);
        }
    }

}

proof fn lemma_parse_or(ts: Seq<TokenV>, pos: int, before: Before)
    requires
        fits(Nonterminal::Or, before),
    ensures
        parse(Nonterminal::Or, ts, pos, before) matches Ok((r, _)) ==> read_well_formed(r),
    decreases ts.len() - pos, rank(Nonterminal::Or), 0nat,
{
    let len = ts.len();
    let nothing = Before::Nothing;
    if 0 <= pos < len {
        lemma_parse_well_formed(Nonterminal::And, ts, pos, nothing);
        match advance(one(parse(Nonterminal::And, ts, pos, nothing)), pos, len) {
            Ok((lhs, p)) => {
                lemma_parse_well_formed(Nonterminal::OrTail, ts, p, Before::Operand(lhs));
            },
            _ => {},
        }
    }

}

proof fn lemma_parse_or_tail(ts: Seq<TokenV>, pos: int, before: Before)
    requires
        fits(Nonterminal::OrTail, before),
    ensures
        parse(Nonterminal::OrTail, ts, pos, before) matches Ok((r, _)) ==> read_well_formed(r),
    decreases ts.len() - pos, rank(Nonterminal::OrTail), 0nat,
{
    let len = ts.len();
    let nothing = Before::Nothing;
    let lhs = before->Operand_0;
    if sym_at(ts, pos, Sym::OrOr) {
        lemma_parse_well_formed(Nonterminal::And, ts, pos + 1, nothing);
        match advance(one(parse(Nonterminal::And, ts, pos + 1, nothing)), pos + 1, len) {
            Ok((rhs, p)) => {
                lemma_parse_well_formed(
                    Nonterminal::OrTail,
                    ts,
                    p,
                    Before::Operand(ExprV::Or(Box::new(lhs), Box::new(rhs))),
                );
            },
            _ => {},
        }
    }

}

proof fn lemma_parse_and(ts: Seq<TokenV>, pos: int, before: Before)
    requires
        fits(Nonterminal::And, before),
    ensures
        parse(Nonterminal::And, ts, pos, before) matches Ok((r, _)) ==> read_well_formed(r),
    decreases ts.len() - pos, rank(Nonterminal::And), 0nat,
{
    let len = ts.len();
    let nothing = Before::Nothing;
    if 0 <= pos < len {
        lemma_parse_well_formed(Nonterminal::Rel, ts, pos, nothing);
        match advance(one(parse(Nonterminal::Rel, ts, pos, nothing)), pos, len) {
            Ok((lhs, p)) => {
                lemma_parse_well_formed(Nonterminal::AndTail, ts, p, Before::Operand(lhs));
            },
            _ => {},
        }
    }

}

proof fn lemma_parse_and_tail(ts: Seq<TokenV>, pos: int, before: Before)
    requires
        fits(Nonterminal::AndTail, before),
    ensures
        parse(Nonterminal::AndTail, ts, pos, before) matches Ok((r, _)) ==> read_well_formed(r),
    decreases ts.len() - pos, rank(Nonterminal::AndTail), 0nat,
{
    let len = ts.len();
    let nothing = Before::Nothing;
    let lhs = before->Operand_0;
    if sym_at(ts, pos, Sym::AndAnd) {
        lemma_parse_well_formed(Nonterminal::Rel, ts, pos + 1, nothing);
        match advance(one(parse(Nonterminal::Rel, ts, pos + 1, nothing)), pos + 1, len) {
            Ok((rhs, p)) => {
                lemma_parse_well_formed(
                    Nonterminal::AndTail,
                    ts,
                    p,
                    Before::Operand(ExprV::And(Box::new(lhs), Box::new(rhs))),
                );
            },
            _ => {},
        }
    }

}

proof fn lemma_parse_rel(ts: Seq<TokenV>, pos: int, before: Before)
    requires
        fits(Nonterminal::Rel, before),
    ensures
        parse(Nonterminal::Rel, ts, pos, before) matches Ok((r, _)) ==> read_well_formed(r),
    decreases ts.len() - pos, rank(Nonterminal::Rel), 0nat,
{
    let len = ts.len();
    let nothing = Before::Nothing;
    if 0 <= pos < len {
        lemma_parse_well_formed(Nonterminal::Add, ts, pos, nothing);
        match advance(one(parse(Nonterminal::Add, ts, pos, nothing)), pos, len) {
            Ok((lhs, p)) => {
                lemma_parse_well_formed(Nonterminal::RelRest, ts, p, Before::Operand(lhs));
            },
            _ => {},
        }
    }

}

proof fn lemma_parse_rel_rest(ts: Seq<TokenV>, pos: int, before: Before)
    requires
        fits(Nonterminal::RelRest, before),
    ensures
        parse(Nonterminal::RelRest, ts, pos, before) matches Ok((r, _)) ==> read_well_formed(r),
    decreases ts.len() - pos, rank(Nonterminal::RelRest), 0nat,
{
    let len = ts.len();
    let nothing = Before::Nothing;
    if 0 <= pos < len {
        match relop_at(ts, pos) {
            Some(_) => {
                lemma_parse_well_formed(Nonterminal::Add, ts, pos + 1, nothing);
            },
            None => {
                if word_at(ts, pos, "has"@) {
                } else if word_at(ts, pos, "like"@) {
                } else if word_at(ts, pos, "is"@) {
                    match advance(p_name(ts, pos + 1), pos + 1, len) {
                        Ok((name, q)) => if word_at(ts, q, "in"@) {
                            lemma_parse_well_formed(Nonterminal::Add, ts, q + 1, nothing);
                            match advance(
                                one(parse(Nonterminal::Add, ts, q + 1, nothing)),
                                q + 1,
                                len,
                            ) {
                                Ok((rhs, _)) => {
                                    let lhs = before->Operand_0;
                                    assert(expr_well_formed(ExprV::Is(Box::new(lhs), name)));
                                    assert(expr_well_formed(
                                        ExprV::Binary(
                                            crate::ast::BinaryOp::In,
                                            Box::new(lhs),
                                            Box::new(rhs),
                                        ),
                                    ));
                                },
                                _ => {},
                            }
                        },
                        _ => {},
                    }
                }
            },
        }
    }

}

proof fn lemma_parse_add(ts: Seq<TokenV>, pos: int, before: Before)
    requires
        fits(Nonterminal::Add, before),
    ensures
        parse(Nonterminal::Add, ts, pos, before) matches Ok((r, _)) ==> read_well_formed(r),
    decreases ts.len() - pos, rank(Nonterminal::Add), 0nat,
{
    let len = ts.len();
    let nothing = Before::Nothing;
    if 0 <= pos < len {
        lemma_parse_well_formed(Nonterminal::Mul, ts, pos, nothing);
        match advance(one(parse(Nonterminal::Mul, ts, pos, nothing)), pos, len) {
            Ok((lhs, p)) => {
                lemma_parse_well_formed(Nonterminal::AddTail, ts, p, Before::Operand(lhs));
            },
            _ => {},
        }
    }

}

proof fn lemma_parse_add_tail(ts: Seq<TokenV>, pos: int, before: Before)
    requires
        fits(Nonterminal::AddTail, before),
    ensures
        parse(Nonterminal::AddTail, ts, pos, before) matches Ok((r, _)) ==> read_well_formed(r),
    decreases ts.len() - pos, rank(Nonterminal::AddTail), 0nat,
{
    let len = ts.len();
    let nothing = Before::Nothing;
    let lhs = before->Operand_0;
    if sym_at(ts, pos, Sym::Plus) || sym_at(ts, pos, Sym::Minus) {
        lemma_parse_well_formed(Nonterminal::Mul, ts, pos + 1, nothing);
        match advance(one(parse(Nonterminal::Mul, ts, pos + 1, nothing)), pos + 1, len) {
            Ok((rhs, p)) => {
                let op = if sym_at(ts, pos, Sym::Plus) {
                    crate::ast::BinaryOp::Add
                } else {
                    crate::ast::BinaryOp::Sub
                };
                lemma_parse_well_formed(
                    Nonterminal::AddTail,
                    ts,
                    p,
                    Before::Operand(ExprV::Binary(op, Box::new(lhs), Box::new(rhs))),
                );
            },
            _ => {},
        }
    }

}

proof fn lemma_parse_mul(ts: Seq<TokenV>, pos: int, before: Before)
    requires
        fits(Nonterminal::Mul, before),
    ensures
        parse(Nonterminal::Mul, ts, pos, before) matches Ok((r, _)) ==> read_well_formed(r),
    decreases ts.len() - pos, rank(Nonterminal::Mul), 0nat,
{
    let len = ts.len();
    let nothing = Before::Nothing;
    if 0 <= pos < len {
        lemma_parse_well_formed(Nonterminal::Unary, ts, pos, nothing);
        match advance(one(parse(Nonterminal::Unary, ts, pos, nothing)), pos, len) {
            Ok((lhs, p)) => {
                lemma_parse_well_formed(Nonterminal::MulTail, ts, p, Before::Operand(lhs));
            },
            _ => {},
        }
    }

}

proof fn lemma_parse_mul_tail(ts: Seq<TokenV>, pos: int, before: Before)
    requires
        fits(Nonterminal::MulTail, before),
    ensures
        parse(Nonterminal::MulTail, ts, pos, before) matches Ok((r, _)) ==> read_well_formed(r),
    decreases ts.len() - pos, rank(Nonterminal::MulTail), 0nat,
{
    let len = ts.len();
    let nothing = Before::Nothing;
    let lhs = before->Operand_0;
    if sym_at(ts, pos, Sym::Star) {
        lemma_parse_well_formed(Nonterminal::Unary, ts, pos + 1, nothing);
        match advance(one(parse(Nonterminal::Unary, ts, pos + 1, nothing)), pos + 1, len) {
            Ok((rhs, p)) => {
                reveal(product);
                match product(lhs, rhs) {
                    Some(e) => {
                        lemma_parse_well_formed(
                            Nonterminal::MulTail,
                            ts,
                            p,
                            Before::Operand(e),
                        );
                    },
                    None => {},
                }
            },
            _ => {},
        }
    }

}

proof fn lemma_parse_unary(ts: Seq<TokenV>, pos: int, before: Before)
    requires
        fits(Nonterminal::Unary, before),
    ensures
        parse(Nonterminal::Unary, ts, pos, before) matches Ok((r, _)) ==> read_well_formed(r),
    decreases ts.len() - pos, rank(Nonterminal::Unary), 0nat,
{
    let len = ts.len();
    let nothing = Before::Nothing;
    if 0 <= pos < len {
        if sym_at(ts, pos, Sym::Bang) {
            lemma_parse_well_formed(Nonterminal::Unary, ts, pos + 1, nothing);
        } else if sym_at(ts, pos, Sym::Minus) {
            if pos + 1 < len && ts[pos + 1] is Int {
                lemma_parse_well_formed(
                    Nonterminal::MemberTail,
                    ts,
                    pos + 2,
                    Before::Operand(
                        ExprV::Lit(
                            crate::ast::LiteralV::Long(
                                (-(ts[pos + 1]->Int_0 as int)) as i64,
                            ),
                        ),
                    ),
                );
            } else {
                lemma_parse_well_formed(Nonterminal::Unary, ts, pos + 1, nothing);
            }
        } else {
            lemma_parse_well_formed(Nonterminal::Member, ts, pos, nothing);
        }
    }

}

proof fn lemma_parse_member(ts: Seq<TokenV>, pos: int, before: Before)
    requires
        fits(Nonterminal::Member, before),
    ensures
        parse(Nonterminal::Member, ts, pos, before) matches Ok((r, _)) ==> read_well_formed(r),
    decreases ts.len() - pos, rank(Nonterminal::Member), 0nat,
{
    let len = ts.len();
    let nothing = Before::Nothing;
    if 0 <= pos < len {
        lemma_parse_well_formed(Nonterminal::Primary, ts, pos, nothing);
        match advance(one(parse(Nonterminal::Primary, ts, pos, nothing)), pos, len) {
            Ok((e, p)) => {
                lemma_parse_well_formed(Nonterminal::MemberTail, ts, p, Before::Operand(e));
            },
            _ => {},
        }
    }

}

proof fn lemma_parse_member_tail(ts: Seq<TokenV>, pos: int, before: Before)
    requires
        fits(Nonterminal::MemberTail, before),
    ensures
        parse(Nonterminal::MemberTail, ts, pos, before) matches Ok((r, _)) ==> read_well_formed(r),
    decreases ts.len() - pos, rank(Nonterminal::MemberTail), 0nat,
{
    let len = ts.len();
    let nothing = Before::Nothing;
    let e = before->Operand_0;
    if 0 <= pos < len {
        if sym_at(ts, pos, Sym::Dot) {
            if pos + 1 < len && ts[pos + 1] is Ident {
                let name = ts[pos + 1]->Ident_0;
                if sym_at(ts, pos + 2, Sym::LParen) {
                    let list = Nonterminal::List(Sym::RParen);
                    lemma_parse_well_formed(list, ts, pos + 3, Before::Items(Seq::empty()));
                    match advance(
                        items(parse(list, ts, pos + 3, Before::Items(Seq::empty()))),
                        pos + 2,
                        len,
                    ) {
                        Ok((args, p)) => {
                            lemma_method_call_well_formed(e, name, args);
                            lemma_parse_well_formed(
                                Nonterminal::MemberTail,
                                ts,
                                p,
                                Before::Operand(method_call(e, name, args)),
                            );
                        },
                        _ => {},
                    }
                } else {
                    lemma_parse_well_formed(
                        Nonterminal::MemberTail,
                        ts,
                        pos + 2,
                        Before::Operand(ExprV::GetAttr(Box::new(e), name)),
                    );
                }
            }
        } else if sym_at(ts, pos, Sym::LBracket) {
            if pos + 1 < len && ts[pos + 1] is Str && sym_at(ts, pos + 2, Sym::RBracket) {
                match unescaped(ts[pos + 1]->Str_0) {
                    Some(a) => {
                        lemma_parse_well_formed(
                            Nonterminal::MemberTail,
                            ts,
                            pos + 3,
                            Before::Operand(ExprV::GetAttr(Box::new(e), a)),
                        );
                    },
                    None => {},
                }
            }
        }
    }

}

proof fn lemma_parse_primary(ts: Seq<TokenV>, pos: int, before: Before)
    requires
        fits(Nonterminal::Primary, before),
    ensures
        parse(Nonterminal::Primary, ts, pos, before) matches Ok((r, _)) ==> read_well_formed(r),
    decreases ts.len() - pos, rank(Nonterminal::Primary), 0nat,
{
    let len = ts.len();
    let nothing = Before::Nothing;
    if 0 <= pos < len {
        match ts[pos] {
            TokenV::Sym(sym) => {
                if sym == Sym::LParen {
                    lemma_parse_well_formed(Nonterminal::Expr, ts, pos + 1, nothing);
                } else if sym == Sym::LBracket {
                    lemma_parse_well_formed(
                        Nonterminal::List(Sym::RBracket),
                        ts,
                        pos + 1,
                        Before::Items(Seq::empty()),
                    );
                } else if sym == Sym::LBrace {
                    lemma_parse_well_formed(
                        Nonterminal::Fields,
                        ts,
                        pos + 1,
                        Before::Entries(Seq::empty()),
                    );
                }
            },
            TokenV::Ident(w) => {
                match advance(p_name(ts, pos), pos, len) {
                    Ok((_, p)) => if sym_at(ts, p, Sym::LParen) {
                        lemma_parse_well_formed(
                            Nonterminal::List(Sym::RParen),
                            ts,
                            p + 1,
                            Before::Items(Seq::empty()),
                        );
                    },
                    _ => {},
                }
            },
            _ => {},
        }
    }

}

proof fn lemma_parse_list(close: Sym, ts: Seq<TokenV>, pos: int, before: Before)
    requires
        fits(Nonterminal::List(close), before),
    ensures
        parse(Nonterminal::List(close), ts, pos, before) matches Ok((r, _)) ==> read_well_formed(r),
    decreases ts.len() - pos, rank(Nonterminal::List(close)), 0nat,
{
    let len = ts.len();
    let nothing = Before::Nothing;
    let acc = before->Items_0;
    if 0 <= pos < len && !sym_at(ts, pos, close) {
        lemma_parse_well_formed(Nonterminal::Expr, ts, pos, nothing);
        match advance(one(parse(Nonterminal::Expr, ts, pos, nothing)), pos, len) {
            Ok((e, p)) => {
                assert(acc.push(e).drop_last() =~= acc);
                assert(exprs_well_formed(acc.push(e)));
                if sym_at(ts, p, Sym::Comma) {
                    lemma_parse_well_formed(
                        Nonterminal::List(close),
                        ts,
                        p + 1,
                        Before::Items(acc.push(e)),
                    );
                }
            },
            _ => {},
        }
    }

}

proof fn lemma_parse_fields(ts: Seq<TokenV>, pos: int, before: Before)
    requires
        fits(Nonterminal::Fields, before),
    ensures
        parse(Nonterminal::Fields, ts, pos, before) matches Ok((r, _)) ==> read_well_formed(r),
    decreases ts.len() - pos, rank(Nonterminal::Fields), 0nat,
{
    let len = ts.len();
    let nothing = Before::Nothing;
    let acc = before->Entries_0;
    if 0 <= pos < len && !sym_at(ts, pos, Sym::RBrace) {
        match attr_at(ts, pos) {
            Ok(k) => {
                if !has_key(acc, k) && sym_at(ts, pos + 1, Sym::Colon) {
                    lemma_parse_well_formed(Nonterminal::Expr, ts, pos + 2, nothing);
                    match advance(
                        one(parse(Nonterminal::Expr, ts, pos + 2, nothing)),
                        pos + 2,
                        len,
                    ) {
                        Ok((e, p)) => {
                            let all = acc.push((k, e));
                            assert(all.drop_last() =~= acc);
                            assert(expr_fields_well_formed(all));
                            assert forall|i: int, j: int|
                                #![trigger all[i], all[j]]
                                0 <= i < j < all.len() implies all[i].0 != all[j].0 by {
                                if j < acc.len() {
                                    assert(acc[i].0 != acc[j].0);
                                } else {
                                    assert(acc[i] == all[i]);
                                }
                            }
                            if sym_at(ts, p, Sym::Comma) {
                                lemma_parse_well_formed(
                                    Nonterminal::Fields,
                                    ts,
                                    p + 1,
                                    Before::Entries(all),
                                );
                            }
                        },
                        _ => {},
                    }
                }
            },
            _ => {},
        }
    }

}

/// A method call on a well-formed receiver with well-formed arguments is
/// well-formed.
pub proof fn lemma_method_call_well_formed(receiver: ExprV, name: Seq<char>, args: Seq<ExprV>)
    requires
        expr_well_formed(receiver),
        exprs_well_formed(args),
    ensures
        expr_well_formed(method_call(receiver, name, args)),
{
    reveal(method_call);
    lemma_exprs_well_formed(args);
    let all = seq![receiver] + args;
    assert forall|i: int| 0 <= i < all.len() implies expr_well_formed(#[trigger] all[i]) by {
        if i > 0 {
            assert(all[i] == args[i - 1]);
        }
    }
    lemma_exprs_well_formed(all);
}

/// The expression that a text denotes is well-formed.
pub proof fn law_parsed_expression_well_formed(text: Seq<char>)
    ensures
        expr_of_text(text) matches Ok(e) ==> expr_well_formed(e),
{
    match crate::lexer::tokens_of(text) {
        Ok(ts) => {
            lemma_parse_well_formed(Nonterminal::Expr, ts, 0, Before::Nothing);
        },
        _ => {},
    }
}

} // verus!
