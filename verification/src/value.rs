//! The runtime value universe: entity identifiers, extension values, type
//! tags, and values with their structural equality.
use vstd::prelude::*;
use vstd::std_specs::cmp::PartialEqSpecImpl;
use crate::text::same_text;

verus! {

/// The type of an entity: a namespaced name, or the type of the
/// distinguished unspecified entity.
#[derive(Debug, PartialEq, Eq)]
pub enum EntityType {
    /// A declared entity type, such as `User` or `Org::Team`.
    Specified(String),
    /// The type of an entity that stands for an absent request component.
    Unspecified,
}

/// Mathematical model of an [`EntityType`].
pub enum EntityTypeV {
    Specified(Seq<char>),
    Unspecified,
}

impl View for EntityType {
    type V = EntityTypeV;

    open spec fn view(&self) -> EntityTypeV {
        match self {
            EntityType::Specified(n) => EntityTypeV::Specified(n@),
            EntityType::Unspecified => EntityTypeV::Unspecified,
        }
    }
}

impl Clone for EntityType {
    fn clone(&self) -> (r: Self)
        ensures
            r@ == self@,
    {
        match self {
            EntityType::Specified(n) => EntityType::Specified(n.clone()),
            EntityType::Unspecified => EntityType::Unspecified,
        }
    }
}

impl EntityType {
    /// Whether two entity types are the same.
    pub fn same_as(&self, other: &EntityType) -> (r: bool)
        ensures
            r == (self@ == other@),
    {
        match (self, other) {
            (EntityType::Specified(a), EntityType::Specified(b)) => same_text(a, b),
            (EntityType::Unspecified, EntityType::Unspecified) => true,
            _ => false,
        }
    }
}

/// Identifier of an entity: its type and its id within that type.
#[derive(Debug, PartialEq, Eq)]
pub struct EntityUid {
    pub ty: EntityType,
    pub eid: String,
}

/// Mathematical model of an [`EntityUid`].
pub struct EntityUidV {
    pub ty: EntityTypeV,
    pub eid: Seq<char>,
}

impl View for EntityUid {
    type V = EntityUidV;

    open spec fn view(&self) -> EntityUidV {
        EntityUidV { ty: self.ty@, eid: self.eid@ }
    }
}

impl Clone for EntityUid {
    fn clone(&self) -> (r: Self)
        ensures
            r@ == self@,
    {
        EntityUid { ty: self.ty.clone(), eid: self.eid.clone() }
    }
}

impl EntityUid {
    /// The entity of type `ty` with id `eid`.
    pub fn new(ty: &str, eid: &str) -> (r: Self)
        ensures
            r@ == (EntityUidV { ty: EntityTypeV::Specified(ty@), eid: eid@ }),
    {
        EntityUid { ty: EntityType::Specified(String::from_str(ty)), eid: String::from_str(eid) }
    }

    /// The unspecified entity that stands for the absent request component `eid`.
    pub fn unspecified(eid: &str) -> (r: Self)
        ensures
            r@ == (EntityUidV { ty: EntityTypeV::Unspecified, eid: eid@ }),
    {
        EntityUid { ty: EntityType::Unspecified, eid: String::from_str(eid) }
    }

    /// Whether this is an unspecified entity.
    pub fn is_unspecified(&self) -> (r: bool)
        ensures
            r == (self@.ty is Unspecified),
    {
        match self.ty {
            EntityType::Unspecified => true,
            _ => false,
        }
    }

    /// Whether two identifiers name the same entity.
    pub fn same_as(&self, other: &EntityUid) -> (r: bool)
        ensures
            r == (self@ == other@),
    {
        self.ty.same_as(&other.ty) && same_text(&self.eid, &other.eid)
    }
}

/// An IP address with a prefix length, in either address family.
#[derive(Clone, Copy, Debug, PartialEq, Eq, Structural)]
#[allow(inconsistent_fields)]
pub enum IpNet {
    V4 { addr: u32, prefix: u8 },
    V6 { addr: u128, prefix: u8 },
}

/// A value of an extension type.
#[derive(Clone, Copy, Debug, PartialEq, Eq, Structural)]
pub enum ExtValue {
    /// A decimal number with four fractional digits, scaled by 10000.
    Decimal(i64),
    /// An IP address or a range of addresses.
    Ip(IpNet),
}

/// Type tags, used in type errors.
#[derive(Debug, PartialEq, Eq)]
pub enum Type {
    Bool,
    Long,
    String,
    Entity { ty: EntityType },
    SetOf,
    Record,
    Extension { name: String },
}

/// Mathematical model of a [`Type`].
pub enum TypeV {
    Bool,
    Long,
    String,
    Entity { ty: EntityTypeV },
    SetOf,
    Record,
    Extension { name: Seq<char> },
}

impl View for Type {
    type V = TypeV;

    open spec fn view(&self) -> TypeV {
        match self {
            Type::Bool => TypeV::Bool,
            Type::Long => TypeV::Long,
            Type::String => TypeV::String,
            Type::Entity { ty } => TypeV::Entity { ty: ty@ },
            Type::SetOf => TypeV::SetOf,
            Type::Record => TypeV::Record,
            Type::Extension { name } => TypeV::Extension { name: name@ },
        }
    }
}

impl Clone for Type {
    fn clone(&self) -> (r: Self)
        ensures
            r@ == self@,
    {
        match self {
            Type::Bool => Type::Bool,
            Type::Long => Type::Long,
            Type::String => Type::String,
            Type::Entity { ty } => Type::Entity { ty: ty.clone() },
            Type::SetOf => Type::SetOf,
            Type::Record => Type::Record,
            Type::Extension { name } => Type::Extension { name: name.clone() },
        }
    }
}

/// The name under which an entity of any type is expected in type errors.
pub open spec fn any_entity_type() -> TypeV {
    TypeV::Entity { ty: EntityTypeV::Specified("any_entity_type"@) }
}

/// The name of the extension type of an extension value.
pub open spec fn ext_type_name(x: ExtValue) -> Seq<char> {
    match x {
        ExtValue::Decimal(_) => "decimal"@,
        ExtValue::Ip(_) => "ipaddr"@,
    }
}

impl Type {
    /// The type tag that stands for an entity of any type.
    pub fn any_entity() -> (r: Type)
        ensures
            r@ == any_entity_type(),
    {
        Type::Entity { ty: EntityType::Specified(String::from_str("any_entity_type")) }
    }
}

/// A runtime value.
#[derive(Debug)]
pub enum Value {
    Bool(bool),
    Long(i64),
    String(String),
    EntityUid(EntityUid),
    /// A set: its elements in insertion order.
    SetOf(Vec<Value>),
    /// A record: its attributes in insertion order.
    Record(Vec<(String, Value)>),
    Ext(ExtValue),
}

/// Mathematical model of a [`Value`].
pub enum ValueV {
    Bool(bool),
    Long(i64),
    String(Seq<char>),
    EntityUid(EntityUidV),
    SetOf(Seq<ValueV>),
    Record(Seq<(Seq<char>, ValueV)>),
    Ext(ExtValue),
}

/// The model of a value.
pub open spec fn value_view(v: Value) -> ValueV
    decreases v,
{
    match v {
        Value::Bool(b) => ValueV::Bool(b),
        Value::Long(i) => ValueV::Long(i),
        Value::String(s) => ValueV::String(s@),
        Value::EntityUid(u) => ValueV::EntityUid(u@),
        Value::SetOf(vs) => ValueV::SetOf(
            Seq::new(
                vs.len() as nat,
                |i: int|
                    if 0 <= i < vs.len() {
                        value_view(vs[i])
                    } else {
                        ValueV::Bool(false)
                    },
            ),
        ),
        Value::Record(fs) => ValueV::Record(
            Seq::new(
                fs.len() as nat,
                |i: int|
                    if 0 <= i < fs.len() {
                        (fs[i].0@, value_view(fs[i].1))
                    } else {
                        (Seq::empty(), ValueV::Bool(false))
                    },
            ),
        ),
        Value::Ext(x) => ValueV::Ext(x),
    }
}

impl View for Value {
    type V = ValueV;

    open spec fn view(&self) -> ValueV {
        value_view(*self)
    }
}

/// The models of a vector of values, in order.
pub open spec fn values_view(vs: Seq<Value>) -> Seq<ValueV> {
    Seq::new(vs.len(), |i: int| vs[i]@)
}

/// The models of a vector of attributes, in order.
pub open spec fn fields_view(fs: Seq<(String, Value)>) -> Seq<(Seq<char>, ValueV)> {
    Seq::new(fs.len(), |i: int| (fs[i].0@, fs[i].1@))
}

/// The model of a set is made of the models of its elements.
pub proof fn lemma_set_view(vs: Vec<Value>)
    ensures
        Value::SetOf(vs)@ == ValueV::SetOf(values_view(vs@)),
{
    assert(Value::SetOf(vs)@->SetOf_0 =~= values_view(vs@));
}

/// The model of a record is made of the models of its attributes.
pub proof fn lemma_record_view(fs: Vec<(String, Value)>)
    ensures
        Value::Record(fs)@ == ValueV::Record(fields_view(fs@)),
{
    assert(Value::Record(fs)@->Record_0 =~= fields_view(fs@));
}

/// Structural equality of values: scalars by their contents, sets as sets,
/// records as sets of attributes. Values of different kinds are never equal.
pub open spec fn value_eq(a: ValueV, b: ValueV) -> bool
    decreases a, 0nat, 0nat,
{
    match (a, b) {
        (ValueV::Bool(x), ValueV::Bool(y)) => x == y,
        (ValueV::Long(x), ValueV::Long(y)) => x == y,
        (ValueV::String(x), ValueV::String(y)) => x == y,
        (ValueV::EntityUid(x), ValueV::EntityUid(y)) => x == y,
        (ValueV::Ext(x), ValueV::Ext(y)) => x == y,
        (ValueV::SetOf(xs), ValueV::SetOf(ys)) => all_in(xs, ys) && all_held(xs, ys),
        (ValueV::Record(xs), ValueV::Record(ys)) => all_fields_in(xs, ys) && all_fields_held(
            xs,
            ys,
        ),
        _ => false,
    }
}

/// Whether `x` equals some element of `ys`.
pub open spec fn in_seq(x: ValueV, ys: Seq<ValueV>) -> bool
    decreases x, 1nat, ys.len(),
{
    if ys.len() == 0 {
        false
    } else {
        value_eq(x, ys.last()) || in_seq(x, ys.drop_last())
    }
}

/// Whether some element of `xs` equals `y`.
pub open spec fn seq_has(xs: Seq<ValueV>, y: ValueV) -> bool
    decreases xs, 1nat, 0nat,
{
    if xs.len() == 0 {
        false
    } else {
        value_eq(xs.last(), y) || seq_has(xs.drop_last(), y)
    }
}

/// Whether every element of `xs` equals some element of `ys`.
pub open spec fn all_in(xs: Seq<ValueV>, ys: Seq<ValueV>) -> bool
    decreases xs, 2nat, 0nat,
{
    if xs.len() == 0 {
        true
    } else {
        in_seq(xs.last(), ys) && all_in(xs.drop_last(), ys)
    }
}

/// Whether every element of `ys` has an equal among `xs`.
pub open spec fn all_held(xs: Seq<ValueV>, ys: Seq<ValueV>) -> bool
    decreases xs, 2nat, ys.len(),
{
    if ys.len() == 0 {
        true
    } else {
        seq_has(xs, ys.last()) && all_held(xs, ys.drop_last())
    }
}

/// Whether the attribute `k` with value `x` has an equal among `ys`.
pub open spec fn in_fields(k: Seq<char>, x: ValueV, ys: Seq<(Seq<char>, ValueV)>) -> bool
    decreases x, 1nat, ys.len(),
{
    if ys.len() == 0 {
        false
    } else {
        (k == ys.last().0 && value_eq(x, ys.last().1)) || in_fields(k, x, ys.drop_last())
    }
}

/// Whether some attribute of `xs` has the name `k` and a value equal to `y`.
pub open spec fn fields_have(xs: Seq<(Seq<char>, ValueV)>, k: Seq<char>, y: ValueV) -> bool
    decreases xs, 1nat, 0nat,
{
    if xs.len() == 0 {
        false
    } else {
        (xs.last().0 == k && value_eq(xs.last().1, y)) || fields_have(xs.drop_last(), k, y)
    }
}

/// Whether every attribute of `xs` has an equal among `ys`.
pub open spec fn all_fields_in(xs: Seq<(Seq<char>, ValueV)>, ys: Seq<(Seq<char>, ValueV)>) -> bool
    decreases xs, 2nat, 0nat,
{
    if xs.len() == 0 {
        true
    } else {
        in_fields(xs.last().0, xs.last().1, ys) && all_fields_in(xs.drop_last(), ys)
    }
}

/// Whether every attribute of `ys` has an equal among `xs`.
pub open spec fn all_fields_held(
    xs: Seq<(Seq<char>, ValueV)>,
    ys: Seq<(Seq<char>, ValueV)>,
) -> bool
    decreases xs, 2nat, ys.len(),
{
    if ys.len() == 0 {
        true
    } else {
        fields_have(xs, ys.last().0, ys.last().1) && all_fields_held(xs, ys.drop_last())
    }
}

/// The type tag of a value.
pub open spec fn type_of(v: ValueV) -> TypeV {
    match v {
        ValueV::Bool(_) => TypeV::Bool,
        ValueV::Long(_) => TypeV::Long,
        ValueV::String(_) => TypeV::String,
        ValueV::EntityUid(u) => TypeV::Entity { ty: u.ty },
        ValueV::SetOf(_) => TypeV::SetOf,
        ValueV::Record(_) => TypeV::Record,
        ValueV::Ext(x) => TypeV::Extension { name: ext_type_name(x) },
    }
}

impl Clone for Value {
    #[verifier::loop_isolation(false)]
    fn clone(&self) -> (r: Self)
        ensures
            r@ == self@,
        decreases self,
    {
        match self {
            Value::Bool(b) => Value::Bool(*b),
            Value::Long(i) => Value::Long(*i),
            Value::String(s) => Value::String(s.clone()),
            Value::EntityUid(u) => Value::EntityUid(u.clone()),
            Value::SetOf(vs) => {
                let mut out: Vec<Value> = Vec::new();
                let mut i: usize = 0;
                while i < vs.len()
                    invariant
                        i <= vs.len(),
                        out.len() == i,
                        forall|k: int| 0 <= k < i ==> out[k]@ == vs[k]@,
                    decreases vs.len() - i,
                {
                    out.push(vs[i].clone());
                    i += 1;
                }
                proof {
                    lemma_set_view(out);
                    lemma_set_view(*vs);
                    assert(values_view(out@) =~= values_view(vs@));
                }
                Value::SetOf(out)
            },
            Value::Record(fs) => {
                let mut out: Vec<(String, Value)> = Vec::new();
                let mut i: usize = 0;
                while i < fs.len()
                    invariant
                        i <= fs.len(),
                        out.len() == i,
                        forall|k: int| 0 <= k < i ==> out[k].0@ == fs[k].0@ && out[k].1@ == fs[k].1@,
                    decreases fs.len() - i,
                {
                    out.push((fs[i].0.clone(), fs[i].1.clone()));
                    i += 1;
                }
                proof {
                    lemma_record_view(out);
                    lemma_record_view(*fs);
                    assert(fields_view(out@) =~= fields_view(fs@));
                }
                Value::Record(out)
            },
            Value::Ext(x) => Value::Ext(*x),
        }
    }
}

impl PartialEq for Value {
    fn eq(&self, other: &Value) -> (r: bool) {
        self.equals(other)
    }
}

impl PartialEqSpecImpl for Value {
    open spec fn obeys_eq_spec() -> bool {
        true
    }

    open spec fn eq_spec(&self, other: &Value) -> bool {
        value_eq(self@, other@)
    }
}

impl Eq for Value {

}

impl Value {
    /// The type tag of this value.
    pub fn type_of(&self) -> (r: Type)
        ensures
            r@ == type_of(self@),
    {
        match self {
            Value::Bool(_) => Type::Bool,
            Value::Long(_) => Type::Long,
            Value::String(_) => Type::String,
            Value::EntityUid(u) => Type::Entity { ty: u.ty.clone() },
            Value::SetOf(_) => Type::SetOf,
            Value::Record(_) => Type::Record,
            Value::Ext(x) => match x {
                ExtValue::Decimal(_) => Type::Extension { name: String::from_str("decimal") },
                ExtValue::Ip(_) => Type::Extension { name: String::from_str("ipaddr") },
            },
        }
    }

    /// Structural equality with another value.
    pub fn equals(&self, other: &Value) -> (r: bool)
        ensures
            r == value_eq(self@, other@),
        decreases self, 0nat,
    {
        match (self, other) {
            (Value::Bool(x), Value::Bool(y)) => *x == *y,
            (Value::Long(x), Value::Long(y)) => *x == *y,
            (Value::String(x), Value::String(y)) => same_text(x, y),
            (Value::EntityUid(x), Value::EntityUid(y)) => x.same_as(y),
            (Value::Ext(x), Value::Ext(y)) => *x == *y,
            (Value::SetOf(xs), Value::SetOf(ys)) => {
                proof {
                    lemma_set_view(*xs);
                    lemma_set_view(*ys);
                }
                each_in(xs, ys) && each_held(xs, ys)
            },
            (Value::Record(xs), Value::Record(ys)) => {
                proof {
                    lemma_record_view(*xs);
                    lemma_record_view(*ys);
                }
                each_field_in(xs, ys) && each_field_held(xs, ys)
            },
            _ => false,
        }
    }

    /// Whether this value equals some element of `ys`.
    pub fn is_in(&self, ys: &Vec<Value>) -> (r: bool)
        ensures
            r == in_seq(self@, values_view(ys@)),
        decreases self, 1nat,
    {
        let ghost yv = values_view(ys@);
        let mut j: usize = 0;
        while j < ys.len()
            invariant
                j <= ys.len(),
                yv == values_view(ys@),
                !in_seq(self@, yv.take(j as int)),
            decreases ys.len() - j,
        {
            proof {
                assert(yv.take(j + 1).drop_last() =~= yv.take(j as int));
                assert(yv.take(j + 1).last() == ys[j as int]@);
            }
            if self.equals(&ys[j]) {
                proof {
                    lemma_in_seq_extend(self@, yv.take(j + 1), yv);
                }
                return true;
            }
            j += 1;
        }
        assert(yv.take(j as int) =~= yv);
        false
    }
}

/// Membership survives appending elements.
pub proof fn lemma_in_seq_extend(x: ValueV, xs: Seq<ValueV>, ys: Seq<ValueV>)
    requires
        xs.len() <= ys.len(),
        xs =~= ys.take(xs.len() as int),
        in_seq(x, xs),
    ensures
        in_seq(x, ys),
    decreases ys.len(),
{
    if xs.len() < ys.len() {
        assert(ys.drop_last().take(xs.len() as int) =~= ys.take(xs.len() as int));
        lemma_in_seq_extend(x, xs, ys.drop_last());
    } else {
        assert(xs =~= ys);
    }
}

/// Having an equal survives appending elements.
pub proof fn lemma_seq_has_extend(xs: Seq<ValueV>, ys: Seq<ValueV>, y: ValueV)
    requires
        xs.len() <= ys.len(),
        xs =~= ys.take(xs.len() as int),
        seq_has(xs, y),
    ensures
        seq_has(ys, y),
    decreases ys.len(),
{
    if xs.len() < ys.len() {
        assert(ys.drop_last().take(xs.len() as int) =~= ys.take(xs.len() as int));
        lemma_seq_has_extend(xs, ys.drop_last(), y);
    } else {
        assert(xs =~= ys);
    }
}

/// Membership among attributes survives appending attributes.
pub proof fn lemma_in_fields_extend(
    k: Seq<char>,
    x: ValueV,
    xs: Seq<(Seq<char>, ValueV)>,
    ys: Seq<(Seq<char>, ValueV)>,
)
    requires
        xs.len() <= ys.len(),
        xs =~= ys.take(xs.len() as int),
        in_fields(k, x, xs),
    ensures
        in_fields(k, x, ys),
    decreases ys.len(),
{
    if xs.len() < ys.len() {
        assert(ys.drop_last().take(xs.len() as int) =~= ys.take(xs.len() as int));
        lemma_in_fields_extend(k, x, xs, ys.drop_last());
    } else {
        assert(xs =~= ys);
    }
}

/// Having an equal attribute survives appending attributes.
pub proof fn lemma_fields_have_extend(
    xs: Seq<(Seq<char>, ValueV)>,
    ys: Seq<(Seq<char>, ValueV)>,
    k: Seq<char>,
    y: ValueV,
)
    requires
        xs.len() <= ys.len(),
        xs =~= ys.take(xs.len() as int),
        fields_have(xs, k, y),
    ensures
        fields_have(ys, k, y),
    decreases ys.len(),
{
    if xs.len() < ys.len() {
        assert(ys.drop_last().take(xs.len() as int) =~= ys.take(xs.len() as int));
        lemma_fields_have_extend(xs, ys.drop_last(), k, y);
    } else {
        assert(xs =~= ys);
    }
}

/// Whether some element of `xs` equals `y`.
pub fn holds(xs: &Vec<Value>, y: &Value) -> (r: bool)
    ensures
        r == seq_has(values_view(xs@), y@),
    decreases xs, 1nat,
{
    let ghost xv = values_view(xs@);
    let mut i: usize = 0;
    while i < xs.len()
        invariant
            i <= xs.len(),
            xv == values_view(xs@),
            !seq_has(xv.take(i as int), y@),
        decreases xs.len() - i,
    {
        proof {
            assert(xv.take(i + 1).drop_last() =~= xv.take(i as int));
            assert(xv.take(i + 1).last() == xs[i as int]@);
        }
        if xs[i].equals(y) {
            proof {
                lemma_seq_has_extend(xv.take(i + 1), xv, y@);
            }
            return true;
        }
        i += 1;
    }
    assert(xv.take(i as int) =~= xv);
    false
}

/// Whether every element of `xs` equals some element of `ys`.
pub fn each_in(xs: &Vec<Value>, ys: &Vec<Value>) -> (r: bool)
    ensures
        r == all_in(values_view(xs@), values_view(ys@)),
    decreases xs, 2nat,
{
    let ghost xv = values_view(xs@);
    let ghost yv = values_view(ys@);
    let mut i: usize = xs.len();
    assert(xv.take(i as int) =~= xv);
    while i > 0
        invariant
            i <= xs.len(),
            xv == values_view(xs@),
            yv == values_view(ys@),
            all_in(xv, yv) == all_in(xv.take(i as int), yv),
        decreases i,
    {
        proof {
            assert(xv.take(i as int).drop_last() =~= xv.take(i - 1));
            assert(xv.take(i as int).last() == xs[i - 1]@);
        }
        if !xs[i - 1].is_in(ys) {
            return false;
        }
        i -= 1;
    }
    true
}

/// Whether every element of `ys` has an equal among `xs`.
pub fn each_held(xs: &Vec<Value>, ys: &Vec<Value>) -> (r: bool)
    ensures
        r == all_held(values_view(xs@), values_view(ys@)),
    decreases xs, 2nat,
{
    let ghost xv = values_view(xs@);
    let ghost yv = values_view(ys@);
    let mut j: usize = ys.len();
    assert(yv.take(j as int) =~= yv);
    while j > 0
        invariant
            j <= ys.len(),
            xv == values_view(xs@),
            yv == values_view(ys@),
            all_held(xv, yv) == all_held(xv, yv.take(j as int)),
        decreases j,
    {
        proof {
            assert(yv.take(j as int).drop_last() =~= yv.take(j - 1));
            assert(yv.take(j as int).last() == ys[j - 1]@);
        }
        if !holds(xs, &ys[j - 1]) {
            return false;
        }
        j -= 1;
    }
    true
}

fn field_is_in(k: &String, x: &Value, ys: &Vec<(String, Value)>) -> (r: bool)
    ensures
        r == in_fields(k@, x@, fields_view(ys@)),
    decreases x, 1nat,
{
    let ghost yv = fields_view(ys@);
    let mut j: usize = 0;
    while j < ys.len()
        invariant
            j <= ys.len(),
            yv == fields_view(ys@),
            !in_fields(k@, x@, yv.take(j as int)),
        decreases ys.len() - j,
    {
        proof {
            assert(yv.take(j + 1).drop_last() =~= yv.take(j as int));
            assert(yv.take(j + 1).last() == (ys[j as int].0@, ys[j as int].1@));
        }
        if same_text(k, &ys[j].0) && x.equals(&ys[j].1) {
            proof {
                lemma_in_fields_extend(k@, x@, yv.take(j + 1), yv);
            }
            return true;
        }
        j += 1;
    }
    assert(yv.take(j as int) =~= yv);
    false
}

fn fields_hold(xs: &Vec<(String, Value)>, k: &String, y: &Value) -> (r: bool)
    ensures
        r == fields_have(fields_view(xs@), k@, y@),
    decreases xs, 1nat,
{
    let ghost xv = fields_view(xs@);
    let mut i: usize = 0;
    while i < xs.len()
        invariant
            i <= xs.len(),
            xv == fields_view(xs@),
            !fields_have(xv.take(i as int), k@, y@),
        decreases xs.len() - i,
    {
        proof {
            assert(xv.take(i + 1).drop_last() =~= xv.take(i as int));
            assert(xv.take(i + 1).last() == (xs[i as int].0@, xs[i as int].1@));
        }
        if same_text(&xs[i].0, k) && xs[i].1.equals(y) {
            proof {
                lemma_fields_have_extend(xv.take(i + 1), xv, k@, y@);
            }
            return true;
        }
        i += 1;
    }
    assert(xv.take(i as int) =~= xv);
    false
}

fn each_field_in(xs: &Vec<(String, Value)>, ys: &Vec<(String, Value)>) -> (r: bool)
    ensures
        r == all_fields_in(fields_view(xs@), fields_view(ys@)),
    decreases xs, 2nat,
{
    let ghost xv = fields_view(xs@);
    let ghost yv = fields_view(ys@);
    let mut i: usize = xs.len();
    assert(xv.take(i as int) =~= xv);
    while i > 0
        invariant
            i <= xs.len(),
            xv == fields_view(xs@),
            yv == fields_view(ys@),
            all_fields_in(xv, yv) == all_fields_in(xv.take(i as int), yv),
        decreases i,
    {
        proof {
            assert(xv.take(i as int).drop_last() =~= xv.take(i - 1));
            assert(xv.take(i as int).last() == (xs[i - 1].0@, xs[i - 1].1@));
        }
        if !field_is_in(&xs[i - 1].0, &xs[i - 1].1, ys) {
            return false;
        }
        i -= 1;
    }
    true
}

fn each_field_held(xs: &Vec<(String, Value)>, ys: &Vec<(String, Value)>) -> (r: bool)
    ensures
        r == all_fields_held(fields_view(xs@), fields_view(ys@)),
    decreases xs, 2nat,
{
    let ghost xv = fields_view(xs@);
    let ghost yv = fields_view(ys@);
    let mut j: usize = ys.len();
    assert(yv.take(j as int) =~= yv);
    while j > 0
        invariant
            j <= ys.len(),
            xv == fields_view(xs@),
            yv == fields_view(ys@),
            all_fields_held(xv, yv) == all_fields_held(xv, yv.take(j as int)),
        decreases j,
    {
        proof {
            assert(yv.take(j as int).drop_last() =~= yv.take(j - 1));
            assert(yv.take(j as int).last() == (ys[j - 1].0@, ys[j - 1].1@));
        }
        if !fields_hold(xs, &ys[j - 1].0, &ys[j - 1].1) {
            return false;
        }
        j -= 1;
    }
    true
}

/// The value of the first attribute named `k` at or after position `i`.
pub open spec fn attr_from(fs: Seq<(Seq<char>, ValueV)>, k: Seq<char>, i: int) -> Option<ValueV>
    decreases fs.len() - i,
{
    if i < 0 || i >= fs.len() {
        None
    } else if fs[i].0 == k {
        Some(fs[i].1)
    } else {
        attr_from(fs, k, i + 1)
    }
}

/// The value of the attribute named `k`, if there is one.
pub open spec fn attr_of(fs: Seq<(Seq<char>, ValueV)>, k: Seq<char>) -> Option<ValueV> {
    attr_from(fs, k, 0)
}

/// The names of the attributes, in order.
pub open spec fn attr_names(fs: Seq<(Seq<char>, ValueV)>) -> Seq<Seq<char>> {
    Seq::new(fs.len(), |i: int| fs[i].0)
}

/// Whether no two attributes have the same name.
pub open spec fn distinct_names(fs: Seq<(Seq<char>, ValueV)>) -> bool {
    forall|i: int, j: int| #![trigger fs[i], fs[j]] 0 <= i < j < fs.len() ==> fs[i].0 != fs[j].0
}

/// The value of the attribute named `k`, if there is one.
pub fn find_attr<'a>(fs: &'a Vec<(String, Value)>, k: &String) -> (r: Option<&'a Value>)
    ensures
        r is Some <==> attr_of(fields_view(fs@), k@) is Some,
        r is Some ==> r->0@ == attr_of(fields_view(fs@), k@)->0,
{
    let ghost fv = fields_view(fs@);
    let mut i: usize = 0;
    while i < fs.len()
        invariant
            i <= fs.len(),
            fv == fields_view(fs@),
            attr_of(fv, k@) == attr_from(fv, k@, i as int),
        decreases fs.len() - i,
    {
        assert(fv[i as int] == (fs[i as int].0@, fs[i as int].1@));
        if same_text(&fs[i].0, k) {
            return Some(&fs[i].1);
        }
        i += 1;
    }
    None
}

/// Whether the name of the attribute at position `j` is that of an
/// earlier attribute.
pub open spec fn name_occurs_before(fs: Seq<(Seq<char>, ValueV)>, j: int) -> bool {
    exists|i: int| 0 <= i < j && (#[trigger] fs[i]).0 == fs[j].0
}

/// The name of the first attribute at or after position `j` whose name is
/// that of an earlier attribute.
pub open spec fn name_repeat_from(fs: Seq<(Seq<char>, ValueV)>, j: int) -> Option<Seq<char>>
    decreases fs.len() - j,
{
    if j < 0 || j >= fs.len() {
        None
    } else if name_occurs_before(fs, j) {
        Some(fs[j].0)
    } else {
        name_repeat_from(fs, j + 1)
    }
}

/// The first name that repeats the name of an earlier attribute.
pub open spec fn first_repeated_name(fs: Seq<(Seq<char>, ValueV)>) -> Option<Seq<char>> {
    name_repeat_from(fs, 0)
}

/// No name repeats an earlier one from position `j` on exactly when no
/// attribute from there on has the name of an earlier attribute.
pub proof fn lemma_name_repeat_from(fs: Seq<(Seq<char>, ValueV)>, j: int)
    requires
        0 <= j <= fs.len(),
    ensures
        name_repeat_from(fs, j) is None <==> forall|k: int|
            j <= k < fs.len() ==> !#[trigger] name_occurs_before(fs, k),
    decreases fs.len() - j,
{
    if j < fs.len() {
        lemma_name_repeat_from(fs, j + 1);
        if name_repeat_from(fs, j) is None {
            assert forall|k: int| j <= k < fs.len() implies !#[trigger] name_occurs_before(
                fs,
                k,
            ) by {
                if k > j {
                }
            }
        }
    }
}

/// No name repeats an earlier one exactly when the names are distinct.
pub proof fn lemma_first_repeated_name(fs: Seq<(Seq<char>, ValueV)>)
    ensures
        first_repeated_name(fs) is None <==> distinct_names(fs),
{
    lemma_name_repeat_from(fs, 0);
    if distinct_names(fs) {
        assert forall|k: int| 0 <= k < fs.len() implies !#[trigger] name_occurs_before(fs, k) by {
            if name_occurs_before(fs, k) {
                let i = choose|i: int| 0 <= i < k && (#[trigger] fs[i]).0 == fs[k].0;
                assert(fs[i].0 != fs[k].0);
            }
        }
    } else {
        let (i, j) = choose|i: int, j: int|
            #![trigger fs[i], fs[j]]
            0 <= i < j < fs.len() && fs[i].0 == fs[j].0;
        assert(name_occurs_before(fs, j));
    }
}

/// The first attribute name that repeats the name of an earlier attribute.
pub fn repeated_name(fs: &Vec<(String, Value)>) -> (r: Option<String>)
    ensures
        r is Some <==> first_repeated_name(fields_view(fs@)) is Some,
        r is Some ==> r->0@ == first_repeated_name(fields_view(fs@))->0,
        r is None <==> distinct_names(fields_view(fs@)),
        r is Some ==> exists|i: int, j: int|
            0 <= i < j < fs.len() && fs[i].0@ == fs[j].0@ && r->0@ == fs[j].0@,
{
    let ghost fv = fields_view(fs@);
    proof {
        lemma_first_repeated_name(fv);
    }
    let mut j: usize = 0;
    while j < fs.len()
        invariant
            j <= fs.len(),
            fv == fields_view(fs@),
            first_repeated_name(fv) == name_repeat_from(fv, j as int),
        decreases fs.len() - j,
    {
        let mut i: usize = 0;
        while i < j
            invariant
                i <= j,
                j < fs.len(),
                fv == fields_view(fs@),
                first_repeated_name(fv) == name_repeat_from(fv, j as int),
                forall|a: int| 0 <= a < i ==> (#[trigger] fv[a]).0 != fv[j as int].0,
            decreases j - i,
        {
            if same_text(&fs[i].0, &fs[j].0) {
                assert(fv[i as int].0 == fv[j as int].0);
                assert(name_occurs_before(fv, j as int));
                assert(fs[i as int].0@ == fs[j as int].0@);
                return Some(fs[j].0.clone());
            }
            i += 1;
        }
        assert(!name_occurs_before(fv, j as int));
        j += 1;
    }
    None
}

/// A copy of a vector of attributes.
pub fn clone_fields(fs: &Vec<(String, Value)>) -> (r: Vec<(String, Value)>)
    ensures
        fields_view(r@) == fields_view(fs@),
{
    let mut out: Vec<(String, Value)> = Vec::new();
    let mut i: usize = 0;
    while i < fs.len()
        invariant
            i <= fs.len(),
            out.len() == i,
            forall|k: int| 0 <= k < i ==> out[k].0@ == fs[k].0@ && out[k].1@ == fs[k].1@,
        decreases fs.len() - i,
    {
        out.push((fs[i].0.clone(), fs[i].1.clone()));
        i += 1;
    }
    assert(fields_view(out@) =~= fields_view(fs@));
    out
}

/// Structural equality is symmetric.
pub proof fn lemma_value_eq_symmetric(a: ValueV, b: ValueV)
    ensures
        value_eq(a, b) == value_eq(b, a),
    decreases a, 0nat, 0nat,
{
    match (a, b) {
        (ValueV::SetOf(xs), ValueV::SetOf(ys)) => {
            lemma_all_in_is_all_held(xs, ys);
            lemma_all_held_is_all_in(xs, ys);
        },
        (ValueV::Record(xs), ValueV::Record(ys)) => {
            lemma_all_fields_in_is_held(xs, ys);
            lemma_all_fields_held_is_in(xs, ys);
        },
        _ => {},
    }
}

/// An element equals one of `ys` exactly when `ys` holds an equal of it.
pub proof fn lemma_in_seq_is_seq_has(x: ValueV, ys: Seq<ValueV>)
    ensures
        in_seq(x, ys) == seq_has(ys, x),
    decreases x, 1nat, ys.len(),
{
    if ys.len() > 0 {
        lemma_value_eq_symmetric(x, ys.last());
        lemma_in_seq_is_seq_has(x, ys.drop_last());
    }
}

/// `xs` holds an equal of an element exactly when the element equals one of `xs`.
pub proof fn lemma_seq_has_is_in_seq(xs: Seq<ValueV>, y: ValueV)
    ensures
        seq_has(xs, y) == in_seq(y, xs),
    decreases xs, 1nat, 0nat,
{
    if xs.len() > 0 {
        lemma_value_eq_symmetric(xs.last(), y);
        lemma_seq_has_is_in_seq(xs.drop_last(), y);
    }
}

/// Every element of `xs` is in `ys` exactly when `ys` holds an equal of
/// every element of `xs`.
pub proof fn lemma_all_in_is_all_held(xs: Seq<ValueV>, ys: Seq<ValueV>)
    ensures
        all_in(xs, ys) == all_held(ys, xs),
    decreases xs, 2nat, 0nat,
{
    if xs.len() > 0 {
        lemma_in_seq_is_seq_has(xs.last(), ys);
        lemma_all_in_is_all_held(xs.drop_last(), ys);
    }
}

/// `xs` holds an equal of every element of `ys` exactly when every element
/// of `ys` is in `xs`.
pub proof fn lemma_all_held_is_all_in(xs: Seq<ValueV>, ys: Seq<ValueV>)
    ensures
        all_held(xs, ys) == all_in(ys, xs),
    decreases xs, 2nat, ys.len(),
{
    if ys.len() > 0 {
        lemma_seq_has_is_in_seq(xs, ys.last());
        lemma_all_held_is_all_in(xs, ys.drop_last());
    }
}

/// The same for attributes: membership of an attribute in `ys`.
pub proof fn lemma_in_fields_is_fields_have(k: Seq<char>, x: ValueV, ys: Seq<(Seq<char>, ValueV)>)
    ensures
        in_fields(k, x, ys) == fields_have(ys, k, x),
    decreases x, 1nat, ys.len(),
{
    if ys.len() > 0 {
        lemma_value_eq_symmetric(x, ys.last().1);
        lemma_in_fields_is_fields_have(k, x, ys.drop_last());
    }
}

/// The same for attributes: `xs` holding an equal of an attribute.
pub proof fn lemma_fields_have_is_in_fields(xs: Seq<(Seq<char>, ValueV)>, k: Seq<char>, y: ValueV)
    ensures
        fields_have(xs, k, y) == in_fields(k, y, xs),
    decreases xs, 1nat, 0nat,
{
    if xs.len() > 0 {
        lemma_value_eq_symmetric(xs.last().1, y);
        lemma_fields_have_is_in_fields(xs.drop_last(), k, y);
    }
}

/// The same for attributes: every attribute of `xs` in `ys`.
pub proof fn lemma_all_fields_in_is_held(
    xs: Seq<(Seq<char>, ValueV)>,
    ys: Seq<(Seq<char>, ValueV)>,
)
    ensures
        all_fields_in(xs, ys) == all_fields_held(ys, xs),
    decreases xs, 2nat, 0nat,
{
    if xs.len() > 0 {
        lemma_in_fields_is_fields_have(xs.last().0, xs.last().1, ys);
        lemma_all_fields_in_is_held(xs.drop_last(), ys);
    }
}

/// The same for attributes: `xs` holding an equal of every attribute of `ys`.
pub proof fn lemma_all_fields_held_is_in(
    xs: Seq<(Seq<char>, ValueV)>,
    ys: Seq<(Seq<char>, ValueV)>,
)
    ensures
        all_fields_held(xs, ys) == all_fields_in(ys, xs),
    decreases xs, 2nat, ys.len(),
{
    if ys.len() > 0 {
        lemma_fields_have_is_in_fields(xs, ys.last().0, ys.last().1);
        lemma_all_fields_held_is_in(xs, ys.drop_last());
    }
}

/// A value that equals an element of `ys` equals some element of `ys`.
pub proof fn lemma_in_seq_at(x: ValueV, ys: Seq<ValueV>, j: int)
    requires
        0 <= j < ys.len(),
        value_eq(x, ys[j]),
    ensures
        in_seq(x, ys),
    decreases ys.len(),
{
    if j < ys.len() - 1 {
        lemma_in_seq_at(x, ys.drop_last(), j);
    }
}

/// A sequence with an element that equals `y` holds an equal of `y`.
pub proof fn lemma_seq_has_at(xs: Seq<ValueV>, y: ValueV, i: int)
    requires
        0 <= i < xs.len(),
        value_eq(xs[i], y),
    ensures
        seq_has(xs, y),
    decreases xs.len(),
{
    if i < xs.len() - 1 {
        lemma_seq_has_at(xs.drop_last(), y, i);
    }
}

/// An attribute that equals an attribute of `ys` has an equal among `ys`.
pub proof fn lemma_in_fields_at(k: Seq<char>, x: ValueV, ys: Seq<(Seq<char>, ValueV)>, j: int)
    requires
        0 <= j < ys.len(),
        k == ys[j].0,
        value_eq(x, ys[j].1),
    ensures
        in_fields(k, x, ys),
    decreases ys.len(),
{
    if j < ys.len() - 1 {
        lemma_in_fields_at(k, x, ys.drop_last(), j);
    }
}

/// Structural equality is reflexive.
pub proof fn lemma_value_eq_reflexive(a: ValueV)
    ensures
        value_eq(a, a),
    decreases a, 1nat, 0nat,
{
    match a {
        ValueV::SetOf(xs) => {
            lemma_all_in_self(xs, xs.len() as int);
            assert(xs.take(xs.len() as int) =~= xs);
            lemma_all_in_is_all_held(xs, xs);
        },
        ValueV::Record(fs) => {
            lemma_all_fields_in_self(fs, fs.len() as int);
            assert(fs.take(fs.len() as int) =~= fs);
            lemma_all_fields_in_is_held(fs, fs);
        },
        _ => {},
    }
}

/// Each of the first `n` elements of a sequence equals some element of it.
pub proof fn lemma_all_in_self(xs: Seq<ValueV>, n: int)
    requires
        0 <= n <= xs.len(),
    ensures
        all_in(xs.take(n), xs),
    decreases xs, 0nat, n,
{
    if n > 0 {
        lemma_all_in_self(xs, n - 1);
        lemma_value_eq_reflexive(xs[n - 1]);
        lemma_in_seq_at(xs[n - 1], xs, n - 1);
        assert(xs.take(n).drop_last() =~= xs.take(n - 1));
        assert(xs.take(n).last() == xs[n - 1]);
    }
}

/// Each of the first `n` attributes of a sequence has an equal in it.
pub proof fn lemma_all_fields_in_self(fs: Seq<(Seq<char>, ValueV)>, n: int)
    requires
        0 <= n <= fs.len(),
    ensures
        all_fields_in(fs.take(n), fs),
    decreases fs, 0nat, n,
{
    if n > 0 {
        lemma_all_fields_in_self(fs, n - 1);
        lemma_value_eq_reflexive(fs[n - 1].1);
        lemma_in_fields_at(fs[n - 1].0, fs[n - 1].1, fs, n - 1);
        assert(fs.take(n).drop_last() =~= fs.take(n - 1));
        assert(fs.take(n).last() == fs[n - 1]);
    }
}

} // verus!


