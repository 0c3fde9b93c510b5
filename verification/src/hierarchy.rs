//! The hierarchy of entities: from the parents that each entity names to
//! the ancestors of each entity, transitively closed.
use vstd::prelude::*;
use vstd::seq_lib::seq_to_set_is_finite;
use vstd::set_lib::lemma_len_subset;
use crate::entities::{Entities, EntitiesError, Entity, EntityError, EntityV, Mode, entities_view,
    uid_among, uids_view};
use crate::policy::clone_uids;
use crate::value::{EntityUid, EntityUidV, Value, ValueV, clone_fields, fields_view,
    first_repeated_name};

verus! {

/// An entity as it is given: with its attributes and with the parents that
/// it names.
#[derive(Debug, PartialEq, Eq)]
pub struct RawEntity {
    pub uid: EntityUid,
    pub attrs: Vec<(String, Value)>,
    pub parents: Vec<EntityUid>,
}

/// Mathematical model of a [`RawEntity`].
pub struct RawEntityV {
    pub uid: EntityUidV,
    pub attrs: Seq<(Seq<char>, ValueV)>,
    pub parents: Seq<EntityUidV>,
}

impl View for RawEntity {
    type V = RawEntityV;

    open spec fn view(&self) -> RawEntityV {
        RawEntityV {
            uid: self.uid@,
            attrs: fields_view(self.attrs@),
            parents: uids_view(self.parents@),
        }
    }
}

/// The models of a vector of entities as they are given, in order.
pub open spec fn raws_view(raw: Seq<RawEntity>) -> Seq<RawEntityV> {
    Seq::new(raw.len(), |i: int| raw[i]@)
}

/// The first position at or after `i` of an entity with the identifier
/// `u`, or the number of entities.
pub open spec fn position_of(raw: Seq<RawEntityV>, u: EntityUidV, i: int) -> int
    decreases raw.len() - i,
{
    if i < 0 || i >= raw.len() {
        raw.len() as int
    } else if raw[i].uid == u {
        i
    } else {
        position_of(raw, u, i + 1)
    }
}

/// The parents that the entity `u` names: none when there is no such entity.
pub open spec fn parents_of(raw: Seq<RawEntityV>, u: EntityUidV) -> Seq<EntityUidV> {
    let j = position_of(raw, u, 0);
    if 0 <= j < raw.len() {
        raw[j].parents
    } else {
        Seq::empty()
    }
}

/// Whether `a` is a parent of `d`.
pub open spec fn is_parent(raw: Seq<RawEntityV>, d: EntityUidV, a: EntityUidV) -> bool {
    parents_of(raw, d).contains(a)
}

/// Whether `a` is reached from `d` in `n` steps, each from an entity to
/// one of its parents.
pub open spec fn climbs(raw: Seq<RawEntityV>, d: EntityUidV, a: EntityUidV, n: nat) -> bool
    decreases n,
{
    if n == 0 {
        false
    } else if n == 1 {
        is_parent(raw, d, a)
    } else {
        exists|m: EntityUidV| #[trigger] is_parent(raw, d, m) && climbs(raw, m, a, (n - 1) as nat)
    }
}

/// Whether `a` is above `d` in the hierarchy: a parent, or a parent of a
/// parent, and so on.
pub open spec fn is_above(raw: Seq<RawEntityV>, d: EntityUidV, a: EntityUidV) -> bool {
    exists|n: nat| #[trigger] climbs(raw, d, a, n)
}

/// Whether no two entities have the same identifier.
pub open spec fn distinct_raw(raw: Seq<RawEntityV>) -> bool {
    forall|i: int, j: int|
        #![trigger raw[i], raw[j]]
        0 <= i < j < raw.len() ==> raw[i].uid != raw[j].uid
}

/// All parents that the entities name, those of the first entity first.
pub open spec fn all_parents(raw: Seq<RawEntityV>) -> Seq<EntityUidV>
    decreases raw.len(),
{
    if raw.len() == 0 {
        Seq::empty()
    } else {
        all_parents(raw.drop_last()) + raw.last().parents
    }
}

/// The position of an entity is within the entities, and holds the entity.
pub proof fn lemma_position_of(raw: Seq<RawEntityV>, u: EntityUidV, i: int)
    requires
        0 <= i <= raw.len(),
    ensures
        i <= position_of(raw, u, i) <= raw.len(),
        position_of(raw, u, i) < raw.len() ==> raw[position_of(raw, u, i)].uid == u,
        forall|k: int| i <= k < position_of(raw, u, i) ==> (#[trigger] raw[k]).uid != u,
    decreases raw.len() - i,
{
    if i < raw.len() && raw[i].uid != u {
        lemma_position_of(raw, u, i + 1);
    }
}

/// Among entities with distinct identifiers, the parents of the
/// identifier of an entity are the parents that the entity names.
pub proof fn lemma_parents_of_entity(raw: Seq<RawEntityV>, i: int)
    requires
        distinct_raw(raw),
        0 <= i < raw.len(),
    ensures
        position_of(raw, raw[i].uid, 0) == i,
        parents_of(raw, raw[i].uid) == raw[i].parents,
{
    lemma_position_of(raw, raw[i].uid, 0);
    let j = position_of(raw, raw[i].uid, 0);
    if j < i {
        assert(raw[j].uid != raw[i].uid);
    }
}

/// Every parent that an entity names is among all parents.
pub proof fn lemma_all_parents_hold(raw: Seq<RawEntityV>, i: int, x: EntityUidV)
    requires
        0 <= i < raw.len(),
        raw[i].parents.contains(x),
    ensures
        all_parents(raw).contains(x),
    decreases raw.len(),
{
    let before = all_parents(raw.drop_last());
    let last = raw.last().parents;
    if i == raw.len() - 1 {
        let k = choose|k: int| 0 <= k < last.len() && last[k] == x;
        assert((before + last)[before.len() + k] == x);
    } else {
        lemma_all_parents_hold(raw.drop_last(), i, x);
        let k = choose|k: int| 0 <= k < before.len() && before[k] == x;
        assert((before + last)[k] == x);
    }
}

/// Climbing from `d` to `a` and on from `a` to `b` is climbing from `d` to `b`.
pub proof fn lemma_climbs_on(
    raw: Seq<RawEntityV>,
    d: EntityUidV,
    a: EntityUidV,
    b: EntityUidV,
    n1: nat,
    n2: nat,
)
    requires
        climbs(raw, d, a, n1),
        climbs(raw, a, b, n2),
    ensures
        climbs(raw, d, b, n1 + n2),
    decreases n1,
{
    if n1 == 1 {
        assert(is_parent(raw, d, a));
        assert(n2 >= 1);
        assert(climbs(raw, a, b, (n1 + n2 - 1) as nat));
    } else {
        let m = choose|m: EntityUidV| #[trigger]
            is_parent(raw, d, m) && climbs(raw, m, a, (n1 - 1) as nat);
        lemma_climbs_on(raw, m, a, b, (n1 - 1) as nat, n2);
        assert(is_parent(raw, d, m) && climbs(raw, m, b, (n1 + n2 - 1) as nat));
    }
}

/// What is above something that is above `d` is above `d`.
pub proof fn lemma_above_is_transitive(
    raw: Seq<RawEntityV>,
    d: EntityUidV,
    a: EntityUidV,
    b: EntityUidV,
)
    requires
        is_above(raw, d, a),
        is_above(raw, a, b),
    ensures
        is_above(raw, d, b),
{
    let n1 = choose|n: nat| #[trigger] climbs(raw, d, a, n);
    let n2 = choose|n: nat| #[trigger] climbs(raw, a, b, n);
    lemma_climbs_on(raw, d, a, b, n1, n2);
}

/// A sequence without duplicates whose elements are all among those of
/// another is no longer than the other.
pub proof fn lemma_pigeonhole<A>(l: Seq<A>, u: Seq<A>)
    requires
        l.no_duplicates(),
        forall|x: A| l.contains(x) ==> u.contains(x),
    ensures
        l.len() <= u.len(),
{
    l.unique_seq_to_set();
    u.lemma_cardinality_of_set();
    seq_to_set_is_finite(u);
    assert(l.to_set().subset_of(u.to_set()));
    lemma_len_subset(l.to_set(), u.to_set());
}

/// The position of the first entity with the identifier `u`, if there is one.
fn find_raw(raw: &Vec<RawEntity>, u: &EntityUid) -> (r: Option<usize>)
    ensures
        r is Some <==> position_of(raws_view(raw@), u@, 0) < raw.len(),
        r is Some ==> r->0 == position_of(raws_view(raw@), u@, 0) && r->0 < raw.len(),
{
    let ghost rv = raws_view(raw@);
    let mut i: usize = 0;
    while i < raw.len()
        invariant
            i <= raw.len(),
            rv == raws_view(raw@),
            position_of(rv, u@, 0) == position_of(rv, u@, i as int),
        decreases raw.len() - i,
    {
        assert(rv[i as int] == raw[i as int]@);
        if raw[i].uid.same_as(u) {
            return Some(i);
        }
        i += 1;
    }
    None
}

/// Adds to `list` every identifier of `from` that it does not hold yet,
/// and says whether it added one.
fn absorb(list: &mut Vec<EntityUid>, from: &Vec<EntityUid>) -> (changed: bool)
    requires
        uids_view(old(list)@).no_duplicates(),
    ensures
        uids_view(final(list)@).no_duplicates(),
        old(list).len() <= final(list).len(),
        uids_view(final(list)@).take(old(list).len() as int) == uids_view(old(list)@),
        forall|x: EntityUidV|
            #![trigger uids_view(final(list)@).contains(x)]
            uids_view(final(list)@).contains(x) <==> uids_view(old(list)@).contains(x) || uids_view(
                from@,
            ).contains(x),
        changed <==> final(list).len() > old(list).len(),
{
    let ghost start = uids_view(list@);
    let ghost fv = uids_view(from@);
    let mut changed = false;
    let mut k: usize = 0;
    assert(start.take(start.len() as int) =~= start);
    assert(fv.take(0) =~= Seq::<EntityUidV>::empty());
    while k < from.len()
        invariant
            k <= from.len(),
            fv == uids_view(from@),
            start == uids_view(old(list)@),
            uids_view(list@).no_duplicates(),
            start.len() <= list.len(),
            uids_view(list@).take(start.len() as int) == start,
            forall|x: EntityUidV|
                #![trigger uids_view(list@).contains(x)]
                uids_view(list@).contains(x) <==> start.contains(x) || fv.take(k as int).contains(
                    x,
                ),
            changed <==> list.len() > start.len(),
        decreases from.len() - k,
    {
        let ghost before = uids_view(list@);
        let ghost y = fv[k as int];
        assert(y == from[k as int]@);
        if !uid_among(list, &from[k]) {
            list.push(from[k].clone());
            changed = true;
            proof {
                let after = uids_view(list@);
                assert(after =~= before.push(y));
                assert(after.take(start.len() as int) =~= before.take(start.len() as int));
                assert forall|i: int, j: int|
                    0 <= i < after.len() && 0 <= j < after.len() && i != j implies after[i]
                    != after[j] by {
                    if i == before.len() {
                        assert(before[j] != y);
                    } else if j == before.len() {
                        assert(before[i] != y);
                    } else {
                        assert(before[i] != before[j]);
                    }
                }
            }
        }
        proof {
            let after = uids_view(list@);
            assert(fv.take(k + 1) =~= fv.take(k as int).push(y));
            assert forall|x: EntityUidV| #![trigger after.contains(x)]
                after.contains(x) <==> start.contains(x) || fv.take(k + 1).contains(x) by {
                crate::frontend::lemma_push_contains(fv.take(k as int), y, x);
                assert(before.contains(x) <==> start.contains(x) || fv.take(k as int).contains(x));
                if after.len() > before.len() {
                    crate::frontend::lemma_push_contains(before, y, x);
                } else {
                    assert(after =~= before);
                    assert(before.contains(y));
                }
            }
        }
        k += 1;
    }
    assert(fv.take(k as int) =~= fv);
    changed
}

/// The models of a vector of lists of entity identifiers, in order.
pub open spec fn lists_view(ls: Seq<Vec<EntityUid>>) -> Seq<Seq<EntityUidV>> {
    Seq::new(ls.len(), |i: int| uids_view(ls[i]@))
}

/// Whether `l` can be the list of the ancestors of the entity at position
/// `i` while the ancestors are computed: it holds nothing twice, it holds
/// the parents of the entity, and what it holds is above the entity and
/// is a parent of some entity.
pub open spec fn list_ok(raw: Seq<RawEntityV>, i: int, l: Seq<EntityUidV>) -> bool {
    &&& l.no_duplicates()
    &&& forall|x: EntityUidV| #[trigger] raw[i].parents.contains(x) ==> l.contains(x)
    &&& forall|x: EntityUidV|
        #[trigger] l.contains(x) ==> is_above(raw, raw[i].uid, x) && all_parents(raw).contains(x)
}

/// Whether every list can be the list of the ancestors of its entity.
pub open spec fn lists_ok(raw: Seq<RawEntityV>, ls: Seq<Seq<EntityUidV>>) -> bool {
    &&& ls.len() == raw.len()
    &&& forall|i: int| 0 <= i < ls.len() ==> #[trigger] list_ok(raw, i, ls[i])
}

/// Whether the list at position `i` holds what the list of its element at
/// position `k` holds, where that element is an entity.
pub open spec fn absorbed(raw: Seq<RawEntityV>, ls: Seq<Seq<EntityUidV>>, i: int, k: int) -> bool {
    let j = position_of(raw, ls[i][k], 0);
    0 <= j < raw.len() ==> forall|x: EntityUidV| #[trigger] ls[j].contains(x) ==> ls[i].contains(x)
}

/// Whether the list at position `i` holds what the lists of its elements hold.
pub open spec fn closed_at(raw: Seq<RawEntityV>, ls: Seq<Seq<EntityUidV>>, i: int) -> bool {
    forall|k: int| 0 <= k < ls[i].len() ==> #[trigger] absorbed(raw, ls, i, k)
}

/// Whether every list holds what the lists of its elements hold.
pub open spec fn closed(raw: Seq<RawEntityV>, ls: Seq<Seq<EntityUidV>>) -> bool {
    forall|i: int| 0 <= i < ls.len() ==> #[trigger] closed_at(raw, ls, i)
}

/// The sum of the lengths of the lists.
pub open spec fn total_len(ls: Seq<Seq<EntityUidV>>) -> nat
    decreases ls.len(),
{
    if ls.len() == 0 {
        0
    } else {
        total_len(ls.drop_last()) + ls.last().len()
    }
}

/// Replacing a list changes the sum of the lengths by the change of its length.
pub proof fn lemma_total_len_update(ls: Seq<Seq<EntityUidV>>, i: int, l: Seq<EntityUidV>)
    requires
        0 <= i < ls.len(),
    ensures
        total_len(ls.update(i, l)) == total_len(ls) - ls[i].len() + l.len(),
    decreases ls.len(),
{
    let after = ls.update(i, l);
    if i == ls.len() - 1 {
        assert(after.drop_last() =~= ls.drop_last());
    } else {
        assert(after.drop_last() =~= ls.drop_last().update(i, l));
        lemma_total_len_update(ls.drop_last(), i, l);
    }
}

/// The sum of the lengths of lists that are each no longer than `m` is at
/// most their number times `m`.
pub proof fn lemma_total_len_bound(ls: Seq<Seq<EntityUidV>>, m: nat)
    requires
        forall|i: int| 0 <= i < ls.len() ==> (#[trigger] ls[i]).len() <= m,
    ensures
        total_len(ls) <= ls.len() * m,
    decreases ls.len(),
{
    if ls.len() > 0 {
        assert forall|i: int| 0 <= i < ls.drop_last().len() implies (#[trigger] ls.drop_last()[i]).len()
            <= m by {
            assert(ls.drop_last()[i] == ls[i]);
        }
        lemma_total_len_bound(ls.drop_last(), m);
        assert(ls.last() == ls[ls.len() - 1]);
        assert((ls.len() - 1) * m + m == ls.len() * m) by (nonlinear_arith);
    }
}

/// Lists that are in order are together no longer than the number of
/// entities times the number of all parents.
pub proof fn lemma_lists_bounded(raw: Seq<RawEntityV>, ls: Seq<Seq<EntityUidV>>)
    requires
        lists_ok(raw, ls),
    ensures
        total_len(ls) <= raw.len() * all_parents(raw).len(),
{
    let u = all_parents(raw);
    assert forall|i: int| 0 <= i < ls.len() implies (#[trigger] ls[i]).len() <= u.len() by {
        assert(list_ok(raw, i, ls[i]));
        lemma_pigeonhole(ls[i], u);
    }
    lemma_total_len_bound(ls, u.len());
}

/// From an identifier that is no entity, nothing is reached.
pub proof fn lemma_climbs_from_entity(raw: Seq<RawEntityV>, d: EntityUidV, a: EntityUidV, n: nat)
    requires
        climbs(raw, d, a, n),
    ensures
        0 <= position_of(raw, d, 0) < raw.len(),
    decreases n,
{
    lemma_position_of(raw, d, 0);
    if n == 1 {
        assert(parents_of(raw, d).contains(a));
    } else {
        let m = choose|m: EntityUidV| #[trigger]
            is_parent(raw, d, m) && climbs(raw, m, a, (n - 1) as nat);
        assert(parents_of(raw, d).contains(m));
    }
}

/// Closed lists that hold the parents of their entities hold all that is
/// reached from their entities.
pub proof fn lemma_closed_holds_all(
    raw: Seq<RawEntityV>,
    ls: Seq<Seq<EntityUidV>>,
    i: int,
    a: EntityUidV,
    n: nat,
)
    requires
        distinct_raw(raw),
        lists_ok(raw, ls),
        closed(raw, ls),
        0 <= i < raw.len(),
        climbs(raw, raw[i].uid, a, n),
    ensures
        ls[i].contains(a),
    decreases n,
{
    lemma_parents_of_entity(raw, i);
    assert(list_ok(raw, i, ls[i]));
    if n == 1 {
        assert(raw[i].parents.contains(a));
    } else {
        let m = choose|m: EntityUidV| #[trigger]
            is_parent(raw, raw[i].uid, m) && climbs(raw, m, a, (n - 1) as nat);
        assert(raw[i].parents.contains(m));
        assert(ls[i].contains(m));
        lemma_climbs_from_entity(raw, m, a, (n - 1) as nat);
        lemma_position_of(raw, m, 0);
        let j = position_of(raw, m, 0);
        lemma_closed_holds_all(raw, ls, j, a, (n - 1) as nat);
        let k = choose|k: int| 0 <= k < ls[i].len() && ls[i][k] == m;
        assert(closed_at(raw, ls, i));
        assert(absorbed(raw, ls, i, k));
    }
}

/// The lists to start from: for each entity its parents, each once.
fn initial_lists(raw: &Vec<RawEntity>) -> (r: Vec<Vec<EntityUid>>)
    requires
        distinct_raw(raws_view(raw@)),
    ensures
        lists_ok(raws_view(raw@), lists_view(r@)),
{
    let ghost rv = raws_view(raw@);
    let mut out: Vec<Vec<EntityUid>> = Vec::new();
    let mut i: usize = 0;
    while i < raw.len()
        invariant
            i <= raw.len(),
            rv == raws_view(raw@),
            distinct_raw(rv),
            out.len() == i,
            forall|k: int| 0 <= k < i ==> #[trigger] list_ok(rv, k, lists_view(out@)[k]),
        decreases raw.len() - i,
    {
        let mut list: Vec<EntityUid> = Vec::new();
        assert(uids_view(list@) =~= Seq::<EntityUidV>::empty());
        absorb(&mut list, &raw[i].parents);
        let ghost l = uids_view(list@);
        proof {
            assert(rv[i as int] == raw[i as int]@);
            lemma_parents_of_entity(rv, i as int);
            assert forall|x: EntityUidV| #[trigger] l.contains(x) implies is_above(
                rv,
                rv[i as int].uid,
                x,
            ) && all_parents(rv).contains(x) by {
                assert(rv[i as int].parents.contains(x));
                assert(climbs(rv, rv[i as int].uid, x, 1));
                lemma_all_parents_hold(rv, i as int, x);
            }
            assert(list_ok(rv, i as int, l));
        }
        let ghost before = lists_view(out@);
        out.push(list);
        proof {
            let after = lists_view(out@);
            assert(after[i as int] == l);
            assert forall|k: int| 0 <= k < i + 1 implies #[trigger] list_ok(rv, k, after[k]) by {
                if k < i {
                    assert(after[k] == before[k]);
                    assert(list_ok(rv, k, before[k]));
                }
            }
        }
        i += 1;
    }
    out
}

/// The list of the entity at position `i`, with what the lists of its
/// elements hold added to it, and whether anything was added.
fn expand_one(raw: &Vec<RawEntity>, lists: &Vec<Vec<EntityUid>>, i: usize) -> (r: (
    Vec<EntityUid>,
    bool,
))
    requires
        distinct_raw(raws_view(raw@)),
        lists_ok(raws_view(raw@), lists_view(lists@)),
        i < raw.len(),
    ensures
        list_ok(raws_view(raw@), i as int, uids_view(r.0@)),
        r.0.len() >= lists[i as int].len(),
        r.1 <==> r.0.len() > lists[i as int].len(),
        !r.1 ==> uids_view(r.0@) == lists_view(lists@)[i as int] && closed_at(
            raws_view(raw@),
            lists_view(lists@),
            i as int,
        ),
{
    let ghost rv = raws_view(raw@);
    let ghost lv = lists_view(lists@);
    let ghost mine = lv[i as int];
    assert(list_ok(rv, i as int, mine));
    let mut cur = clone_uids(&lists[i]);
    let n0 = cur.len();
    let mut changed = false;
    let mut k: usize = 0;
    assert(uids_view(cur@).take(n0 as int) =~= mine);
    while k < n0
        invariant
            k <= n0,
            n0 == mine.len(),
            i < raw.len(),
            rv == raws_view(raw@),
            lv == lists_view(lists@),
            mine == lv[i as int],
            distinct_raw(rv),
            lists_ok(rv, lv),
            n0 <= cur.len(),
            uids_view(cur@).take(n0 as int) == mine,
            list_ok(rv, i as int, uids_view(cur@)),
            changed <==> cur.len() > n0,
            !changed ==> forall|m: int| 0 <= m < k ==> #[trigger] absorbed(rv, lv, i as int, m),
        decreases n0 - k,
    {
        let ghost before = uids_view(cur@);
        let ghost a = mine[k as int];
        assert(before.take(n0 as int)[k as int] == before[k as int]);
        assert(cur[k as int]@ == a);
        match find_raw(raw, &cur[k]) {
            Some(j) => {
                let ghost theirs = lv[j as int];
                assert(list_ok(rv, j as int, theirs));
                let ch = absorb(&mut cur, &lists[j]);
                proof {
                    let after = uids_view(cur@);
                    lemma_position_of(rv, a, 0);
                    assert(rv[j as int].uid == a);
                    assert(after.take(n0 as int) =~= before.take(n0 as int)) by {
                        assert(after.take(before.len() as int) == before);
                        assert forall|m: int| 0 <= m < n0 implies after.take(n0 as int)[m]
                            == before.take(n0 as int)[m] by {
                            assert(after.take(before.len() as int)[m] == after[m]);
                        }
                    }
                    assert(before.contains(a)) by {
                        assert(before[k as int] == a);
                    }
                    assert forall|x: EntityUidV| #[trigger] after.contains(x) implies is_above(
                        rv,
                        rv[i as int].uid,
                        x,
                    ) && all_parents(rv).contains(x) by {
                        if !before.contains(x) {
                            assert(theirs.contains(x));
                            assert(is_above(rv, a, x));
                            assert(is_above(rv, rv[i as int].uid, a));
                            lemma_above_is_transitive(rv, rv[i as int].uid, a, x);
                        }
                    }
                    assert forall|x: EntityUidV| #[trigger]
                        rv[i as int].parents.contains(x) implies after.contains(x) by {
                        assert(before.contains(x));
                    }
                    if !ch && !changed {
                        assert(after =~= before);
                        assert(before =~= mine);
                        assert(absorbed(rv, lv, i as int, k as int)) by {
                            assert forall|x: EntityUidV| #[trigger]
                                lv[j as int].contains(x) implies lv[i as int].contains(x) by {
                                assert(after.contains(x));
                            }
                        }
                    }
                }
                if ch {
                    changed = true;
                }
            },
            None => {
                proof {
                    lemma_position_of(rv, a, 0);
                    assert(absorbed(rv, lv, i as int, k as int));
                }
            },
        }
        k += 1;
    }
    proof {
        if !changed {
            assert(uids_view(cur@) =~= mine);
        }
    }
    (cur, changed)
}

/// One round: every list, one after the other, with what the lists of
/// its elements hold added to it. Says whether anything was added.
fn expand_all(raw: &Vec<RawEntity>, lists: &mut Vec<Vec<EntityUid>>) -> (changed: bool)
    requires
        distinct_raw(raws_view(raw@)),
        lists_ok(raws_view(raw@), lists_view(old(lists)@)),
    ensures
        lists_ok(raws_view(raw@), lists_view(final(lists)@)),
        total_len(lists_view(final(lists)@)) >= total_len(lists_view(old(lists)@)),
        changed <==> total_len(lists_view(final(lists)@)) > total_len(lists_view(old(lists)@)),
        !changed ==> lists_view(final(lists)@) == lists_view(old(lists)@) && closed(
            raws_view(raw@),
            lists_view(old(lists)@),
        ),
{
    let ghost rv = raws_view(raw@);
    let ghost lv0 = lists_view(lists@);
    let mut changed = false;
    let mut i: usize = 0;
    while i < raw.len()
        invariant
            i <= raw.len(),
            rv == raws_view(raw@),
            lv0 == lists_view(old(lists)@),
            distinct_raw(rv),
            lists_ok(rv, lists_view(lists@)),
            total_len(lists_view(lists@)) >= total_len(lv0),
            changed <==> total_len(lists_view(lists@)) > total_len(lv0),
            !changed ==> lists_view(lists@) == lv0,
            !changed ==> forall|k: int| 0 <= k < i ==> #[trigger] closed_at(rv, lv0, k),
        decreases raw.len() - i,
    {
        let ghost before = lists_view(lists@);
        let (list, ch) = expand_one(raw, lists, i);
        let ghost l = uids_view(list@);
        lists.set(i, list);
        proof {
            let after = lists_view(lists@);
            assert(after =~= before.update(i as int, l));
            lemma_total_len_update(before, i as int, l);
            assert forall|k: int| 0 <= k < after.len() implies #[trigger] list_ok(
                rv,
                k,
                after[k],
            ) by {
                if k != i {
                    assert(after[k] == before[k]);
                    assert(list_ok(rv, k, before[k]));
                }
            }
            if !ch {
                assert(after =~= before);
            }
        }
        if ch {
            changed = true;
        }
        i += 1;
    }
    changed
}

/// The lists of the ancestors of the entities: for each entity what is
/// above it, each once.
fn close_all(raw: &Vec<RawEntity>) -> (r: Vec<Vec<EntityUid>>)
    requires
        distinct_raw(raws_view(raw@)),
    ensures
        lists_ok(raws_view(raw@), lists_view(r@)),
        closed(raws_view(raw@), lists_view(r@)),
{
    let ghost rv = raws_view(raw@);
    let mut lists = initial_lists(raw);
    loop
        invariant
            rv == raws_view(raw@),
            distinct_raw(rv),
            lists_ok(rv, lists_view(lists@)),
        decreases raw.len() * all_parents(rv).len() - total_len(lists_view(lists@)),
    {
        proof {
            lemma_lists_bounded(rv, lists_view(lists@));
        }
        let changed = expand_all(raw, &mut lists);
        proof {
            lemma_lists_bounded(rv, lists_view(lists@));
        }
        if !changed {
            return lists;
        }
    }
}

/// Whether the identifier of the entity at position `j` is that of an
/// earlier entity.
pub open spec fn uid_occurs_before(raw: Seq<RawEntityV>, j: int) -> bool {
    exists|i: int| 0 <= i < j && (#[trigger] raw[i]).uid == raw[j].uid
}

/// The identifier of the first entity at or after position `j` whose
/// identifier is that of an earlier entity.
pub open spec fn uid_repeat_from(raw: Seq<RawEntityV>, j: int) -> Option<EntityUidV>
    decreases raw.len() - j,
{
    if j < 0 || j >= raw.len() {
        None
    } else if uid_occurs_before(raw, j) {
        Some(raw[j].uid)
    } else {
        uid_repeat_from(raw, j + 1)
    }
}

/// The first entity at or after position `i` of which two attributes have
/// one name, with the first name that repeats an earlier one.
pub open spec fn attr_repeat_from(raw: Seq<RawEntityV>, i: int) -> Option<(EntityUidV, Seq<char>)>
    decreases raw.len() - i,
{
    if i < 0 || i >= raw.len() {
        None
    } else {
        match first_repeated_name(raw[i].attrs) {
            Some(n) => Some((raw[i].uid, n)),
            None => attr_repeat_from(raw, i + 1),
        }
    }
}

/// Why entities as they are given make no store.
#[derive(Debug, PartialEq, Eq)]
pub enum HierarchyError {
    /// Two entities have this identifier.
    DuplicateEntity(EntityUid),
    /// Two attributes of this entity have this name.
    DuplicateAttribute { entity: EntityUid, attr: String },
}

/// Mathematical model of a [`HierarchyError`].
pub enum HierarchyErrorV {
    DuplicateEntity(EntityUidV),
    DuplicateAttribute { entity: EntityUidV, attr: Seq<char> },
}

impl View for HierarchyError {
    type V = HierarchyErrorV;

    open spec fn view(&self) -> HierarchyErrorV {
        match self {
            HierarchyError::DuplicateEntity(u) => HierarchyErrorV::DuplicateEntity(u@),
            HierarchyError::DuplicateAttribute { entity, attr } => {
                HierarchyErrorV::DuplicateAttribute { entity: entity@, attr: attr@ }
            },
        }
    }
}

/// Why the entities make no store, if they make none: the first
/// identifier that repeats an earlier one; else the first entity of which
/// two attributes have one name.
pub open spec fn hierarchy_error(raw: Seq<RawEntityV>) -> Option<HierarchyErrorV> {
    match uid_repeat_from(raw, 0) {
        Some(u) => Some(HierarchyErrorV::DuplicateEntity(u)),
        None => match attr_repeat_from(raw, 0) {
            Some((u, n)) => Some(HierarchyErrorV::DuplicateAttribute { entity: u, attr: n }),
            None => None,
        },
    }
}

/// No identifier repeats an earlier one from position `j` on exactly when
/// no entity from there on has the identifier of an earlier entity.
pub proof fn lemma_uid_repeat_from(raw: Seq<RawEntityV>, j: int)
    requires
        0 <= j <= raw.len(),
    ensures
        uid_repeat_from(raw, j) is None <==> forall|k: int|
            j <= k < raw.len() ==> !#[trigger] uid_occurs_before(raw, k),
    decreases raw.len() - j,
{
    if j < raw.len() {
        lemma_uid_repeat_from(raw, j + 1);
    }
}

/// No identifier repeats an earlier one exactly when the identifiers are
/// distinct.
pub proof fn lemma_first_repeated_uid(raw: Seq<RawEntityV>)
    ensures
        uid_repeat_from(raw, 0) is None <==> distinct_raw(raw),
{
    lemma_uid_repeat_from(raw, 0);
    if distinct_raw(raw) {
        assert forall|k: int| 0 <= k < raw.len() implies !#[trigger] uid_occurs_before(raw, k) by {
            if uid_occurs_before(raw, k) {
                let i = choose|i: int| 0 <= i < k && (#[trigger] raw[i]).uid == raw[k].uid;
                assert(raw[i].uid != raw[k].uid);
            }
        }
    } else {
        let (i, j) = choose|i: int, j: int|
            #![trigger raw[i], raw[j]]
            0 <= i < j < raw.len() && raw[i].uid == raw[j].uid;
        assert(uid_occurs_before(raw, j));
    }
}

fn first_repeated_uid(raw: &Vec<RawEntity>) -> (r: Option<EntityUid>)
    ensures
        r is Some <==> uid_repeat_from(raws_view(raw@), 0) is Some,
        r is Some ==> r->0@ == uid_repeat_from(raws_view(raw@), 0)->0,
        r is None <==> distinct_raw(raws_view(raw@)),
{
    let ghost rv = raws_view(raw@);
    proof {
        lemma_first_repeated_uid(rv);
    }
    let mut j: usize = 0;
    while j < raw.len()
        invariant
            j <= raw.len(),
            rv == raws_view(raw@),
            uid_repeat_from(rv, 0) == uid_repeat_from(rv, j as int),
        decreases raw.len() - j,
    {
        let mut i: usize = 0;
        while i < j
            invariant
                i <= j,
                j < raw.len(),
                rv == raws_view(raw@),
                uid_repeat_from(rv, 0) == uid_repeat_from(rv, j as int),
                forall|a: int| 0 <= a < i ==> (#[trigger] rv[a]).uid != rv[j as int].uid,
            decreases j - i,
        {
            assert(rv[i as int] == raw[i as int]@);
            assert(rv[j as int] == raw[j as int]@);
            if raw[i].uid.same_as(&raw[j].uid) {
                assert(uid_occurs_before(rv, j as int));
                return Some(raw[j].uid.clone());
            }
            i += 1;
        }
        assert(!uid_occurs_before(rv, j as int));
        j += 1;
    }
    None
}

/// Whether `e` is the entity at position `i` with its ancestors: its
/// identifier and its attributes, and as ancestors, each once, what is
/// above it.
pub open spec fn entity_closes(raw: Seq<RawEntityV>, i: int, e: EntityV) -> bool {
    &&& e.uid == raw[i].uid
    &&& e.attrs == raw[i].attrs
    &&& e.ancestors.no_duplicates()
    &&& forall|a: EntityUidV| #[trigger] e.ancestors.contains(a) <==> is_above(raw, raw[i].uid, a)
}

/// Whether `es` are the entities `raw`, in their order, each with its ancestors.
pub open spec fn closure_of(raw: Seq<RawEntityV>, es: Seq<EntityV>) -> bool {
    &&& es.len() == raw.len()
    &&& forall|i: int| 0 <= i < raw.len() ==> #[trigger] entity_closes(raw, i, es[i])
}

impl Entities {
    /// The store of the given entities, each with all that is above it as
    /// its ancestors. Fails when two entities have one identifier, or
    /// when two attributes of an entity have one name.
    pub fn from_raw(raw: Vec<RawEntity>, mode: Mode) -> (r: Result<Entities, HierarchyError>)
        ensures
            r is Ok <==> hierarchy_error(raws_view(raw@)) is None,
            r is Ok ==> closure_of(raws_view(raw@), r->Ok_0@.entities) && r->Ok_0@.mode == mode
                && r->Ok_0.wf() && crate::laws::transitively_closed(r->Ok_0@),
            r is Err ==> Some(r->Err_0@) == hierarchy_error(raws_view(raw@)),
    {
        let ghost rv = raws_view(raw@);
        match first_repeated_uid(&raw) {
            Some(u) => {
                return Err(HierarchyError::DuplicateEntity(u));
            },
            None => {},
        }
        let lists = close_all(&raw);
        let ghost lv = lists_view(lists@);
        let mut entities: Vec<Entity> = Vec::new();
        let mut i: usize = 0;
        while i < raw.len()
            invariant
                i <= raw.len(),
                rv == raws_view(raw@),
                lv == lists_view(lists@),
                distinct_raw(rv),
                lists_ok(rv, lv),
                closed(rv, lv),
                uid_repeat_from(rv, 0) is None,
                attr_repeat_from(rv, 0) == attr_repeat_from(rv, i as int),
                entities.len() == i,
                forall|k: int| 0 <= k < i ==> #[trigger] entity_closes(rv, k, entities[k]@),
            decreases raw.len() - i,
        {
            assert(rv[i as int] == raw[i as int]@);
            assert(lv[i as int] == uids_view(lists[i as int]@));
            let e = Entity::new(
                raw[i].uid.clone(),
                clone_fields(&raw[i].attrs),
                clone_uids(&lists[i]),
            );
            proof {
                crate::value::lemma_first_repeated_name(rv[i as int].attrs);
            }
            match e {
                Err(EntityError::DuplicateAttribute(attr)) => {
                    return Err(
                        HierarchyError::DuplicateAttribute { entity: raw[i].uid.clone(), attr },
                    );
                },
                Ok(entity) => {
                    proof {
                        let ev = entity@;
                        assert(list_ok(rv, i as int, lv[i as int]));
                        assert forall|a: EntityUidV| #[trigger]
                            ev.ancestors.contains(a) <==> is_above(rv, rv[i as int].uid, a) by {
                            if is_above(rv, rv[i as int].uid, a) {
                                let n = choose|n: nat| #[trigger]
                                    climbs(rv, rv[i as int].uid, a, n);
                                lemma_closed_holds_all(rv, lv, i as int, a, n);
                            }
                        }
                        assert(entity_closes(rv, i as int, ev));
                    }
                    entities.push(entity);
                },
            }
            i += 1;
        }
        proof {
            let ev = entities_view(entities@);
            assert forall|a: int, b: int|
                #![trigger ev[a], ev[b]]
                0 <= a < b < ev.len() implies ev[a].uid != ev[b].uid by {
                assert(entity_closes(rv, a, entities[a]@));
                assert(entity_closes(rv, b, entities[b]@));
                assert(rv[a].uid != rv[b].uid);
            }
            assert forall|k: int| 0 <= k < rv.len() implies #[trigger] entity_closes(
                rv,
                k,
                ev[k],
            ) by {
                assert(entity_closes(rv, k, entities[k]@));
            }
        }
        match Entities::from_entities(entities, mode) {
            Ok(store) => {
                proof {
                    law_closure_is_transitively_closed(rv, store@);
                }
                Ok(store)
            },
            Err(EntitiesError::Duplicate(u)) => {
                assert(false);
                Err(HierarchyError::DuplicateEntity(u))
            },
        }
    }
}

/// What a store of entities with their ancestors lists as an ancestor of
/// an entity is above the entity.
pub proof fn lemma_listed_is_above(
    raw: Seq<RawEntityV>,
    store: crate::entities::EntitiesV,
    d: EntityUidV,
    a: EntityUidV,
)
    requires
        distinct_raw(raw),
        closure_of(raw, store.entities),
        store.is_ancestor_of(a, d),
    ensures
        is_above(raw, d, a),
        exists|i: int|
            0 <= i < raw.len() && (#[trigger] raw[i]).uid == d && store.get(d) == Some(
                store.entities[i],
            ),
{
    crate::entities::lemma_entity_from(store.entities, d, 0);
    let k = choose|k: int|
        0 <= k < store.entities.len() && (#[trigger] store.entities[k]).uid == d
            && crate::entities::entity_from(store.entities, d, 0) == Some(store.entities[k]);
    assert(entity_closes(raw, k, store.entities[k]));
    assert(raw[k].uid == d);
}

/// A store of entities with their ancestors is transitively closed: the
/// ancestors of an entity hold the ancestors of each of them.
pub proof fn law_closure_is_transitively_closed(
    raw: Seq<RawEntityV>,
    store: crate::entities::EntitiesV,
)
    requires
        distinct_raw(raw),
        closure_of(raw, store.entities),
    ensures
        crate::laws::transitively_closed(store),
{
    assert forall|d: EntityUidV, m: EntityUidV, a: EntityUidV|
        #![trigger
            crate::laws::listed_ancestor(store, d, m),
            crate::laws::listed_ancestor(store, m, a)
        ]
        crate::laws::listed_ancestor(store, d, m) && crate::laws::listed_ancestor(
            store,
            m,
            a,
        ) implies crate::laws::listed_ancestor(store, d, a) by {
        lemma_listed_is_above(raw, store, d, m);
        lemma_listed_is_above(raw, store, m, a);
        lemma_above_is_transitive(raw, d, m, a);
        let i = choose|i: int|
            0 <= i < raw.len() && (#[trigger] raw[i]).uid == d && store.get(d) == Some(
                store.entities[i],
            );
        assert(entity_closes(raw, i, store.entities[i]));
    }
}

} // verus!
