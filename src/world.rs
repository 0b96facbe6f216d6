use crate::body::{bounds_ok, stepped, WrappingBehavior};
use crate::entity::{
    body_after_event, countdown, fires, on_screen_at, Entity, EntityKind, InputEvent, StepResult,
};
use crate::fixed::Vec2;
use crate::body::Body;
use crate::entity::{hulls_touch, kinds_collide};
use crate::shapes::{child_count, debris_count, is_bullet_from, is_split_of};
use vstd::prelude::*;

verus! {

/// The live entities, in an order that fixes the order of collision checks.
#[derive(Debug)]
pub struct World {
    pub entities: Vec<Entity>,
}

/// Every entity of `s` is well formed.
pub open spec fn all_wf(s: Seq<Entity>) -> bool {
    forall|i: int| 0 <= i < s.len() ==> (#[trigger] s[i]).wf()
}

/// The body of an entity of `kind` after the events `evs`, in order.
pub open spec fn body_after_events(kind: EntityKind, body: Body, evs: Seq<InputEvent>) -> Body
    decreases evs.len(),
{
    if evs.len() == 0 {
        body
    } else {
        body_after_event(kind, body_after_events(kind, body, evs.drop_last()), evs.last())
    }
}

/// Bodies, in entity order, of the first `n` entities of `s` that fire on
/// `ev` after the events `done`.
pub open spec fn firers_on(s: Seq<Entity>, done: Seq<InputEvent>, ev: InputEvent, n: int) -> Seq<
    Body,
>
    decreases n,
{
    if n <= 0 {
        Seq::empty()
    } else {
        let earlier = firers_on(s, done, ev, n - 1);
        if fires(s[n - 1].kind, ev) {
            earlier.push(body_after_events(s[n - 1].kind, s[n - 1].body, done))
        } else {
            earlier
        }
    }
}

/// Bodies of every firing over the events `evs`, event by event and, within
/// an event, in entity order.
pub open spec fn firers(s: Seq<Entity>, evs: Seq<InputEvent>) -> Seq<Body>
    decreases evs.len(),
{
    if evs.len() == 0 {
        Seq::empty()
    } else {
        firers(s, evs.drop_last()) + firers_on(s, evs.drop_last(), evs.last(), s.len() as int)
    }
}

/// `after` is `before` once each of `evs` has been handed to every entity of
/// `before`, with the bullets fired appended in firing order.
pub open spec fn dispatched(before: Seq<Entity>, evs: Seq<InputEvent>, after: Seq<Entity>) -> bool {
    let shots = firers(before, evs);
    &&& after.len() == before.len() + shots.len()
    &&& forall|i: int|
        0 <= i < before.len() ==> {
            &&& (#[trigger] after[i]).body == body_after_events(
                before[i].kind,
                before[i].body,
                evs,
            )
            &&& after[i].kind == before[i].kind
            &&& after[i].wrap == before[i].wrap
            &&& after[i].sprite_verts == before[i].sprite_verts
            &&& after[i].bounding == before[i].bounding
        }
    &&& forall|k: int|
        0 <= k < shots.len() ==> is_bullet_from(#[trigger] after[before.len() + k], shots[k])
}

/// How many of the first `n` entities of `s` survive their countdown this tick.
pub open spec fn kept_before(s: Seq<Entity>, n: int) -> int
    decreases n,
{
    if n <= 0 {
        0
    } else {
        kept_before(s, n - 1) + if countdown(s[n - 1].kind) is Some {
            1int
        } else {
            0
        }
    }
}

/// `after` is `before` advanced by one tick, as `Entity::step` does it.
pub open spec fn entity_stepped(before: Entity, after: Entity, bounds: Vec2) -> bool {
    &&& after.body == stepped(before.body, bounds, before.wrap == WrappingBehavior::Yes)
    &&& after.sprite_verts == before.sprite_verts
    &&& after.bounding == before.bounding
    &&& after.wrap == if before.wrap == WrappingBehavior::OnceOnScreen && on_screen_at(
        before.bounding,
        after.body,
        bounds,
    ) {
        WrappingBehavior::Yes
    } else {
        before.wrap
    }
    &&& countdown(before.kind) == Some(after.kind)
}

/// `after` holds, in their order, the entities of `before` that survive
/// their countdown, each advanced by one tick.
pub open spec fn stepped_all(before: Seq<Entity>, bounds: Vec2, after: Seq<Entity>) -> bool {
    &&& after.len() == kept_before(before, before.len() as int)
    &&& forall|i: int|
        0 <= i < before.len() && (countdown(before[i].kind) is Some) ==> entity_stepped(
            before[i],
            #[trigger] after[kept_before(before, i)],
            bounds,
        )
}

proof fn lemma_kept_before_bounds(s: Seq<Entity>, n: int)
    requires
        0 <= n <= s.len(),
    ensures
        0 <= kept_before(s, n) <= n,
    decreases n,
{
    if n > 0 {
        lemma_kept_before_bounds(s, n - 1);
    }
}

proof fn lemma_kept_before_grows(s: Seq<Entity>, i: int, n: int)
    requires
        0 <= i < n <= s.len(),
        countdown(s[i].kind) is Some,
    ensures
        kept_before(s, i) < kept_before(s, n),
    decreases n,
{
    if n - 1 > i {
        lemma_kept_before_grows(s, i, n - 1);
    }
}

/// A touching pair that involves a player. What it means for the player is
/// left to the caller.
#[derive(Clone, Copy, Debug, PartialEq, Eq)]
pub struct Contact {
    pub first: EntityKind,
    pub first_position: Vec2,
    pub second: EntityKind,
    pub second_position: Vec2,
}

pub open spec fn contact_of(a: Entity, b: Entity) -> Contact {
    Contact {
        first: a.kind,
        first_position: a.body.position,
        second: b.kind,
        second_position: b.body.position,
    }
}

/// Entities `i` and `j` of `s` collide: their kinds react to each other and
/// their hulls touch.
pub open spec fn pair_touches(s: Seq<Entity>, i: int, j: int) -> bool {
    kinds_collide(s[i].kind, s[j].kind) && hulls_touch(s[i], s[j])
}

/// One of entities `i` and `j` is a bullet and the other an asteroid.
pub open spec fn bullet_and_asteroid(s: Seq<Entity>, i: int, j: int) -> bool {
    (s[i].kind is Bullet && s[j].kind is Asteroid) || (s[i].kind is Asteroid && s[j].kind is Bullet)
}

/// State of the collision scan: which entities are marked for removal, the
/// (asteroid, bullet) hits so far, and the player contacts so far.
pub type ScanState = (Seq<bool>, Seq<(usize, usize)>, Seq<Contact>);

/// The scan state after considering the pair `(i, j)`. A pair where either
/// side is already marked is passed over. A bullet touching an asteroid marks
/// both and records the hit; any other touching pair records a contact.
pub open spec fn resolve_pair(s: Seq<Entity>, st: ScanState, i: int, j: int) -> ScanState {
    if st.0[i] || st.0[j] || !pair_touches(s, i, j) {
        st
    } else if bullet_and_asteroid(s, i, j) {
        let hit = if s[i].kind is Asteroid {
            (i as usize, j as usize)
        } else {
            (j as usize, i as usize)
        };
        (st.0.update(i, true).update(j, true), st.1.push(hit), st.2)
    } else {
        (st.0, st.1, st.2.push(contact_of(s[i], s[j])))
    }
}

/// The scan state once every pair `(i2, j2)` with `j2 < i2 < i`, and the
/// pairs `(i, j2)` with `j2 < j`, have been considered in that order.
pub open spec fn scan(s: Seq<Entity>, i: int, j: int) -> ScanState
    decreases i, j,
{
    if i <= 0 {
        (Seq::new(s.len(), |k: int| false), Seq::empty(), Seq::empty())
    } else if j <= 0 {
        scan(s, i - 1, i - 1)
    } else {
        resolve_pair(s, scan(s, i, j - 1), i, j - 1)
    }
}

/// The scan state after all pairs of `s`.
pub open spec fn full_scan(s: Seq<Entity>) -> ScanState {
    scan(s, s.len() as int, 0)
}

/// How many of the first `n` entities are not marked.
pub open spec fn unmarked_before(marked: Seq<bool>, n: int) -> int
    decreases n,
{
    if n <= 0 {
        0
    } else {
        unmarked_before(marked, n - 1) + if marked[n - 1] {
            0int
        } else {
            1
        }
    }
}

/// The size of the asteroid of a hit.
pub open spec fn hit_size(s: Seq<Entity>, hit: (usize, usize)) -> usize {
    match s[hit.0 as int].kind {
        EntityKind::Asteroid { size } => size,
        _ => 0,
    }
}

/// How many entities the first `h` hits spawn.
pub open spec fn spawned_before(s: Seq<Entity>, hits: Seq<(usize, usize)>, h: int) -> int
    decreases h,
{
    if h <= 0 {
        0
    } else {
        spawned_before(s, hits, h - 1) + child_count(hit_size(s, hits[h - 1]) as int)
            + debris_count(hit_size(s, hits[h - 1]) as int)
    }
}

/// `after` is `s` once its collisions are resolved: the unmarked entities,
/// unchanged and in order, then for each hit in order what the asteroid
/// breaks into; `contacts` are the player contacts of the scan.
pub open spec fn resolved(s: Seq<Entity>, after: Seq<Entity>, contacts: Seq<Contact>) -> bool {
    let st = full_scan(s);
    let kept = unmarked_before(st.0, s.len() as int);
    &&& contacts == st.2
    &&& after.len() == kept + spawned_before(s, st.1, st.1.len() as int)
    &&& forall|i: int|
        0 <= i < s.len() && !st.0[i] ==> after[unmarked_before(st.0, i)] == #[trigger] s[i]
    &&& forall|h: int|
        0 <= h < st.1.len() ==> is_split_of(
            after.subrange(
                kept + spawned_before(s, st.1, h),
                kept + spawned_before(s, st.1, h + 1),
            ),
            hit_size(s, #[trigger] st.1[h]),
            s[st.1[h].0 as int].body,
            s[st.1[h].1 as int].body.rotation as int,
        )
}

/// The scan state is consistent with `s`: one mark per entity, and each hit
/// names an asteroid and a bullet of `s`.
pub open spec fn scan_ok(s: Seq<Entity>, st: ScanState) -> bool {
    &&& st.0.len() == s.len()
    &&& forall|h: int|
        0 <= h < st.1.len() ==> {
            let hit = #[trigger] st.1[h];
            &&& hit.0 < s.len()
            &&& hit.1 < s.len()
            &&& s[hit.0 as int].kind is Asteroid
            &&& s[hit.1 as int].kind is Bullet
            &&& st.0[hit.0 as int]
            &&& st.0[hit.1 as int]
        }
}

proof fn lemma_scan_ok(s: Seq<Entity>, i: int, j: int)
    requires
        0 <= j <= i <= s.len(),
        j > 0 ==> i < s.len(),
        s.len() <= usize::MAX,
    ensures
        scan_ok(s, scan(s, i, j)),
    decreases i, j,
{
    if i <= 0 {
    } else if j <= 0 {
        lemma_scan_ok(s, i - 1, i - 1);
    } else {
        lemma_scan_ok(s, i, j - 1);
        let st = scan(s, i, j - 1);
        let next = resolve_pair(s, st, i, j - 1);
        assert forall|k: int| 0 <= k < s.len() && st.0[k] implies next.0[k] by {}
        assert forall|h: int| 0 <= h < next.1.len() implies {
            let hit = #[trigger] next.1[h];
            &&& hit.0 < s.len()
            &&& hit.1 < s.len()
            &&& s[hit.0 as int].kind is Asteroid
            &&& s[hit.1 as int].kind is Bullet
            &&& next.0[hit.0 as int]
            &&& next.0[hit.1 as int]
        } by {
            if h < st.1.len() {
                assert(next.1[h] == st.1[h]);
            } else {
                assert(bullet_and_asteroid(s, i, j - 1));
            }
        }
    }
}

fn is_bullet(k: EntityKind) -> (r: bool)
    ensures
        r == k is Bullet,
{
    match k {
        EntityKind::Bullet { .. } => true,
        _ => false,
    }
}

fn is_asteroid(k: EntityKind) -> (r: bool)
    ensures
        r == k is Asteroid,
{
    match k {
        EntityKind::Asteroid { .. } => true,
        _ => false,
    }
}

/// Collision scan: considers every unordered pair `(i, j)`, `j < i`, once,
/// row by row, and records which entities to remove, the bullet hits on
/// asteroids, and the contacts that involve a player.
pub fn scan_collisions(entities: &Vec<Entity>) -> (r: (Vec<bool>, Vec<(usize, usize)>, Vec<Contact>))
    requires
        all_wf(entities@),
    ensures
        (r.0@, r.1@, r.2@) == full_scan(entities@),
        scan_ok(entities@, full_scan(entities@)),
{
    let ghost s = entities@;
    let n = entities.len();
    let mut marked: Vec<bool> = Vec::new();
    let mut k: usize = 0;
    while k < n
        invariant
            k <= n,
            marked@ == Seq::new(k as nat, |m: int| false),
        decreases n - k,
    {
        marked.push(false);
        k += 1;
        proof {
            assert(marked@ =~= Seq::new(k as nat, |m: int| false));
        }
    }
    let mut hits: Vec<(usize, usize)> = Vec::new();
    let mut contacts: Vec<Contact> = Vec::new();
    let mut i: usize = 0;
    proof {
        assert((marked@, hits@, contacts@) =~= scan(s, 0, 0));
    }
    while i < n
        invariant
            s == entities@,
            n == s.len(),
            all_wf(s),
            i <= n,
            (marked@, hits@, contacts@) == scan(s, i as int, 0),
        decreases n - i,
    {
        let mut j: usize = 0;
        proof {
            if i > 0 {
                assert(scan(s, i as int, 0) == scan(s, i - 1, i - 1));
            }
        }
        while j < i
            invariant
                s == entities@,
                n == s.len(),
                all_wf(s),
                i < n,
                j <= i,
                (marked@, hits@, contacts@) == scan(s, i as int, j as int),
            decreases i - j,
        {
            proof {
                lemma_scan_ok(s, i as int, j as int);
            }
            let ghost st = (marked@, hits@, contacts@);
            if !marked[i] && !marked[j] && entities[i].collides_with(&entities[j])
                && entities[i].collision(&entities[j]) {
                let ki = entities[i].kind;
                let kj = entities[j].kind;
                if (is_bullet(ki) && is_asteroid(kj)) || (is_asteroid(ki) && is_bullet(kj)) {
                    let hit = if is_asteroid(ki) {
                        (i, j)
                    } else {
                        (j, i)
                    };
                    marked.set(i, true);
                    marked.set(j, true);
                    hits.push(hit);
                } else {
                    contacts.push(
                        Contact {
                            first: ki,
                            first_position: entities[i].body.position,
                            second: kj,
                            second_position: entities[j].body.position,
                        },
                    );
                }
            }
            proof {
                assert((marked@, hits@, contacts@) == resolve_pair(s, st, i as int, j as int));
            }
            j += 1;
        }
        i += 1;
    }
    proof {
        lemma_scan_ok(s, n as int, 0);
    }
    (marked, hits, contacts)
}

/// Every hit names a well-formed asteroid of `s`.
pub open spec fn hits_ok(s: Seq<Entity>, hits: Seq<(usize, usize)>) -> bool {
    forall|h: int|
        0 <= h < hits.len() ==> {
            let hit = #[trigger] hits[h];
            &&& hit.0 < s.len()
            &&& hit.1 < s.len()
            &&& s[hit.0 as int].kind is Asteroid
            &&& s[hit.1 as int].kind is Bullet
            &&& 1 <= hit_size(s, hit) <= 3
        }
}

proof fn lemma_spawned_before_mono(s: Seq<Entity>, hits: Seq<(usize, usize)>, a: int, b: int)
    requires
        hits_ok(s, hits),
        0 <= a <= b <= hits.len(),
    ensures
        0 <= spawned_before(s, hits, a) <= spawned_before(s, hits, b),
    decreases b,
{
    if b > a {
        lemma_spawned_before_mono(s, hits, a, b - 1);
        assert(1 <= hit_size(s, hits[b - 1]) <= 3);
    } else if a > 0 {
        lemma_spawned_before_mono(s, hits, a - 1, a - 1);
        assert(1 <= hit_size(s, hits[a - 1]) <= 3);
    }
}

proof fn lemma_unmarked_before_bounds(marked: Seq<bool>, n: int)
    requires
        0 <= n <= marked.len(),
    ensures
        0 <= unmarked_before(marked, n) <= n,
    decreases n,
{
    if n > 0 {
        lemma_unmarked_before_bounds(marked, n - 1);
    }
}

proof fn lemma_unmarked_before_grows(marked: Seq<bool>, i: int, n: int)
    requires
        0 <= i < n <= marked.len(),
        !marked[i],
    ensures
        unmarked_before(marked, i) < unmarked_before(marked, n),
    decreases n,
{
    if n - 1 > i {
        lemma_unmarked_before_grows(marked, i, n - 1);
    }
}

/// The pieces of every hit in order: for each, what its asteroid breaks into.
fn spawn_from_hits(entities: &Vec<Entity>, hits: &Vec<(usize, usize)>) -> (r: Vec<Entity>)
    requires
        all_wf(entities@),
        hits_ok(entities@, hits@),
    ensures
        r@.len() == spawned_before(entities@, hits@, hits@.len() as int),
        forall|h: int|
            0 <= h < hits@.len() ==> is_split_of(
                r@.subrange(
                    spawned_before(entities@, hits@, h),
                    spawned_before(entities@, hits@, h + 1),
                ),
                hit_size(entities@, #[trigger] hits@[h]),
                entities@[hits@[h].0 as int].body,
                entities@[hits@[h].1 as int].body.rotation as int,
            ),
        all_wf(r@),
{
    let ghost s = entities@;
    let mut spawned: Vec<Entity> = Vec::new();
    let mut h: usize = 0;
    while h < hits.len()
        invariant
            s == entities@,
            all_wf(s),
            hits_ok(s, hits@),
            h <= hits@.len(),
            spawned@.len() == spawned_before(s, hits@, h as int),
            forall|h2: int|
                0 <= h2 < h ==> is_split_of(
                    spawned@.subrange(
                        spawned_before(s, hits@, h2),
                        spawned_before(s, hits@, h2 + 1),
                    ),
                    hit_size(s, #[trigger] hits@[h2]),
                    s[hits@[h2].0 as int].body,
                    s[hits@[h2].1 as int].body.rotation as int,
                ),
            all_wf(spawned@),
        decreases hits@.len() - h,
    {
        let (a, b) = hits[h];
        let ghost hit = hits@[h as int];
        assert(1 <= hit_size(s, hit) <= 3);
        let size = match entities[a].kind {
            EntityKind::Asteroid { size } => size,
            _ => 1,
        };
        assert(s[a as int].wf());
        assert(s[b as int].wf());
        assert(size == hit_size(s, hit));
        let mut pieces = crate::shapes::split_asteroid(
            size,
            &entities[a].body,
            entities[b].body.rotation,
        );
        let ghost old_spawned = spawned@;
        let ghost got = pieces@;
        spawned.append(&mut pieces);
        proof {
            lemma_spawned_before_mono(s, hits@, 0, h as int);
            assert forall|h2: int|
                0 <= h2 < h + 1 implies is_split_of(
                spawned@.subrange(spawned_before(s, hits@, h2), spawned_before(s, hits@, h2 + 1)),
                hit_size(s, #[trigger] hits@[h2]),
                s[hits@[h2].0 as int].body,
                s[hits@[h2].1 as int].body.rotation as int,
            ) by {
                lemma_spawned_before_mono(s, hits@, h2, h2 + 1);
                lemma_spawned_before_mono(s, hits@, 0, h2);
                if h2 < h {
                    lemma_spawned_before_mono(s, hits@, h2 + 1, h as int);
                    assert(spawned@.subrange(
                        spawned_before(s, hits@, h2),
                        spawned_before(s, hits@, h2 + 1),
                    ) =~= old_spawned.subrange(
                        spawned_before(s, hits@, h2),
                        spawned_before(s, hits@, h2 + 1),
                    ));
                } else {
                    assert(spawned@.subrange(
                        spawned_before(s, hits@, h2),
                        spawned_before(s, hits@, h2 + 1),
                    ) =~= got);
                }
            }
            assert forall|i: int| 0 <= i < spawned@.len() implies (#[trigger] spawned@[i]).wf() by {
                if i < old_spawned.len() {
                    assert(spawned@[i] == old_spawned[i]);
                } else {
                    assert(spawned@[i] == got[i - old_spawned.len()]);
                }
            }
        }
        h += 1;
    }
    spawned
}

/// The entities whose mark is false, in order.
fn keep_unmarked(entities: Vec<Entity>, marked: &Vec<bool>) -> (r: Vec<Entity>)
    requires
        all_wf(entities@),
        marked@.len() == entities@.len(),
    ensures
        r@.len() == unmarked_before(marked@, entities@.len() as int),
        forall|i: int|
            0 <= i < entities@.len() && !marked@[i] ==> r@[unmarked_before(marked@, i)]
                == #[trigger] entities@[i],
        all_wf(r@),
{
    let ghost s = entities@;
    let mut rest = entities;
    let n = rest.len();
    let mut kept: Vec<Entity> = Vec::new();
    let mut k: usize = 0;
    while k < n
        invariant
            n == s.len(),
            all_wf(s),
            marked@.len() == n,
            k <= n,
            rest@ == s.subrange(k as int, n as int),
            kept@.len() == unmarked_before(marked@, k as int),
            forall|i: int|
                0 <= i < k && !marked@[i] ==> kept@[unmarked_before(marked@, i)] == #[trigger] s[i],
            all_wf(kept@),
        decreases n - k,
    {
        let e = rest.remove(0);
        assert(e == s[k as int]);
        let ghost old_kept = kept@;
        if !marked[k] {
            kept.push(e);
        }
        proof {
            assert forall|i: int|
                0 <= i < k + 1 && !marked@[i] implies kept@[unmarked_before(marked@, i)]
                == #[trigger] s[i] by {
                if i < k {
                    lemma_unmarked_before_bounds(marked@, i);
                    lemma_unmarked_before_grows(marked@, i, k as int);
                    assert(kept@[unmarked_before(marked@, i)] == old_kept[unmarked_before(
                        marked@,
                        i,
                    )]);
                }
            }
            assert(rest@ =~= s.subrange(k as int + 1, n as int));
        }
        k += 1;
    }
    kept
}

/// `after` and `contacts` are the outcome of one tick from `before`: the
/// input phase, then the step phase, then the collision phase.
pub open spec fn ticked(
    before: Seq<Entity>,
    events: Seq<InputEvent>,
    bounds: Vec2,
    after: Seq<Entity>,
    contacts: Seq<Contact>,
) -> bool {
    exists|handled: Seq<Entity>, moved: Seq<Entity>|
        #![trigger dispatched(before, events, handled), stepped_all(handled, bounds, moved)]
        dispatched(before, events, handled) && stepped_all(handled, bounds, moved) && resolved(
            moved,
            after,
            contacts,
        )
}

/// Split law in the world: for every hit of the collision phase, the
/// asteroid and the bullet are both marked, so neither is kept; in their
/// place come, for an asteroid of size above one, exactly two asteroids one
/// size smaller, and for every size `size * 4 - 2` pieces of debris.
pub proof fn lemma_hit_law(s: Seq<Entity>, after: Seq<Entity>, contacts: Seq<Contact>, h: int)
    requires
        all_wf(s),
        s.len() <= usize::MAX,
        resolved(s, after, contacts),
        0 <= h < full_scan(s).1.len(),
    ensures
        ({
            let st = full_scan(s);
            let hit = st.1[h];
            let size = hit_size(s, hit);
            let kept = unmarked_before(st.0, s.len() as int);
            let block = after.subrange(
                kept + spawned_before(s, st.1, h),
                kept + spawned_before(s, st.1, h + 1),
            );
            &&& s[hit.0 as int].kind is Asteroid
            &&& s[hit.1 as int].kind is Bullet
            &&& st.0[hit.0 as int] && st.0[hit.1 as int]
            &&& 1 <= size <= 3
            &&& block.len() == child_count(size as int) + debris_count(size as int)
            &&& size > 1 ==> block[0].kind == (EntityKind::Asteroid { size: (size - 1) as usize })
                && block[1].kind == (EntityKind::Asteroid { size: (size - 1) as usize })
            &&& forall|m: int|
                child_count(size as int) <= m < block.len() ==> (#[trigger] block[m]).kind == (
                EntityKind::Debris { ttl: crate::shapes::DEBRIS_TTL })
        }),
{
    let st = full_scan(s);
    lemma_scan_ok(s, s.len() as int, 0);
    let hit = st.1[h];
    assert(s[hit.0 as int].wf());
    let size = hit_size(s, hit);
    let kept = unmarked_before(st.0, s.len() as int);
    let block = after.subrange(
        kept + spawned_before(s, st.1, h),
        kept + spawned_before(s, st.1, h + 1),
    );
    assert(hits_ok(s, st.1)) by {
        assert forall|k: int| 0 <= k < st.1.len() implies {
            let hk = #[trigger] st.1[k];
            &&& hk.0 < s.len()
            &&& hk.1 < s.len()
            &&& s[hk.0 as int].kind is Asteroid
            &&& s[hk.1 as int].kind is Bullet
            &&& 1 <= hit_size(s, hk) <= 3
        } by {
            assert(s[st.1[k].0 as int].wf());
        }
    }
    lemma_spawned_before_mono(s, st.1, h, h + 1);
    lemma_spawned_before_mono(s, st.1, 0, h);
    lemma_spawned_before_mono(s, st.1, h + 1, st.1.len() as int);
    lemma_unmarked_before_bounds(st.0, s.len() as int);
    crate::shapes::lemma_split_law(
        block,
        size,
        s[hit.0 as int].body,
        s[hit.1 as int].body.rotation as int,
    );
}

impl World {
    pub open spec fn wf(&self) -> bool {
        all_wf(self.entities@)
    }

    /// Input phase: hands every event to every entity, then appends all the
    /// bullets fired, so that new bullets see none of this batch of events.
    pub fn dispatch_events(&mut self, events: &Vec<InputEvent>)
        requires
            old(self).wf(),
        ensures
            final(self).wf(),
            dispatched(old(self).entities@, events@, final(self).entities@),
    {
        let ghost before = self.entities@;
        let n = self.entities.len();
        let mut pending: Vec<Entity> = Vec::new();
        let mut e: usize = 0;
        while e < events.len()
            invariant
                n == before.len(),
                self.entities@.len() == n,
                all_wf(self.entities@),
                e <= events@.len(),
                forall|i: int|
                    0 <= i < n ==> {
                        &&& (#[trigger] self.entities@[i]).body == body_after_events(
                            before[i].kind,
                            before[i].body,
                            events@.subrange(0, e as int),
                        )
                        &&& self.entities@[i].kind == before[i].kind
                        &&& self.entities@[i].wrap == before[i].wrap
                        &&& self.entities@[i].sprite_verts == before[i].sprite_verts
                        &&& self.entities@[i].bounding == before[i].bounding
                    },
                pending@.len() == firers(before, events@.subrange(0, e as int)).len(),
                forall|k: int|
                    0 <= k < pending@.len() ==> is_bullet_from(
                        #[trigger] pending@[k],
                        firers(before, events@.subrange(0, e as int))[k],
                    ),
                all_wf(pending@),
            decreases events@.len() - e,
        {
            let ghost done = events@.subrange(0, e as int);
            let ghost shots = firers(before, done);
            let ev = &events[e];
            let mut i: usize = 0;
            while i < n
                invariant
                    n == before.len(),
                    self.entities@.len() == n,
                    all_wf(self.entities@),
                    e < events@.len(),
                    *ev == events@[e as int],
                    done == events@.subrange(0, e as int),
                    shots == firers(before, done),
                    i <= n,
                    forall|k: int|
                        0 <= k < n ==> {
                            &&& (#[trigger] self.entities@[k]).body == if k < i {
                                body_after_event(
                                    before[k].kind,
                                    body_after_events(before[k].kind, before[k].body, done),
                                    *ev,
                                )
                            } else {
                                body_after_events(before[k].kind, before[k].body, done)
                            }
                            &&& self.entities@[k].kind == before[k].kind
                            &&& self.entities@[k].wrap == before[k].wrap
                            &&& self.entities@[k].sprite_verts == before[k].sprite_verts
                            &&& self.entities@[k].bounding == before[k].bounding
                        },
                    pending@.len() == shots.len() + firers_on(before, done, *ev, i as int).len(),
                    forall|k: int|
                        0 <= k < pending@.len() ==> is_bullet_from(
                            #[trigger] pending@[k],
                            (shots + firers_on(before, done, *ev, i as int))[k],
                        ),
                    all_wf(pending@),
                decreases n - i,
            {
                let ghost old_pending = pending@;
                let mut spawned = self.entities[i].handle_event(ev);
                pending.append(&mut spawned);
                proof {
                    let prev = firers_on(before, done, *ev, i as int);
                    let next = firers_on(before, done, *ev, i as int + 1);
                    if fires(before[i as int].kind, *ev) {
                        assert(next == prev.push(
                            body_after_events(before[i as int].kind, before[i as int].body, done),
                        ));
                        assert(shots + next == (shots + prev).push(
                            body_after_events(before[i as int].kind, before[i as int].body, done),
                        ));
                    } else {
                        assert(next == prev);
                    }
                    assert forall|k: int|
                        0 <= k < pending@.len() implies is_bullet_from(
                        #[trigger] pending@[k],
                        (shots + next)[k],
                    ) by {
                        if k < old_pending.len() {
                            assert(pending@[k] == old_pending[k]);
                        }
                    }
                }
                i += 1;
            }
            proof {
                let step = events@.subrange(0, e as int + 1);
                assert(step.drop_last() =~= done);
                assert(step.last() == *ev);
                assert(firers(before, step) == shots + firers_on(before, done, *ev, n as int));
            }
            e += 1;
        }
        proof {
            assert(events@.subrange(0, events@.len() as int) =~= events@);
        }
        self.entities.append(&mut pending);
    }

    /// Step phase: advances every entity by one tick and drops those whose
    /// time to live ran out, keeping the order of the rest.
    pub fn step_all(&mut self, bounds: Vec2)
        requires
            old(self).wf(),
            bounds_ok(bounds),
        ensures
            final(self).wf(),
            stepped_all(old(self).entities@, bounds, final(self).entities@),
    {
        let ghost before = self.entities@;
        let n = self.entities.len();
        let mut kept: Vec<Entity> = Vec::new();
        let mut k: usize = 0;
        while k < n
            invariant
                n == before.len(),
                k <= n,
                self.entities@ == before.subrange(k as int, n as int),
                all_wf(before),
                bounds_ok(bounds),
                kept@.len() == kept_before(before, k as int),
                forall|i: int|
                    0 <= i < k && (countdown(before[i].kind) is Some) ==> entity_stepped(
                        before[i],
                        #[trigger] kept@[kept_before(before, i)],
                        bounds,
                    ),
                all_wf(kept@),
            decreases n - k,
        {
            let mut e = self.entities.remove(0);
            assert(e == before[k as int]);
            let ghost old_kept = kept@;
            let result = e.step(bounds);
            match result {
                StepResult::Keep => {
                    kept.push(e);
                },
                StepResult::RemoveEntity => {},
            }
            proof {
                assert forall|i: int|
                    0 <= i < k + 1 && (countdown(before[i].kind) is Some) implies entity_stepped(
                    before[i],
                    #[trigger] kept@[kept_before(before, i)],
                    bounds,
                ) by {
                    if i < k {
                        lemma_kept_before_bounds(before, i);
                        lemma_kept_before_grows(before, i, k as int);
                        assert(kept@[kept_before(before, i)] == old_kept[kept_before(before, i)]);
                    }
                }
                assert(self.entities@ =~= before.subrange(k as int + 1, n as int));
            }
            k += 1;
        }
        self.entities = kept;
    }

    /// Collision phase: scans all pairs, then removes every bullet and
    /// asteroid that hit each other and appends what the asteroids break
    /// into. Returns the contacts that involve a player.
    pub fn resolve_collisions(&mut self) -> (r: Vec<Contact>)
        requires
            old(self).wf(),
        ensures
            final(self).wf(),
            resolved(old(self).entities@, final(self).entities@, r@),
    {
        let ghost s = self.entities@;
        let (marked, hits, contacts) = scan_collisions(&self.entities);
        let ghost st = full_scan(s);
        proof {
            assert forall|h: int| 0 <= h < hits@.len() implies {
                let hit = #[trigger] hits@[h];
                &&& hit.0 < s.len()
                &&& hit.1 < s.len()
                &&& s[hit.0 as int].kind is Asteroid
                &&& s[hit.1 as int].kind is Bullet
                &&& 1 <= hit_size(s, hit) <= 3
            } by {
                let hit = hits@[h];
                assert(st.1[h] == hit);
                assert(s[hit.0 as int].wf());
            }
        }
        let mut spawned = spawn_from_hits(&self.entities, &hits);
        let ghost spawned_view = spawned@;
        let mut rest: Vec<Entity> = Vec::new();
        std::mem::swap(&mut rest, &mut self.entities);
        let mut kept = keep_unmarked(rest, &marked);
        let ghost kept_view = kept@;
        kept.append(&mut spawned);
        self.entities = kept;
        proof {
            let after = self.entities@;
            let kn = kept_view.len() as int;
            assert(after == kept_view + spawned_view);
            lemma_spawned_before_mono(s, st.1, 0, st.1.len() as int);
            assert forall|i: int|
                0 <= i < s.len() && !st.0[i] implies after[unmarked_before(st.0, i)]
                == #[trigger] s[i] by {
                lemma_unmarked_before_bounds(st.0, i);
                lemma_unmarked_before_grows(st.0, i, s.len() as int);
            }
            assert forall|h2: int|
                0 <= h2 < st.1.len() implies is_split_of(
                after.subrange(
                    kn + spawned_before(s, st.1, h2),
                    kn + spawned_before(s, st.1, h2 + 1),
                ),
                hit_size(s, #[trigger] st.1[h2]),
                s[st.1[h2].0 as int].body,
                s[st.1[h2].1 as int].body.rotation as int,
            ) by {
                lemma_spawned_before_mono(s, st.1, h2, h2 + 1);
                lemma_spawned_before_mono(s, st.1, 0, h2);
                lemma_spawned_before_mono(s, st.1, h2 + 1, st.1.len() as int);
                assert(after.subrange(
                    kn + spawned_before(s, st.1, h2),
                    kn + spawned_before(s, st.1, h2 + 1),
                ) =~= spawned_view.subrange(
                    spawned_before(s, st.1, h2),
                    spawned_before(s, st.1, h2 + 1),
                ));
            }
            assert forall|i: int| 0 <= i < after.len() implies (#[trigger] after[i]).wf() by {
                if i < kn {
                    assert(after[i] == kept_view[i]);
                } else {
                    assert(after[i] == spawned_view[i - kn]);
                }
            }
        }
        contacts
    }

    /// A world holding `entities`, in that order.
    pub fn new(entities: Vec<Entity>) -> (r: World)
        ensures
            r.entities@ == entities@,
    {
        World { entities }
    }

    /// One tick: hands `events` to the entities, advances them, resolves
    /// collisions. Returns the contacts that involve a player.
    pub fn tick(&mut self, events: &Vec<InputEvent>, bounds: Vec2) -> (r: Vec<Contact>)
        requires
            old(self).wf(),
            bounds_ok(bounds),
        ensures
            final(self).wf(),
            ticked(old(self).entities@, events@, bounds, final(self).entities@, r@),
    {
        let ghost before = self.entities@;
        self.dispatch_events(events);
        let ghost handled = self.entities@;
        self.step_all(bounds);
        let ghost moved = self.entities@;
        let contacts = self.resolve_collisions();
        proof {
            assert(dispatched(before, events@, handled) && stepped_all(handled, bounds, moved));
        }
        contacts
    }
}

} // verus!
