use vstd::prelude::*;
use crate::hitboxes::{Point, are_hitboxes_colliding, colliding, lemma_colliding_symmetric};
use crate::characters::{Character, CharacterInfo, EnemyTypes, SummonTypes, table_wf, COLLECTIBLE_TYPES};
use crate::projectiles::{Projectile, ProjectileInfo, ProjectileTypes};
use crate::collectibles::Collectible;
use crate::registry::PositionRegistry;

verus! {

/// `h - d`, held within the range of `i32`.
pub open spec fn health_after(h: int, d: int) -> i32 {
    if h - d < i32::MIN {
        i32::MIN
    } else if h - d > i32::MAX {
        i32::MAX
    } else {
        (h - d) as i32
    }
}

/// More than `invulnerability` milliseconds have passed since `last_damage`.
pub open spec fn vulnerable(last_damage: u64, invulnerability: u64, now: u64) -> bool {
    now as int - last_damage as int > invulnerability as int
}

/// `c` after a hit of `damage` at `now`: the hit counts only outside the
/// invulnerability window, and then restarts it.
pub open spec fn damaged(c: Character, invulnerability: u64, damage: i32, now: u64) -> Character {
    if vulnerable(c.last_damage, invulnerability, now) {
        Character { health: health_after(c.health as int, damage as int), last_damage: now, ..c }
    } else {
        c
    }
}

/// `c`, of type `info`, after a projectile of type `pi` passed at `at`.
pub open spec fn struck(
    c: Character,
    info: CharacterInfo,
    at: Point,
    pi: ProjectileInfo,
    now: u64,
) -> Character {
    if colliding(pi.hitbox, at, info.hitbox, c.position) {
        damaged(c, info.invulnarability_time, pi.damage, now)
    } else {
        c
    }
}

/// The projectile `p` of type `pi` touches one of the first `n` of `cs`.
pub open spec fn hits_before(
    p: Projectile,
    pi: ProjectileInfo,
    cs: Seq<Character>,
    ctypes: Seq<CharacterInfo>,
    n: int,
) -> bool {
    exists|i: int|
        0 <= i < n && i < cs.len() && colliding(
            pi.hitbox,
            p.position,
            ctypes[cs[i].type_index as int].hitbox,
            #[trigger] cs[i].position,
        )
}

/// `c`, the character at index `i` of its faction `faction`, after the
/// projectiles of `ps` fired by the hostiles (`from_enemy`) or by the
/// allies passed, in order. A piercing projectile reaches every character
/// that it touches; any other is used up by the first character of the
/// faction that it touches, whether or not that hit lands.
pub open spec fn after_projectiles(
    c: Character,
    ctypes: Seq<CharacterInfo>,
    ps: Seq<Projectile>,
    ptypes: Seq<ProjectileInfo>,
    from_enemy: bool,
    now: u64,
    faction: Seq<Character>,
    i: int,
) -> Character
    decreases ps.len(),
{
    if ps.len() == 0 {
        c
    } else {
        let c1 = after_projectiles(c, ctypes, ps.drop_last(), ptypes, from_enemy, now, faction, i);
        let p = ps.last();
        let pi = ptypes[p.projectile_types_index as int];
        if pi.enemy == from_enemy && (pi.piercing || !hits_before(p, pi, faction, ctypes, i)) {
            struck(c1, ctypes[c.type_index as int], p.position, pi, now)
        } else {
            c1
        }
    }
}

/// `c` after contact, in order, with each character of the other faction
/// whose hitbox touches its own.
pub open spec fn after_contacts(
    c: Character,
    ctypes: Seq<CharacterInfo>,
    others: Seq<Character>,
    otypes: Seq<CharacterInfo>,
    now: u64,
) -> Character
    decreases others.len(),
{
    if others.len() == 0 {
        c
    } else {
        let c1 = after_contacts(c, ctypes, others.drop_last(), otypes, now);
        let o = others.last();
        let info = ctypes[c.type_index as int];
        let oi = otypes[o.type_index as int];
        if colliding(info.hitbox, c.position, oi.hitbox, o.position) {
            damaged(c1, info.invulnarability_time, oi.contact_damange, now)
        } else {
            c1
        }
    }
}

/// The characters of `cs` after the projectiles of `ps` and the contacts
/// with `others`.
pub open spec fn damaged_faction(
    cs: Seq<Character>,
    ctypes: Seq<CharacterInfo>,
    ps: Seq<Projectile>,
    ptypes: Seq<ProjectileInfo>,
    from_enemy: bool,
    others: Seq<Character>,
    otypes: Seq<CharacterInfo>,
    now: u64,
) -> Seq<Character> {
    Seq::new(
        cs.len(),
        |i: int|
            after_contacts(
                after_projectiles(cs[i], ctypes, ps, ptypes, from_enemy, now, cs, i),
                ctypes,
                others,
                otypes,
                now,
            ),
    )
}

/// The projectile `p` of type `pi` touches one of `cs`.
pub open spec fn hits_any(
    p: Projectile,
    pi: ProjectileInfo,
    cs: Seq<Character>,
    ctypes: Seq<CharacterInfo>,
) -> bool {
    hits_before(p, pi, cs, ctypes, cs.len() as int)
}

/// A projectile is removed when it is not piercing and touches a character
/// of the faction that it hurts.
pub open spec fn removed(
    p: Projectile,
    ptypes: Seq<ProjectileInfo>,
    enemies: Seq<Character>,
    etypes: Seq<CharacterInfo>,
    summons: Seq<Character>,
    stypes: Seq<CharacterInfo>,
) -> bool {
    let pi = ptypes[p.projectile_types_index as int];
    !pi.piercing && if pi.enemy {
        hits_any(p, pi, summons, stypes)
    } else {
        hits_any(p, pi, enemies, etypes)
    }
}

/// The projectiles of `ps` that are not removed, in order.
pub open spec fn surviving(
    ps: Seq<Projectile>,
    ptypes: Seq<ProjectileInfo>,
    enemies: Seq<Character>,
    etypes: Seq<CharacterInfo>,
    summons: Seq<Character>,
    stypes: Seq<CharacterInfo>,
) -> Seq<Projectile>
    decreases ps.len(),
{
    if ps.len() == 0 {
        Seq::empty()
    } else {
        let rest = surviving(ps.drop_last(), ptypes, enemies, etypes, summons, stypes);
        if removed(ps.last(), ptypes, enemies, etypes, summons, stypes) {
            rest
        } else {
            rest.push(ps.last())
        }
    }
}

/// Every character's type is a row of its table.
pub open spec fn types_valid(cs: Seq<Character>, ctypes: Seq<CharacterInfo>) -> bool {
    forall|i: int| 0 <= i < cs.len() ==> (#[trigger] cs[i]).type_index < ctypes.len()
}

/// Every projectile's type is a row of the projectile table.
pub open spec fn projectile_types_valid(ps: Seq<Projectile>, ptypes: Seq<ProjectileInfo>) -> bool {
    forall|i: int| 0 <= i < ps.len() ==> (#[trigger] ps[i]).projectile_types_index < ptypes.len()
}

/// `d` differs from `c` at most in its health and its last damage.
pub open spec fn only_wounded(c: Character, d: Character) -> bool {
    d == Character { health: d.health, last_damage: d.last_damage, ..c }
}

proof fn lemma_projectiles_frame(
    c: Character,
    ctypes: Seq<CharacterInfo>,
    ps: Seq<Projectile>,
    ptypes: Seq<ProjectileInfo>,
    from_enemy: bool,
    now: u64,
    faction: Seq<Character>,
    i: int,
)
    ensures
        after_projectiles(c, ctypes, ps, ptypes, from_enemy, now, faction, i).position == c.position,
        after_projectiles(c, ctypes, ps, ptypes, from_enemy, now, faction, i).type_index
            == c.type_index,
        only_wounded(c, after_projectiles(c, ctypes, ps, ptypes, from_enemy, now, faction, i)),
    decreases ps.len(),
{
    if ps.len() > 0 {
        lemma_projectiles_frame(c, ctypes, ps.drop_last(), ptypes, from_enemy, now, faction, i);
    }
}

proof fn lemma_contacts_frame(
    c: Character,
    ctypes: Seq<CharacterInfo>,
    others: Seq<Character>,
    otypes: Seq<CharacterInfo>,
    now: u64,
)
    ensures
        after_contacts(c, ctypes, others, otypes, now).position == c.position,
        after_contacts(c, ctypes, others, otypes, now).type_index == c.type_index,
        only_wounded(c, after_contacts(c, ctypes, others, otypes, now)),
    decreases others.len(),
{
    if others.len() > 0 {
        lemma_contacts_frame(c, ctypes, others.drop_last(), otypes, now);
    }
}

/// Subtracts `damage` from the character's health and restarts its
/// invulnerability window, unless the window since its last damage is still
/// open. Returns whether the damage applied.
pub fn take_damage(character: &mut Character, invulnerability: u64, damage: i32, now: u64) -> (r:
    bool)
    ensures
        r == vulnerable(old(character).last_damage, invulnerability, now),
        *final(character) == damaged(*old(character), invulnerability, damage, now),
{
    if now >= character.last_damage && now - character.last_damage > invulnerability {
        character.last_damage = now;
        let h = character.health as i64 - damage as i64;
        character.health = if h < i32::MIN as i64 {
            i32::MIN
        } else if h > i32::MAX as i64 {
            i32::MAX
        } else {
            h as i32
        };
        true
    } else {
        false
    }
}

/// Applies a projectile to a character that it may hit. Returns whether the
/// projectile must be removed: it hit, and it is not piercing.
pub fn projectile_hit_character(
    projectile_info: &ProjectileInfo,
    projectile_position: &Point,
    character_info: &CharacterInfo,
    character: &mut Character,
    now: u64,
) -> (despawn: bool)
    ensures
        despawn == (colliding(
            projectile_info.hitbox,
            *projectile_position,
            character_info.hitbox,
            old(character).position,
        ) && !projectile_info.piercing),
        *final(character) == struck(
            *old(character),
            *character_info,
            *projectile_position,
            *projectile_info,
            now,
        ),
{
    if are_hitboxes_colliding(
        &projectile_info.hitbox,
        projectile_position,
        &character_info.hitbox,
        &character.position,
    ) {
        take_damage(
            character,
            character_info.invulnarability_time,
            projectile_info.damage,
            now,
        );
        !projectile_info.piercing
    } else {
        false
    }
}

/// Resolves one tick of damage. A piercing projectile damages every
/// character of the faction that it hurts whose hitbox it touches; any other
/// projectile is used up by the first such character, in faction order, and
/// reaches no character after it. Then each touching
/// ally and hostile deal each other their contact damage. Every hit respects
/// the invulnerability window of the character hit. Returns the projectiles
/// that remain: those that are piercing or touched nobody they hurt.
#[verifier::rlimit(50)]
pub fn deal_damage(
    enemies: &mut Vec<Character>,
    summons: &mut Vec<Character>,
    projectiles: &Vec<Projectile>,
    projectile_types: &ProjectileTypes,
    summon_types: &SummonTypes,
    enemy_types: &EnemyTypes,
    now: u64,
) -> (r: Vec<Projectile>)
    requires
        types_valid(old(enemies)@, enemy_types.0@),
        types_valid(old(summons)@, summon_types.0@),
        projectile_types_valid(projectiles@, projectile_types.0@),
    ensures
        final(enemies)@.len() == old(enemies)@.len(),
        final(summons)@.len() == old(summons)@.len(),
        forall|i: int|
            0 <= i < old(enemies)@.len() ==> #[trigger] final(enemies)@[i] == after_contacts(
                after_projectiles(
                    old(enemies)@[i],
                    enemy_types.0@,
                    projectiles@,
                    projectile_types.0@,
                    false,
                    now,
                    old(enemies)@,
                    i,
                ),
                enemy_types.0@,
                old(summons)@,
                summon_types.0@,
                now,
            ),
        forall|i: int|
            0 <= i < old(summons)@.len() ==> #[trigger] final(summons)@[i] == after_contacts(
                after_projectiles(
                    old(summons)@[i],
                    summon_types.0@,
                    projectiles@,
                    projectile_types.0@,
                    true,
                    now,
                    old(summons)@,
                    i,
                ),
                summon_types.0@,
                old(enemies)@,
                enemy_types.0@,
                now,
            ),
        r@ == surviving(
            projectiles@,
            projectile_types.0@,
            old(enemies)@,
            enemy_types.0@,
            old(summons)@,
            summon_types.0@,
        ),
        forall|i: int|
            0 <= i < old(enemies)@.len() ==> only_wounded(old(enemies)@[i], #[trigger] final(enemies)@[i]),
        forall|i: int|
            0 <= i < old(summons)@.len() ==> only_wounded(old(summons)@[i], #[trigger] final(summons)@[i]),
        forall|i: int| 0 <= i < r@.len() ==> projectiles@.contains(#[trigger] r@[i]),
{
    let ghost old_e = enemies@;
    let ghost old_s = summons@;
    let ghost ps = projectiles@;
    let ghost pt = projectile_types.0@;
    let ghost et = enemy_types.0@;
    let ghost st = summon_types.0@;
    let n_e = enemies.len();
    let n_s = summons.len();
    let mut kept: Vec<Projectile> = Vec::new();
    let mut j: usize = 0;
    while j < projectiles.len()
        invariant
            j <= ps.len(),
            ps == projectiles@,
            pt == projectile_types.0@,
            et == enemy_types.0@,
            st == summon_types.0@,
            types_valid(old_e, et),
            types_valid(old_s, st),
            projectile_types_valid(ps, pt),
            enemies@.len() == n_e == old_e.len(),
            summons@.len() == n_s == old_s.len(),
            forall|i: int|
                0 <= i < n_e ==> #[trigger] enemies@[i] == after_projectiles(
                    old_e[i],
                    et,
                    ps.subrange(0, j as int),
                    pt,
                    false,
                    now,
                    old_e,
                    i,
                ),
            forall|i: int|
                0 <= i < n_s ==> #[trigger] summons@[i] == after_projectiles(
                    old_s[i],
                    st,
                    ps.subrange(0, j as int),
                    pt,
                    true,
                    now,
                    old_s,
                    i,
                ),
            kept@ == surviving(ps.subrange(0, j as int), pt, old_e, et, old_s, st),
        decreases ps.len() - j,
    {
        let p = projectiles[j];
        let pi = &projectile_types.0[p.projectile_types_index];
        let ghost pre = ps.subrange(0, j as int);
        let ghost next = ps.subrange(0, j as int + 1);
        proof {
            assert(next.drop_last() =~= pre);
            assert(next.last() == p);
        }
        let mut despawn = false;
        if pi.enemy {
            let mut k: usize = 0;
            while k < n_s
                invariant
                    k <= n_s == summons@.len() == old_s.len(),
                    st == summon_types.0@,
                    types_valid(old_s, st),
                    *pi == pt[p.projectile_types_index as int],
                    pi.enemy,
                    next.len() == pre.len() + 1,
                    next.drop_last() == pre,
                    next.last() == p,
                    forall|i: int|
                        0 <= i < k ==> #[trigger] summons@[i] == after_projectiles(
                            old_s[i],
                            st,
                            next,
                            pt,
                            true,
                            now,
                            old_s,
                            i,
                        ),
                    forall|i: int|
                        k <= i < n_s ==> #[trigger] summons@[i] == after_projectiles(
                            old_s[i],
                            st,
                            pre,
                            pt,
                            true,
                            now,
                            old_s,
                            i,
                        ),
                    despawn == (!pi.piercing && hits_before(p, *pi, old_s, st, k as int)),
                decreases n_s - k,
            {
                let mut c = summons[k];
                proof {
                    lemma_projectiles_frame(old_s[k as int], st, pre, pt, true, now, old_s, k as int);
                }
                let info = &summon_types.0[c.type_index];
                if !despawn {
                    let hit = projectile_hit_character(pi, &p.position, info, &mut c, now);
                    if hit {
                        despawn = true;
                    }
                }
                summons.set(k, c);
                k += 1;
            }
            proof {
                assert forall|i: int| 0 <= i < n_e implies #[trigger] enemies@[i]
                    == after_projectiles(old_e[i], et, next, pt, false, now, old_e, i) by {}
            }
        } else {
            let mut k: usize = 0;
            while k < n_e
                invariant
                    k <= n_e == enemies@.len() == old_e.len(),
                    et == enemy_types.0@,
                    types_valid(old_e, et),
                    *pi == pt[p.projectile_types_index as int],
                    !pi.enemy,
                    next.len() == pre.len() + 1,
                    next.drop_last() == pre,
                    next.last() == p,
                    forall|i: int|
                        0 <= i < k ==> #[trigger] enemies@[i] == after_projectiles(
                            old_e[i],
                            et,
                            next,
                            pt,
                            false,
                            now,
                            old_e,
                            i,
                        ),
                    forall|i: int|
                        k <= i < n_e ==> #[trigger] enemies@[i] == after_projectiles(
                            old_e[i],
                            et,
                            pre,
                            pt,
                            false,
                            now,
                            old_e,
                            i,
                        ),
                    despawn == (!pi.piercing && hits_before(p, *pi, old_e, et, k as int)),
                decreases n_e - k,
            {
                let mut c = enemies[k];
                proof {
                    lemma_projectiles_frame(old_e[k as int], et, pre, pt, false, now, old_e, k as int);
                }
                let info = &enemy_types.0[c.type_index];
                if !despawn {
                    let hit = projectile_hit_character(pi, &p.position, info, &mut c, now);
                    if hit {
                        despawn = true;
                    }
                }
                enemies.set(k, c);
                k += 1;
            }
            proof {
                assert forall|i: int| 0 <= i < n_s implies #[trigger] summons@[i]
                    == after_projectiles(old_s[i], st, next, pt, true, now, old_s, i) by {}
            }
        }
        if !despawn {
            kept.push(p);
        }
        j += 1;
    }
    proof {
        assert(ps.subrange(0, ps.len() as int) =~= ps);
    }
    let ghost ge = enemies@;
    let ghost gs = summons@;
    proof {
        assert forall|i: int| 0 <= i < n_e implies (#[trigger] ge[i]).position == old_e[i].position
            && ge[i].type_index == old_e[i].type_index by {
            lemma_projectiles_frame(old_e[i], et, ps, pt, false, now, old_e, i);
        }
        assert forall|i: int| 0 <= i < n_s implies (#[trigger] gs[i]).position == old_s[i].position
            && gs[i].type_index == old_s[i].type_index by {
            lemma_projectiles_frame(old_s[i], st, ps, pt, true, now, old_s, i);
        }
    }
    let mut s: usize = 0;
    while s < n_s
        invariant
            s <= n_s == summons@.len() == old_s.len() == gs.len(),
            enemies@.len() == n_e == old_e.len() == ge.len(),
            et == enemy_types.0@,
            st == summon_types.0@,
            types_valid(old_e, et),
            types_valid(old_s, st),
            forall|i: int|
                0 <= i < n_e ==> (#[trigger] ge[i]).position == old_e[i].position
                    && ge[i].type_index == old_e[i].type_index,
            forall|i: int|
                0 <= i < n_s ==> (#[trigger] gs[i]).position == old_s[i].position
                    && gs[i].type_index == old_s[i].type_index,
            forall|i: int|
                0 <= i < n_e ==> #[trigger] enemies@[i] == after_contacts(
                    ge[i],
                    et,
                    old_s.subrange(0, s as int),
                    st,
                    now,
                ),
            forall|i: int|
                0 <= i < s ==> #[trigger] summons@[i] == after_contacts(gs[i], st, old_e, et, now),
            forall|i: int| s <= i < n_s ==> #[trigger] summons@[i] == gs[i],
        decreases n_s - s,
    {
        let mut c = summons[s];
        let s_info = &summon_types.0[c.type_index];
        let ghost pre = old_s.subrange(0, s as int);
        let ghost next = old_s.subrange(0, s as int + 1);
        proof {
            assert(next.drop_last() =~= pre);
            assert(old_e.subrange(0, 0) =~= Seq::<Character>::empty());
        }
        let mut e: usize = 0;
        while e < n_e
            invariant
                e <= n_e == enemies@.len() == old_e.len() == ge.len(),
                s < n_s == old_s.len() == gs.len(),
                et == enemy_types.0@,
                st == summon_types.0@,
                types_valid(old_e, et),
                types_valid(old_s, st),
                next.len() == pre.len() + 1,
                next.drop_last() == pre,
                next.last() == old_s[s as int],
                *s_info == st[old_s[s as int].type_index as int],
                c.position == old_s[s as int].position,
                c.type_index == old_s[s as int].type_index,
                gs[s as int].type_index == old_s[s as int].type_index,
                forall|i: int|
                    0 <= i < n_e ==> (#[trigger] ge[i]).position == old_e[i].position
                        && ge[i].type_index == old_e[i].type_index,
                c == after_contacts(gs[s as int], st, old_e.subrange(0, e as int), et, now),
                forall|i: int|
                    0 <= i < e ==> #[trigger] enemies@[i] == after_contacts(ge[i], et, next, st, now),
                forall|i: int|
                    e <= i < n_e ==> #[trigger] enemies@[i] == after_contacts(ge[i], et, pre, st, now),
            decreases n_e - e,
        {
            let mut en = enemies[e];
            proof {
                lemma_contacts_frame(ge[e as int], et, pre, st, now);
            }
            let e_info = &enemy_types.0[en.type_index];
            proof {
                lemma_contacts_frame(gs[s as int], st, old_e.subrange(0, e as int), et, now);
                assert(old_e.subrange(0, e as int + 1).drop_last() =~= old_e.subrange(0, e as int));
                assert(old_e.subrange(0, e as int + 1).last() == old_e[e as int]);
                lemma_colliding_symmetric(s_info.hitbox, c.position, e_info.hitbox, en.position);
            }
            if are_hitboxes_colliding(&s_info.hitbox, &c.position, &e_info.hitbox, &en.position) {
                take_damage(&mut c, s_info.invulnarability_time, e_info.contact_damange, now);
                take_damage(&mut en, e_info.invulnarability_time, s_info.contact_damange, now);
                enemies.set(e, en);
            }
            e += 1;
        }
        proof {
            assert(old_e.subrange(0, n_e as int) =~= old_e);
        }
        summons.set(s, c);
        s += 1;
    }
    proof {
        assert(old_s.subrange(0, n_s as int) =~= old_s);
        assert forall|i: int| 0 <= i < n_e implies only_wounded(old_e[i], #[trigger] enemies@[i]) by {
            lemma_projectiles_frame(old_e[i], et, ps, pt, false, now, old_e, i);
            lemma_contacts_frame(ge[i], et, old_s, st, now);
        }
        assert forall|i: int| 0 <= i < n_s implies only_wounded(old_s[i], #[trigger] summons@[i]) by {
            lemma_projectiles_frame(old_s[i], st, ps, pt, true, now, old_s, i);
            lemma_contacts_frame(gs[i], st, old_e, et, now);
        }
        lemma_surviving_from(ps, pt, old_e, et, old_s, st);
    }
    kept
}

proof fn lemma_surviving_from(
    ps: Seq<Projectile>,
    ptypes: Seq<ProjectileInfo>,
    enemies: Seq<Character>,
    etypes: Seq<CharacterInfo>,
    summons: Seq<Character>,
    stypes: Seq<CharacterInfo>,
)
    ensures
        forall|i: int|
            0 <= i < surviving(ps, ptypes, enemies, etypes, summons, stypes).len() ==> ps.contains(
                #[trigger] surviving(ps, ptypes, enemies, etypes, summons, stypes)[i],
            ),
    decreases ps.len(),
{
    if ps.len() > 0 {
        let pre = ps.drop_last();
        lemma_surviving_from(pre, ptypes, enemies, etypes, summons, stypes);
        let r = surviving(ps, ptypes, enemies, etypes, summons, stypes);
        let rp = surviving(pre, ptypes, enemies, etypes, summons, stypes);
        assert forall|i: int| 0 <= i < r.len() implies ps.contains(#[trigger] r[i]) by {
            if i < rp.len() {
                assert(r[i] == rp[i]);
                let k = choose|k: int| 0 <= k < pre.len() && pre[k] == rp[i];
                assert(ps[k] == pre[k]);
            } else {
                assert(r[i] == ps[ps.len() - 1]);
            }
        }
    }
}

/// Once a hit lands at `t`, a further hit at any `t2` up to
/// `t + invulnerability` leaves the character as that first hit left it.
pub proof fn lemma_invulnerability_window(
    c: Character,
    invulnerability: u64,
    first: i32,
    t: u64,
    second: i32,
    t2: u64,
)
    requires
        vulnerable(c.last_damage, invulnerability, t),
        t <= t2 <= t + invulnerability,
    ensures
        damaged(damaged(c, invulnerability, first, t), invulnerability, second, t2) == damaged(
            c,
            invulnerability,
            first,
            t,
        ),
{
}

/// The characters of `cs` whose health is above zero, in order.
pub open spec fn alive(cs: Seq<Character>) -> Seq<Character>
    decreases cs.len(),
{
    if cs.len() == 0 {
        Seq::empty()
    } else if cs.last().health > 0 {
        alive(cs.drop_last()).push(cs.last())
    } else {
        alive(cs.drop_last())
    }
}

proof fn lemma_alive_from(cs: Seq<Character>)
    ensures
        forall|j: int|
            0 <= j < alive(cs).len() ==> exists|i: int|
                0 <= i < cs.len() && cs[i] == #[trigger] alive(cs)[j] && cs[i].health > 0,
    decreases cs.len(),
{
    if cs.len() > 0 {
        let pre = cs.drop_last();
        lemma_alive_from(pre);
        let a = alive(cs);
        let ap = alive(pre);
        assert forall|j: int| 0 <= j < a.len() implies exists|i: int|
            0 <= i < cs.len() && cs[i] == #[trigger] a[j] && cs[i].health > 0 by {
            if j < ap.len() {
                assert(a[j] == ap[j]);
                let k = choose|k: int| 0 <= k < pre.len() && pre[k] == #[trigger] ap[j] && pre[k].health > 0;
                assert(cs[k] == pre[k]);
            } else {
                assert(a[j] == cs[cs.len() - 1]);
            }
        }
    }
}

/// Some character of `cs` with health at or below zero holds slot `k`.
pub open spec fn slot_of_dead(cs: Seq<Character>, k: int) -> bool {
    exists|i: int| 0 <= i < cs.len() && cs[i].health <= 0 && #[trigger] cs[i].position_index == k
}

/// The registry after freeing the slots of the dead characters of `cs`.
pub open spec fn freed(slots: Seq<Option<Point>>, cs: Seq<Character>) -> Seq<Option<Point>> {
    Seq::new(slots.len(), |k: int| if slot_of_dead(cs, k) { None } else { slots[k] })
}

/// Where a dead character's pickup lies: the position held in its slot, or
/// its own position when the slot is empty.
pub open spec fn drop_position(c: Character, slots: Seq<Option<Point>>) -> Point {
    if c.position_index < slots.len() && slots[c.position_index as int] is Some {
        slots[c.position_index as int]->Some_0
    } else {
        c.position
    }
}

/// The pickups that the dead hostiles of `cs` drop at their last known
/// positions in `slots`, in order.
pub open spec fn drops(cs: Seq<Character>, ctypes: Seq<CharacterInfo>, slots: Seq<Option<Point>>) -> Seq<Collectible>
    decreases cs.len(),
{
    if cs.len() == 0 {
        Seq::empty()
    } else {
        let rest = drops(cs.drop_last(), ctypes, slots);
        let c = cs.last();
        let info = ctypes[c.type_index as int];
        if c.health <= 0 && info.drop_collectible is Some && info.drop_hitbox is Some {
            rest.push(
                Collectible {
                    collectible_type: info.drop_collectible->Some_0,
                    hitbox: info.drop_hitbox->Some_0,
                    position: drop_position(c, slots),
                },
            )
        } else {
            rest
        }
    }
}

proof fn lemma_drops_typed(cs: Seq<Character>, ctypes: Seq<CharacterInfo>, slots: Seq<Option<Point>>)
    requires
        types_valid(cs, ctypes),
        table_wf(ctypes),
    ensures
        forall|i: int|
            0 <= i < drops(cs, ctypes, slots).len() ==> (#[trigger] drops(cs, ctypes, slots)[i]).collectible_type
                < COLLECTIBLE_TYPES,
    decreases cs.len(),
{
    if cs.len() > 0 {
        let pre = cs.drop_last();
        assert(types_valid(pre, ctypes));
        lemma_drops_typed(pre, ctypes, slots);
        let c = cs.last();
        assert(c.type_index < ctypes.len());
        assert(ctypes[c.type_index as int].wf());
        let d = drops(cs, ctypes, slots);
        let dp = drops(pre, ctypes, slots);
        assert forall|i: int| 0 <= i < d.len() implies (#[trigger] d[i]).collectible_type
            < COLLECTIBLE_TYPES by {
            if i < dp.len() {
                assert(d[i] == dp[i]);
            }
        }
    }
}

/// The pickups that the dead characters of `characters` drop, each at the
/// position held in its slot (its own position when the slot is empty).
fn dropped_pickups(
    characters: &Vec<Character>,
    positions: &PositionRegistry,
    types: &Vec<CharacterInfo>,
) -> (r: Vec<Collectible>)
    requires
        types_valid(characters@, types@),
        slots_valid(characters@, positions.0@),
    ensures
        r@ == drops(characters@, types@, positions.0@),
{
    let ghost cs = characters@;
    let ghost slots = positions.0@;
    let mut dropped: Vec<Collectible> = Vec::new();
    let mut i: usize = 0;
    while i < characters.len()
        invariant
            i <= cs.len(),
            cs == characters@,
            slots == positions.0@,
            types_valid(cs, types@),
            slots_valid(cs, slots),
            dropped@ == drops(cs.subrange(0, i as int), types@, slots),
        decreases cs.len() - i,
    {
        let c = characters[i];
        proof {
            let next = cs.subrange(0, i as int + 1);
            assert(next.drop_last() =~= cs.subrange(0, i as int));
            assert(next.last() == c);
        }
        if c.health <= 0 {
            let info = &types[c.type_index];
            match (info.drop_collectible, info.drop_hitbox) {
                (Some(t), Some(h)) => {
                    let position = match positions.read(c.position_index) {
                        Some(p) => p,
                        None => c.position,
                    };
                    dropped.push(Collectible { collectible_type: t, hitbox: h, position });
                },
                _ => {},
            }
        }
        i += 1;
    }
    proof {
        assert(cs.subrange(0, cs.len() as int) =~= cs);
    }
    dropped
}

/// Every character's slot is an index of the registry.
pub open spec fn slots_valid(cs: Seq<Character>, slots: Seq<Option<Point>>) -> bool {
    forall|i: int| 0 <= i < cs.len() ==> (#[trigger] cs[i]).position_index < slots.len()
}

/// Removes the characters of one faction whose health is at or below zero
/// and frees their slots. Returns the pickups that they drop, if `types`
/// gives them one.
fn despawn_faction(
    characters: &mut Vec<Character>,
    positions: &mut PositionRegistry,
    types: &Vec<CharacterInfo>,
) -> (r: Vec<Collectible>)
    requires
        types_valid(old(characters)@, types@),
        slots_valid(old(characters)@, old(positions).0@),
    ensures
        final(characters)@ == alive(old(characters)@),
        final(positions).0@ == freed(old(positions).0@, old(characters)@),
        r@ == drops(old(characters)@, types@, old(positions).0@),
        forall|j: int|
            0 <= j < final(characters)@.len() ==> old(characters)@.contains(
                #[trigger] final(characters)@[j],
            ),
{
    let ghost cs = characters@;
    let ghost slots = positions.0@;
    let dropped = dropped_pickups(characters, positions, types);
    let mut kept: Vec<Character> = Vec::new();
    let mut i: usize = 0;
    while i < characters.len()
        invariant
            i <= cs.len(),
            cs == characters@,
            types_valid(cs, types@),
            slots_valid(cs, slots),
            kept@ == alive(cs.subrange(0, i as int)),
            positions.0@ == freed(slots, cs.subrange(0, i as int)),
        decreases cs.len() - i,
    {
        let c = characters[i];
        let ghost pre = cs.subrange(0, i as int);
        let ghost next = cs.subrange(0, i as int + 1);
        proof {
            assert(next.drop_last() =~= pre);
            assert(next.last() == c);
        }
        if c.health > 0 {
            kept.push(c);
            proof {
                assert forall|k: int| #[trigger] slot_of_dead(next, k) == slot_of_dead(pre, k) by {
                    if slot_of_dead(next, k) {
                        let w = choose|w: int|
                            0 <= w < next.len() && next[w].health <= 0 && #[trigger] next[w].position_index == k;
                        assert(pre[w] == next[w]);
                    }
                    if slot_of_dead(pre, k) {
                        let w = choose|w: int|
                            0 <= w < pre.len() && pre[w].health <= 0 && #[trigger] pre[w].position_index == k;
                        assert(pre[w] == next[w]);
                    }
                }
                assert(positions.0@ =~= freed(slots, next));
            }
        } else {
            positions.free(c.position_index);
            proof {
                assert forall|k: int| #[trigger] slot_of_dead(next, k) == (slot_of_dead(pre, k) || k
                    == c.position_index) by {
                    if slot_of_dead(next, k) {
                        let w = choose|w: int|
                            0 <= w < next.len() && next[w].health <= 0 && #[trigger] next[w].position_index == k;
                        if w < pre.len() {
                            assert(pre[w] == next[w]);
                        }
                    }
                    if slot_of_dead(pre, k) {
                        let w = choose|w: int|
                            0 <= w < pre.len() && pre[w].health <= 0 && #[trigger] pre[w].position_index == k;
                        assert(pre[w] == next[w]);
                    }
                    if k == c.position_index {
                        assert(next[i as int] == c);
                    }
                }
                assert(positions.0@ =~= freed(slots, next));
            }
        }
        i += 1;
    }
    proof {
        assert(cs.subrange(0, cs.len() as int) =~= cs);
        lemma_alive_from(cs);
    }
    *characters = kept;
    dropped
}

/// Removes the allies and hostiles whose health is at or below zero and
/// frees their slots. Returns the pickups that the dead hostiles drop where
/// they stood, each of its type's currency.
pub fn despawn_characters(
    enemies: &mut Vec<Character>,
    summons: &mut Vec<Character>,
    summon_positions: &mut PositionRegistry,
    enemy_positions: &mut PositionRegistry,
    summon_types: &SummonTypes,
    enemy_types: &EnemyTypes,
) -> (r: Vec<Collectible>)
    requires
        types_valid(old(enemies)@, enemy_types.0@),
        types_valid(old(summons)@, summon_types.0@),
        slots_valid(old(enemies)@, old(enemy_positions).0@),
        slots_valid(old(summons)@, old(summon_positions).0@),
    ensures
        final(enemies)@ == alive(old(enemies)@),
        final(summons)@ == alive(old(summons)@),
        final(enemy_positions).0@ == freed(old(enemy_positions).0@, old(enemies)@),
        final(summon_positions).0@ == freed(old(summon_positions).0@, old(summons)@),
        r@ == drops(old(enemies)@, enemy_types.0@, old(enemy_positions).0@),
        forall|j: int|
            0 <= j < final(enemies)@.len() ==> old(enemies)@.contains(#[trigger] final(enemies)@[j]),
        forall|j: int|
            0 <= j < final(summons)@.len() ==> old(summons)@.contains(#[trigger] final(summons)@[j]),
        table_wf(enemy_types.0@) ==> forall|i: int|
            0 <= i < r@.len() ==> (#[trigger] r@[i]).collectible_type < COLLECTIBLE_TYPES,
{
    despawn_faction(summons, summon_positions, &summon_types.0);
    let r = despawn_faction(enemies, enemy_positions, &enemy_types.0);
    proof {
        if table_wf(enemy_types.0@) {
            lemma_drops_typed(old(enemies)@, enemy_types.0@, old(enemy_positions).0@);
        }
    }
    r
}

/// `c` after hits of `damage` at each of `times`, in order, with no
/// invulnerability window.
pub open spec fn hit_at_each(c: Character, damage: i32, times: Seq<u64>) -> Character
    decreases times.len(),
{
    if times.len() == 0 {
        c
    } else {
        damaged(hit_at_each(c, damage, times.drop_last()), 0, damage, times.last())
    }
}

/// With no invulnerability window, every hit at a strictly later time lands:
/// after `k` such hits the health is down by `k` times the damage.
pub proof fn lemma_no_window_every_hit_lands(c: Character, damage: i32, times: Seq<u64>)
    requires
        damage >= 0,
        c.health - times.len() * damage >= i32::MIN,
        forall|i: int| 0 <= i < times.len() ==> c.last_damage < #[trigger] times[i],
        forall|i: int, j: int| 0 <= i < j < times.len() ==> times[i] < times[j],
    ensures
        hit_at_each(c, damage, times).health == c.health - times.len() * damage,
        times.len() > 0 ==> hit_at_each(c, damage, times).last_damage == times.last(),
        times.len() == 0 ==> hit_at_each(c, damage, times).last_damage == c.last_damage,
    decreases times.len(),
{
    if times.len() > 0 {
        let pre = times.drop_last();
        assert(c.health - pre.len() * damage >= i32::MIN) by (nonlinear_arith)
            requires
                c.health - times.len() * damage >= i32::MIN,
                damage >= 0,
                pre.len() == times.len() - 1,
        ;
        assert forall|i: int, j: int| 0 <= i < j < pre.len() implies pre[i] < pre[j] by {
            assert(pre[i] == times[i] && pre[j] == times[j]);
        }
        lemma_no_window_every_hit_lands(c, damage, pre);
        if pre.len() > 0 {
            assert(pre.last() == times[pre.len() - 1]);
        }
        assert(times.last() == times[times.len() - 1]);
        assert(c.health - times.len() * damage == (c.health - pre.len() * damage) - damage) by (nonlinear_arith)
            requires
                pre.len() == times.len() - 1,
        ;
        assert(c.health <= i32::MAX);
        assert(c.health - pre.len() * damage <= c.health) by (nonlinear_arith)
            requires
                damage >= 0,
                pre.len() >= 0,
        ;
    }
}

/// `c` after one contact pass per time of `times`, each against the single
/// character `o` of the other faction.
pub open spec fn contact_rounds(
    c: Character,
    ctypes: Seq<CharacterInfo>,
    o: Character,
    otypes: Seq<CharacterInfo>,
    times: Seq<u64>,
) -> Character
    decreases times.len(),
{
    if times.len() == 0 {
        c
    } else {
        after_contacts(
            contact_rounds(c, ctypes, o, otypes, times.drop_last()),
            ctypes,
            seq![o],
            otypes,
            times.last(),
        )
    }
}

proof fn lemma_hits_keep_place(c: Character, damage: i32, times: Seq<u64>)
    ensures
        hit_at_each(c, damage, times).position == c.position,
        hit_at_each(c, damage, times).type_index == c.type_index,
    decreases times.len(),
{
    if times.len() > 0 {
        lemma_hits_keep_place(c, damage, times.drop_last());
    }
}

proof fn lemma_contact_rounds_are_hits(
    c: Character,
    ctypes: Seq<CharacterInfo>,
    o: Character,
    otypes: Seq<CharacterInfo>,
    times: Seq<u64>,
)
    requires
        ctypes[c.type_index as int].invulnarability_time == 0,
        colliding(
            ctypes[c.type_index as int].hitbox,
            c.position,
            otypes[o.type_index as int].hitbox,
            o.position,
        ),
    ensures
        contact_rounds(c, ctypes, o, otypes, times) == hit_at_each(
            c,
            otypes[o.type_index as int].contact_damange,
            times,
        ),
    decreases times.len(),
{
    if times.len() > 0 {
        let pre = times.drop_last();
        lemma_contact_rounds_are_hits(c, ctypes, o, otypes, pre);
        let d = otypes[o.type_index as int].contact_damange;
        let x = hit_at_each(c, d, pre);
        lemma_hits_keep_place(c, d, pre);
        assert(seq![o].drop_last() =~= Seq::<Character>::empty());
        assert(seq![o].last() == o);
        assert(after_contacts(x, ctypes, Seq::<Character>::empty(), otypes, times.last()) == x);
    }
}

/// An ally and a hostile whose hitboxes touch, with no invulnerability
/// window, deal each other their contact damage on every tick: after `k`
/// contact passes at strictly later times, each has lost `k` times the
/// other's contact damage.
pub proof fn lemma_contact_every_tick(
    c: Character,
    ctypes: Seq<CharacterInfo>,
    o: Character,
    otypes: Seq<CharacterInfo>,
    times: Seq<u64>,
)
    requires
        ctypes[c.type_index as int].invulnarability_time == 0,
        colliding(
            ctypes[c.type_index as int].hitbox,
            c.position,
            otypes[o.type_index as int].hitbox,
            o.position,
        ),
        otypes[o.type_index as int].contact_damange >= 0,
        c.health - times.len() * otypes[o.type_index as int].contact_damange >= i32::MIN,
        forall|i: int| 0 <= i < times.len() ==> c.last_damage < #[trigger] times[i],
        forall|i: int, j: int| 0 <= i < j < times.len() ==> times[i] < times[j],
    ensures
        contact_rounds(c, ctypes, o, otypes, times).health == c.health - times.len()
            * otypes[o.type_index as int].contact_damange,
{
    lemma_contact_rounds_are_hits(c, ctypes, o, otypes, times);
    lemma_no_window_every_hit_lands(c, otypes[o.type_index as int].contact_damange, times);
}

} // verus!
