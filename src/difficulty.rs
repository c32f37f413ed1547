use vstd::prelude::*;
use vstd::arithmetic::power::{pow, lemma_pow_positive};
use vstd::arithmetic::div_mod::{lemma_div_multiples_vanish, lemma_fundamental_div_mod};

verus! {

/// Number of hostile character types, ordered from easiest to hardest.
pub const ENEMY_TYPES: usize = 4;

/// Hostile count target of the first wave, in thousandths of a hostile.
pub const STARTING_ENEMIES: u64 = 9000;

/// Growth of the hostile count target per wave, in thousandths (1.2).
pub const ENEMIES_MULTIPLIER: u64 = 1200;

/// Largest hostile count target that one more transition can grow
/// without overflow.
pub const ENEMIES_LIMIT: u64 = 15372286728091292;

/// Smallest share of spawn weight that moves to a harder type per wave.
pub const MIN_TRICKLE_AMMOUNT: u8 = 18;

/// The spawn weights and hostile count for the current wave.
pub struct Difficulty {
    pub wave: u32,
    /// One weight per hostile type, in the order of the hostile type table.
    pub enemy_spawn_chance: Vec<u8>,
    /// Number of hostiles to spawn, in thousandths of a hostile.
    pub enemies: u64,
}

/// Sum of a sequence of weights.
pub open spec fn weight_sum(s: Seq<u8>) -> int
    decreases s.len(),
{
    if s.len() == 0 {
        0
    } else {
        weight_sum(s.drop_last()) + s.last() as int
    }
}

/// Largest weight of a nonempty sequence.
pub open spec fn weight_max(s: Seq<u8>) -> int
    decreases s.len(),
{
    if s.len() <= 1 {
        if s.len() == 0 { 0 } else { s[0] as int }
    } else {
        let m = weight_max(s.drop_last());
        if s.last() as int > m { s.last() as int } else { m }
    }
}

/// Visits the types from index `i` down to 0. A type other than the last
/// whose weight is above half of `m` and at least `t` hands `t` to the next
/// harder type, after which `t` doubles.
pub open spec fn trickle_from(w: Seq<u8>, i: int, t: int, m: int) -> Seq<u8>
    decreases i + 1,
{
    if i < 0 {
        w
    } else if i + 1 < w.len() && w[i] as int > m / 2 && w[i] as int >= t {
        let moved = w.update(i, (w[i] - t) as u8).update(i + 1, (w[i + 1] + t) as u8);
        trickle_from(moved, i - 1, 2 * t, m)
    } else {
        trickle_from(w, i - 1, t, m)
    }
}

/// The spawn weights after one wave transition.
pub open spec fn next_spawn_chances(w: Seq<u8>) -> Seq<u8> {
    trickle_from(w, w.len() - 1, MIN_TRICKLE_AMMOUNT as int, weight_max(w))
}

/// The spawn weights after `n` wave transitions.
pub open spec fn spawn_chances_after(w: Seq<u8>, n: nat) -> Seq<u8>
    decreases n,
{
    if n == 0 {
        w
    } else {
        spawn_chances_after(next_spawn_chances(w), (n - 1) as nat)
    }
}

/// The hostile count target after one wave transition, rounded to the
/// nearest thousandth (halves up).
pub open spec fn next_enemies(e: int) -> int {
    (e * ENEMIES_MULTIPLIER as int + 500) / 1000
}

/// The hostile count target after `n` wave transitions.
pub open spec fn enemies_after(e: int, n: nat) -> int
    decreases n,
{
    if n == 0 {
        e
    } else {
        enemies_after(next_enemies(e), (n - 1) as nat)
    }
}

/// Why a configuration is refused.
#[derive(Clone, Copy, Debug, PartialEq, Eq, Structural)]
pub enum SetupError {
    /// The spawn weights are empty or do not sum to one hundred.
    EmptyConfiguration,
}

impl Difficulty {
    /// Spawn weights hold one entry per type and sum to one hundred.
    pub open spec fn wf(&self) -> bool {
        self.enemy_spawn_chance@.len() >= 1 && weight_sum(self.enemy_spawn_chance@) == 100
    }

    /// The difficulty of wave zero with the given spawn weights and hostile
    /// count target (in thousandths), refused unless the weights are
    /// nonempty and sum to one hundred.
    pub fn new(enemy_spawn_chance: Vec<u8>, enemies: u64) -> (r: Result<Difficulty, SetupError>)
        ensures
            r is Ok <==> enemy_spawn_chance@.len() >= 1 && weight_sum(enemy_spawn_chance@) == 100,
            r is Err ==> r == Err::<Difficulty, SetupError>(SetupError::EmptyConfiguration),
            r matches Ok(d) ==> d.wf() && d.wave == 0 && d.enemies == enemies
                && d.enemy_spawn_chance@ == enemy_spawn_chance@,
    {
        let mut sum: u128 = 0;
        let mut i: usize = 0;
        while i < enemy_spawn_chance.len()
            invariant
                i <= enemy_spawn_chance@.len(),
                sum == weight_sum(enemy_spawn_chance@.subrange(0, i as int)),
                sum <= 255 * i,
            decreases enemy_spawn_chance@.len() - i,
        {
            proof {
                let next = enemy_spawn_chance@.subrange(0, i as int + 1);
                assert(next.drop_last() =~= enemy_spawn_chance@.subrange(0, i as int));
            }
            sum = sum + enemy_spawn_chance[i] as u128;
            i += 1;
        }
        assert(enemy_spawn_chance@.subrange(0, i as int) =~= enemy_spawn_chance@);
        if enemy_spawn_chance.len() == 0 || sum != 100 {
            return Err(SetupError::EmptyConfiguration);
        }
        Ok(Difficulty { wave: 0, enemy_spawn_chance, enemies })
    }
}

proof fn lemma_weight_sum_update(s: Seq<u8>, i: int, v: u8)
    requires
        0 <= i < s.len(),
    ensures
        weight_sum(s.update(i, v)) == weight_sum(s) - s[i] + v,
    decreases s.len(),
{
    let u = s.update(i, v);
    if i == s.len() - 1 {
        assert(u.drop_last() =~= s.drop_last());
    } else {
        lemma_weight_sum_update(s.drop_last(), i, v);
        assert(u.drop_last() =~= s.drop_last().update(i, v));
    }
}

proof fn lemma_weight_le_sum(s: Seq<u8>, i: int)
    requires
        0 <= i < s.len(),
    ensures
        s[i] as int <= weight_sum(s),
        weight_sum(s) >= 0,
    decreases s.len(),
{
    if i < s.len() - 1 {
        lemma_weight_le_sum(s.drop_last(), i);
        assert(s.drop_last()[i] == s[i]);
    } else if s.len() > 1 {
        lemma_weight_le_sum(s.drop_last(), 0);
    } else {
        assert(weight_sum(s.drop_last()) == 0);
    }
}

proof fn lemma_trickle_keeps_sum(w: Seq<u8>, i: int, t: int, m: int)
    requires
        weight_sum(w) == 100,
        t >= 0,
        i < w.len(),
    ensures
        weight_sum(trickle_from(w, i, t, m)) == 100,
        trickle_from(w, i, t, m).len() == w.len(),
    decreases i + 1,
{
    if i < 0 {
    } else if i + 1 < w.len() && w[i] as int > m / 2 && w[i] as int >= t {
        lemma_weight_le_sum(w, i);
        let w1 = w.update(i, (w[i] - t) as u8);
        lemma_weight_sum_update(w, i, (w[i] - t) as u8);
        lemma_weight_le_sum(w1, i + 1);
        lemma_weight_sum_update(w1, i + 1, (w1[i + 1] + t) as u8);
        assert(w1[i + 1] == w[i + 1]);
        lemma_trickle_keeps_sum(w1.update(i + 1, (w[i + 1] + t) as u8), i - 1, 2 * t, m);
    } else {
        lemma_trickle_keeps_sum(w, i - 1, t, m);
    }
}

/// Returns the largest value, or an error when there is none.
pub fn max_value(values: &Vec<u8>) -> (r: Result<u8, ()>)
    ensures
        values@.len() == 0 <==> r is Err,
        r is Ok ==> r->Ok_0 as int == weight_max(values@),
        r is Ok ==> values@.contains(r->Ok_0),
        r is Ok ==> forall|j: int| 0 <= j < values@.len() ==> values@[j] <= r->Ok_0,
{
    if values.len() == 0 {
        return Err(());
    }
    let mut max_value = values[0];
    let mut i: usize = 1;
    assert(values@.subrange(0, 1)[0] == max_value);
    while i < values.len()
        invariant
            1 <= i <= values@.len(),
            max_value as int == weight_max(values@.subrange(0, i as int)),
            values@.subrange(0, i as int).contains(max_value),
            forall|j: int| 0 <= j < i ==> values@[j] <= max_value,
        decreases values@.len() - i,
    {
        let ghost prefix = values@.subrange(0, i as int + 1);
        proof {
            assert(prefix.drop_last() =~= values@.subrange(0, i as int));
        }
        let ghost old_max = max_value;
        if values[i] > max_value {
            max_value = values[i];
        }
        proof {
            if max_value == values@[i as int] {
                assert(prefix[i as int] == max_value);
            } else {
                let k = choose|k: int|
                    0 <= k < i && values@.subrange(0, i as int)[k] == old_max;
                assert(prefix[k] == max_value);
            }
        }
        i += 1;
    }
    assert(values@.subrange(0, values@.len() as int) =~= values@);
    Ok(max_value)
}

/// Moves spawn weight from easier hostile types towards harder ones, as one
/// wave transition does, starting with `min_trickle` and given the largest
/// weight `max`.
pub fn trickle_spawn_chances(chances: &mut Vec<u8>, min_trickle: u8, max: u8)
    requires
        weight_sum(old(chances)@) == 100,
    ensures
        final(chances)@ == trickle_from(
            old(chances)@,
            old(chances)@.len() - 1,
            min_trickle as int,
            max as int,
        ),
        weight_sum(final(chances)@) == 100,
        final(chances)@.len() == old(chances)@.len(),
{
    let ghost target = trickle_from(chances@, chances@.len() - 1, min_trickle as int, max as int);
    proof {
        lemma_trickle_keeps_sum(chances@, chances@.len() - 1, min_trickle as int, max as int);
    }
    let mut trickle_ammount: u8 = min_trickle;
    let len = chances.len();
    let mut i: usize = len;
    while i > 0
        invariant
            i <= len == chances@.len(),
            weight_sum(chances@) == 100,
            trickle_from(chances@, i - 1, trickle_ammount as int, max as int) == target,
        decreases i,
    {
        i -= 1;
        if i + 1 < len && chances[i] > max / 2 && chances[i] >= trickle_ammount {
            let ghost w = chances@;
            let ghost t = trickle_ammount as int;
            proof {
                lemma_weight_le_sum(w, i as int);
                lemma_weight_le_sum(w, i as int + 1);
                lemma_weight_sum_update(w, i as int, (w[i as int] - t) as u8);
                let w1 = w.update(i as int, (w[i as int] - t) as u8);
                assert(w1[i as int + 1] == w[i as int + 1]);
                lemma_weight_sum_update(w1, i as int + 1, (w[i as int + 1] + t) as u8);
                lemma_weight_le_sum(w1.update(i as int + 1, (w[i as int + 1] + t) as u8), i as int + 1);
            }
            chances.set(i, chances[i] - trickle_ammount);
            chances.set(i + 1, chances[i + 1] + trickle_ammount);
            trickle_ammount = trickle_ammount * 2;
        }
    }
}

/// The difficulty of the first wave: every hostile is of the easiest type.
pub fn init_game() -> (r: Difficulty)
    ensures
        r.wf(),
        r.wave == 0,
        r.enemies == STARTING_ENEMIES,
        r.enemy_spawn_chance@.len() == ENEMY_TYPES,
        r.enemy_spawn_chance@[0] == 100,
        forall|j: int| 1 <= j < ENEMY_TYPES ==> r.enemy_spawn_chance@[j] == 0,
{
    let mut chances: Vec<u8> = Vec::new();
    chances.push(100);
    assert(weight_sum(chances@.drop_last()) == 0);
    let mut k: usize = 1;
    while k < ENEMY_TYPES
        invariant
            1 <= k <= ENEMY_TYPES,
            chances@.len() == k,
            chances@[0] == 100,
            forall|j: int| 1 <= j < k ==> chances@[j] == 0,
            weight_sum(chances@) == 100,
        decreases ENEMY_TYPES - k,
    {
        let ghost before = chances@;
        chances.push(0);
        proof {
            assert(chances@.drop_last() =~= before);
        }
        k += 1;
    }
    Difficulty { wave: 0, enemy_spawn_chance: chances, enemies: STARTING_ENEMIES }
}

/// Moves to the next wave: the wave counter grows by one, spawn weight
/// trickles towards harder types and the hostile count target grows.
pub fn update_difficulty(difficulty: &mut Difficulty)
    requires
        old(difficulty).wf(),
        old(difficulty).wave < u32::MAX,
        old(difficulty).enemies <= ENEMIES_LIMIT,
    ensures
        final(difficulty).wf(),
        final(difficulty).wave == old(difficulty).wave + 1,
        final(difficulty).enemy_spawn_chance@ == next_spawn_chances(
            old(difficulty).enemy_spawn_chance@,
        ),
        final(difficulty).enemies == next_enemies(old(difficulty).enemies as int),
        final(difficulty).enemy_spawn_chance@.len() == old(difficulty).enemy_spawn_chance@.len(),
{
    difficulty.wave = difficulty.wave + 1;
    let max_value = match max_value(&difficulty.enemy_spawn_chance) {
        Ok(m) => m,
        Err(()) => 0,
    };
    trickle_spawn_chances(&mut difficulty.enemy_spawn_chance, MIN_TRICKLE_AMMOUNT, max_value);
    difficulty.enemies = (difficulty.enemies * ENEMIES_MULTIPLIER + 500) / 1000;
}

/// Whatever the number of wave transitions, spawn weights that sum to one
/// hundred still sum to one hundred, so no weight exceeds one hundred.
pub proof fn lemma_spawn_chances_conserved(w: Seq<u8>, n: nat)
    requires
        weight_sum(w) == 100,
    ensures
        weight_sum(spawn_chances_after(w, n)) == 100,
        spawn_chances_after(w, n).len() == w.len(),
        forall|i: int|
            0 <= i < w.len() ==> #[trigger] spawn_chances_after(w, n)[i] <= 100,
    decreases n,
{
    let r = spawn_chances_after(w, n);
    if n > 0 {
        if w.len() > 0 {
            lemma_trickle_keeps_sum(w, w.len() - 1, MIN_TRICKLE_AMMOUNT as int, weight_max(w));
        }
        lemma_spawn_chances_conserved(next_spawn_chances(w), (n - 1) as nat);
    }
    assert forall|i: int| 0 <= i < w.len() implies #[trigger] r[i] <= 100 by {
        lemma_weight_le_sum(r, i);
    }
}

proof fn lemma_div_round(x: int, r: int)
    requires
        0 <= r < 1000,
    ensures
        (1000 * x + r) / 1000 == x,
{
    lemma_fundamental_div_mod(1000 * x + r, 1000);
    let q = (1000 * x + r) / 1000;
    let m = (1000 * x + r) % 1000;
    assert(0 <= m < 1000);
    assert(q == x) by (nonlinear_arith)
        requires
            1000 * q + m == 1000 * x + r,
            0 <= m < 1000,
            0 <= r < 1000,
    ;
}

/// From a target of `k · 5^n` thousandths, `n` transitions give exactly
/// `k · 6^n`: the start multiplied by 1.2 to the power `n`.
pub proof fn lemma_enemies_growth(k: int, n: nat)
    requires
        k >= 0,
    ensures
        enemies_after(k * pow(5, n), n) == k * pow(6, n),
    decreases n,
{
    reveal(pow);
    if n > 0 {
        let m = (n - 1) as nat;
        let five_m = pow(5, m);
        let six_m = pow(6, m);
        lemma_pow_positive(5, m);
        let s = k * pow(5, n);
        assert(s * 1200 + 500 == 1000 * (6 * k * five_m) + 500) by (nonlinear_arith)
            requires
                s == k * (5 * five_m),
        ;
        lemma_div_round(6 * k * five_m, 500);
        assert(next_enemies(s) == (6 * k) * five_m) by (nonlinear_arith)
            requires
                next_enemies(s) == 6 * k * five_m,
        ;
        lemma_enemies_growth(6 * k, m);
        assert((6 * k) * six_m == k * (6 * six_m)) by (nonlinear_arith);
    }
}

/// Whatever the start `e`, `n` transitions stay within `2.5 · (1.2^n - 1)`
/// of `e · 1.2^n`: twice the gap between the target times `5^n` and
/// `e · 6^n` is at most `5 · (6^n - 5^n)`.
pub proof fn lemma_enemies_close(e: int, n: nat)
    requires
        e >= 0,
    ensures
        -5 * (pow(6, n) - pow(5, n)) <= 2 * (enemies_after(e, n) * pow(5, n) - e * pow(6, n))
            <= 5 * (pow(6, n) - pow(5, n)),
        enemies_after(e, n) >= 0,
    decreases n,
{
    reveal(pow);
    if n > 0 {
        let m = (n - 1) as nat;
        let five_m = pow(5, m);
        let six_m = pow(6, m);
        lemma_pow_positive(5, m);
        lemma_pow_positive(6, m);
        let e1 = next_enemies(e);
        lemma_fundamental_div_mod(e * 1200 + 500, 1000);
        let d = 5 * e1 - 6 * e;
        assert(-5 < 2 * d <= 5 && e1 >= 0);
        lemma_enemies_close(e1, m);
        let a = enemies_after(e1, m);
        let g = a * five_m - e1 * six_m;
        assert(a * (5 * five_m) - e * (6 * six_m) == 5 * g + six_m * d) by (nonlinear_arith)
            requires
                g == a * five_m - e1 * six_m,
                d == 5 * e1 - 6 * e,
        ;
        assert(-5 * (6 * six_m - 5 * five_m) <= 2 * (5 * g + six_m * d) <= 5 * (6 * six_m - 5 * five_m))
            by (nonlinear_arith)
            requires
                -5 * (six_m - five_m) <= 2 * g <= 5 * (six_m - five_m),
                -5 < 2 * d <= 5,
                six_m > 0,
        ;
    }
}

} // verus!
