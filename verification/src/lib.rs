//! A git-backed wiki: page paths, branch naming, page rendering helpers,
//! the decisions behind login, registration and editing, and a dice pool.
use vstd::prelude::*;

pub mod domain;
pub mod filters;
pub mod formatting;
pub mod git;
pub mod handlers;
pub mod http;
pub mod paths;
pub mod routes;
pub mod serve;
pub mod settings;
pub mod text;
pub mod wiki;

verus! {

/// A pool of `amount` dice with `sides` sides each.
pub struct DicePool {
    pub amount: u32,
    pub sides: u32,
}

/// `rand::rng().random_range(1..=sides)`: one roll of a die with `sides`
/// sides, from the thread's random generator. The range is empty, and the
/// call panics, when `sides` is 0.
#[verifier::external_body]
fn roll_die(sides: u32) -> (r: u32)
    requires
        sides >= 1,
    ensures
        1 <= r <= sides,
{
    rand::Rng::random_range(&mut rand::rng(), 1..=sides)
}

proof fn lemma_mono(k: int, n: int, a: int, s: int)
    requires
        0 <= k <= n,
        0 <= a,
        0 <= s,
    ensures
        k * a * s <= n * a * s,
        k * a <= n * a,
{
    assert(k * a * s <= n * a * s) by (nonlinear_arith)
        requires
            0 <= k <= n,
            0 <= a,
            0 <= s,
    ;
    assert(k * a <= n * a) by (nonlinear_arith)
        requires
            0 <= k <= n,
            0 <= a,
    ;
}

/// The sum of a sequence of die results.
pub open spec fn sum_of(rolls: Seq<int>) -> int
    decreases rolls.len(),
{
    if rolls.len() == 0 {
        0
    } else {
        sum_of(rolls.drop_last()) + rolls.last()
    }
}

/// `rolls` are `n` results of dice with `sides` sides: each from 1 to
/// `sides`.
pub open spec fn die_results(rolls: Seq<int>, n: int, sides: int) -> bool {
    &&& rolls.len() == n
    &&& forall|i: int| 0 <= i < rolls.len() ==> 1 <= #[trigger] rolls[i] <= sides
}

/// A total divided by the number of rolls, rounded down.
pub open spec fn rounded_average(total: int, times: int) -> int {
    total / times
}

proof fn lemma_sum_of_append(a: Seq<int>, b: Seq<int>)
    ensures
        sum_of(a + b) == sum_of(a) + sum_of(b),
    decreases b.len(),
{
    if b.len() == 0 {
        assert(a + b =~= a);
    } else {
        lemma_sum_of_append(a, b.drop_last());
        assert((a + b).drop_last() =~= a + b.drop_last());
    }
}

proof fn lemma_die_results_append(a: Seq<int>, b: Seq<int>, n: int, m: int, sides: int)
    requires
        die_results(a, n, sides),
        die_results(b, m, sides),
    ensures
        die_results(a + b, n + m, sides),
        sum_of(a + b) == sum_of(a) + sum_of(b),
{
    lemma_sum_of_append(a, b);
    assert forall|i: int| 0 <= i < (a + b).len() implies 1 <= #[trigger] (a + b)[i] <= sides by {
        if i < a.len() {
            assert((a + b)[i] == a[i]);
        } else {
            assert((a + b)[i] == b[i - a.len()]);
        }
    }
}

proof fn lemma_die_results_bounds(rolls: Seq<int>, n: int, sides: int)
    requires
        die_results(rolls, n, sides),
    ensures
        n <= sum_of(rolls) <= n * sides,
    decreases rolls.len(),
{
    if rolls.len() == 0 {
        assert(n * sides == 0);
    } else {
        let d = rolls.drop_last();
        assert forall|i: int| 0 <= i < d.len() implies 1 <= #[trigger] d[i] <= sides by {
            assert(d[i] == rolls[i]);
        }
        lemma_die_results_bounds(d, n - 1, sides);
        assert(rolls.last() == rolls[n - 1]);
        assert(1 <= rolls[n - 1] <= sides);
        assert((n - 1) * sides + sides == n * sides) by (nonlinear_arith);
        assert(sum_of(rolls) == sum_of(d) + rolls.last());
    }
}

impl DicePool {
    /// The pool can be rolled `times` times: its dice have at least one side
    /// (when any die is rolled at all), and the largest possible total fits
    /// in a `u32`.
    pub open spec fn can_roll(&self, times: int) -> bool {
        &&& (times == 0 || self.amount == 0 || self.sides >= 1)
        &&& times * self.amount * self.sides <= u32::MAX
    }

    /// One roll of the whole pool: the sum of `amount` die rolls.
    fn roll(&self) -> (r: u32)
        requires
            self.can_roll(1),
        ensures
            exists|rolls: Seq<int>| #[trigger] die_results(rolls, self.amount as int, self.sides as int) && r == sum_of(rolls),
    {
        let mut result: u32 = 0;
        let mut k: u32 = 0;
        let ghost mut rolls: Seq<int> = Seq::empty();
        while k < self.amount
            invariant
                self.can_roll(1),
                k <= self.amount,
                die_results(rolls, k as int, self.sides as int),
                result == sum_of(rolls),
            decreases self.amount - k,
        {
            let x = roll_die(self.sides);
            proof {
                lemma_die_results_bounds(rolls, k as int, self.sides as int);
                lemma_mono(k + 1, self.amount as int, 1, self.sides as int);
                assert((k + 1) * self.sides == k * self.sides + self.sides) by (nonlinear_arith);
                let next = rolls.push(x as int);
                assert(next.drop_last() =~= rolls);
                assert forall|i: int| 0 <= i < next.len() implies 1 <= #[trigger] next[i] <= self.sides by {
                    if i < rolls.len() {
                        assert(next[i] == rolls[i]);
                    }
                }
                rolls = next;
            }
            result = result + x;
            k = k + 1;
        }
        result
    }

    /// The total of rolling the pool `times` times: the sum of
    /// `times * amount` die results, each from 1 to `sides`.
    pub fn roll_mult(&self, times: u32) -> (r: u32)
        requires
            self.can_roll(times as int),
        ensures
            times * self.amount <= r <= times * self.amount * self.sides,
            exists|rolls: Seq<int>|
                #[trigger] die_results(rolls, times * self.amount, self.sides as int) && r == sum_of(rolls),
    {
        let mut result: u32 = 0;
        let mut k: u32 = 0;
        let ghost mut rolls: Seq<int> = Seq::empty();
        while k < times
            invariant
                self.can_roll(times as int),
                k <= times,
                die_results(rolls, k * self.amount, self.sides as int),
                result == sum_of(rolls),
            decreases times - k,
        {
            proof {
                lemma_mono(1, times as int, self.amount as int, self.sides as int);
            }
            let x = self.roll();
            proof {
                let one = choose|s: Seq<int>| #[trigger] die_results(s, self.amount as int, self.sides as int) && x == sum_of(s);
                lemma_die_results_append(rolls, one, k * self.amount, self.amount as int, self.sides as int);
                assert(k * self.amount + self.amount == (k + 1) * self.amount) by (nonlinear_arith);
                lemma_die_results_bounds(rolls + one, (k + 1) * self.amount, self.sides as int);
                lemma_mono(k + 1, times as int, self.amount as int, self.sides as int);
                assert((k + 1) * self.amount * self.sides == ((k + 1) * self.amount) * self.sides);
                rolls = rolls + one;
            }
            result = result + x;
            k = k + 1;
        }
        proof {
            lemma_die_results_bounds(rolls, times * self.amount, self.sides as int);
            assert((times * self.amount) * self.sides == times * self.amount * self.sides);
        }
        result
    }

    /// The average total of rolling the pool `times` times, rounded down:
    /// the sum of `times * amount` die results divided by `times`.
    pub fn average_over(&self, times: u32) -> (r: u32)
        requires
            times > 0,
            self.can_roll(times as int),
        ensures
            self.amount <= r <= self.amount * self.sides,
            exists|rolls: Seq<int>|
                #[trigger] die_results(rolls, times * self.amount, self.sides as int) && r == rounded_average(
                    sum_of(rolls),
                    times as int,
                ),
    {
        let total = self.roll_mult(times);
        proof {
            let t = times as int;
            let a = self.amount as int;
            let s = self.sides as int;
            let v = total as int;
            assert(a <= v / t) by (nonlinear_arith)
                requires
                    t > 0,
                    t * a <= v,
            ;
            assert(v / t <= a * s) by (nonlinear_arith)
                requires
                    t > 0,
                    v <= t * a * s,
                    0 <= v,
            {
                assert(t * a * s == t * (a * s));
                vstd::arithmetic::div_mod::lemma_div_is_ordered(v, t * (a * s), t);
                vstd::arithmetic::div_mod::lemma_div_by_multiple(a * s, t);
            }
        }
        let r = total / times;
        assert(r == rounded_average(total as int, times as int));
        r
    }
}

} // verus!
