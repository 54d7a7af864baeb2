use vstd::prelude::*;
use vstd::arithmetic::power2::{lemma2_to64, lemma2_to64_rest, lemma_pow2_unfold, pow2};

verus! {

/// Experience needed to leave level 1.
pub const BASE_EXPERIENCE: u64 = 100;

/// Experience needed to leave `level`: 100 at level 1, and each level a
/// quarter more than the one before (rounded down).
pub open spec fn threshold(level: int) -> int
    decreases level,
{
    if level <= 1 {
        BASE_EXPERIENCE as int
    } else {
        threshold(level - 1) + threshold(level - 1) / 4
    }
}

/// The player's experience: points banked toward the next level, and level.
#[derive(Clone, Copy, Debug, PartialEq, Eq, Structural)]
pub struct Experience {
    pub current: u64,
    pub level: u32,
}

impl Experience {
    /// A level of at least 1, and a bank short of that level's threshold.
    pub open spec fn wf(self) -> bool {
        &&& 1 <= self.level
        &&& self.current < threshold(self.level as int)
    }
}

/// Resolves level-ups: while the bank reaches the threshold, the threshold
/// is taken from the bank and the level rises. Returns the bank and the level.
pub open spec fn resolve_levels(current: int, level: int) -> (int, int)
    decreases current,
{
    if 1 <= level && 0 < threshold(level) <= current {
        resolve_levels(current - threshold(level), level + 1)
    } else {
        (current, level)
    }
}

/// `current + amount`, stopping at the largest `u64`.
pub open spec fn banked(current: int, amount: int) -> int {
    if current + amount > u64::MAX {
        u64::MAX as int
    } else {
        current + amount
    }
}

proof fn lemma_threshold_min(level: int)
    ensures
        threshold(level) >= BASE_EXPERIENCE,
    decreases level,
{
    if level > 1 {
        lemma_threshold_min(level - 1);
    }
}

/// Each level needs more experience than the one before.
pub proof fn lemma_threshold_grows(level: int)
    requires
        1 <= level,
    ensures
        threshold(level + 1) > threshold(level),
{
    lemma_threshold_min(level);
}

proof fn lemma_threshold_monotone(i: int, j: int)
    requires
        1 <= i <= j,
    ensures
        threshold(i) <= threshold(j),
    decreases j - i,
{
    if i < j {
        lemma_threshold_monotone(i, j - 1);
        lemma_threshold_grows(j - 1);
    }
}

proof fn lemma_threshold_doubles(level: int)
    requires
        1 <= level,
    ensures
        threshold(level + 4) >= 2 * threshold(level),
{
    lemma_threshold_min(level);
    let t0 = threshold(level);
    let t1 = threshold(level + 1);
    let t2 = threshold(level + 2);
    let t3 = threshold(level + 3);
    let t4 = threshold(level + 4);
    assert(t1 == t0 + t0 / 4);
    assert(t2 == t1 + t1 / 4);
    assert(t3 == t2 + t2 / 4);
    assert(t4 == t3 + t3 / 4);
}

proof fn lemma_threshold_powers(k: nat)
    ensures
        threshold(1 + 4 * (k as int)) >= 100 * pow2(k),
    decreases k,
{
    if k == 0 {
        lemma2_to64();
    } else {
        lemma_threshold_powers((k - 1) as nat);
        lemma_threshold_doubles(1 + 4 * (k - 1) as int);
        lemma_pow2_unfold(k);
    }
}

/// A threshold that a `u64` bank can reach belongs to a level below 241.
proof fn lemma_level_bound(level: int)
    requires
        1 <= level,
        threshold(level) <= u64::MAX,
    ensures
        level < 241,
{
    if level >= 241 {
        lemma_threshold_powers(60);
        lemma2_to64_rest();
        lemma_threshold_monotone(241, level);
    }
}

/// The experience needed to leave `level`, or `None` when it exceeds what a
/// `u64` bank can hold.
pub fn calculate_experience_needed(level: u32) -> (r: Option<u64>)
    ensures
        r == if threshold(level as int) <= u64::MAX {
            Some(threshold(level as int) as u64)
        } else {
            None::<u64>
        },
{
    let mut t: u64 = BASE_EXPERIENCE;
    let mut i: u32 = 1;
    if level <= 1 {
        return Some(t);
    }
    while i < level
        invariant
            1 <= i <= level,
            t == threshold(i as int),
        decreases level - i,
    {
        let next: u128 = t as u128 + (t / 4) as u128;
        if next > u64::MAX as u128 {
            proof {
                lemma_threshold_monotone(i + 1, level as int);
            }
            return None;
        }
        t = next as u64;
        i = i + 1;
    }
    Some(t)
}

/// Resolving level-ups leaves a bank below the threshold of the new level,
/// and the level never falls.
pub proof fn lemma_bank_below_threshold(current: int, level: int)
    requires
        1 <= level,
        0 <= current,
    ensures
        level <= resolve_levels(current, level).1,
        resolve_levels(current, level).0 < threshold(resolve_levels(current, level).1),
    decreases current,
{
    lemma_threshold_min(level);
    if current >= threshold(level) {
        lemma_bank_below_threshold(current - threshold(level), level + 1);
    }
}

impl Experience {
    /// A fresh record: level 1, nothing banked.
    pub fn new() -> (r: Self)
        ensures
            r.current == 0,
            r.level == 1,
            r.wf(),
    {
        Experience { current: 0, level: 1 }
    }

    /// Resolves every level-up the bank allows, banking what is left.
    /// Returns the number of levels gained: one upgrade selection each.
    pub fn check_level_up(&mut self) -> (levels: u32)
        requires
            1 <= old(self).level,
        ensures
            final(self).wf(),
            (final(self).current as int, final(self).level as int) == resolve_levels(
                old(self).current as int,
                old(self).level as int,
            ),
            levels == final(self).level - old(self).level,
    {
        let start = self.level;
        proof {
            lemma_bank_below_threshold(self.current as int, self.level as int);
        }
        let mut done = false;
        while !done
            invariant
                1 <= start <= self.level,
                start == old(self).level,
                resolve_levels(self.current as int, self.level as int) == resolve_levels(
                    old(self).current as int,
                    start as int,
                ),
                done ==> self.current < threshold(self.level as int),
            decreases self.current, if done { 0int } else { 1int },
        {
            proof {
                lemma_threshold_min(self.level as int);
            }
            match calculate_experience_needed(self.level) {
                Some(needed) => {
                    if self.current < needed {
                        done = true;
                    } else {
                        proof {
                            lemma_level_bound(self.level as int);
                        }
                        self.current = self.current - needed;
                        self.level = self.level + 1;
                    }
                },
                None => {
                    done = true;
                },
            }
        }
        assert(resolve_levels(self.current as int, self.level as int) == (self.current as int, self.level as int));
        self.level - start
    }

    /// Adds a reward and resolves every level-up it causes, banking the rest.
    /// Returns the number of levels gained.
    pub fn gain(&mut self, amount: u32) -> (levels: u32)
        requires
            old(self).wf(),
        ensures
            final(self).wf(),
            (final(self).current as int, final(self).level as int) == resolve_levels(
                banked(old(self).current as int, amount as int),
                old(self).level as int,
            ),
            levels == final(self).level - old(self).level,
    {
        self.current = self.current.saturating_add(amount as u64);
        self.check_level_up()
    }
}

} // verus!
