//! How long to wait before something is tried again.

use vstd::arithmetic::power2::*;
use vstd::prelude::*;

verus! {

/// The longest wait, in seconds, before an evaluation is tried again.
pub const MAX_RETRY_BACKOFF_SECONDS: i64 = 300;

/// The first wait, in seconds, after a failed rebuild.
pub const REBUILD_BACKOFF_BASE_SECONDS: u64 = 1;

/// The longest wait, in seconds, after a failed rebuild.
pub const REBUILD_BACKOFF_MAX_SECONDS: u64 = 60;

fn power_of_two(n: u32) -> (r: u64)
    requires
        n <= 32,
    ensures
        r == pow2(n as nat),
{
    let mut r: u64 = 1;
    let mut i: u32 = 0;
    proof {
        lemma2_to64();
    }
    while i < n
        invariant
            i <= n,
            n <= 32,
            r == pow2(i as nat),
            r <= 0x1_0000_0000,
        decreases n - i,
    {
        proof {
            lemma_pow2_unfold((i + 1) as nat);
            if i + 1 < 32 {
                lemma_pow2_strictly_increases((i + 1) as nat, 32);
            }
            lemma2_to64();
        }
        r = r * 2;
        i = i + 1;
    }
    r
}

/// The number of doublings after a number of failures, the first of which doubles
/// nothing.
pub open spec fn doublings(failures: nat, most: nat) -> nat {
    if failures == 0 {
        0
    } else if failures - 1 < most {
        (failures - 1) as nat
    } else {
        most
    }
}

/// The seconds to wait after the given attempt at an evaluation: twice as long after
/// each, up to eight doublings and up to the longest wait.
pub open spec fn retry_seconds(attempt: u32) -> int {
    let wait = pow2(doublings(attempt as nat, 8)) as int;
    if wait < MAX_RETRY_BACKOFF_SECONDS {
        wait
    } else {
        MAX_RETRY_BACKOFF_SECONDS as int
    }
}

/// The seconds to wait after an attempt at an evaluation.
pub fn retry_delay(attempt: u32) -> (r: i64)
    ensures
        r == retry_seconds(attempt),
        1 <= r <= MAX_RETRY_BACKOFF_SECONDS,
{
    let n: u32 = if attempt == 0 {
        0
    } else if attempt - 1 < 8 {
        attempt - 1
    } else {
        8
    };
    let wait = power_of_two(n);
    proof {
        lemma_pow2_pos(n as nat);
    }
    if wait < 300 {
        wait as i64
    } else {
        MAX_RETRY_BACKOFF_SECONDS
    }
}

/// The seconds to wait after the given number of failed rebuilds in a row.
pub open spec fn rebuild_seconds(failures: u32) -> int {
    let wait = REBUILD_BACKOFF_BASE_SECONDS * pow2(doublings(failures as nat, 6)) as int;
    if wait < REBUILD_BACKOFF_MAX_SECONDS {
        wait
    } else {
        REBUILD_BACKOFF_MAX_SECONDS as int
    }
}

/// The seconds to wait after failed rebuilds.
pub fn rebuild_delay(failures: u32) -> (r: u64)
    ensures
        r == rebuild_seconds(failures),
        1 <= r <= REBUILD_BACKOFF_MAX_SECONDS,
{
    let n: u32 = if failures == 0 {
        0
    } else if failures - 1 < 6 {
        failures - 1
    } else {
        6
    };
    let wait = power_of_two(n);
    proof {
        lemma_pow2_pos(n as nat);
    }
    if wait < REBUILD_BACKOFF_MAX_SECONDS {
        wait
    } else {
        REBUILD_BACKOFF_MAX_SECONDS
    }
}

proof fn lemma_pow2_monotone(a: nat, b: nat)
    requires
        a <= b,
    ensures
        pow2(a) <= pow2(b),
{
    if a < b {
        lemma_pow2_strictly_increases(a, b);
    }
}

/// Waits never get shorter from one failure to the next.
pub proof fn law_waits_never_shrink(attempt: u32)
    requires
        attempt < u32::MAX,
    ensures
        retry_seconds(attempt) <= retry_seconds((attempt + 1) as u32),
        rebuild_seconds(attempt) <= rebuild_seconds((attempt + 1) as u32),
{
    let next = (attempt + 1) as nat;
    lemma_pow2_monotone(doublings(attempt as nat, 8), doublings(next, 8));
    lemma_pow2_monotone(doublings(attempt as nat, 6), doublings(next, 6));
}

/// The waits after an attempt at an evaluation: one second, and then twice as long each
/// time, up to 256 seconds.
pub proof fn lemma_retry_seconds(attempt: u32)
    ensures
        retry_seconds(attempt) == match attempt {
            0 => 1int,
            1 => 1,
            2 => 2,
            3 => 4,
            4 => 8,
            5 => 16,
            6 => 32,
            7 => 64,
            8 => 128,
            _ => 256,
        },
{
    vstd::arithmetic::power2::lemma2_to64();
}

/// The waits after a failed rebuild: one second, and then twice as long each time, up to
/// a minute.
pub proof fn law_rebuilds_wait_up_to_a_minute(failures: u32)
    ensures
        rebuild_seconds(failures) == match failures {
            0 => 1int,
            1 => 1,
            2 => 2,
            3 => 4,
            4 => 8,
            5 => 16,
            6 => 32,
            _ => 60,
        },
{
    vstd::arithmetic::power2::lemma2_to64();
}

} // verus!
