//! `<pthread.h>`: the single-threaded subset. Mutexes are no-ops that
//! succeed, `pthread_once` runs its routine once, and thread creation is
//! not provided.

use vstd::prelude::*;
use crate::errno::{EINVAL, ENOSYS};

verus! {

pub struct pthread_mutex_t {
    pub state: i32,
}

pub struct pthread_mutexattr_t {
    pub dummy: i32,
}

pub struct pthread_once_t {
    pub done: i32,
}

/// `pthread_create`: fails with `ENOSYS`.
pub fn pthread_create() -> (r: i32)
    ensures
        r == ENOSYS,
{
    ENOSYS
}

/// `pthread_join`: fails with `ENOSYS` (there is no thread to join).
pub fn pthread_join(thread: u64) -> (r: i32)
    ensures
        r == ENOSYS,
{
    ENOSYS
}

/// `pthread_self`: the only thread is thread 1.
pub fn pthread_self() -> (r: u64)
    ensures
        r == 1,
{
    1
}

pub fn pthread_mutex_init(mutex: &mut pthread_mutex_t, attr: Option<&pthread_mutexattr_t>) -> (r: i32)
    ensures
        r == 0,
        *final(mutex) == *old(mutex),
{
    0
}

pub fn pthread_mutex_lock(mutex: &mut pthread_mutex_t) -> (r: i32)
    ensures
        r == 0,
        *final(mutex) == *old(mutex),
{
    0
}

pub fn pthread_mutex_trylock(mutex: &mut pthread_mutex_t) -> (r: i32)
    ensures
        r == 0,
        *final(mutex) == *old(mutex),
{
    0
}

pub fn pthread_mutex_unlock(mutex: &mut pthread_mutex_t) -> (r: i32)
    ensures
        r == 0,
        *final(mutex) == *old(mutex),
{
    0
}

pub fn pthread_mutex_destroy(mutex: &mut pthread_mutex_t) -> (r: i32)
    ensures
        r == 0,
        *final(mutex) == *old(mutex),
{
    0
}

/// The control state after a `pthread_once` call.
pub open spec fn once_after(done: i32) -> i32 {
    if done == 0 {
        1
    } else {
        done
    }
}

/// `pthread_once`: what it returns and whether the init routine runs now.
/// A NULL control gives `EINVAL` and runs nothing. Otherwise the call
/// returns 0; the routine runs when the control has not been used, and the
/// control is then marked done.
pub fn pthread_once(once_control: Option<&mut pthread_once_t>) -> (r: (i32, bool))
    ensures
        match once_control {
            Some(c) => r == (0i32, c.done == 0) && final(c).done == once_after(c.done),
            None => r == (EINVAL, false),
        },
{
    match once_control {
        Some(c) => {
            if c.done == 0 {
                c.done = 1;
                (0, true)
            } else {
                (0, false)
            }
        },
        None => (EINVAL, false),
    }
}

/// Whether the routine runs in each of `k` successive `pthread_once` calls
/// on a control that starts as `done`.
pub open spec fn once_runs(done: i32, k: nat) -> Seq<bool>
    decreases k,
{
    if k == 0 {
        Seq::empty()
    } else {
        seq![done == 0].add(once_runs(once_after(done), (k - 1) as nat))
    }
}

/// On a used control no call runs the routine.
proof fn lemma_used_control_never_runs(done: i32, k: nat)
    requires
        done != 0,
    ensures
        once_runs(done, k) == Seq::new(k, |i: int| false),
    decreases k,
{
    if k > 0 {
        lemma_used_control_never_runs(once_after(done), (k - 1) as nat);
        assert(once_runs(done, k) =~= Seq::new(k, |i: int| false));
    }
}

/// The routine runs exactly once over any number of calls on a fresh
/// control: during the first call, and never after.
pub proof fn lemma_once_runs_once(k: nat)
    requires
        k >= 1,
    ensures
        once_runs(0, k) == seq![true].add(Seq::new((k - 1) as nat, |i: int| false)),
{
    lemma_used_control_never_runs(1, (k - 1) as nat);
    assert(once_runs(0, k) =~= seq![true].add(Seq::new((k - 1) as nat, |i: int| false)));
}

} // verus!
