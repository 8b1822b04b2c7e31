//! Transaction registry: the single place pending waiters live. A waiter is
//! keyed by its transaction token, records the connection epoch it was issued
//! under and its deadline, and leaves the registry on exactly one terminal
//! resolution: a matching reply, a timeout, or the invalidation of its epoch
//! after a reconnect.
//!
//! The registry holds only the bookkeeping; waking the suspended caller is
//! the task of a per-transaction one-shot primitive outside the library.

use vstd::prelude::*;

verus! {

/// One pending waiter: its token, the epoch it was issued under, and its
/// absolute deadline.
pub struct Waiter {
    pub token: Vec<u8>,
    pub epoch: u64,
    pub deadline: u64,
}

/// A waiter at the specification level.
pub struct SpecWaiter {
    pub token: Seq<u8>,
    pub epoch: u64,
    pub deadline: u64,
}

/// The mathematical value of a waiter.
pub open spec fn waiter_view(w: Waiter) -> SpecWaiter {
    SpecWaiter { token: w.token@, epoch: w.epoch, deadline: w.deadline }
}

/// The mathematical value of a row of waiters.
pub open spec fn reg_view(s: Seq<Waiter>) -> Seq<SpecWaiter> {
    s.map_values(|w: Waiter| waiter_view(w))
}

/// No two live entries share a token.
pub open spec fn tokens_unique(s: Seq<SpecWaiter>) -> bool {
    forall|i: int, j: int| 0 <= i < j < s.len() ==> s[i].token != s[j].token
}

/// Some live entry carries this token.
pub open spec fn has_token(s: Seq<SpecWaiter>, t: Seq<u8>) -> bool {
    exists|i: int| 0 <= i < s.len() && s[i].token == t
}

/// The first entry carrying the token, if any.
pub open spec fn found_waiter(s: Seq<SpecWaiter>, t: Seq<u8>) -> Option<SpecWaiter>
    decreases s.len(),
{
    if s.len() == 0 {
        None
    } else if s[0].token == t {
        Some(s[0])
    } else {
        found_waiter(s.skip(1), t)
    }
}

/// The row without its first entry carrying the token.
pub open spec fn remove_token(s: Seq<SpecWaiter>, t: Seq<u8>) -> Seq<SpecWaiter>
    decreases s.len(),
{
    if s.len() == 0 {
        s
    } else if s[0].token == t {
        s.skip(1)
    } else {
        seq![s[0]] + remove_token(s.skip(1), t)
    }
}

/// The entries whose epoch is at least `e`, in order.
pub open spec fn keep_current(s: Seq<SpecWaiter>, e: u64) -> Seq<SpecWaiter>
    decreases s.len(),
{
    if s.len() == 0 {
        Seq::empty()
    } else if s.last().epoch >= e {
        keep_current(s.drop_last(), e).push(s.last())
    } else {
        keep_current(s.drop_last(), e)
    }
}

/// The entries whose epoch is under `e`, in order.
pub open spec fn take_stale(s: Seq<SpecWaiter>, e: u64) -> Seq<SpecWaiter>
    decreases s.len(),
{
    if s.len() == 0 {
        Seq::empty()
    } else if s.last().epoch < e {
        take_stale(s.drop_last(), e).push(s.last())
    } else {
        take_stale(s.drop_last(), e)
    }
}

/// The registry of pending transactions.
pub struct Registry {
    entries: Vec<Waiter>,
}

impl View for Registry {
    type V = Seq<SpecWaiter>;

    closed spec fn view(&self) -> Seq<SpecWaiter> {
        reg_view(self.entries@)
    }
}

/// Registering a token that is already live is an invariant violation, fatal
/// to the calling request only.
#[derive(PartialEq, Eq, Structural, Clone, Copy, Debug)]
pub enum RegisterError {
    DuplicateToken,
}

impl Registry {
    /// A registry is well formed when no token is live twice.
    pub open spec fn wf(&self) -> bool {
        tokens_unique(self@)
    }

    /// An empty registry.
    pub fn new() -> (r: Registry)
        ensures
            r@ == Seq::<SpecWaiter>::empty(),
            r.wf(),
    {
        let r = Registry { entries: Vec::new() };
        proof {
            assert(r@ =~= Seq::<SpecWaiter>::empty());
        }
        r
    }

    /// How many waiters are pending.
    pub fn len(&self) -> (n: usize)
        ensures
            n == self@.len(),
    {
        self.entries.len()
    }

    /// Whether a waiter with this token is live.
    pub fn contains(&self, token: &Vec<u8>) -> (r: bool)
        ensures
            r == has_token(self@, token@),
    {
        let mut i: usize = 0;
        while i < self.entries.len()
            invariant
                0 <= i <= self.entries@.len(),
                forall|k: int| 0 <= k < i ==> self@[k].token != token@,
            decreases self.entries@.len() - i,
        {
            if crate::codec::bytes_eq(&self.entries[i].token, token) {
                assert(self@[i as int].token == token@);
                return true;
            }
            i += 1;
        }
        false
    }

    /// Inserts a new waiter, unless its token is already live.
    pub fn register(&mut self, token: Vec<u8>, epoch: u64, deadline: u64) -> (r: Result<
        (),
        RegisterError,
    >)
        requires
            old(self).wf(),
        ensures
            final(self).wf(),
            has_token(old(self)@, token@) ==> r == Err::<(), RegisterError>(
                RegisterError::DuplicateToken,
            ) && final(self)@ == old(self)@,
            !has_token(old(self)@, token@) ==> r == Ok::<(), RegisterError>(()) && final(self)@
                == old(self)@.push(SpecWaiter { token: token@, epoch, deadline }),
    {
        if self.contains(&token) {
            return Err(RegisterError::DuplicateToken);
        }
        let ghost pre = self@;
        self.entries.push(Waiter { token, epoch, deadline });
        proof {
            assert(self@ =~= pre.push(
                SpecWaiter { token: self.entries@.last().token@, epoch, deadline },
            ));
        }
        Ok(())
    }

    /// Removes and returns the waiter with this token. A token that is not
    /// live — a late, duplicate or already timed-out reply — changes nothing
    /// and yields nothing.
    pub fn resolve(&mut self, token: &Vec<u8>) -> (r: Option<Waiter>)
        requires
            old(self).wf(),
        ensures
            final(self).wf(),
            final(self)@ == remove_token(old(self)@, token@),
            match r {
                Some(w) => found_waiter(old(self)@, token@) == Some(waiter_view(w)),
                None => found_waiter(old(self)@, token@) is None && final(self)@ == old(self)@,
            },
            !has_token(final(self)@, token@),
    {
        let mut i: usize = 0;
        while i < self.entries.len()
            invariant
                0 <= i <= self.entries@.len(),
                *self == *old(self),
                old(self).wf(),
                forall|k: int| 0 <= k < i ==> self@[k].token != token@,
            decreases self.entries@.len() - i,
        {
            if crate::codec::bytes_eq(&self.entries[i].token, token) {
                proof {
                    lemma_remove_keeps_unique(self@, token@);
                    lemma_remove_token_at(self@, token@, i as int);
                    lemma_view_remove(self.entries@, i as int);
                    lemma_remove_no_token(self@, token@);
                }
                let w = self.entries.remove(i);
                return Some(w);
            }
            i += 1;
        }
        proof {
            lemma_absent_token(self@, token@);
        }
        None
    }

    /// Resolves every waiter registered under an epoch older than `epoch`,
    /// and keeps every other waiter untouched, in order. Returns the stale
    /// waiters so the caller can fail each with a connection-lost outcome.
    pub fn invalidate_epoch(&mut self, epoch: u64) -> (stale: Vec<Waiter>)
        requires
            old(self).wf(),
        ensures
            final(self).wf(),
            final(self)@ == keep_current(old(self)@, epoch),
            reg_view(stale@) == take_stale(old(self)@, epoch),
    {
        let ghost pre = self@;
        let mut kept: Vec<Waiter> = Vec::new();
        let mut stale: Vec<Waiter> = Vec::new();
        let n = self.entries.len();
        let mut i: usize = 0;
        proof {
            assert(pre.take(0) =~= Seq::<SpecWaiter>::empty());
            assert(reg_view(kept@) =~= Seq::<SpecWaiter>::empty());
            assert(reg_view(stale@) =~= Seq::<SpecWaiter>::empty());
        }
        while i < n
            invariant
                0 <= i <= n == self.entries@.len(),
                reg_view(self.entries@) == pre,
                reg_view(kept@) == keep_current(pre.take(i as int), epoch),
                reg_view(stale@) == take_stale(pre.take(i as int), epoch),
            decreases n - i,
        {
            let w = Waiter {
                token: crate::codec::copy_bytes(&self.entries[i].token),
                epoch: self.entries[i].epoch,
                deadline: self.entries[i].deadline,
            };
            let ghost kept0 = reg_view(kept@);
            let ghost stale0 = reg_view(stale@);
            proof {
                assert(pre.take(i as int + 1).drop_last() =~= pre.take(i as int));
                assert(pre.take(i as int + 1).last() == pre[i as int]);
                assert(waiter_view(w) == pre[i as int]);
            }
            if w.epoch < epoch {
                stale.push(w);
                proof {
                    assert(reg_view(stale@) =~= stale0.push(pre[i as int]));
                    assert(reg_view(kept@) == kept0);
                }
            } else {
                kept.push(w);
                proof {
                    assert(reg_view(kept@) =~= kept0.push(pre[i as int]));
                    assert(reg_view(stale@) == stale0);
                }
            }
            i += 1;
        }
        proof {
            assert(pre.take(n as int) =~= pre);
        }
        self.entries = kept;
        proof {
            lemma_keep_current_unique(pre, epoch);
        }
        stale
    }
}

impl Registry {
    /// Removes and returns every pending waiter, in order: used at shutdown
    /// and on link loss, so that no caller blocks forever.
    pub fn drain(&mut self) -> (all: Vec<Waiter>)
        requires
            old(self).wf(),
        ensures
            final(self).wf(),
            final(self)@ == Seq::<SpecWaiter>::empty(),
            reg_view(all@) == old(self)@,
    {
        let mut all: Vec<Waiter> = Vec::new();
        core::mem::swap(&mut all, &mut self.entries);
        proof {
            assert(self@ =~= Seq::<SpecWaiter>::empty());
        }
        all
    }
}

// ---------------------------------------------------------------------------
// Model lemmas
// ---------------------------------------------------------------------------

/// The view of a removal is the removal of the view.
proof fn lemma_view_remove(s: Seq<Waiter>, i: int)
    requires
        0 <= i < s.len(),
    ensures
        reg_view(s.remove(i)) == reg_view(s).remove(i),
{
    assert(reg_view(s.remove(i)) =~= reg_view(s).remove(i));
}

/// Removing the first match at a known index is removing that index.
proof fn lemma_remove_token_at(s: Seq<SpecWaiter>, t: Seq<u8>, i: int)
    requires
        0 <= i < s.len(),
        s[i].token == t,
        forall|k: int| 0 <= k < i ==> s[k].token != t,
    ensures
        remove_token(s, t) == s.remove(i),
        found_waiter(s, t) == Some(s[i]),
    decreases i,
{
    if i == 0 {
        assert(remove_token(s, t) == s.skip(1));
        assert(s.remove(0) =~= s.skip(1));
    } else {
        lemma_remove_token_at(s.skip(1), t, i - 1);
        assert(remove_token(s, t) == seq![s[0]] + remove_token(s.skip(1), t));
        assert(seq![s[0]] + s.skip(1).remove(i - 1) =~= s.remove(i));
    }
}

/// A token that no entry carries removes nothing and is found nowhere.
proof fn lemma_absent_token(s: Seq<SpecWaiter>, t: Seq<u8>)
    requires
        forall|k: int| 0 <= k < s.len() ==> s[k].token != t,
    ensures
        remove_token(s, t) == s,
        found_waiter(s, t) is None,
    decreases s.len(),
{
    if s.len() > 0 {
        lemma_absent_token(s.skip(1), t);
        assert(seq![s[0]] + s.skip(1) =~= s);
    }
}

/// Removal keeps uniqueness.
proof fn lemma_remove_keeps_unique(s: Seq<SpecWaiter>, t: Seq<u8>)
    requires
        tokens_unique(s),
    ensures
        tokens_unique(remove_token(s, t)),
    decreases s.len(),
{
    if s.len() > 0 {
        if s[0].token == t {
        } else {
            assert(tokens_unique(s.skip(1)));
            lemma_remove_keeps_unique(s.skip(1), t);
            let r = seq![s[0]] + remove_token(s.skip(1), t);
            lemma_remove_subset(s.skip(1), t);
            assert forall|i: int, j: int| 0 <= i < j < r.len() implies r[i].token != r[j].token by {
                if i == 0 {
                    assert(r[j] == remove_token(s.skip(1), t)[j - 1]);
                    let k = choose|k: int|
                        0 <= k < s.skip(1).len() && s.skip(1)[k] == remove_token(s.skip(1), t)[j
                            - 1];
                    assert(s[0].token != s.skip(1)[k].token);
                }
            }
        }
    }
}

/// Every entry left by a removal stood in the row before it.
pub proof fn lemma_remove_subset(s: Seq<SpecWaiter>, t: Seq<u8>)
    ensures
        forall|i: int|
            0 <= i < remove_token(s, t).len() ==> exists|k: int|
                0 <= k < s.len() && s[k] == #[trigger] remove_token(s, t)[i],
    decreases s.len(),
{
    if s.len() > 0 {
        lemma_remove_subset(s.skip(1), t);
        if s[0].token == t {
            assert forall|i: int| 0 <= i < remove_token(s, t).len() implies exists|k: int|
                0 <= k < s.len() && s[k] == #[trigger] remove_token(s, t)[i] by {
                assert(remove_token(s, t)[i] == s.skip(1)[i]);
                assert(s[i + 1] == remove_token(s, t)[i]);
            }
        } else {
            assert forall|i: int| 0 <= i < remove_token(s, t).len() implies exists|k: int|
                0 <= k < s.len() && s[k] == #[trigger] remove_token(s, t)[i] by {
                if i == 0 {
                    assert(s[0] == remove_token(s, t)[0]);
                } else {
                    assert(remove_token(s, t)[i] == remove_token(s.skip(1), t)[i - 1]);
                    let k = choose|k: int|
                        0 <= k < s.skip(1).len() && s.skip(1)[k] == remove_token(s.skip(1), t)[i
                            - 1];
                    assert(s[k + 1] == remove_token(s, t)[i]);
                }
            }
        }
    }
}

/// After a removal no entry carries the token, when tokens were unique.
proof fn lemma_remove_no_token(s: Seq<SpecWaiter>, t: Seq<u8>)
    requires
        tokens_unique(s),
    ensures
        !has_token(remove_token(s, t), t),
    decreases s.len(),
{
    if s.len() > 0 {
        if s[0].token == t {
            assert forall|i: int| 0 <= i < s.skip(1).len() implies s.skip(1)[i].token != t by {
                assert(s.skip(1)[i] == s[i + 1]);
            }
        } else {
            assert(tokens_unique(s.skip(1)));
            lemma_remove_no_token(s.skip(1), t);
            let r = seq![s[0]] + remove_token(s.skip(1), t);
            assert forall|i: int| 0 <= i < r.len() implies r[i].token != t by {
                if i > 0 {
                    assert(r[i] == remove_token(s.skip(1), t)[i - 1]);
                    assert(!has_token(remove_token(s.skip(1), t), t));
                }
            }
        }
    }
}

/// Keeping the current epoch keeps uniqueness.
proof fn lemma_keep_current_unique(s: Seq<SpecWaiter>, e: u64)
    requires
        tokens_unique(s),
    ensures
        tokens_unique(keep_current(s, e)),
    decreases s.len(),
{
    if s.len() > 0 {
        assert(tokens_unique(s.drop_last()));
        lemma_keep_current_unique(s.drop_last(), e);
        lemma_keep_subset(s.drop_last(), e);
        if s.last().epoch >= e {
            let r = keep_current(s.drop_last(), e).push(s.last());
            assert forall|i: int, j: int| 0 <= i < j < r.len() implies r[i].token != r[j].token by {
                if j == r.len() - 1 {
                    let k = choose|k: int|
                        0 <= k < s.drop_last().len() && s.drop_last()[k] == keep_current(
                            s.drop_last(),
                            e,
                        )[i];
                    assert(s[k].token != s[s.len() - 1].token);
                }
            }
        }
    }
}

/// Every kept entry stood in the row.
pub proof fn lemma_keep_subset(s: Seq<SpecWaiter>, e: u64)
    ensures
        forall|i: int|
            0 <= i < keep_current(s, e).len() ==> exists|k: int|
                0 <= k < s.len() && s[k] == #[trigger] keep_current(s, e)[i],
    decreases s.len(),
{
    if s.len() > 0 {
        lemma_keep_subset(s.drop_last(), e);
        assert forall|i: int| 0 <= i < keep_current(s, e).len() implies exists|k: int|
            0 <= k < s.len() && s[k] == #[trigger] keep_current(s, e)[i] by {
            if s.last().epoch >= e && i == keep_current(s, e).len() - 1 {
                assert(s[s.len() - 1] == keep_current(s, e)[i]);
            } else {
                assert(keep_current(s, e)[i] == keep_current(s.drop_last(), e)[i]);
                let k = choose|k: int|
                    0 <= k < s.drop_last().len() && s.drop_last()[k] == keep_current(
                        s.drop_last(),
                        e,
                    )[i];
                assert(s[k] == keep_current(s, e)[i]);
            }
        }
    }
}

/// A row whose epochs all stand under `e` is invalidated whole.
pub proof fn lemma_all_stale(s: Seq<SpecWaiter>, e: u64)
    requires
        forall|i: int| 0 <= i < s.len() ==> (#[trigger] s[i]).epoch < e,
    ensures
        keep_current(s, e) == Seq::<SpecWaiter>::empty(),
        take_stale(s, e) == s,
    decreases s.len(),
{
    if s.len() > 0 {
        lemma_all_stale(s.drop_last(), e);
        assert(take_stale(s, e) =~= s);
    }
}

/// Removal keeps every epoch bound.
pub proof fn lemma_remove_epoch_bound(s: Seq<SpecWaiter>, t: Seq<u8>, e: u64)
    requires
        forall|i: int| 0 <= i < s.len() ==> (#[trigger] s[i]).epoch <= e,
    ensures
        forall|i: int|
            0 <= i < remove_token(s, t).len() ==> (#[trigger] remove_token(s, t)[i]).epoch <= e,
{
    lemma_remove_subset(s, t);
    assert forall|i: int| 0 <= i < remove_token(s, t).len() implies (#[trigger] remove_token(
        s,
        t,
    )[i]).epoch <= e by {
        let k = choose|k: int| 0 <= k < s.len() && s[k] == remove_token(s, t)[i];
        assert(s[k].epoch <= e);
    }
}

/// A token is found exactly when some entry carries it.
pub proof fn lemma_found_iff_has(s: Seq<SpecWaiter>, t: Seq<u8>)
    ensures
        (found_waiter(s, t) is Some) <==> has_token(s, t),
    decreases s.len(),
{
    if s.len() > 0 {
        if s[0].token == t {
            assert(has_token(s, t));
        } else {
            lemma_found_iff_has(s.skip(1), t);
            if has_token(s, t) {
                let i = choose|i: int| 0 <= i < s.len() && s[i].token == t;
                assert(s.skip(1)[i - 1] == s[i]);
                assert(has_token(s.skip(1), t));
            }
            if has_token(s.skip(1), t) {
                let i = choose|i: int| 0 <= i < s.skip(1).len() && s.skip(1)[i].token == t;
                assert(s[i + 1] == s.skip(1)[i]);
                assert(has_token(s, t));
            }
        }
    }
}

// ---------------------------------------------------------------------------
// Laws
// ---------------------------------------------------------------------------

/// At most one resolution of a token has an observable effect: once the
/// waiter with token `t` has been removed, a second resolution of `t` finds
/// nothing and leaves the registry exactly as it stood.
pub proof fn lemma_resolve_idempotent(s: Seq<SpecWaiter>, t: Seq<u8>)
    requires
        tokens_unique(s),
    ensures
        found_waiter(remove_token(s, t), t) is None,
        remove_token(remove_token(s, t), t) == remove_token(s, t),
{
    lemma_remove_no_token(s, t);
    let r = remove_token(s, t);
    assert forall|k: int| 0 <= k < r.len() implies r[k].token != t by {
        assert(has_token(r, t) ==> false);
    }
    lemma_absent_token(r, t);
}

/// Invalidating epoch `e` resolves exactly the waiters registered under an
/// epoch older than `e`, and never touches a waiter registered under `e`
/// itself or newer: every stale entry is older than `e`, every kept entry at
/// least `e`, and each entry of the row stays on its side, in order.
pub proof fn lemma_invalidate_partitions(s: Seq<SpecWaiter>, e: u64)
    ensures
        forall|i: int| 0 <= i < take_stale(s, e).len() ==> (#[trigger] take_stale(s, e)[i]).epoch
            < e,
        forall|i: int| 0 <= i < keep_current(s, e).len() ==> (#[trigger] keep_current(s, e)[i]).epoch
            >= e,
        take_stale(s, e).len() + keep_current(s, e).len() == s.len(),
        forall|i: int|
            0 <= i < s.len() && (#[trigger] s[i]).epoch < e ==> take_stale(s, e).contains(s[i]),
        forall|i: int|
            0 <= i < s.len() && (#[trigger] s[i]).epoch >= e ==> keep_current(s, e).contains(s[i]),
    decreases s.len(),
{
    if s.len() > 0 {
        lemma_invalidate_partitions(s.drop_last(), e);
        assert forall|i: int| 0 <= i < s.len() && (#[trigger] s[i]).epoch < e implies take_stale(
            s,
            e,
        ).contains(s[i]) by {
            if i == s.len() - 1 {
                assert(take_stale(s, e).last() == s[i]);
            } else {
                assert(s.drop_last()[i] == s[i]);
                let k = choose|k: int|
                    0 <= k < take_stale(s.drop_last(), e).len() && take_stale(s.drop_last(), e)[k]
                        == s[i];
                assert(take_stale(s, e)[k] == s[i]);
            }
        }
        assert forall|i: int|
            0 <= i < s.len() && (#[trigger] s[i]).epoch >= e implies keep_current(s, e).contains(
            s[i],
        ) by {
            if i == s.len() - 1 {
                assert(keep_current(s, e).last() == s[i]);
            } else {
                assert(s.drop_last()[i] == s[i]);
                let k = choose|k: int|
                    0 <= k < keep_current(s.drop_last(), e).len() && keep_current(
                        s.drop_last(),
                        e,
                    )[k] == s[i];
                assert(keep_current(s, e)[k] == s[i]);
            }
        }
    }
}

} // verus!
